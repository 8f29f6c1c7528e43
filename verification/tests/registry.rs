use stacklang::registry::{Builtin, MacroOverload, MacroType, Registry};
use stacklang::stack::Stack;
use stacklang::value::{Float, Type, Value};
use stacklang::vars::Vars;

fn op(b: Builtin) -> MacroType {
    MacroType::Operation(b)
}

fn stack(values: Vec<Value>) -> Stack {
    let mut s = Stack::new();
    for v in values {
        s.push(v);
    }
    s
}

#[test]
fn any_goes_with_every_type() {
    let all = [Type::Any, Type::String, Type::Char, Type::Int, Type::Float, Type::Boolean];
    for a in all {
        assert!(Type::Any == a);
        assert!(a == Type::Any);
        assert!(a == a);
    }
    for (i, a) in all.iter().enumerate().skip(1) {
        for (j, b) in all.iter().enumerate().skip(1) {
            assert_eq!(a == b, i == j);
        }
    }
}

#[test]
fn names_of_types() {
    assert_eq!(Type::Any.name(), "any");
    assert_eq!(Type::String.name(), "str");
    assert_eq!(Type::Char.name(), "char");
    assert_eq!(Type::Int.name(), "int");
    assert_eq!(Type::Float.name(), "float");
    assert_eq!(Type::Boolean.name(), "bool");
}

#[test]
fn types_of_values() {
    assert!(matches!(Value::String(String::new()).typ(), Type::String));
    assert!(matches!(Value::Char('a').typ(), Type::Char));
    assert!(matches!(Value::Int(1).typ(), Type::Int));
    assert!(matches!(Value::Float(Float { bits: 0 }).typ(), Type::Float));
    assert!(matches!(Value::Boolean(true).typ(), Type::Boolean));
}

#[test]
fn values_are_the_same_by_kind_and_content() {
    assert!(Value::Int(1).same(&Value::Int(1)));
    assert!(!Value::Int(1).same(&Value::Int(2)));
    assert!(!Value::Int(1).same(&Value::Float(Float { bits: 1 })));
    assert!(Value::String("a".to_string()).same(&Value::String("a".to_string())));
    assert!(!Value::String("a".to_string()).same(&Value::Char('a')));
    assert!(Value::Boolean(false).same(&Value::Boolean(false)));
    let v = Value::String("abc".to_string());
    assert_eq!(v.clone(), v);
}

#[test]
fn stack_is_last_in_first_out() {
    let mut s = Stack::new();
    assert_eq!(s.len(), 0);
    assert_eq!(s.pop(), None);
    assert_eq!(s.peek(), None);
    s.push(Value::Int(1));
    s.push(Value::Int(2));
    assert_eq!(s.len(), 2);
    assert_eq!(s.peek(), Some(&Value::Int(2)));
    assert_eq!(s.below(1), &Value::Int(1));
    assert_eq!(s.get(0), &Value::Int(1));
    assert_eq!(s.pop(), Some(Value::Int(2)));
    assert_eq!(s.pop(), Some(Value::Int(1)));
    assert_eq!(s.pop(), None);
    s.extend(vec![Value::Int(1), Value::Int(2), Value::Int(3)]);
    s.discard(2);
    assert_eq!(s.peek(), Some(&Value::Int(1)));
    s.set(0, Value::Char('x'));
    assert_eq!(s.peek(), Some(&Value::Char('x')));
    s.clear();
    assert_eq!(s.len(), 0);
}

#[test]
fn variables_are_written_last_wins() {
    let mut vars = Vars::new();
    let x = "x".to_string();
    assert_eq!(vars.get(&x), None);
    vars.insert(x.clone(), Value::Int(1));
    vars.insert("y".to_string(), Value::Int(2));
    vars.insert(x.clone(), Value::Int(3));
    assert_eq!(vars.get(&x), Some(&Value::Int(3)));
    assert_eq!(vars.remove(&x), Some(Value::Int(3)));
    assert_eq!(vars.get(&x), None);
    assert_eq!(vars.remove(&x), None);
    assert_eq!(vars.get(&"y".to_string()), Some(&Value::Int(2)));
}

#[test]
fn first_overload_that_fits_is_chosen() {
    let mut set = MacroOverload::new();
    assert!(set.get(&stack(vec![])).is_none());
    set.def(vec![Type::Int, Type::Int], op(Builtin::Add));
    set.def(vec![Type::String, Type::Char], op(Builtin::Sub));
    set.def(vec![Type::Any], op(Builtin::Drop));
    set.def(vec![], op(Builtin::StackLen));
    assert_eq!(set.get(&stack(vec![Value::Int(1), Value::Int(2)])), Some(&op(Builtin::Add)));
    assert_eq!(
        set.get(&stack(vec![Value::Boolean(true), Value::Int(1), Value::Int(2)])),
        Some(&op(Builtin::Add))
    );
    assert_eq!(
        set.get(&stack(vec![Value::String("s".to_string()), Value::Char('c')])),
        Some(&op(Builtin::Sub))
    );
    assert_eq!(
        set.get(&stack(vec![Value::Char('c'), Value::String("s".to_string())])),
        Some(&op(Builtin::Drop))
    );
    assert_eq!(set.get(&stack(vec![Value::Int(2)])), Some(&op(Builtin::Drop)));
    assert_eq!(set.get(&stack(vec![])), Some(&op(Builtin::StackLen)));
}

#[test]
fn signature_is_read_from_the_top_down() {
    let set = MacroOverload::from(vec![Type::String, Type::Int], op(Builtin::Index));
    assert!(set.get(&stack(vec![Value::String("s".to_string()), Value::Int(1)])).is_some());
    assert!(set.get(&stack(vec![Value::Int(1), Value::String("s".to_string())])).is_none());
    assert!(set.get(&stack(vec![Value::Int(1)])).is_none());
}

#[test]
fn defining_a_signature_again_replaces_what_it_runs() {
    let mut set = MacroOverload::new();
    assert_eq!(set.def(vec![Type::Int], op(Builtin::Not)), None);
    assert_eq!(set.def(vec![Type::String], op(Builtin::Len)), None);
    assert_eq!(set.def(vec![Type::Int], op(Builtin::Copy)), Some(op(Builtin::Not)));
    assert_eq!(set.get(&stack(vec![Value::Int(1)])), Some(&op(Builtin::Copy)));
    assert_eq!(set.display(&"f".to_string()), "[int] f\n[str] f\n");
}

#[test]
fn any_is_taken_for_every_type_when_defining() {
    let mut set = MacroOverload::from(vec![Type::Int, Type::Any], op(Builtin::Add));
    assert_eq!(set.def(vec![Type::Any, Type::String], op(Builtin::Sub)), Some(op(Builtin::Add)));
    assert_eq!(set.display(&"g".to_string()), "[int any] g\n");
    assert_eq!(set.def(vec![Type::String, Type::String], op(Builtin::Mult)), None);
    assert_eq!(set.display(&"g".to_string()), "[int any] g\n[str str] g\n");
}

#[test]
fn listing_of_an_overload_set() {
    assert_eq!(MacroOverload::new().display(&"x".to_string()), "");
    let mut set = MacroOverload::from(vec![], op(Builtin::StackLen));
    set.def(vec![Type::String, Type::Int, Type::Int], op(Builtin::IndexRange));
    assert_eq!(set.display(&"LEN".to_string()), "[] LEN\n[str int int] LEN\n");
    assert_eq!(set.clone(), set);
}

#[test]
fn registry_keeps_one_set_for_a_name() {
    let mut registry = Registry::new();
    let name = "f".to_string();
    assert!(registry.get(&name).is_none());
    registry.insert(name.clone(), MacroOverload::from(vec![Type::Int], op(Builtin::Not)));
    registry.insert("g".to_string(), MacroOverload::new());
    registry.insert(name.clone(), MacroOverload::from(vec![Type::Char], op(Builtin::Rev)));
    assert_eq!(registry.get(&name).unwrap().display(&name), "[char] f\n");
    assert_eq!(registry.get(&"g".to_string()).unwrap().display(&name), "");
}
