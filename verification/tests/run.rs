use stacklang::error::Error;
use stacklang::lexer::lex;
use stacklang::ops::{Arith, FloatReply, FloatRequest, Number, Pending, Relation};
use stacklang::parser::{parse, Node, NodeType};
use stacklang::position::Position;
use stacklang::registry::{Builtin, MacroOverload, MacroType};
use stacklang::run::{Program, Step, Task};
use stacklang::value::{Float, Type, Value};

fn number(n: Number) -> f64 {
    match n {
        Number::Int(i) => i as f64,
        Number::Float(x) => f64::from_bits(x.bits),
    }
}

fn reply(request: FloatRequest) -> FloatReply {
    match request {
        FloatRequest::Parse(text) => FloatReply::Number(Float { bits: text.parse::<f64>().unwrap().to_bits() }),
        FloatRequest::Arith(op, a, b) => {
            let (a, b) = (number(a), number(b));
            let r = match op {
                Arith::Add => a + b,
                Arith::Sub => a - b,
                Arith::Mul => a * b,
                Arith::Div => a / b,
                Arith::Rem => a % b,
            };
            FloatReply::Number(Float { bits: r.to_bits() })
        }
        FloatRequest::Compare(rel, a, b) => {
            let (a, b) = (number(a), number(b));
            FloatReply::Truth(match rel {
                Relation::Eq => a == b,
                Relation::Ne => a != b,
                Relation::Lt => a < b,
                Relation::Gt => a > b,
                Relation::Le => a <= b,
                Relation::Ge => a >= b,
            })
        }
        FloatRequest::Show(x) => FloatReply::Text(format!("{}", f64::from_bits(x.bits))),
    }
}

fn run(program: &mut Program, node: Node) -> Result<(), Error> {
    let mut step = program.run(node, u64::MAX);
    loop {
        match step {
            Step::Done => return Ok(()),
            Step::Failed(e) => return Err(e),
            Step::Next => step = program.resume(u64::MAX),
            Step::Ask(request) => {
                program.answer(reply(request))?;
                step = program.resume(u64::MAX);
            }
        }
    }
}

fn exec(program: &mut Program, source: &str) -> Result<(), Error> {
    let tokens = lex(source.to_string())?;
    let node = parse(tokens)?;
    run(program, node)
}

fn stack_of(program: &Program) -> Vec<Value> {
    (0..program.stack.len()).map(|i| program.stack.get(i).clone()).collect()
}

fn float(x: f64) -> Value {
    Value::Float(Float { bits: x.to_bits() })
}

fn text(s: &str) -> Value {
    Value::String(s.to_string())
}

#[test]
fn adds_integers() {
    let mut program = Program::std_program();
    exec(&mut program, "2 3 +").unwrap();
    assert_eq!(stack_of(&program), vec![Value::Int(5)]);
}

#[test]
fn adds_float_and_integer() {
    let mut program = Program::std_program();
    exec(&mut program, "2.0 3 +").unwrap();
    assert_eq!(stack_of(&program), vec![float(5.0)]);
}

#[test]
fn appends_character_to_string() {
    let mut program = Program::std_program();
    exec(&mut program, "\"a\" 'b' +").unwrap();
    assert_eq!(stack_of(&program), vec![text("ab")]);
}

fn stack_after(source: &str) -> Vec<Value> {
    let mut program = Program::std_program();
    exec(&mut program, source).unwrap();
    stack_of(&program)
}

fn failure_of(source: &str) -> (String, Vec<Value>) {
    let mut program = Program::std_program();
    let e = exec(&mut program, source).unwrap_err();
    assert!(program.idle());
    (e.msg().clone(), stack_of(&program))
}

fn ints(list: &[i64]) -> Vec<Value> {
    list.iter().map(|i| Value::Int(*i)).collect()
}

#[test]
fn string_literal_pushes_one_string() {
    assert_eq!(stack_after("\"hi there\""), vec![text("hi there")]);
}

#[test]
fn char_literal_pushes_one_char() {
    assert_eq!(stack_after("'c'"), vec![Value::Char('c')]);
}

#[test]
fn int_literal_pushes_one_int() {
    assert_eq!(stack_after("42"), vec![Value::Int(42)]);
}

#[test]
fn float_literal_pushes_one_float() {
    assert_eq!(stack_after("2.5"), vec![float(2.5)]);
    assert_eq!(stack_after("1e3"), vec![float(1000.0)]);
}

#[test]
fn boolean_literal_pushes_one_boolean() {
    assert_eq!(stack_after("true"), vec![Value::Boolean(true)]);
    assert_eq!(stack_after("false"), vec![Value::Boolean(false)]);
}

#[test]
fn if_takes_the_first_body_on_true() {
    assert_eq!(stack_after("true if 1 else 2 end"), ints(&[1]));
}

#[test]
fn if_takes_the_second_body_on_false() {
    assert_eq!(stack_after("false if 1 else 2 end"), ints(&[2]));
    assert_eq!(stack_after("false if 1 end"), vec![]);
}

#[test]
fn repeat_runs_its_body_count_times() {
    assert_eq!(stack_after("3 repeat 1 end"), ints(&[1, 1, 1]));
    assert_eq!(stack_after("0 repeat 1 end"), vec![]);
    assert_eq!(stack_after("0 1 - repeat 1 end"), vec![]);
    assert_eq!(stack_after("0 4 repeat 1 + end"), ints(&[4]));
    assert_eq!(stack_after("2 repeat 2 repeat 7 end end"), ints(&[7, 7, 7, 7]));
}

#[test]
fn negative_index_counts_from_the_end() {
    assert_eq!(stack_after("\"abc\" 0 1 - ."), vec![Value::Char('c')]);
    assert_eq!(stack_after("\"abc\" 2 ."), vec![Value::Char('c')]);
    assert_eq!(stack_after("\"abc\" 0 3 - ."), vec![Value::Char('a')]);
    assert_eq!(stack_after("\"abc\" 0 4 - ."), vec![Value::Char('c')]);
}

#[test]
fn copy_to_binds_every_name_to_the_top() {
    let mut program = Program::std_program();
    exec(&mut program, "5 {a b}").unwrap();
    assert_eq!(stack_of(&program), ints(&[5]));
    exec(&mut program, "a").unwrap();
    assert_eq!(stack_of(&program), ints(&[5, 5]));
    exec(&mut program, "b").unwrap();
    assert_eq!(stack_of(&program), ints(&[5, 5, 5]));
}

#[test]
fn reading_a_variable_unbinds_it() {
    let mut program = Program::std_program();
    exec(&mut program, "1 (x) x").unwrap();
    assert_eq!(stack_of(&program), ints(&[1]));
    let e = exec(&mut program, "x").unwrap_err();
    assert_eq!(e.msg(), "unknown id \"x\"");
    assert_eq!(stack_of(&program), ints(&[1]));
    assert_eq!(failure_of("1 (x) x x"), ("unknown id \"x\"".to_string(), ints(&[1])));
}

#[test]
fn take_binds_names_in_the_order_written() {
    assert_eq!(stack_after("1 2 (a b) a b"), ints(&[1, 2]));
    assert_eq!(stack_after("1 2 (a b) b a"), ints(&[2, 1]));
    assert_eq!(stack_after("1 2 3 (a) a"), ints(&[1, 2, 3]));
    assert_eq!(stack_after("1 2 (a a) a"), ints(&[1]));
}

#[test]
fn take_underflow_leaves_the_stack() {
    assert_eq!(
        failure_of("(x)"),
        ("cannot take value to \"x\" due to stack underflow".to_string(), vec![])
    );
    let mut program = Program::std_program();
    let e = exec(&mut program, "1 (a b)").unwrap_err();
    assert_eq!(e.msg(), "cannot take value to \"a\" due to stack underflow");
    assert_eq!(stack_of(&program), ints(&[1]));
    assert!(program.vars.get(&"b".to_string()).is_none());
}

#[test]
fn copy_to_underflow_fails() {
    assert_eq!(
        failure_of("{a b}"),
        ("cannot take value to \"b\" due to stack underflow".to_string(), vec![])
    );
    assert_eq!(stack_after("{}"), vec![]);
}

#[test]
fn control_underflow_fails() {
    assert_eq!(
        failure_of("if 1 end").0,
        "couldn't perform if-control-flow operation due to stack underflow"
    );
    assert_eq!(
        failure_of("repeat 1 end").0,
        "couldn't perform if-control-flow operation due to stack underflow"
    );
}

#[test]
fn control_on_the_wrong_type_fails_and_keeps_the_value() {
    assert_eq!(
        failure_of("1 if 2 end"),
        ("expected a boolean value on top of the stack, got int".to_string(), ints(&[1]))
    );
    assert_eq!(
        failure_of("true repeat 2 end"),
        (
            "expected a boolean value on top of the stack, got bool".to_string(),
            vec![Value::Boolean(true)]
        )
    );
    assert_eq!(
        failure_of("\"s\" if 2 end").0,
        "expected a boolean value on top of the stack, got str"
    );
}

#[test]
fn operation_on_an_undersized_stack_fails_and_leaves_it() {
    let (msg, stack) = failure_of("1 +");
    assert_eq!(
        msg,
        "no macro definition \"+\" found with current stack, following macros are defined:\n\
         [int int] +\n[float float] +\n[int float] +\n[float int] +\n[str str] +\n[str char] +\n\n"
    );
    assert_eq!(stack, ints(&[1]));
    let (msg, stack) = failure_of("not");
    assert_eq!(
        msg,
        "no macro definition \"not\" found with current stack, following macros are defined:\n[bool] not\n\n"
    );
    assert_eq!(stack, vec![]);
    assert_eq!(failure_of("swap").1, vec![]);
    assert_eq!(failure_of("1 swap").1, ints(&[1]));
    assert_eq!(failure_of("drop").1, vec![]);
}

#[test]
fn operation_on_the_wrong_types_fails_and_leaves_the_stack() {
    let (msg, stack) = failure_of("1 true +");
    assert!(msg.starts_with("no macro definition \"+\" found with current stack"));
    assert_eq!(stack, vec![Value::Int(1), Value::Boolean(true)]);
}

#[test]
fn unknown_name_fails() {
    assert_eq!(failure_of("1 nope 2"), ("unknown id \"nope\"".to_string(), ints(&[1])));
}

#[test]
fn failure_keeps_what_was_done_before() {
    let mut program = Program::std_program();
    let e = exec(&mut program, "1 (x) 2 3 + nope 4").unwrap_err();
    assert_eq!(e.msg(), "unknown id \"nope\"");
    assert_eq!(stack_of(&program), ints(&[5]));
    assert_eq!(program.vars.get(&"x".to_string()), Some(&Value::Int(1)));
    exec(&mut program, "x +").unwrap();
    assert_eq!(stack_of(&program), ints(&[6]));
}

#[test]
fn failure_inside_a_body_ends_the_run() {
    assert_eq!(failure_of("true if nope end 5"), ("unknown id \"nope\"".to_string(), vec![]));
    assert_eq!(failure_of("3 repeat 1 nope end 5"), ("unknown id \"nope\"".to_string(), ints(&[1])));
}

#[test]
fn error_names_the_place() {
    let mut program = Program::std_program();
    let e = exec(&mut program, "1\n  nope").unwrap_err();
    assert_eq!(
        e.display_text(&"f".to_string(), "1\n  nope".to_string()),
        "ERROR: unknown id \"nope\" - f:2:4\n  nope"
    );
}

#[test]
fn copy_pushes_a_variable_and_keeps_it() {
    assert_eq!(stack_after("1 (x) @x @x x"), ints(&[1, 1, 1]));
}

#[test]
fn copy_of_a_group_pushes_all() {
    assert_eq!(stack_after("1 (a) 2 (b) @{a b}"), ints(&[1, 2]));
    assert_eq!(stack_after("1 (a) 2 (b) @{b a} a b"), ints(&[2, 1, 1, 2]));
    assert_eq!(stack_after("@{}"), vec![]);
}

#[test]
fn copy_of_what_is_no_variable_fails() {
    assert_eq!(
        failure_of("@+"),
        ("cannot copy a macro, \"+\" is defined as a macro".to_string(), vec![])
    );
    assert_eq!(failure_of("@y"), ("unknown id \"y\"".to_string(), vec![]));
    assert_eq!(
        failure_of("@1"),
        ("expected identifier or copy-to-indentifiers, got int".to_string(), vec![])
    );
    assert_eq!(
        failure_of("@(a)").0,
        "expected identifier or copy-to-indentifiers, got take-into-identifiers"
    );
    assert_eq!(failure_of("1 (a) @{a b}"), ("unknown id \"b\"".to_string(), vec![]));
    assert_eq!(failure_of("1 (a) 7 @{len a}").0, "cannot copy a macro, \"len\" is defined as a macro");
}

#[test]
fn variable_shadows_nothing_an_operation_wins() {
    assert_eq!(stack_after("1 (len) \"ab\" len"), ints(&[2]));
}

#[test]
fn stack_operations() {
    assert_eq!(stack_after("1 2 3 LEN"), ints(&[1, 2, 3, 3]));
    assert_eq!(stack_after("LEN"), ints(&[0]));
    assert_eq!(stack_after("1 2 drop"), ints(&[1]));
    assert_eq!(stack_after("1 copy"), ints(&[1, 1]));
    assert_eq!(stack_after("1 2 swap"), ints(&[2, 1]));
    assert_eq!(stack_after("1 2 over"), ints(&[1, 2, 1]));
    assert_eq!(stack_after("\"a\" 2 swap"), vec![Value::Int(2), text("a")]);
}

#[test]
fn integer_arithmetic() {
    assert_eq!(stack_after("7 2 -"), ints(&[5]));
    assert_eq!(stack_after("2 7 -"), ints(&[-5]));
    assert_eq!(stack_after("3 4 *"), ints(&[12]));
    assert_eq!(stack_after("7 3 %"), ints(&[1]));
    assert_eq!(stack_after("0 7 - 3 %"), ints(&[-1]));
    assert_eq!(stack_after("7 0 3 - %"), ints(&[1]));
    assert_eq!(stack_after("7 2 /"), vec![float(3.5)]);
    assert_eq!(stack_after("1 0 /"), vec![float(f64::INFINITY)]);
}

#[test]
fn integer_arithmetic_wraps() {
    assert_eq!(stack_after("9223372036854775807 1 +"), ints(&[i64::MIN]));
    assert_eq!(stack_after("0 9223372036854775807 - 2 -"), ints(&[i64::MAX]));
    assert_eq!(stack_after("9223372036854775807 2 *"), ints(&[-2]));
    assert_eq!(stack_after("0 9223372036854775807 - 1 - 0 1 - %"), ints(&[0]));
}

#[test]
fn remainder_by_zero_fails() {
    assert_eq!(
        failure_of("1 0 %"),
        ("attempt to calculate the remainder with a divisor of zero".to_string(), ints(&[1, 0]))
    );
}

#[test]
fn float_arithmetic() {
    assert_eq!(stack_after("1.5 2.5 +"), vec![float(4.0)]);
    assert_eq!(stack_after("1 2.5 -"), vec![float(-1.5)]);
    assert_eq!(stack_after("2.5 1 -"), vec![float(1.5)]);
    assert_eq!(stack_after("2 0.5 *"), vec![float(1.0)]);
    assert_eq!(stack_after("1.0 4 /"), vec![float(0.25)]);
    assert_eq!(stack_after("5.5 2 %"), vec![float(1.5)]);
    assert_eq!(stack_after("3 1.0 +"), vec![float(4.0)]);
}

#[test]
fn text_arithmetic() {
    assert_eq!(stack_after("\"ab\" \"cd\" +"), vec![text("abcd")]);
    assert_eq!(stack_after("\"\" 'x' +"), vec![text("x")]);
    assert_eq!(stack_after("\"ab\" 3 *"), vec![text("ababab")]);
    assert_eq!(stack_after("'x' 3 *"), vec![text("xxx")]);
    assert_eq!(stack_after("\"ab\" 0 *"), vec![text("")]);
    assert_eq!(stack_after("\"ab\" 0 1 - *"), vec![text("")]);
}

#[test]
fn logic() {
    assert_eq!(stack_after("true false and"), vec![Value::Boolean(false)]);
    assert_eq!(stack_after("true true and"), vec![Value::Boolean(true)]);
    assert_eq!(stack_after("true false or"), vec![Value::Boolean(true)]);
    assert_eq!(stack_after("false false or"), vec![Value::Boolean(false)]);
    assert_eq!(stack_after("true not"), vec![Value::Boolean(false)]);
}

#[test]
fn equality() {
    assert_eq!(stack_after("1 1 ="), vec![Value::Boolean(true)]);
    assert_eq!(stack_after("1 2 ="), vec![Value::Boolean(false)]);
    assert_eq!(stack_after("1 2 !="), vec![Value::Boolean(true)]);
    assert_eq!(stack_after("1 1.0 ="), vec![Value::Boolean(false)]);
    assert_eq!(stack_after("1 1.0 !="), vec![Value::Boolean(true)]);
    assert_eq!(stack_after("1.0 1.0 ="), vec![Value::Boolean(true)]);
    assert_eq!(stack_after("1.0 1.5 !="), vec![Value::Boolean(true)]);
    assert_eq!(stack_after("\"a\" \"a\" ="), vec![Value::Boolean(true)]);
    assert_eq!(stack_after("'a' \"a\" ="), vec![Value::Boolean(false)]);
    assert_eq!(stack_after("true true !="), vec![Value::Boolean(false)]);
}

#[test]
fn equality_of_floats_is_that_of_the_numbers() {
    assert_eq!(stack_after("0.0 0.0 / copy ="), vec![Value::Boolean(false)]);
    assert_eq!(stack_after("0.0 0.0 / copy !="), vec![Value::Boolean(true)]);
    assert_eq!(stack_after("0.0 0 1 - 0.0 * ="), vec![Value::Boolean(true)]);
}

#[test]
fn order() {
    assert_eq!(stack_after("1 2 <"), vec![Value::Boolean(true)]);
    assert_eq!(stack_after("2 2 <"), vec![Value::Boolean(false)]);
    assert_eq!(stack_after("2 1.5 >"), vec![Value::Boolean(true)]);
    assert_eq!(stack_after("1.5 1.5 <="), vec![Value::Boolean(true)]);
    assert_eq!(stack_after("1 2 >="), vec![Value::Boolean(false)]);
    assert_eq!(stack_after("2 2 >="), vec![Value::Boolean(true)]);
    assert_eq!(stack_after("1.5 2 <"), vec![Value::Boolean(true)]);
    assert_eq!(stack_after("3 2 <="), vec![Value::Boolean(false)]);
    assert_eq!(stack_after("3 2 >"), vec![Value::Boolean(true)]);
}

#[test]
fn text_length() {
    assert_eq!(stack_after("\"hello\" len"), ints(&[5]));
    assert_eq!(stack_after("\"\" len"), ints(&[0]));
    assert_eq!(stack_after("\"h\u{e9}llo\" len"), ints(&[5]));
}

#[test]
fn index() {
    assert_eq!(stack_after("\"abc\" 1 ."), vec![Value::Char('b')]);
    assert_eq!(stack_after("\"abc\" 4 ."), vec![Value::Char('b')]);
    assert_eq!(stack_after("\"abc\" 3 ."), vec![Value::Char('a')]);
    assert_eq!(
        failure_of("\"\" 0 ."),
        ("cannot index an empty string".to_string(), vec![text(""), Value::Int(0)])
    );
}

#[test]
fn index_range() {
    assert_eq!(stack_after("\"hello\" 1 3 ."), vec![text("el")]);
    assert_eq!(stack_after("\"hello\" 0 0 1 - ."), vec![text("hell")]);
    assert_eq!(stack_after("\"hello\" 2 2 ."), vec![text("")]);
    assert_eq!(stack_after("\"hello\" 0 2 - 0 1 - ."), vec![text("l")]);
    assert_eq!(failure_of("\"hello\" 3 1 .").0, "the range ends before it starts");
    assert_eq!(failure_of("\"\" 0 0 .").0, "cannot index an empty string");
}

#[test]
fn reverse() {
    assert_eq!(stack_after("\"abc\" rev"), vec![text("cba")]);
    assert_eq!(stack_after("\"\" rev"), vec![text("")]);
}

#[test]
fn search() {
    assert_eq!(stack_after("\"hello\" \"ll\" pos"), vec![Value::Int(2), Value::Boolean(true)]);
    assert_eq!(stack_after("\"hello\" 'l' pos"), vec![Value::Int(2), Value::Boolean(true)]);
    assert_eq!(stack_after("\"hello\" 'z' pos"), vec![Value::Boolean(false)]);
    assert_eq!(stack_after("\"hello\" \"lol\" pos"), vec![Value::Boolean(false)]);
    assert_eq!(stack_after("\"hello\" \"\" pos"), vec![Value::Int(0), Value::Boolean(true)]);
    assert_eq!(stack_after("\"ab\" \"abc\" pos"), vec![Value::Boolean(false)]);
    assert_eq!(stack_after("\"hello\" \"o\" pos"), vec![Value::Int(4), Value::Boolean(true)]);
}

#[test]
fn remove_gives_the_character() {
    assert_eq!(stack_after("\"abc\" 1 remove"), vec![Value::Char('b')]);
    assert_eq!(stack_after("\"abc\" 0 1 - remove"), vec![Value::Char('c')]);
}

#[test]
fn count_occurrences() {
    assert_eq!(stack_after("\"banana\" 'a' count"), ints(&[3]));
    assert_eq!(stack_after("\"banana\" \"an\" count"), ints(&[2]));
    assert_eq!(stack_after("\"aaaa\" \"aa\" count"), ints(&[3]));
    assert_eq!(stack_after("\"abc\" \"\" count"), ints(&[3]));
    assert_eq!(stack_after("\"abc\" 'z' count"), ints(&[0]));
    assert_eq!(stack_after("\"\" 'z' count"), ints(&[0]));
}

fn split_with_std(s: &str, pattern: &str) -> Vec<Value> {
    let parts: Vec<&str> = s.split(pattern).collect();
    let mut out: Vec<Value> = parts.iter().map(|p| text(p)).collect();
    out.push(Value::Int(parts.len() as i64));
    out
}

#[test]
fn split_by_a_character() {
    assert_eq!(
        stack_after("\"a,b,,c\" ',' split"),
        vec![text("a"), text("b"), text(""), text("c"), Value::Int(4)]
    );
    assert_eq!(stack_after("\"\" ',' split"), vec![text(""), Value::Int(1)]);
    assert_eq!(stack_after("\",\" ',' split"), vec![text(""), text(""), Value::Int(2)]);
}

#[test]
fn split_by_a_text() {
    assert_eq!(stack_after("\"a--b\" \"--\" split"), vec![text("a"), text("b"), Value::Int(2)]);
    assert_eq!(
        stack_after("\"abc\" \"\" split"),
        vec![text(""), text("a"), text("b"), text("c"), text(""), Value::Int(5)]
    );
    for (s, p) in [("aaa", "aa"), ("abcabc", "bc"), ("", ""), ("", "x"), ("xax", "x"), ("a b  c", " ")] {
        let mut program = Program::std_program();
        program.stack.push(text(s));
        program.stack.push(text(p));
        exec(&mut program, "split").unwrap();
        assert_eq!(stack_of(&program), split_with_std(s, p), "{:?} {:?}", s, p);
    }
}

#[test]
fn join_takes_the_whole_stack() {
    assert_eq!(
        stack_after("\"a\" \"b\" 1 'c' true \", \" join"),
        vec![text("a, b, 1, c, true")]
    );
    assert_eq!(stack_after("1 2 3 '-' join"), vec![text("1-2-3")]);
    assert_eq!(stack_after("0 5 - 7 \"\" join"), vec![text("-57")]);
    assert_eq!(stack_after("\",\" join"), vec![text("")]);
    assert_eq!(stack_after("\"x\" ',' join"), vec![text("x")]);
}

#[test]
fn join_writes_floats_as_numbers() {
    assert_eq!(stack_after("1.5 \"x\" 2.0 '-' join"), vec![text("1.5-x-2")]);
    assert_eq!(stack_after("0.1 0.2 + ',' join"), vec![text("0.30000000000000004")]);
}

#[test]
fn split_and_join_undo_each_other() {
    assert_eq!(stack_after("\"a,b,,c\" ',' split drop ',' join"), vec![text("a,b,,c")]);
}

fn tree(source: &str) -> Node {
    parse(lex(source.to_string()).unwrap()).unwrap()
}

#[test]
fn new_session_knows_nothing() {
    let mut program = Program::new();
    assert!(program.idle());
    assert_eq!(program.stack.len(), 0);
    let e = exec(&mut program, "1 2 +").unwrap_err();
    assert_eq!(e.msg(), "unknown id \"+\"");
    assert_eq!(stack_of(&program), ints(&[1, 2]));
    assert_eq!(program.display_macro(&"+".to_string()), "no definition found");
}

#[test]
fn listing_of_overloads() {
    let program = Program::std_program();
    assert_eq!(
        program.display_macro(&"+".to_string()),
        "[int int] +\n[float float] +\n[int float] +\n[float int] +\n[str str] +\n[str char] +\n"
    );
    assert_eq!(program.display_macro(&"LEN".to_string()), "[] LEN\n");
    assert_eq!(program.display_macro(&".".to_string()), "[str int] .\n[str int int] .\n");
    assert_eq!(program.display_macro(&"drop".to_string()), "[any] drop\n");
    assert_eq!(program.display_macro(&"nope".to_string()), "no definition found");
}

#[test]
fn library_has_every_operation() {
    let program = Program::std_program();
    for name in [
        "LEN", "len", "drop", "copy", "swap", "over", "+", "-", "*", "/", "%", "and", "or", "not",
        "=", "!=", "<", ">", "<=", ">=", ".", "rev", "pos", "remove", "count", "split", "join",
    ] {
        assert!(program.macros.get(&name.to_string()).is_some(), "{}", name);
    }
    assert!(program.macros.get(&"pow".to_string()).is_none());
}

#[test]
fn overload_with_a_body_is_run() {
    let mut program = Program::std_program();
    program.macros.insert(
        "twice".to_string(),
        MacroOverload::from(vec![Type::Int], MacroType::Macro(tree("2 *"))),
    );
    exec(&mut program, "4 twice twice").unwrap();
    assert_eq!(stack_of(&program), ints(&[16]));
    let e = exec(&mut program, "\"s\" twice").unwrap_err();
    assert_eq!(
        e.msg(),
        "no macro definition \"twice\" found with current stack, following macros are defined:\n[int] twice\n\n"
    );
}

#[test]
fn overload_with_a_body_may_call_itself() {
    let mut program = Program::std_program();
    program.macros.insert(
        "down".to_string(),
        MacroOverload::from(vec![Type::Int], MacroType::Macro(tree("copy 0 > if 1 - down end"))),
    );
    exec(&mut program, "1000 down").unwrap();
    assert_eq!(stack_of(&program), ints(&[0]));
}

#[test]
fn overload_is_chosen_by_the_types_on_the_stack() {
    let mut program = Program::new();
    let mut set = MacroOverload::new();
    assert!(set.def(vec![Type::Int], MacroType::Macro(tree("drop \"int\""))).is_none());
    assert!(set.def(vec![Type::String], MacroType::Macro(tree("drop \"str\""))).is_none());
    assert!(set.def(vec![Type::Int, Type::Int], MacroType::Macro(tree("drop drop \"two\""))).is_none());
    program.macros.insert("kind".to_string(), set);
    program.macros.insert(
        "drop".to_string(),
        MacroOverload::from(vec![Type::Any], MacroType::Operation(Builtin::Drop)),
    );
    exec(&mut program, "1 kind").unwrap();
    exec(&mut program, "\"s\" kind").unwrap();
    assert_eq!(stack_of(&program), vec![text("int"), text("str")]);
    exec(&mut program, "1 2 kind").unwrap();
    assert_eq!(stack_of(&program), vec![text("int"), text("str"), Value::Int(1), text("int")]);
}

#[test]
fn macro_definition_cannot_be_run() {
    let mut program = Program::std_program();
    let body = Node::new(NodeType::Int(1), Position::zero());
    let node = Node::new(
        NodeType::Macro("m".to_string(), vec![Type::Int], Box::new(body)),
        Position::new(3..4, 0..1, 3..4),
    );
    let e = run(&mut program, node).unwrap_err();
    assert_eq!(e.msg(), "macro definitions cannot be run");
    assert_eq!(e.pos(), &Some(Position::new(3..4, 0..1, 3..4)));
}

#[test]
fn steps_one_at_a_time() {
    let mut program = Program::std_program();
    assert_eq!(program.step(), Step::Done);
    program.load(tree("1 2 +"));
    assert!(!program.idle());
    assert_eq!(program.step(), Step::Next);
    assert_eq!(program.control.len(), 3);
    assert_eq!(program.step(), Step::Next);
    assert_eq!(stack_of(&program), ints(&[1]));
    assert_eq!(program.step(), Step::Next);
    assert_eq!(program.step(), Step::Next);
    assert_eq!(stack_of(&program), ints(&[3]));
    assert_eq!(program.step(), Step::Done);
    assert!(program.idle());
}

#[test]
fn run_stops_at_the_limit() {
    let mut program = Program::std_program();
    assert_eq!(program.run(tree("1 2 3"), 0), Step::Next);
    assert_eq!(stack_of(&program), vec![]);
    assert_eq!(program.resume(3), Step::Next);
    assert_eq!(stack_of(&program), ints(&[1, 2]));
    assert_eq!(program.resume(1), Step::Next);
    assert_eq!(stack_of(&program), ints(&[1, 2, 3]));
    assert_eq!(program.resume(1), Step::Done);
    assert_eq!(program.resume(0), Step::Next);
}

#[test]
fn repeat_counts_down() {
    let mut program = Program::std_program();
    program.load(tree("2 repeat 7 end"));
    assert_eq!(program.resume(3), Step::Next);
    match &program.control[0] {
        Task::Loop(body, n) => {
            assert_eq!(body.node, NodeType::Int(7));
            assert_eq!(*n, 2);
        }
        other => panic!("{:?}", other),
    }
    assert_eq!(program.resume(100), Step::Done);
    assert_eq!(stack_of(&program), ints(&[7, 7]));
}

#[test]
fn float_literal_asks_for_its_number() {
    let mut program = Program::std_program();
    assert_eq!(program.run(tree("2.5"), 10), Step::Ask(FloatRequest::Parse("2.5".to_string())));
    assert_eq!(program.pending, Pending::Number);
    assert!(!program.idle());
    program.answer(FloatReply::Number(Float { bits: 7 })).unwrap();
    assert_eq!(stack_of(&program), vec![Value::Float(Float { bits: 7 })]);
    assert_eq!(program.step(), Step::Done);
}

#[test]
fn float_operation_asks_with_its_operands() {
    let mut program = Program::std_program();
    program.stack.push(Value::Float(Float { bits: 11 }));
    program.stack.push(Value::Int(3));
    assert_eq!(
        program.run(tree("-"), 10),
        Step::Ask(FloatRequest::Arith(Arith::Sub, Number::Float(Float { bits: 11 }), Number::Int(3)))
    );
    assert_eq!(stack_of(&program), vec![]);
    program.answer(FloatReply::Number(Float { bits: 5 })).unwrap();
    assert_eq!(stack_of(&program), vec![Value::Float(Float { bits: 5 })]);
    program.stack.push(Value::Int(4));
    assert_eq!(
        program.run(tree("<="), 10),
        Step::Ask(FloatRequest::Compare(Relation::Le, Number::Float(Float { bits: 5 }), Number::Int(4)))
    );
    assert_eq!(program.pending, Pending::Truth);
    program.answer(FloatReply::Truth(true)).unwrap();
    assert_eq!(stack_of(&program), vec![Value::Boolean(true)]);
    program.stack.push(Value::Int(8));
    program.stack.push(Value::Int(2));
    assert_eq!(
        program.run(tree("/"), 10),
        Step::Ask(FloatRequest::Arith(Arith::Div, Number::Int(8), Number::Int(2)))
    );
}

#[test]
fn join_asks_for_each_float_in_turn() {
    let mut program = Program::std_program();
    program.stack.push(Value::Int(1));
    program.stack.push(Value::Float(Float { bits: 9 }));
    program.stack.push(Value::Float(Float { bits: 4 }));
    program.stack.push(Value::Char('+'));
    assert_eq!(program.run(tree("join"), 10), Step::Ask(FloatRequest::Show(Float { bits: 9 })));
    assert_eq!(program.pending, Pending::Text(1));
    program.answer(FloatReply::Text("nine".to_string())).unwrap();
    assert_eq!(program.resume(10), Step::Ask(FloatRequest::Show(Float { bits: 4 })));
    assert_eq!(program.pending, Pending::Text(2));
    program.answer(FloatReply::Text("four".to_string())).unwrap();
    assert_eq!(program.resume(10), Step::Done);
    assert_eq!(stack_of(&program), vec![text("1+nine+four")]);
}

#[test]
fn answer_of_the_wrong_kind_fails() {
    let mut program = Program::std_program();
    assert!(matches!(program.run(tree("2.5 1"), 10), Step::Ask(_)));
    let e = program.answer(FloatReply::Truth(true)).unwrap_err();
    assert_eq!(e.msg(), "the machine waits for something else");
    assert_eq!(e.pos(), &None);
    assert!(program.idle());
    assert_eq!(stack_of(&program), vec![]);
    let e = program.answer(FloatReply::Number(Float { bits: 0 })).unwrap_err();
    assert_eq!(e.msg(), "the machine waits for something else");
}

#[test]
fn step_before_the_answer_fails() {
    let mut program = Program::std_program();
    assert!(matches!(program.run(tree("1 2.5 3"), 10), Step::Ask(_)));
    match program.step() {
        Step::Failed(e) => assert_eq!(e.msg(), "the machine waits for something else"),
        other => panic!("{:?}", other),
    }
    assert!(program.idle());
    assert_eq!(stack_of(&program), ints(&[1]));
}

#[test]
fn operation_defined_for_the_wrong_types_fails() {
    let mut program = Program::new();
    program.macros.insert(
        "plus".to_string(),
        MacroOverload::from(vec![Type::Any, Type::Any], MacroType::Operation(Builtin::Add)),
    );
    program.macros.insert(
        "top".to_string(),
        MacroOverload::from(vec![], MacroType::Operation(Builtin::Copy)),
    );
    program.macros.insert(
        "away".to_string(),
        MacroOverload::from(vec![], MacroType::Operation(Builtin::Drop)),
    );
    let e = exec(&mut program, "true 1 plus").unwrap_err();
    assert_eq!(e.msg(), "type checking error!!!");
    assert_eq!(stack_of(&program), vec![Value::Boolean(true), Value::Int(1)]);
    program.stack.clear();
    assert_eq!(exec(&mut program, "top").unwrap_err().msg(), "type checking error!!!");
    exec(&mut program, "away").unwrap();
    exec(&mut program, "1 2 plus").unwrap();
    assert_eq!(stack_of(&program), ints(&[3]));
}

#[test]
fn cancel_gives_up_the_work() {
    let mut program = Program::std_program();
    assert!(matches!(program.run(tree("1 2.5 3"), 10), Step::Ask(_)));
    program.cancel();
    assert!(program.idle());
    assert_eq!(stack_of(&program), ints(&[1]));
    assert_eq!(program.step(), Step::Done);
}
