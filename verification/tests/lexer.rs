use stacklang::lexer::{lex, Instr, Lexer, Token, SYMBOLS};
use stacklang::position::Position;

fn instrs(source: &str) -> Vec<Instr> {
    lex(source.to_string()).unwrap().into_iter().map(|t| t.instr).collect()
}

fn message(source: &str) -> String {
    lex(source.to_string()).unwrap_err().msg().clone()
}

fn names(list: &[&str]) -> Vec<String> {
    list.iter().map(|s| s.to_string()).collect()
}

#[test]
fn empty_text_has_no_tokens() {
    assert_eq!(instrs(""), vec![]);
    assert_eq!(instrs("   \n\t "), vec![]);
}

#[test]
fn lexes_string_literal() {
    assert_eq!(instrs("\"hello world\""), vec![Instr::String("hello world".to_string())]);
    assert_eq!(instrs("\"\""), vec![Instr::String(String::new())]);
}

#[test]
fn lexes_char_literal() {
    assert_eq!(instrs("'c'"), vec![Instr::Char('c')]);
    assert_eq!(instrs("' '"), vec![Instr::Char(' ')]);
    assert_eq!(instrs("'''"), vec![Instr::Char('\'')]);
}

#[test]
fn lexes_char_of_several_bytes() {
    assert_eq!(instrs("'\u{e9}'"), vec![Instr::Char('\u{e9}')]);
    assert_eq!(instrs("\"h\u{e9}\""), vec![Instr::String("h\u{e9}".to_string())]);
}

#[test]
fn lexes_int_literal() {
    assert_eq!(instrs("42"), vec![Instr::Int(42)]);
    assert_eq!(instrs("007"), vec![Instr::Int(7)]);
    assert_eq!(instrs("9223372036854775807"), vec![Instr::Int(i64::MAX)]);
}

#[test]
fn lexes_float_literal() {
    assert_eq!(instrs("2.5"), vec![Instr::Float("2.5".to_string())]);
    assert_eq!(instrs("1."), vec![Instr::Float("1.".to_string())]);
    assert_eq!(instrs("1e5"), vec![Instr::Float("1e5".to_string())]);
    assert_eq!(instrs("1.5E-3"), vec![Instr::Float("1.5E-3".to_string())]);
    assert_eq!(instrs("3e+2"), vec![Instr::Float("3e+2".to_string())]);
}

#[test]
fn integer_out_of_range_is_a_float() {
    assert_eq!(
        instrs("9223372036854775808"),
        vec![Instr::Float("9223372036854775808".to_string())]
    );
}

#[test]
fn every_float_literal_parses_as_a_number() {
    for source in ["2.5", "1.", "1e5", "1.5E-3", "3e+2", "9223372036854775808", "0.0"] {
        match &instrs(source)[0] {
            Instr::Float(text) => assert!(text.parse::<f64>().is_ok()),
            other => panic!("{:?}", other),
        }
    }
}

#[test]
fn lexes_booleans_and_keywords() {
    assert_eq!(
        instrs("true false end if else repeat macro"),
        vec![
            Instr::Boolean(true),
            Instr::Boolean(false),
            Instr::End,
            Instr::If,
            Instr::Else,
            Instr::Repeat,
            Instr::Macro
        ]
    );
}

#[test]
fn lexes_identifiers() {
    assert_eq!(
        instrs("x + <= a1 truex"),
        vec![
            Instr::ID("x".to_string()),
            Instr::ID("+".to_string()),
            Instr::ID("<=".to_string()),
            Instr::ID("a1".to_string()),
            Instr::ID("truex".to_string())
        ]
    );
}

#[test]
fn take_lists_names_last_first() {
    assert_eq!(instrs("(a b c)"), vec![Instr::Take(names(&["c", "b", "a"]))]);
    assert_eq!(instrs("()"), vec![Instr::Take(vec![])]);
    assert_eq!(instrs("( a b)"), vec![Instr::Take(names(&["b", "a"]))]);
}

#[test]
fn copy_to_lists_names_last_first() {
    assert_eq!(instrs("{a b}"), vec![Instr::CopyTo(names(&["b", "a"]))]);
    assert_eq!(instrs("{}"), vec![Instr::CopyTo(vec![])]);
}

#[test]
fn copy_wraps_the_next_token() {
    let tokens = lex("@x".to_string()).unwrap();
    assert_eq!(tokens.len(), 1);
    match &tokens[0].instr {
        Instr::Copy(inner) => {
            assert_eq!(inner.instr, Instr::ID("x".to_string()));
            assert_eq!(inner.pos, Position::new(1..2, 0..1, 1..2));
        }
        other => panic!("{:?}", other),
    }
    assert_eq!(tokens[0].pos, Position::new(0..2, 0..1, 0..2));
    match &instrs("@ {a b}")[0] {
        Instr::Copy(inner) => assert_eq!(inner.instr, Instr::CopyTo(names(&["b", "a"]))),
        other => panic!("{:?}", other),
    }
}

#[test]
fn symbols_end_a_lexeme() {
    assert_eq!(
        instrs("ab\"s\"cd'e'f(g)h{i}j@k"),
        vec![
            Instr::ID("ab".to_string()),
            Instr::String("s".to_string()),
            Instr::ID("cd".to_string()),
            Instr::Char('e'),
            Instr::ID("f".to_string()),
            Instr::Take(names(&["g"])),
            Instr::ID("h".to_string()),
            Instr::CopyTo(names(&["i"])),
            Instr::ID("j".to_string()),
            Instr::Copy(Box::new(Token::new(
                Instr::ID("k".to_string()),
                Position::new(20..21, 0..1, 20..21)
            ))),
        ]
    );
    assert_eq!(SYMBOLS, ['"', '\'', '(', ')', '{', '}', '@']);
}

#[test]
fn comments_are_dropped() {
    assert_eq!(instrs("1 # two three\n4"), vec![Instr::Int(1), Instr::Int(4)]);
    assert_eq!(instrs("# only a comment"), vec![]);
    assert_eq!(instrs("a#b"), vec![Instr::ID("a#b".to_string())]);
}

#[test]
fn unclosed_string_fails() {
    let e = lex("1 \"abc".to_string()).unwrap_err();
    assert_eq!(e.msg(), "unclosed string");
    assert_eq!(e.pos(), &Some(Position::new(2..3, 0..1, 2..3)));
}

#[test]
fn malformed_characters_fail() {
    assert_eq!(message("'"), "expected character");
    assert_eq!(message("'a"), "unclosed character");
    assert_eq!(message("'ab'"), "unclosed character");
    assert_eq!(message("''"), "unclosed character");
}

#[test]
fn unclosed_groups_fail() {
    assert_eq!(message("(a b"), "unclosed identifier take");
    assert_eq!(message("("), "unclosed identifier take");
    assert_eq!(message("{a"), "unclosed identifier copy");
    assert_eq!(message("(a "), "unclosed identifier take");
}

#[test]
fn blank_before_the_closing_bracket_does_not_close() {
    assert_eq!(message("( a )"), "unclosed identifier take");
}

#[test]
fn group_takes_identifiers_only() {
    assert_eq!(message("(a 1)"), "expected identifier, got int");
    assert_eq!(message("{\"s\"}"), "expected identifier, got string");
    assert_eq!(message("(a 'c')"), "expected identifier, got char");
    assert_eq!(message("(true)"), "expected identifier, got boolean");
    assert_eq!(message("(1.5)"), "expected identifier, got float");
    assert_eq!(message("(if)"), "expected identifier, got if-control-flow instruction");
    assert_eq!(message("((a))"), "expected identifier, got take-into-identifiers");
    assert_eq!(message("({a})"), "expected identifier, got copt-to-identifiers");
    assert_eq!(message("(@a)"), "expected identifier, got copy of identifier");
}

#[test]
fn copy_at_the_end_fails() {
    let e = lex("1 @".to_string()).unwrap_err();
    assert_eq!(e.msg(), "unexpected end");
    assert_eq!(e.pos(), &Some(Position::new(2..3, 0..1, 2..3)));
    assert_eq!(message("@   "), "unexpected end");
}

#[test]
fn malformed_number_fails() {
    assert_eq!(
        message("12abc"),
        "error occurd while parsing the number \"12abc\": invalid float literal"
    );
    assert_eq!(message("1e"), "error occurd while parsing the number \"1e\": invalid float literal");
    assert_eq!(
        message("1.2.3"),
        "error occurd while parsing the number \"1.2.3\": invalid float literal"
    );
    assert_eq!(
        message("1\\"),
        "error occurd while parsing the number \"1\\\\\": invalid float literal"
    );
    let e = lex("a 12abc".to_string()).unwrap_err();
    assert_eq!(e.pos(), &Some(Position::new(2..7, 0..1, 2..7)));
}

#[test]
fn no_malformed_number_parses_as_a_float() {
    for source in ["12abc", "1e", "1.2.3", "1e+", "1.e", "1_000", "0x10", "1e5.0"] {
        assert!(lex(source.to_string()).is_err(), "{}", source);
        assert!(source.parse::<f64>().is_err(), "{}", source);
    }
}

#[test]
fn empty_lexeme_fails() {
    let pos = Position::new(3..4, 0..1, 3..4);
    let e = Instr::get(String::new(), pos.clone()).unwrap_err();
    assert_eq!(e.msg(), "empty id");
    assert_eq!(e.pos(), &Some(pos));
}

#[test]
fn classifies_lexemes() {
    let pos = Position::zero();
    assert_eq!(Instr::get("true".to_string(), pos.clone()).unwrap(), Instr::Boolean(true));
    assert_eq!(Instr::get("12".to_string(), pos.clone()).unwrap(), Instr::Int(12));
    assert_eq!(Instr::get("1.5".to_string(), pos.clone()).unwrap(), Instr::Float("1.5".to_string()));
    assert_eq!(Instr::get("abc".to_string(), pos.clone()).unwrap(), Instr::ID("abc".to_string()));
    assert_eq!(Instr::get("-1".to_string(), pos.clone()).unwrap(), Instr::ID("-1".to_string()));
    assert_eq!(Instr::get("a b".to_string(), pos).unwrap(), Instr::ID("a b".to_string()));
}

#[test]
fn names_of_instructions() {
    assert_eq!(Instr::String(String::new()).name(), "string");
    assert_eq!(Instr::Char('a').name(), "char");
    assert_eq!(Instr::Int(1).name(), "int");
    assert_eq!(Instr::Float("1.0".to_string()).name(), "float");
    assert_eq!(Instr::Boolean(true).name(), "boolean");
    assert_eq!(Instr::ID("a".to_string()).name(), "identifier");
    assert_eq!(Instr::Take(vec![]).name(), "take-into-identifiers");
    assert_eq!(Instr::CopyTo(vec![]).name(), "copt-to-identifiers");
    assert_eq!(Instr::End.name(), "end-control-flow instruction");
    assert_eq!(Instr::If.name(), "if-control-flow instruction");
    assert_eq!(Instr::Else.name(), "else-control-flow instruction");
    assert_eq!(Instr::Repeat.name(), "repeat-control-flow instruction");
    assert_eq!(Instr::Macro.name(), "macro instruction");
    let inner = Token::new(Instr::Copy(Box::new(Token::new(Instr::Int(1), Position::zero()))), Position::zero());
    assert_eq!(Instr::Copy(Box::new(inner)).name(), "copy of copy of int");
}

#[test]
fn spans_of_tokens() {
    let tokens = lex("ab \"c d\" 'e'".to_string()).unwrap();
    assert_eq!(tokens[0].pos, Position::new(0..2, 0..1, 0..2));
    assert_eq!(tokens[1].pos, Position::new(3..8, 0..1, 3..8));
    assert_eq!(tokens[2].pos, Position::new(9..12, 0..1, 9..12));
}

#[test]
fn lines_are_counted_from_the_line_feed_on() {
    let tokens = lex("a\nbc\n d".to_string()).unwrap();
    assert_eq!(tokens[0].pos, Position::new(0..1, 0..1, 0..1));
    assert_eq!(tokens[1].pos, Position::new(2..4, 1..2, 1..3));
    assert_eq!(tokens[2].pos, Position::new(6..7, 2..3, 2..3));
}

#[test]
fn every_span_covers_at_least_one_unit() {
    let tokens = lex("a \"b\nc\" (d e) @f 'g' 12 # h\n{i}".to_string()).unwrap();
    assert_eq!(tokens.len(), 7);
    for token in &tokens {
        assert!(token.pos.idx.start < token.pos.idx.end);
        assert!(token.pos.ln.start < token.pos.ln.end);
    }
}

#[test]
fn cursor_moves_by_hand() {
    let mut lexer = Lexer::new("a \nb".to_string());
    assert_eq!(lexer.get(), Some('a'));
    assert_eq!(lexer.pos(), Position::new(0..1, 0..1, 0..1));
    lexer.advance();
    assert_eq!(lexer.get(), Some(' '));
    assert_eq!(lexer.pos(), Position::new(1..2, 0..1, 1..2));
    lexer.advance_ws();
    assert_eq!(lexer.get(), Some('b'));
    assert_eq!(lexer.pos(), Position::new(3..4, 1..2, 1..2));
    lexer.advance();
    assert_eq!(lexer.get(), None);
    lexer.advance_ws();
    assert_eq!(lexer.get(), None);
    assert_eq!(lexer.pos(), Position::new(4..5, 1..2, 2..3));
}

#[test]
fn next_reads_one_token_at_a_time() {
    let mut lexer = Lexer::new("1 x".to_string());
    assert_eq!(lexer.next().unwrap().unwrap().instr, Instr::Int(1));
    assert_eq!(lexer.next().unwrap().unwrap().instr, Instr::ID("x".to_string()));
    assert_eq!(lexer.next().unwrap(), None);
    assert_eq!(lexer.next().unwrap(), None);
    let mut lexer = Lexer::new("1 2 3".to_string());
    let _ = lexer.next();
    assert_eq!(lexer.lex().unwrap().len(), 2);
}
