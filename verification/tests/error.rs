use stacklang::error::Error;
use stacklang::position::Position;
use stacklang::text::{chars_of, split_lines};

fn rendered(error: &Error, text: &str) -> String {
    error.display_text(&"main.sl".to_string(), text.to_string())
}

#[test]
fn error_without_span_shows_its_message() {
    let e = Error::new("boom".to_string(), None);
    assert_eq!(rendered(&e, "1 2 3"), "ERROR: boom");
    assert_eq!(e.msg(), "boom");
    assert_eq!(e.pos(), &None);
}

#[test]
fn error_with_span_shows_place_and_line() {
    let e = Error::new("unknown id \"x\"".to_string(), Some(Position::new(6..7, 1..2, 2..3)));
    assert_eq!(
        rendered(&e, "1 2\n3 x 4\n5"),
        "ERROR: unknown id \"x\" - main.sl:2:3\n3 x 4"
    );
}

#[test]
fn error_over_several_lines_shows_them_run_together() {
    let e = Error::new("unclosed string".to_string(), Some(Position::new(0..9, 0..2, 0..3)));
    assert_eq!(rendered(&e, "\"ab\r\ncd\nef"), "ERROR: unclosed string - main.sl:1:1\n\"abcd");
}

#[test]
fn error_outside_the_text_shows_no_line() {
    let e = Error::new("m".to_string(), Some(Position::new(0..1, 5..6, 0..1)));
    assert_eq!(rendered(&e, "a\nb"), "ERROR: m - main.sl:6:1\n");
    let e = Error::new("m".to_string(), Some(Position::new(0..1, 1..3, 0..1)));
    assert_eq!(rendered(&e, "a\nb"), "ERROR: m - main.sl:2:1\n");
    let e = Error::new("m".to_string(), Some(Position::new(0..1, 1..0, 0..1)));
    assert_eq!(rendered(&e, "a\nb"), "ERROR: m - main.sl:2:1\n");
}

#[test]
fn place_counts_from_one_without_overflow() {
    let e = Error::new("m".to_string(), Some(Position::new(0..1, usize::MAX..usize::MAX, 41..42)));
    let text = rendered(&e, "");
    let expected = format!("ERROR: m - main.sl:{}:42\n", usize::MAX as u128 + 1);
    assert_eq!(text, expected);
}

#[test]
fn lines_are_split_as_the_standard_library_does() {
    for text in ["", "a", "a\n", "a\nb", "a\r\nb\r\n", "\n", "\n\n", "a\rb\nc\r", "\r\n", "x\n\r\ny"] {
        let ours: Vec<String> =
            split_lines(&chars_of(text)).iter().map(|l| l.iter().collect()).collect();
        let theirs: Vec<String> = text.lines().map(|l| l.to_string()).collect();
        assert_eq!(ours, theirs, "{:?}", text);
    }
}

#[test]
fn span_starts_at_the_first_unit() {
    assert_eq!(Position::zero(), Position::new(0..1, 0..1, 0..1));
}

#[test]
fn extend_moves_the_end_forward() {
    let mut pos = Position::new(2..3, 0..1, 2..3);
    pos.extend(Position::new(7..9, 1..2, 0..2));
    assert_eq!(pos, Position::new(2..9, 0..2, 2..2));
}

#[test]
fn extend_never_moves_the_end_backward() {
    let mut pos = Position::new(5..9, 1..2, 0..4);
    pos.extend(Position::new(2..3, 0..1, 2..3));
    assert_eq!(pos, Position::new(5..9, 1..2, 0..4));
    pos.extend(Position::new(8..9, 3..4, 6..7));
    assert_eq!(pos, Position::new(5..9, 1..4, 0..7));
}

#[test]
fn clone_of_a_span_is_equal() {
    let pos = Position::new(1..4, 2..3, 5..8);
    assert_eq!(pos.clone(), pos);
}

#[test]
fn error_is_shown_with_or_without_its_source() {
    let e = Error::new("m".to_string(), Some(Position::new(4..5, 1..2, 2..3)));
    assert_eq!(e.display_source(None), "ERROR: m2:3");
    assert_eq!(e.display_source(Some("ab\ncd\nef".to_string())), "ERROR: m2:3cd");
    let e = Error::new("m".to_string(), None);
    assert_eq!(e.display_source(Some("ab".to_string())), "ERROR: m");
}

#[test]
fn span_is_written_as_line_and_column() {
    assert_eq!(Position::new(6..7, 1..2, 2..3).to_string(), "2:3");
    assert_eq!(Position::zero().to_string(), "1:1");
}
