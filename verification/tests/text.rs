use stacklang::lexer::{is_float, parse_int, symbol};
use stacklang::ops::{clamped, count, find, glue, push_signed, repeat, reverse, split, wrap};
use stacklang::text::{chars_of, digit, push_decimal, slice_of, whitespace};

fn chars(s: &str) -> Vec<char> {
    s.chars().collect()
}

fn string(v: &[char]) -> String {
    v.iter().collect()
}

#[test]
fn white_space_is_that_of_unicode() {
    for code in 0..=0x10ffffu32 {
        if let Some(c) = char::from_u32(code) {
            assert_eq!(whitespace(c), c.is_whitespace(), "{:x}", code);
        }
    }
}

#[test]
fn digits_are_the_ten_decimal_ones() {
    for code in 0..=0x10ffffu32 {
        if let Some(c) = char::from_u32(code) {
            assert_eq!(digit(c), c.is_digit(10), "{:x}", code);
        }
    }
}

#[test]
fn seven_symbols() {
    let all: Vec<char> = (0..=0x7fu8).map(|b| b as char).filter(|c| symbol(*c)).collect();
    assert_eq!(all, vec!['"', '\'', '(', ')', '@', '{', '}']);
}

#[test]
fn characters_of_a_text() {
    assert_eq!(chars_of("h\u{e9}\u{1f600}"), vec!['h', '\u{e9}', '\u{1f600}']);
    assert_eq!(chars_of(""), vec![]);
    assert_eq!(slice_of(&chars("hello"), 1, 3), chars("el"));
}

#[test]
fn decimal_numerals() {
    for n in [0u128, 1, 9, 10, 11, 99, 100, 12345, u64::MAX as u128, u128::MAX] {
        let mut out = chars("x");
        push_decimal(&mut out, n);
        assert_eq!(string(&out), format!("x{}", n));
    }
    for i in [0i64, 1, -1, 10, -10, 12345, -12345, i64::MAX, i64::MIN] {
        let mut out = Vec::new();
        push_signed(&mut out, i);
        assert_eq!(string(&out), i.to_string());
    }
}

#[test]
fn integers_are_read_as_the_standard_library_reads_them() {
    for s in [
        "0", "7", "007", "42", "9223372036854775807", "9223372036854775808",
        "99999999999999999999999", "12a", "1.5", "", "a", "1 ", "00000000000000000000000001",
    ] {
        assert_eq!(parse_int(&chars(s)), s.parse::<i64>().ok(), "{:?}", s);
    }
}

#[test]
fn floats_are_recognised_as_the_standard_library_parses_them() {
    for s in [
        "0", "1", "1.", "1.5", "1.5.", "1e5", "1E5", "1e", "1e+", "1e+5", "1e-5", "1.e5", "1.5e5",
        "1.5e5x", "12abc", "1..2", "1e5e5", "1e5.5", "1_0", "0x1", "1f", "1.5f", "1e+-5", "100000000000000000000",
        "1.00000000000000000000000000001", "1e400", "0e0", "9.", "9.e", "9.e1",
    ] {
        assert_eq!(is_float(&chars(s)), s.parse::<f64>().is_ok(), "{:?}", s);
    }
    assert!(!is_float(&chars("")));
    assert!(!is_float(&chars(".5")));
    assert!(!is_float(&chars("inf")));
}

#[test]
fn index_wraps_both_ways() {
    assert_eq!(wrap(0, 3), 0);
    assert_eq!(wrap(2, 3), 2);
    assert_eq!(wrap(3, 3), 0);
    assert_eq!(wrap(7, 3), 1);
    assert_eq!(wrap(-1, 3), 2);
    assert_eq!(wrap(-3, 3), 0);
    assert_eq!(wrap(-4, 3), 2);
    assert_eq!(wrap(i64::MIN, 3), (i64::MIN as i128).rem_euclid(3) as usize);
    assert_eq!(wrap(i64::MAX, 10), 7);
    assert_eq!(wrap(-5, 1), 0);
    for i in -20i64..20 {
        for len in 1usize..7 {
            assert_eq!(wrap(i, len), i.rem_euclid(len as i64) as usize);
        }
    }
}

#[test]
fn length_as_an_integer() {
    assert_eq!(clamped(0), 0);
    assert_eq!(clamped(17), 17);
    assert_eq!(clamped(usize::MAX), (usize::MAX as u128).min(i64::MAX as u128) as i64);
}

#[test]
fn search_is_that_of_the_standard_library() {
    for (s, p) in [("hello", "l"), ("hello", "lo"), ("hello", ""), ("", ""), ("", "a"), ("aab", "ab"), ("ab", "abc"), ("abcabc", "ca")] {
        assert_eq!(find(&chars(s), &chars(p), 0), s.find(p), "{:?} {:?}", s, p);
    }
    assert_eq!(find(&chars("abcabc"), &chars("bc"), 2), Some(4));
    assert_eq!(find(&chars("abc"), &chars("a"), 1), None);
    assert_eq!(find(&chars("abc"), &chars(""), 3), Some(3));
    assert_eq!(find(&chars("abc"), &chars(""), 4), None);
}

#[test]
fn occurrences_may_overlap() {
    assert_eq!(count(&chars("aaaa"), &chars("aa")), 3);
    assert_eq!(count(&chars("banana"), &chars("ana")), 2);
    assert_eq!(count(&chars("abc"), &chars("")), 3);
    assert_eq!(count(&chars(""), &chars("")), 0);
    assert_eq!(count(&chars("abc"), &chars("abcd")), 0);
}

#[test]
fn split_is_that_of_the_standard_library() {
    for (s, p) in [
        ("a,b,,c", ","), ("", ","), (",", ","), (",,", ","), ("abc", ""), ("", ""), ("aaa", "aa"),
        ("aaaa", "aa"), ("a--b--", "--"), ("abc", "abc"), ("abc", "abcd"), ("h\u{e9}llo", "l"),
    ] {
        let ours: Vec<String> = split(&chars(s), &chars(p)).iter().map(|v| string(v)).collect();
        let theirs: Vec<String> = s.split(p).map(|v| v.to_string()).collect();
        assert_eq!(ours, theirs, "{:?} {:?}", s, p);
    }
}

#[test]
fn glue_is_the_join_of_the_standard_library() {
    for (items, sep) in [
        (vec![], ","), (vec!["a"], ","), (vec!["a", "b"], ","), (vec!["", ""], "-"),
        (vec!["a", "b", "c"], ""), (vec!["x", "", "y"], ", "),
    ] {
        let list: Vec<Vec<char>> = items.iter().map(|s| chars(s)).collect();
        assert_eq!(string(&glue(&list, &chars(sep))), items.join(sep));
    }
}

#[test]
fn repeat_and_reverse() {
    assert_eq!(string(&repeat(&chars("ab"), 3)), "ababab");
    assert_eq!(string(&repeat(&chars("ab"), 0)), "");
    assert_eq!(string(&repeat(&chars("ab"), -2)), "");
    assert_eq!(string(&repeat(&chars(""), 5)), "");
    assert_eq!(string(&reverse(&chars("abc"))), "cba");
    assert_eq!(string(&reverse(&chars(""))), "");
}
