//! The tokenizer: text to an ordered sequence of tokens with their spans.
//!
//! A text is read as a sequence of scalar values. Offsets and columns
//! count scalar values, which in a text of ASCII characters are its
//! bytes.

use crate::error::{Error, ErrorView};
pub use crate::position::Position;
use crate::text::{chars_of, clone_strings, digit, digit_value, is_digit, is_space, push_str, quote, quoted, string_of, texts, whitespace};
use std::ops::Range;
use vstd::prelude::*;

verus! {

/// The lexical payload of a token.
#[derive(Debug, PartialEq)]
pub enum Instr {
    String(String),
    Char(char),
    Int(i64),
    /// A floating-point literal, kept as it was written.
    Float(String),
    Boolean(bool),
    ID(String),
    /// The names of `(...)`, last written first.
    Take(Vec<String>),
    /// The names of `{...}`, last written first.
    CopyTo(Vec<String>),
    Copy(Box<Token>),
    End,
    If,
    Else,
    Repeat,
    Macro,
}

/// A lexical payload with the span of text it was read from.
#[derive(Debug, PartialEq)]
pub struct Token {
    pub instr: Instr,
    pub pos: Position,
}

/// What an `Instr` holds.
pub enum InstrView {
    String(Seq<char>),
    Char(char),
    Int(i64),
    Float(Seq<char>),
    Boolean(bool),
    ID(Seq<char>),
    Take(Seq<Seq<char>>),
    CopyTo(Seq<Seq<char>>),
    Copy(Box<TokenView>),
    End,
    If,
    Else,
    Repeat,
    Macro,
}

/// What a `Token` holds.
pub struct TokenView {
    pub instr: InstrView,
    pub pos: Position,
}

/// What `instr` holds.
pub open spec fn instr_view(instr: Instr) -> InstrView
    decreases instr,
{
    match instr {
        Instr::String(s) => InstrView::String(s@),
        Instr::Char(c) => InstrView::Char(c),
        Instr::Int(i) => InstrView::Int(i),
        Instr::Float(s) => InstrView::Float(s@),
        Instr::Boolean(b) => InstrView::Boolean(b),
        Instr::ID(s) => InstrView::ID(s@),
        Instr::Take(ids) => InstrView::Take(texts(ids@)),
        Instr::CopyTo(ids) => InstrView::CopyTo(texts(ids@)),
        Instr::Copy(token) => InstrView::Copy(Box::new(token_view(*token))),
        Instr::End => InstrView::End,
        Instr::If => InstrView::If,
        Instr::Else => InstrView::Else,
        Instr::Repeat => InstrView::Repeat,
        Instr::Macro => InstrView::Macro,
    }
}

/// What `token` holds.
pub open spec fn token_view(token: Token) -> TokenView
    decreases token,
{
    TokenView { instr: instr_view(token.instr), pos: token.pos }
}

impl View for Instr {
    type V = InstrView;

    open spec fn view(&self) -> InstrView {
        instr_view(*self)
    }
}

impl View for Token {
    type V = TokenView;

    open spec fn view(&self) -> TokenView {
        token_view(*self)
    }
}

/// The views of a sequence of tokens.
pub open spec fn token_views(v: Seq<Token>) -> Seq<TokenView> {
    Seq::new(v.len(), |i: int| v[i]@)
}

impl InstrView {
    /// The name of the kind of payload, as error messages give it.
    pub open spec fn name(self) -> Seq<char>
        decreases self,
    {
        match self {
            InstrView::String(_) => "string"@,
            InstrView::Char(_) => "char"@,
            InstrView::Int(_) => "int"@,
            InstrView::Float(_) => "float"@,
            InstrView::Boolean(_) => "boolean"@,
            InstrView::ID(_) => "identifier"@,
            InstrView::Take(_) => "take-into-identifiers"@,
            InstrView::CopyTo(_) => "copt-to-identifiers"@,
            InstrView::Copy(token) => "copy of "@ + token.instr.name(),
            InstrView::End => "end-control-flow instruction"@,
            InstrView::If => "if-control-flow instruction"@,
            InstrView::Else => "else-control-flow instruction"@,
            InstrView::Repeat => "repeat-control-flow instruction"@,
            InstrView::Macro => "macro instruction"@,
        }
    }
}

/// Whether every character of `s` is a decimal digit.
pub open spec fn all_digits(s: Seq<char>) -> bool {
    forall|i: int| 0 <= i < s.len() ==> is_digit(#[trigger] s[i])
}

/// The number that the decimal numeral `s` denotes.
pub open spec fn number(s: Seq<char>) -> nat
    decreases s.len(),
{
    if s.len() == 0 {
        0
    } else {
        (number(s.drop_last()) * 10 + digit_value(s.last())) as nat
    }
}

/// The integer that a lexeme denotes: it is one where it is made of
/// decimal digits only and its number fits in 64 bits with a sign.
pub open spec fn int_literal(s: Seq<char>) -> Option<i64> {
    if s.len() > 0 && all_digits(s) && number(s) <= i64::MAX {
        Some(number(s) as i64)
    } else {
        None
    }
}

/// The index at which the run of decimal digits of `s` that starts at
/// `from` ends.
pub open spec fn digits_end(s: Seq<char>, from: int) -> int
    decreases s.len() - from,
{
    if 0 <= from < s.len() && is_digit(s[from]) {
        digits_end(s, from + 1)
    } else {
        from
    }
}

/// Whether `s` has the shape of a floating-point literal: digits, then
/// optionally a point and digits, then optionally an exponent, which is
/// `e` or `E`, an optional sign and digits.
pub open spec fn float_shape(s: Seq<char>) -> bool {
    let a = digits_end(s, 0);
    let b = if a < s.len() && s[a] == '.' {
        digits_end(s, a + 1)
    } else {
        a
    };
    let c = if b + 1 < s.len() && (s[b + 1] == '+' || s[b + 1] == '-') {
        b + 2
    } else {
        b + 1
    };
    &&& a > 0
    &&& b == s.len() || {
        &&& b < s.len()
        &&& s[b] == 'e' || s[b] == 'E'
        &&& c < s.len()
        &&& digits_end(s, c) == s.len()
    }
}

/// The keyword or truth value that `id` spells, if it spells one.
pub open spec fn keyword(id: Seq<char>) -> Option<InstrView> {
    if id == "true"@ {
        Some(InstrView::Boolean(true))
    } else if id == "false"@ {
        Some(InstrView::Boolean(false))
    } else if id == "end"@ {
        Some(InstrView::End)
    } else if id == "if"@ {
        Some(InstrView::If)
    } else if id == "else"@ {
        Some(InstrView::Else)
    } else if id == "repeat"@ {
        Some(InstrView::Repeat)
    } else if id == "macro"@ {
        Some(InstrView::Macro)
    } else {
        None
    }
}

/// The message for a lexeme that starts like a number and is none.
pub open spec fn bad_number(id: Seq<char>) -> Seq<char> {
    "error occurd while parsing the number "@ + quoted(id) + ": invalid float literal"@
}

/// What a lexeme that is neither quoted nor a group stands for: a truth
/// value or keyword where it spells one; else a number where it starts
/// with a digit, an integer if it is one and a float otherwise; else an
/// identifier. A lexeme that starts with a digit and is no number, and
/// the empty lexeme, are errors at `pos`.
pub open spec fn classify(id: Seq<char>, pos: Position) -> Result<InstrView, ErrorView> {
    if keyword(id) is Some {
        Ok(keyword(id)->0)
    } else if id.len() == 0 {
        Err(ErrorView { msg: "empty id"@, pos: Some(pos) })
    } else if !is_digit(id[0]) {
        Ok(InstrView::ID(id))
    } else if int_literal(id) is Some {
        Ok(InstrView::Int(int_literal(id)->0))
    } else if float_shape(id) {
        Ok(InstrView::Float(id))
    } else {
        Err(ErrorView { msg: bad_number(id), pos: Some(pos) })
    }
}

/// Whether `v` spells `word`.
pub fn spells(v: &Vec<char>, word: &str) -> (r: bool)
    ensures
        r == (v@ == word@),
{
    let w = chars_of(word);
    if v.len() != w.len() {
        return false;
    }
    let mut i: usize = 0;
    while i < v.len()
        invariant
            i <= v.len(),
            v.len() == w.len(),
            w@ == word@,
            v@.take(i as int) == w@.take(i as int),
        decreases v.len() - i,
    {
        if v[i] != w[i] {
            assert(v@[i as int] != w@[i as int]);
            return false;
        }
        assert(v@.take(i + 1) =~= v@.take(i as int).push(v@[i as int]));
        assert(w@.take(i + 1) =~= w@.take(i as int).push(w@[i as int]));
        i += 1;
    }
    assert(v@.take(v.len() as int) =~= v@);
    assert(w@.take(w.len() as int) =~= w@);
    true
}

proof fn number_grows(s: Seq<char>, i: int, j: int)
    requires
        0 <= i <= j <= s.len(),
        all_digits(s),
    ensures
        number(s.take(i)) <= number(s.take(j)),
    decreases j - i,
{
    if i < j {
        number_grows(s, i, j - 1);
        assert(s.take(j).drop_last() =~= s.take(j - 1));
        assert(is_digit(s[j - 1]));
        assert(s.take(j).last() == s[j - 1]);
    }
}

/// Reads a lexeme as an integer.
pub fn parse_int(s: &Vec<char>) -> (r: Option<i64>)
    ensures
        r == int_literal(s@),
{
    if s.len() == 0 {
        return None;
    }
    let mut acc: i64 = 0;
    let mut i: usize = 0;
    while i < s.len()
        invariant
            i <= s.len(),
            all_digits(s@.take(i as int)),
            acc == number(s@.take(i as int)),
        decreases s.len() - i,
    {
        let c = s[i];
        if !digit(c) {
            return None;
        }
        let d: i64 = (c as u32 - '0' as u32) as i64;
        proof {
            assert(s@.take(i + 1).drop_last() =~= s@.take(i as int));
            assert(s@.take(i + 1).last() == c);
            assert(number(s@.take(i + 1)) == acc * 10 + d);
            assert forall|k: int| 0 <= k < i + 1 implies is_digit(#[trigger] s@.take(i + 1)[k]) by {
                if k < i {
                    assert(s@.take(i as int)[k] == s@[k]);
                }
            }
        }
        if acc > (i64::MAX - d) / 10 {
            proof {
                if all_digits(s@) {
                    assert(s@.take(s.len() as int) =~= s@);
                    number_grows(s@, i + 1, s.len() as int);
                }
            }
            return None;
        }
        acc = acc * 10 + d;
        i += 1;
    }
    assert(s@.take(s.len() as int) =~= s@);
    Some(acc)
}

/// The index at which the run of digits of `s` from `from` on ends.
pub fn skip_digits(s: &Vec<char>, from: usize) -> (r: usize)
    requires
        from <= s.len(),
    ensures
        r == digits_end(s@, from as int),
        from <= r <= s.len(),
    decreases s.len() - from,
{
    if from < s.len() && digit(s[from]) {
        skip_digits(s, from + 1)
    } else {
        from
    }
}

/// Whether a lexeme has the shape of a floating-point literal.
pub fn is_float(s: &Vec<char>) -> (r: bool)
    ensures
        r == float_shape(s@),
{
    let a = skip_digits(s, 0);
    if a == 0 {
        return false;
    }
    let b = if a < s.len() && s[a] == '.' {
        skip_digits(s, a + 1)
    } else {
        a
    };
    if b == s.len() {
        return true;
    }
    if s[b] != 'e' && s[b] != 'E' {
        return false;
    }
    let c = if b + 1 < s.len() && (s[b + 1] == '+' || s[b + 1] == '-') {
        b + 2
    } else {
        b + 1
    };
    if c >= s.len() {
        return false;
    }
    skip_digits(s, c) == s.len()
}

impl Instr {
    /// Classifies a lexeme; `pos` is where an error is reported.
    pub fn get(id: String, pos: Position) -> (r: Result<Self, Error>)
        ensures
            match classify(id@, pos) {
                Ok(instr) => r is Ok && r->Ok_0@ == instr,
                Err(e) => r is Err && r->Err_0@ == e,
            },
    {
        let chars = chars_of(id.as_str());
        if spells(&chars, "true") {
            Ok(Instr::Boolean(true))
        } else if spells(&chars, "false") {
            Ok(Instr::Boolean(false))
        } else if spells(&chars, "end") {
            Ok(Instr::End)
        } else if spells(&chars, "if") {
            Ok(Instr::If)
        } else if spells(&chars, "else") {
            Ok(Instr::Else)
        } else if spells(&chars, "repeat") {
            Ok(Instr::Repeat)
        } else if spells(&chars, "macro") {
            Ok(Instr::Macro)
        } else if chars.len() == 0 {
            Err(Error::new("empty id".to_string(), Some(pos)))
        } else if !digit(chars[0]) {
            Ok(Instr::ID(id))
        } else {
            match parse_int(&chars) {
                Some(n) => Ok(Instr::Int(n)),
                None => {
                    if is_float(&chars) {
                        Ok(Instr::Float(id))
                    } else {
                        let mut msg: Vec<char> = Vec::new();
                        push_str(&mut msg, "error occurd while parsing the number ");
                        let q = quote(id.as_str());
                        push_str(&mut msg, q.as_str());
                        push_str(&mut msg, ": invalid float literal");
                        Err(Error::new(string_of(&msg), Some(pos)))
                    }
                },
            }
        }
    }

    /// The name of the kind of payload, as error messages give it.
    pub fn name(&self) -> (r: String)
        ensures
            r@ == self@.name(),
    {
        let mut out: Vec<char> = Vec::new();
        self.push_name(&mut out);
        string_of(&out)
    }

    fn push_name(&self, out: &mut Vec<char>)
        ensures
            final(out)@ == old(out)@ + self@.name(),
        decreases self,
    {
        match self {
            Instr::String(_) => push_str(out, "string"),
            Instr::Char(_) => push_str(out, "char"),
            Instr::Int(_) => push_str(out, "int"),
            Instr::Float(_) => push_str(out, "float"),
            Instr::Boolean(_) => push_str(out, "boolean"),
            Instr::ID(_) => push_str(out, "identifier"),
            Instr::Take(_) => push_str(out, "take-into-identifiers"),
            Instr::CopyTo(_) => push_str(out, "copt-to-identifiers"),
            Instr::Copy(token) => {
                push_str(out, "copy of ");
                token.instr.push_name(out);
                assert(out@ =~= old(out)@ + self@.name());
            },
            Instr::End => push_str(out, "end-control-flow instruction"),
            Instr::If => push_str(out, "if-control-flow instruction"),
            Instr::Else => push_str(out, "else-control-flow instruction"),
            Instr::Repeat => push_str(out, "repeat-control-flow instruction"),
            Instr::Macro => push_str(out, "macro instruction"),
        }
    }
}

impl Clone for Instr {
    fn clone(&self) -> (r: Self)
        ensures
            r@ == self@,
        decreases self,
    {
        match self {
            Instr::String(s) => Instr::String(s.clone()),
            Instr::Char(c) => Instr::Char(*c),
            Instr::Int(i) => Instr::Int(*i),
            Instr::Float(s) => Instr::Float(s.clone()),
            Instr::Boolean(b) => Instr::Boolean(*b),
            Instr::ID(s) => Instr::ID(s.clone()),
            Instr::Take(ids) => Instr::Take(clone_strings(ids)),
            Instr::CopyTo(ids) => Instr::CopyTo(clone_strings(ids)),
            Instr::Copy(token) => {
                let inner = Token { instr: token.instr.clone(), pos: token.pos.clone() };
                Instr::Copy(Box::new(inner))
            },
            Instr::End => Instr::End,
            Instr::If => Instr::If,
            Instr::Else => Instr::Else,
            Instr::Repeat => Instr::Repeat,
            Instr::Macro => Instr::Macro,
        }
    }
}

impl Token {
    /// The token `instr` at `pos`.
    pub fn new(instr: Instr, pos: Position) -> (r: Self)
        ensures
            r.instr == instr,
            r.pos == pos,
    {
        Self { instr, pos }
    }
}

impl Clone for Token {
    fn clone(&self) -> (r: Self)
        ensures
            r@ == self@,
    {
        Token { instr: self.instr.clone(), pos: self.pos.clone() }
    }
}

/// The seven characters that always end a lexeme.
pub const SYMBOLS: [char; 7] = ['"', '\'', '(', ')', '{', '}', '@'];

/// Whether `c` is one of the seven reserved symbols.
pub open spec fn is_symbol(c: char) -> bool {
    c == '"' || c == '\'' || c == '(' || c == ')' || c == '{' || c == '}' || c == '@'
}

/// Whether `c` is one of the seven reserved symbols.
pub fn symbol(c: char) -> (r: bool)
    ensures
        r == is_symbol(c),
{
    c == '"' || c == '\'' || c == '(' || c == ')' || c == '{' || c == '}' || c == '@'
}

/// A place in a text: the offset of a character, and the line and column
/// that the tokenizer counts for it.
pub struct Cursor {
    pub idx: usize,
    pub ln: usize,
    pub col: usize,
}

/// The number after `n`, or `n` itself where the machine has no greater.
pub open spec fn succ(n: usize) -> usize {
    if n < usize::MAX {
        (n + 1) as usize
    } else {
        n
    }
}

/// The character under the cursor, if the cursor is inside the text.
pub open spec fn at(text: Seq<char>, c: Cursor) -> Option<char> {
    if c.idx < text.len() && c.idx < usize::MAX {
        Some(text[c.idx as int])
    } else {
        None
    }
}

/// The span of the one character under the cursor.
pub open spec fn span(c: Cursor) -> Position {
    Position {
        idx: Range { start: c.idx, end: succ(c.idx) },
        ln: Range { start: c.ln, end: succ(c.ln) },
        col: Range { start: c.col, end: succ(c.col) },
    }
}

/// The cursor moved on by one character. Where it comes to stand on a
/// line feed, a new line is counted from there, with the line feed in
/// column zero.
pub open spec fn step(text: Seq<char>, c: Cursor) -> Cursor {
    let moved = Cursor { idx: succ(c.idx), ln: c.ln, col: succ(c.col) };
    if at(text, moved) == Some('\n') {
        Cursor { idx: moved.idx, ln: succ(c.ln), col: 0 }
    } else {
        moved
    }
}

/// The cursor moved on over white space.
pub open spec fn skip_space(text: Seq<char>, c: Cursor) -> Cursor
    decreases usize::MAX - c.idx,
{
    if at(text, c) is Some && is_space(at(text, c)->0) {
        skip_space(text, step(text, c))
    } else {
        c
    }
}

/// The cursor moved on to the next `stop`, or to the end of the text
/// where there is none.
pub open spec fn scan_to(text: Seq<char>, c: Cursor, stop: char) -> Cursor
    decreases usize::MAX - c.idx,
{
    if at(text, c) is Some && at(text, c)->0 != stop {
        scan_to(text, step(text, c), stop)
    } else {
        c
    }
}

/// The cursor moved past the comment that it stands in, line feed
/// included.
pub open spec fn after_comment(text: Seq<char>, c: Cursor) -> Cursor {
    let e = scan_to(text, c, '\n');
    if at(text, e) is Some {
        step(text, e)
    } else {
        e
    }
}

/// The cursor moved on to the end of a lexeme, which white space or a
/// reserved symbol ends, and `pos` grown over the characters passed.
pub open spec fn scan_word(text: Seq<char>, c: Cursor, pos: Position) -> (Cursor, Position)
    decreases usize::MAX - c.idx,
{
    if at(text, c) is Some && !is_space(at(text, c)->0) && !is_symbol(at(text, c)->0) {
        scan_word(text, step(text, c), pos.extended(span(c)))
    } else {
        (c, pos)
    }
}

/// An error with the message `msg` about the span `pos`.
pub open spec fn fail(pos: Position, msg: Seq<char>) -> ErrorView {
    ErrorView { msg, pos: Some(pos) }
}

/// What reading one token gives: the token, the end of the text, or an
/// error; each with the place where reading stopped.
pub enum Lexed {
    Token(TokenView, Cursor),
    End(Cursor),
    Fail(ErrorView, Cursor),
}

/// What reading the names of a group gives: the names as written and the
/// place of the closing character, or an error.
pub enum Grouped {
    Done(Seq<Seq<char>>, Cursor),
    Fail(ErrorView, Cursor),
}

/// The message for a group that the text ends in.
pub open spec fn unclosed(close: char) -> Seq<char> {
    if close == ')' {
        "unclosed identifier take"@
    } else {
        "unclosed identifier copy"@
    }
}

/// The message for something in a group that is no identifier.
pub open spec fn not_a_name(got: InstrView) -> Seq<char> {
    "expected identifier, got "@ + got.name()
}

/// Skipping white space never moves the cursor backward.
pub proof fn skip_space_forward(text: Seq<char>, c: Cursor)
    ensures
        skip_space(text, c).idx >= c.idx,
    decreases usize::MAX - c.idx,
{
    if at(text, c) is Some && is_space(at(text, c)->0) {
        skip_space_forward(text, step(text, c));
    }
}

/// Scanning for a character never moves the cursor backward.
pub proof fn scan_to_forward(text: Seq<char>, c: Cursor, stop: char)
    ensures
        scan_to(text, c, stop).idx >= c.idx,
    decreases usize::MAX - c.idx,
{
    if at(text, c) is Some && at(text, c)->0 != stop {
        scan_to_forward(text, step(text, c), stop);
    }
}

/// The next token of `text` from `start` on. White space before it is
/// skipped. A double quote starts a string that runs to the next double
/// quote; a single quote starts a character, which is one scalar value
/// between two single quotes; `(` and `{` start a group of names, given
/// in the token last first; `@` wraps the token that follows it; `#`
/// starts a comment that runs to the end of the line. Anything else
/// starts a lexeme that runs to the next white space or reserved symbol
/// and is classified by `classify`.
pub open spec fn next_token(text: Seq<char>, start: Cursor) -> Lexed
    decreases usize::MAX - start.idx, 0nat,
{
    let c = skip_space(text, start);
    let pos = span(c);
    let c1 = step(text, c);
    match at(text, c) {
        None => Lexed::End(c),
        Some(ch) => {
            proof {
                skip_space_forward(text, start);
                scan_to_forward(text, c1, '\n');
            }
            if ch == '"' {
                let e = scan_to(text, c1, '"');
                if at(text, e) is None {
                    Lexed::Fail(fail(pos, "unclosed string"@), e)
                } else {
                    Lexed::Token(
                        TokenView {
                            instr: InstrView::String(text.subrange(c1.idx as int, e.idx as int)),
                            pos: pos.extended(span(e)),
                        },
                        step(text, e),
                    )
                }
            } else if ch == '\'' {
                let c2 = step(text, c1);
                if at(text, c1) is None {
                    Lexed::Fail(fail(pos, "expected character"@), c1)
                } else if at(text, c2) != Some('\'') {
                    Lexed::Fail(fail(pos, "unclosed character"@), c2)
                } else {
                    Lexed::Token(
                        TokenView {
                            instr: InstrView::Char(at(text, c1)->0),
                            pos: pos.extended(span(c2)),
                        },
                        step(text, c2),
                    )
                }
            } else if ch == '(' {
                match group(text, c1, ')', pos, Seq::empty()) {
                    Grouped::Fail(e, stop) => Lexed::Fail(e, stop),
                    Grouped::Done(ids, e) => Lexed::Token(
                        TokenView {
                            instr: InstrView::Take(ids.reverse()),
                            pos: pos.extended(span(e)),
                        },
                        step(text, e),
                    ),
                }
            } else if ch == '{' {
                match group(text, c1, '}', pos, Seq::empty()) {
                    Grouped::Fail(e, stop) => Lexed::Fail(e, stop),
                    Grouped::Done(ids, e) => Lexed::Token(
                        TokenView {
                            instr: InstrView::CopyTo(ids.reverse()),
                            pos: pos.extended(span(e)),
                        },
                        step(text, e),
                    ),
                }
            } else if ch == '@' {
                match next_token(text, c1) {
                    Lexed::Fail(e, stop) => Lexed::Fail(e, stop),
                    Lexed::End(stop) => Lexed::Fail(fail(pos, "unexpected end"@), stop),
                    Lexed::Token(t, after) => Lexed::Token(
                        TokenView { instr: InstrView::Copy(Box::new(t)), pos: pos.extended(t.pos) },
                        after,
                    ),
                }
            } else if ch == '#' {
                next_token(text, after_comment(text, c))
            } else {
                let (e, p) = scan_word(text, c1, pos);
                match classify(text.subrange(c.idx as int, e.idx as int), p) {
                    Ok(instr) => Lexed::Token(TokenView { instr, pos: p }, e),
                    Err(err) => Lexed::Fail(err, e),
                }
            }
        },
    }
}

/// The names of a group from `c` on, after the names `ids`, up to the
/// character `close`. The group ends where `close` stands directly after
/// a name or after the opening; every token before that must be an
/// identifier. `pos` is the span of the opening, where errors are
/// reported. (A token always ends after the place where it was looked
/// for, which the definition asks for to be well founded.)
pub open spec fn group(
    text: Seq<char>,
    c: Cursor,
    close: char,
    pos: Position,
    ids: Seq<Seq<char>>,
) -> Grouped
    decreases usize::MAX - c.idx, 1nat,
{
    match at(text, c) {
        None => Grouped::Fail(fail(pos, unclosed(close)), c),
        Some(ch) => if ch == close {
            Grouped::Done(ids, c)
        } else {
            match next_token(text, c) {
                Lexed::Fail(e, stop) => Grouped::Fail(e, stop),
                Lexed::End(stop) => Grouped::Fail(fail(pos, unclosed(close)), stop),
                Lexed::Token(t, after) => match t.instr {
                    InstrView::ID(id) => if after.idx > c.idx {
                        group(text, after, close, pos, ids.push(id))
                    } else {
                        Grouped::Fail(fail(pos, unclosed(close)), after)
                    },
                    other => Grouped::Fail(fail(pos, not_a_name(other)), after),
                },
            }
        },
    }
}

/// `first`, and after it what `rest` gives, if it gives tokens.
pub open spec fn followed(first: Seq<TokenView>, rest: Result<Seq<TokenView>, ErrorView>) -> Result<
    Seq<TokenView>,
    ErrorView,
> {
    match rest {
        Ok(more) => Ok(first + more),
        Err(e) => Err(e),
    }
}

/// The tokens of `text` from `c` on, or the first error met.
pub open spec fn tokens_from(text: Seq<char>, c: Cursor) -> Result<Seq<TokenView>, ErrorView>
    decreases usize::MAX - c.idx,
{
    match next_token(text, c) {
        Lexed::Fail(e, _) => Err(e),
        Lexed::End(_) => Ok(Seq::empty()),
        Lexed::Token(t, after) => if after.idx > c.idx {
            followed(seq![t], tokens_from(text, after))
        } else {
            Ok(seq![t])
        },
    }
}

/// The tokens of `text`, or the first error met.
pub open spec fn tokens_of(text: Seq<char>) -> Result<Seq<TokenView>, ErrorView> {
    tokens_from(text, Cursor { idx: 0, ln: 0, col: 0 })
}

/// Whether the outcome `r` of reading a token, with the cursor left at
/// `stop`, is the outcome `l`.
pub open spec fn lexed_as(r: Result<Option<Token>, Error>, stop: Cursor, l: Lexed) -> bool {
    match l {
        Lexed::Token(t, c) => r is Ok && r->Ok_0 is Some && r->Ok_0->0@ == t && stop == c,
        Lexed::End(c) => r is Ok && r->Ok_0 is None && stop == c,
        Lexed::Fail(e, c) => r is Err && r->Err_0@ == e && stop == c,
    }
}

/// Whether the outcome `r` of reading a group, with the cursor left at
/// `stop`, is the outcome `g`.
pub open spec fn grouped_as(r: Result<Vec<String>, Error>, stop: Cursor, g: Grouped) -> bool {
    match g {
        Grouped::Done(ids, c) => r is Ok && texts(r->Ok_0@) == ids && stop == c,
        Grouped::Fail(e, c) => r is Err && r->Err_0@ == e && stop == c,
    }
}

/// Whether `r` holds the tokens or the error that `t` gives.
pub open spec fn tokens_as(r: Result<Vec<Token>, Error>, t: Result<Seq<TokenView>, ErrorView>) -> bool {
    match t {
        Ok(tokens) => r is Ok && token_views(r->Ok_0@) == tokens,
        Err(e) => r is Err && r->Err_0@ == e,
    }
}

/// Reverses a list of names.
pub fn reversed(v: Vec<String>) -> (r: Vec<String>)
    ensures
        texts(r@) == texts(v@).reverse(),
{
    let mut v = v;
    let ghost all = texts(v@);
    let mut out: Vec<String> = Vec::new();
    while v.len() > 0
        invariant
            v.len() + out.len() == all.len(),
            texts(v@) == all.take(v.len() as int),
            texts(out@) == all.reverse().take(out.len() as int),
        decreases v.len(),
    {
        let ghost before = out@;
        let ghost rest = v@;
        let name = v.pop().unwrap();
        out.push(name);
        proof {
            assert(name@ == texts(rest)[rest.len() - 1]);
            assert(texts(v@) =~= all.take(v.len() as int));
            assert forall|k: int| 0 <= k < out.len() implies texts(out@)[k] == all.reverse().take(
                out.len() as int,
            )[k] by {
                if k < before.len() {
                    assert(texts(before)[k] == all.reverse().take(before.len() as int)[k]);
                }
            }
            assert(texts(out@) =~= all.reverse().take(out.len() as int));
        }
    }
    assert(all.reverse().take(all.len() as int) =~= all.reverse());
    out
}

/// A tokenizer over one text.
pub struct Lexer {
    text: Vec<char>,
    idx: usize,
    ln: usize,
    col: usize,
}

impl Lexer {
    /// The text that is read.
    pub closed spec fn text(&self) -> Seq<char> {
        self.text@
    }

    /// The place that the tokenizer has come to.
    pub closed spec fn cursor(&self) -> Cursor {
        Cursor { idx: self.idx, ln: self.ln, col: self.col }
    }

    /// A tokenizer at the start of `text`.
    pub fn new(text: String) -> (r: Self)
        ensures
            r.text() == text@,
            r.cursor() == (Cursor { idx: 0, ln: 0, col: 0 }),
    {
        Self { text: chars_of(text.as_str()), idx: 0, ln: 0, col: 0 }
    }

    /// The character under the cursor.
    pub fn get(&self) -> (r: Option<char>)
        ensures
            r == at(self.text(), self.cursor()),
    {
        if self.idx < self.text.len() {
            Some(self.text[self.idx])
        } else {
            None
        }
    }

    /// The span of the character under the cursor.
    pub fn pos(&self) -> (r: Position)
        ensures
            r == span(self.cursor()),
    {
        Position::new(
            self.idx..next_of(self.idx),
            self.ln..next_of(self.ln),
            self.col..next_of(self.col),
        )
    }

    /// Moves on by one character.
    pub fn advance(&mut self)
        ensures
            final(self).text() == old(self).text(),
            final(self).cursor() == step(old(self).text(), old(self).cursor()),
    {
        self.idx = next_of(self.idx);
        self.col = next_of(self.col);
        if self.idx < self.text.len() && self.text[self.idx] == '\n' {
            self.ln = next_of(self.ln);
            self.col = 0;
        }
    }

    /// Moves on over white space.
    pub fn advance_ws(&mut self)
        ensures
            final(self).text() == old(self).text(),
            final(self).cursor() == skip_space(old(self).text(), old(self).cursor()),
    {
        loop
            invariant
                self.text() == old(self).text(),
                skip_space(self.text(), self.cursor()) == skip_space(
                    old(self).text(),
                    old(self).cursor(),
                ),
            ensures
                self.text() == old(self).text(),
                self.cursor() == skip_space(old(self).text(), old(self).cursor()),
            decreases usize::MAX - self.idx,
        {
            match self.get() {
                Some(c) => {
                    if !whitespace(c) || symbol(c) {
                        break ;
                    }
                    self.advance();
                },
                None => {
                    break ;
                },
            }
        }
    }
}

impl Lexer {
    /// Moves on to the next `stop` or to the end of the text, and returns
    /// the characters passed.
    fn scan(&mut self, stop: char) -> (out: Vec<char>)
        requires
            old(self).idx <= old(self).text.len(),
        ensures
            final(self).text() == old(self).text(),
            final(self).cursor() == scan_to(old(self).text(), old(self).cursor(), stop),
            old(self).idx <= final(self).idx <= final(self).text.len(),
            out@ == old(self).text().subrange(old(self).idx as int, final(self).idx as int),
    {
        let mut out: Vec<char> = Vec::new();
        loop
            invariant
                self.text() == old(self).text(),
                old(self).idx <= self.idx <= self.text.len(),
                scan_to(self.text(), self.cursor(), stop) == scan_to(
                    old(self).text(),
                    old(self).cursor(),
                    stop,
                ),
                out@ == self.text().subrange(old(self).idx as int, self.idx as int),
            ensures
                self.text() == old(self).text(),
                old(self).idx <= self.idx <= self.text.len(),
                self.cursor() == scan_to(old(self).text(), old(self).cursor(), stop),
                out@ == self.text().subrange(old(self).idx as int, self.idx as int),
            decreases usize::MAX - self.idx,
        {
            match self.get() {
                Some(c) => {
                    if c == stop {
                        break ;
                    }
                    out.push(c);
                    assert(self.text().subrange(old(self).idx as int, self.idx + 1)
                        =~= self.text().subrange(old(self).idx as int, self.idx as int).push(c));
                    self.advance();
                },
                None => {
                    break ;
                },
            }
        }
        out
    }

    /// Moves on to the end of the lexeme, appends the characters passed
    /// to `id` and grows `pos` over them.
    fn word(&mut self, pos: &mut Position, id: &mut Vec<char>)
        requires
            old(self).idx <= old(self).text.len(),
        ensures
            final(self).text() == old(self).text(),
            (final(self).cursor(), *final(pos)) == scan_word(
                old(self).text(),
                old(self).cursor(),
                *old(pos),
            ),
            old(self).idx <= final(self).idx <= final(self).text.len(),
            final(id)@ == old(id)@ + old(self).text().subrange(
                old(self).idx as int,
                final(self).idx as int,
            ),
    {
        loop
            invariant
                self.text() == old(self).text(),
                old(self).idx <= self.idx <= self.text.len(),
                scan_word(self.text(), self.cursor(), *pos) == scan_word(
                    old(self).text(),
                    old(self).cursor(),
                    *old(pos),
                ),
                id@ == old(id)@ + self.text().subrange(old(self).idx as int, self.idx as int),
            ensures
                self.text() == old(self).text(),
                old(self).idx <= self.idx <= self.text.len(),
                (self.cursor(), *pos) == scan_word(
                    old(self).text(),
                    old(self).cursor(),
                    *old(pos),
                ),
                id@ == old(id)@ + self.text().subrange(old(self).idx as int, self.idx as int),
            decreases usize::MAX - self.idx,
        {
            match self.get() {
                Some(c) => {
                    if whitespace(c) || symbol(c) {
                        break ;
                    }
                    id.push(c);
                    assert(self.text().subrange(old(self).idx as int, self.idx + 1)
                        =~= self.text().subrange(old(self).idx as int, self.idx as int).push(c));
                    assert(id@ =~= old(id)@ + self.text().subrange(
                        old(self).idx as int,
                        self.idx + 1,
                    ));
                    pos.extend(self.pos());
                    self.advance();
                },
                None => {
                    break ;
                },
            }
        }
    }

    /// Reads the names of a group up to `close`, after the names `ids`.
    /// The cursor is left on `close`.
    fn group(&mut self, close: char, pos: &Position, ids: Vec<String>) -> (r: Result<
        Vec<String>,
        Error,
    >)
        ensures
            final(self).text() == old(self).text(),
            grouped_as(
                r,
                final(self).cursor(),
                group(old(self).text(), old(self).cursor(), close, *pos, texts(ids@)),
            ),
            r is Ok ==> at(final(self).text(), final(self).cursor()) is Some,
            r is Ok ==> final(self).cursor().idx >= old(self).cursor().idx,
        decreases usize::MAX - old(self).cursor().idx, 1nat,
    {
        match self.get() {
            None => {
                let msg = if close == ')' {
                    "unclosed identifier take"
                } else {
                    "unclosed identifier copy"
                };
                Err(Error::new(msg.to_string(), Some(pos.clone())))
            },
            Some(ch) => {
                if ch == close {
                    return Ok(ids);
                }
                match self.next() {
                    Err(e) => Err(e),
                    Ok(None) => {
                        let msg = if close == ')' {
                            "unclosed identifier take"
                        } else {
                            "unclosed identifier copy"
                        };
                        Err(Error::new(msg.to_string(), Some(pos.clone())))
                    },
                    Ok(Some(token)) => {
                        match token.instr {
                            Instr::ID(id) => {
                                let mut ids = ids;
                                let ghost before = ids@;
                                ids.push(id);
                                assert(texts(ids@) =~= texts(before).push(id@));
                                self.group(close, pos, ids)
                            },
                            other => {
                                let mut msg: Vec<char> = Vec::new();
                                push_str(&mut msg, "expected identifier, got ");
                                let name = other.name();
                                push_str(&mut msg, name.as_str());
                                Err(Error::new(string_of(&msg), Some(pos.clone())))
                            },
                        }
                    },
                }
            },
        }
    }

    /// Reads the next token; `None` at the end of the text.
    pub fn next(&mut self) -> (r: Result<Option<Token>, Error>)
        ensures
            final(self).text() == old(self).text(),
            lexed_as(r, final(self).cursor(), next_token(old(self).text(), old(self).cursor())),
            r is Ok && r->Ok_0 is Some ==> final(self).cursor().idx > old(self).cursor().idx,
        decreases usize::MAX - old(self).cursor().idx, 0nat,
    {
        proof {
            skip_space_forward(self.text(), self.cursor());
        }
        self.advance_ws();
        let mut pos = self.pos();
        let ghost text = self.text();
        let ghost c = self.cursor();
        match self.get() {
            None => Ok(None),
            Some(ch) => {
                if ch == '"' {
                    self.advance();
                    let string = self.scan('"');
                    if self.get().is_none() {
                        return Err(Error::new("unclosed string".to_string(), Some(pos)));
                    }
                    pos.extend(self.pos());
                    self.advance();
                    Ok(Some(Token::new(Instr::String(string_of(&string)), pos)))
                } else if ch == '\'' {
                    self.advance();
                    match self.get() {
                        None => Err(Error::new("expected character".to_string(), Some(pos))),
                        Some(x) => {
                            self.advance();
                            match self.get() {
                                Some('\'') => {
                                    pos.extend(self.pos());
                                    self.advance();
                                    Ok(Some(Token::new(Instr::Char(x), pos)))
                                },
                                _ => Err(Error::new("unclosed character".to_string(), Some(pos))),
                            }
                        },
                    }
                } else if ch == '(' {
                    self.advance();
                    let start: Vec<String> = Vec::new();
                    assert(texts(start@) =~= Seq::<Seq<char>>::empty());
                    match self.group(')', &pos, start) {
                        Err(e) => Err(e),
                        Ok(ids) => {
                            pos.extend(self.pos());
                            self.advance();
                            Ok(Some(Token::new(Instr::Take(reversed(ids)), pos)))
                        },
                    }
                } else if ch == '{' {
                    self.advance();
                    let start: Vec<String> = Vec::new();
                    assert(texts(start@) =~= Seq::<Seq<char>>::empty());
                    match self.group('}', &pos, start) {
                        Err(e) => Err(e),
                        Ok(ids) => {
                            pos.extend(self.pos());
                            self.advance();
                            Ok(Some(Token::new(Instr::CopyTo(reversed(ids)), pos)))
                        },
                    }
                } else if ch == '@' {
                    self.advance();
                    match self.next() {
                        Err(e) => Err(e),
                        Ok(None) => Err(Error::new("unexpected end".to_string(), Some(pos))),
                        Ok(Some(inner)) => {
                            pos.extend(inner.pos.clone());
                            Ok(Some(Token::new(Instr::Copy(Box::new(inner)), pos)))
                        },
                    }
                } else if ch == '#' {
                    self.advance();
                    proof {
                        scan_to_forward(text, step(text, c), '\n');
                    }
                    let _ = self.scan('\n');
                    if self.get().is_some() {
                        self.advance();
                    }
                    assert(self.cursor() == after_comment(text, c));
                    self.next()
                } else {
                    self.advance();
                    let mut id: Vec<char> = Vec::new();
                    id.push(ch);
                    self.word(&mut pos, &mut id);
                    assert(id@ =~= text.subrange(c.idx as int, self.idx as int));
                    match Instr::get(string_of(&id), pos.clone()) {
                        Ok(instr) => Ok(Some(Token::new(instr, pos))),
                        Err(e) => Err(e),
                    }
                }
            },
        }
    }

    /// Reads all the tokens that are left.
    pub fn lex(&mut self) -> (r: Result<Vec<Token>, Error>)
        ensures
            final(self).text() == old(self).text(),
            tokens_as(r, tokens_from(old(self).text(), old(self).cursor())),
    {
        let mut tokens: Vec<Token> = Vec::new();
        loop
            invariant
                self.text() == old(self).text(),
                tokens_from(old(self).text(), old(self).cursor()) == followed(
                    token_views(tokens@),
                    tokens_from(self.text(), self.cursor()),
                ),
            decreases usize::MAX - self.idx,
        {
            let ghost before = token_views(tokens@);
            match self.next() {
                Err(e) => {
                    return Err(e);
                },
                Ok(None) => {
                    assert(before + Seq::<TokenView>::empty() =~= before);
                    return Ok(tokens);
                },
                Ok(Some(token)) => {
                    tokens.push(token);
                    proof {
                        assert(token_views(tokens@) =~= before + seq![token@]);
                        let rest = tokens_from(self.text(), self.cursor());
                        if rest is Ok {
                            assert(before + (seq![token@] + rest->Ok_0) =~= token_views(tokens@)
                                + rest->Ok_0);
                        }
                    }
                },
            }
        }
    }
}

/// Splits `text` into its tokens. It fails on the first lexeme that is
/// none, and on a string, character or group that the text ends in.
pub fn lex(text: String) -> (r: Result<Vec<Token>, Error>)
    ensures
        tokens_as(r, tokens_of(text@)),
{
    let mut lexer = Lexer::new(text);
    lexer.lex()
}

/// The number after `n`, or `n` where there is no greater.
pub fn next_of(n: usize) -> (r: usize)
    ensures
        r == succ(n),
{
    if n < usize::MAX {
        n + 1
    } else {
        n
    }
}

} // verus!
