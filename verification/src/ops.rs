//! The operations that the library implements itself, as functions from
//! the values they take to the values they leave.

use crate::text::{chars_of, decimal, push_all, push_decimal, push_str, rows, slice_of, string_of};
use crate::registry::Builtin;
use crate::stack::{value_views, Stack};
use crate::value::{Float, Value, ValueView};
use vstd::prelude::*;

verus! {

/// A number as it is handed out for floating-point work.
#[derive(Clone, Copy, Debug, PartialEq, Eq, Structural)]
pub enum Number {
    Int(i64),
    Float(Float),
}

/// The arithmetic operations on floating-point numbers.
#[derive(Clone, Copy, Debug, PartialEq, Eq, Structural)]
pub enum Arith {
    Add,
    Sub,
    Mul,
    Div,
    Rem,
}

/// The comparisons of floating-point numbers.
#[derive(Clone, Copy, Debug, PartialEq, Eq, Structural)]
pub enum Relation {
    Eq,
    Ne,
    Lt,
    Gt,
    Le,
    Ge,
}

/// Floating-point work that the evaluator asks of its caller. The
/// library holds floating-point numbers as bit patterns and computes
/// nothing on them.
#[derive(Debug, PartialEq)]
pub enum FloatRequest {
    /// The number that a literal denotes.
    Parse(String),
    /// The result of an operation on two numbers, each integer among them
    /// converted first.
    Arith(Arith, Number, Number),
    /// Whether a relation holds of two numbers, each integer among them
    /// converted first.
    Compare(Relation, Number, Number),
    /// The number written as text.
    Show(Float),
}

/// What a `FloatRequest` holds.
pub enum FloatRequestView {
    Parse(Seq<char>),
    Arith(Arith, Number, Number),
    Compare(Relation, Number, Number),
    Show(Float),
}

impl View for FloatRequest {
    type V = FloatRequestView;

    open spec fn view(&self) -> FloatRequestView {
        match self {
            FloatRequest::Parse(s) => FloatRequestView::Parse(s@),
            FloatRequest::Arith(op, a, b) => FloatRequestView::Arith(*op, *a, *b),
            FloatRequest::Compare(op, a, b) => FloatRequestView::Compare(*op, *a, *b),
            FloatRequest::Show(x) => FloatRequestView::Show(*x),
        }
    }
}

/// The answer to a `FloatRequest`.
#[derive(Debug, PartialEq)]
pub enum FloatReply {
    Number(Float),
    Truth(bool),
    Text(String),
}

/// What a `FloatReply` holds.
pub enum FloatReplyView {
    Number(Float),
    Truth(bool),
    Text(Seq<char>),
}

impl View for FloatReply {
    type V = FloatReplyView;

    open spec fn view(&self) -> FloatReplyView {
        match self {
            FloatReply::Number(x) => FloatReplyView::Number(*x),
            FloatReply::Truth(b) => FloatReplyView::Truth(*b),
            FloatReply::Text(s) => FloatReplyView::Text(s@),
        }
    }
}

/// The answer that the evaluator waits for, and what it does with it: a
/// number or a truth value is pushed; a text takes the place of the value
/// at the given index of the stack, counted from the bottom.
#[derive(Clone, Copy, Debug, PartialEq, Eq, Structural)]
pub enum Pending {
    Nothing,
    Number,
    Truth,
    Text(usize),
}

/// `s` repeated `n` times.
pub open spec fn repeated(s: Seq<char>, n: nat) -> Seq<char>
    decreases n,
{
    if n == 0 {
        Seq::empty()
    } else {
        repeated(s, (n - 1) as nat) + s
    }
}

/// The first index from `from` on at which `pat` occurs in `s`.
pub open spec fn find_from(s: Seq<char>, pat: Seq<char>, from: int) -> Option<int>
    decreases s.len() - from,
{
    if from < 0 || from + pat.len() > s.len() {
        None
    } else if s.subrange(from, from + pat.len()) == pat {
        Some(from)
    } else if from >= s.len() {
        None
    } else {
        find_from(s, pat, from + 1)
    }
}

/// The number of indices from `from` on, inside `s`, at which `pat`
/// occurs in `s`. Occurrences may overlap.
pub open spec fn count_from(s: Seq<char>, pat: Seq<char>, from: int) -> nat
    decreases s.len() - from,
{
    if from < 0 || from >= s.len() {
        0
    } else if from + pat.len() <= s.len() && s.subrange(from, from + pat.len()) == pat {
        1 + count_from(s, pat, from + 1)
    } else {
        count_from(s, pat, from + 1)
    }
}

/// Each character of `s` from `from` on, as a text of its own.
pub open spec fn letters(s: Seq<char>) -> Seq<Seq<char>> {
    Seq::new(s.len(), |i: int| seq![s[i]])
}

/// The parts of `s` from `from` on between the occurrences of the
/// non-empty pattern `pat`, which are looked for from left to right and
/// do not overlap.
pub open spec fn parts_from(s: Seq<char>, pat: Seq<char>, from: int) -> Seq<Seq<char>>
    decreases s.len() - from,
{
    match find_from(s, pat, from) {
        Some(i) => if pat.len() > 0 && from <= i && i + pat.len() <= s.len() {
            seq![s.subrange(from, i)] + parts_from(s, pat, i + pat.len())
        } else {
            seq![s.subrange(from, s.len() as int)]
        },
        None => seq![s.subrange(from, s.len() as int)],
    }
}

/// The parts into which `pat` splits `s`. The empty pattern splits
/// before, between and after all characters.
pub open spec fn parts(s: Seq<char>, pat: Seq<char>) -> Seq<Seq<char>> {
    if pat.len() == 0 {
        seq![Seq::<char>::empty()] + letters(s) + seq![Seq::<char>::empty()]
    } else {
        parts_from(s, pat, 0)
    }
}

/// The texts `items` with `sep` between them.
pub open spec fn glued(items: Seq<Seq<char>>, sep: Seq<char>) -> Seq<char>
    decreases items.len(),
{
    if items.len() == 0 {
        Seq::empty()
    } else if items.len() == 1 {
        items[0]
    } else {
        glued(items.drop_last(), sep) + sep + items.last()
    }
}

/// The decimal numeral of `i`, with a minus sign where it is negative.
pub open spec fn signed_decimal(i: int) -> Seq<char> {
    if i < 0 {
        seq!['-'] + decimal((-i) as nat)
    } else {
        decimal(i as nat)
    }
}

/// Whether `s` has `pat` at `at`.
pub fn occurs_at(s: &Vec<char>, pat: &Vec<char>, at: usize) -> (r: bool)
    requires
        at + pat.len() <= s.len(),
    ensures
        r == (s@.subrange(at as int, at + pat.len()) == pat@),
{
    let mut k: usize = 0;
    while k < pat.len()
        invariant
            k <= pat.len(),
            at + pat.len() <= s.len(),
            s@.subrange(at as int, at + k) == pat@.take(k as int),
        decreases pat.len() - k,
    {
        if s[at + k] != pat[k] {
            assert(s@.subrange(at as int, at + pat.len())[k as int] != pat@[k as int]);
            return false;
        }
        assert(s@.subrange(at as int, at + k + 1) =~= s@.subrange(at as int, at + k).push(
            s@[at + k],
        ));
        assert(pat@.take(k + 1) =~= pat@.take(k as int).push(pat@[k as int]));
        k += 1;
    }
    assert(pat@.take(pat.len() as int) =~= pat@);
    true
}

/// The first index from `from` on at which `pat` occurs in `s`.
pub fn find(s: &Vec<char>, pat: &Vec<char>, from: usize) -> (r: Option<usize>)
    ensures
        match find_from(s@, pat@, from as int) {
            Some(i) => r == Some(i as usize) && from <= i && i + pat.len() <= s.len(),
            None => r is None,
        },
{
    if pat.len() > s.len() {
        assert(find_from(s@, pat@, from as int) is None);
        return None;
    }
    let last: usize = s.len() - pat.len();
    if from > last {
        return None;
    }
    let mut i: usize = from;
    loop
        invariant
            from <= i <= last,
            last == s.len() - pat.len(),
            pat.len() <= s.len(),
            find_from(s@, pat@, from as int) == find_from(s@, pat@, i as int),
        decreases last - i,
    {
        if occurs_at(s, pat, i) {
            return Some(i);
        }
        if i == last {
            return None;
        }
        i += 1;
    }
}

/// The number of places of `s` at which `pat` occurs.
pub fn count(s: &Vec<char>, pat: &Vec<char>) -> (r: usize)
    ensures
        r == count_from(s@, pat@, 0),
{
    let mut n: usize = 0;
    let mut i: usize = s.len();
    while i > 0
        invariant
            i <= s.len(),
            n == count_from(s@, pat@, i as int),
            n <= s.len() - i,
        decreases i,
    {
        i -= 1;
        if pat.len() <= s.len() - i && occurs_at(s, pat, i) {
            n += 1;
        }
    }
    n
}

/// `s` backward.
pub fn reverse(s: &Vec<char>) -> (r: Vec<char>)
    ensures
        r@ == s@.reverse(),
{
    let mut out: Vec<char> = Vec::new();
    let mut i: usize = s.len();
    while i > 0
        invariant
            i <= s.len(),
            out@ == s@.reverse().take(s.len() - i),
        decreases i,
    {
        i -= 1;
        out.push(s[i]);
        assert(out@ =~= s@.reverse().take(s.len() - i));
    }
    assert(s@.reverse().take(s.len() as int) =~= s@.reverse());
    out
}

/// `s` as often as `n` says, and not at all where `n` is negative.
pub fn repeat(s: &Vec<char>, n: i64) -> (r: Vec<char>)
    ensures
        r@ == repeated(
            s@,
            if n > 0 {
                n as nat
            } else {
                0
            },
        ),
{
    let mut out: Vec<char> = Vec::new();
    let mut k: i64 = 0;
    while k < n
        invariant
            0 <= k,
            k <= n || n < 0,
            n <= 0 ==> k == 0,
            out@ == repeated(s@, k as nat),
        decreases n - k,
    {
        push_all(&mut out, s);
        k += 1;
    }
    out
}

/// Appends the decimal numeral of `i`, with its sign.
pub fn push_signed(out: &mut Vec<char>, i: i64)
    ensures
        final(out)@ == old(out)@ + signed_decimal(i as int),
{
    if i < 0 {
        out.push('-');
        let magnitude: u128 = (-(i as i128)) as u128;
        push_decimal(out, magnitude);
        assert(out@ =~= old(out)@ + signed_decimal(i as int));
    } else {
        push_decimal(out, i as u128);
    }
}

/// The index `idx` brought into a text of `len` characters: indices
/// count on from the end to the start and from the start to the end.
pub open spec fn wrapped(idx: int, len: int) -> int {
    idx % len
}

/// Brings an index into a text of `len` characters.
pub fn wrap(idx: i64, len: usize) -> (r: usize)
    requires
        len > 0,
    ensures
        r == wrapped(idx as int, len as int),
        r < len,
{
    let n: u128 = len as u128;
    if idx >= 0 {
        let r: u128 = (idx as u128) % n;
        r as usize
    } else {
        let m: u128 = (-(idx as i128)) as u128;
        let r: u128 = m % n;
        proof {
            let q = (m as int) / (n as int);
            vstd::arithmetic::div_mod::lemma_fundamental_div_mod(m as int, n as int);
            if r == 0 {
                assert(idx as int == (-q) * n + 0) by (nonlinear_arith)
                    requires
                        m as int == n * q + 0,
                        idx as int == -(m as int),
                ;
                vstd::arithmetic::div_mod::lemma_fundamental_div_mod_converse(
                    idx as int,
                    n as int,
                    -q,
                    0,
                );
            } else {
                assert(idx as int == (-q - 1) * n + (n - r)) by (nonlinear_arith)
                    requires
                        m as int == n * q + r,
                        idx as int == -(m as int),
                ;
                vstd::arithmetic::div_mod::lemma_fundamental_div_mod_converse(
                    idx as int,
                    n as int,
                    -q - 1,
                    n - r,
                );
            }
        }
        if r == 0 {
            0
        } else {
            (n - r) as usize
        }
    }
}

/// The parts into which `pat` splits `s`.
pub fn split(s: &Vec<char>, pat: &Vec<char>) -> (r: Vec<Vec<char>>)
    ensures
        rows(r@) == parts(s@, pat@),
{
    let mut out: Vec<Vec<char>> = Vec::new();
    if pat.len() == 0 {
        out.push(Vec::new());
        let mut i: usize = 0;
        while i < s.len()
            invariant
                i <= s.len(),
                out.len() == i + 1,
                rows(out@) == seq![Seq::<char>::empty()] + letters(s@).take(i as int),
            decreases s.len() - i,
        {
            let mut one: Vec<char> = Vec::new();
            one.push(s[i]);
            let ghost before = out@;
            out.push(one);
            assert(rows(out@) =~= seq![Seq::<char>::empty()] + letters(s@).take(i + 1)) by {
                assert forall|k: int| 0 <= k < i + 2 implies rows(out@)[k] == (seq![
                    Seq::<char>::empty(),
                ] + letters(s@).take(i + 1))[k] by {
                    if k <= i {
                        assert(out@[k] == before[k]);
                        assert(rows(before)[k] == (seq![Seq::<char>::empty()] + letters(s@).take(
                            i as int,
                        ))[k]);
                    } else {
                        assert(one@ =~= seq![s@[i as int]]);
                    }
                }
            }
            i += 1;
        }
        let ghost before = out@;
        out.push(Vec::new());
        assert(letters(s@).take(s.len() as int) =~= letters(s@));
        assert(rows(out@) =~= parts(s@, pat@)) by {
            assert forall|k: int| 0 <= k < out@.len() implies rows(out@)[k] == parts(s@, pat@)[k] by {
                if k < before.len() {
                    assert(out@[k] == before[k]);
                    assert(rows(before)[k] == (seq![Seq::<char>::empty()] + letters(s@))[k]);
                }
            }
        }
        return out;
    }
    let mut from: usize = 0;
    loop
        invariant
            from <= s.len(),
            pat.len() > 0,
            parts(s@, pat@) == rows(out@) + parts_from(s@, pat@, from as int),
        decreases s.len() - from,
    {
        let ghost before = out@;
        match find(s, pat, from) {
            Some(i) => {
                let part = slice_of(s, from, i);
                out.push(part);
                assert(rows(out@) =~= rows(before) + seq![s@.subrange(from as int, i as int)]);
                assert(parts(s@, pat@) =~= rows(out@) + parts_from(s@, pat@, i + pat.len()));
                from = i + pat.len();
            },
            None => {
                let part = slice_of(s, from, s.len());
                out.push(part);
                assert(rows(out@) =~= rows(before) + seq![
                    s@.subrange(from as int, s.len() as int),
                ]);
                return out;
            },
        }
    }
}

/// The texts `items` with `sep` between them.
pub fn glue(items: &Vec<Vec<char>>, sep: &Vec<char>) -> (r: Vec<char>)
    ensures
        r@ == glued(rows(items@), sep@),
{
    let mut out: Vec<char> = Vec::new();
    let mut i: usize = 0;
    while i < items.len()
        invariant
            i <= items.len(),
            out@ == glued(rows(items@).take(i as int), sep@),
        decreases items.len() - i,
    {
        let ghost before = out@;
        if i > 0 {
            push_all(&mut out, sep);
        }
        push_all(&mut out, &items[i]);
        proof {
            let next = rows(items@).take(i + 1);
            assert(next.drop_last() =~= rows(items@).take(i as int));
            assert(next.last() == items@[i as int]@);
            if i == 0 {
                assert(before =~= Seq::<char>::empty());
                assert(out@ =~= next[0]);
            }
        }
        i += 1;
    }
    assert(rows(items@).take(items.len() as int) =~= rows(items@));
    out
}

/// What an operation makes of the values it takes: values to leave in
/// their place, floating-point work to ask for, or a failure.
pub enum Computed {
    Push(Seq<ValueView>),
    Ask(FloatRequestView, Pending),
    Fail(Seq<char>),
}

/// What an operation makes of a stack: the stack it leaves; or
/// floating-point work to ask for, the answer to wait for and the stack
/// left meanwhile; or a failure, which leaves the stack as it was.
pub enum Native {
    Done(Seq<ValueView>),
    Ask(FloatRequestView, Pending, Seq<ValueView>),
    Fail(Seq<char>),
}

/// The message for an operation that met values of types it has no
/// meaning for, or too few values.
pub open spec fn fault() -> Seq<char> {
    "type checking error!!!"@
}

/// The message for an index into a text without characters.
pub open spec fn no_characters() -> Seq<char> {
    "cannot index an empty string"@
}

/// The message for a range that ends before it starts.
pub open spec fn bad_range() -> Seq<char> {
    "the range ends before it starts"@
}

/// The message for a remainder of a division by zero.
pub open spec fn zero_divisor() -> Seq<char> {
    "attempt to calculate the remainder with a divisor of zero"@
}

/// `n` as a 64-bit integer, or the greatest of them where it is none.
pub open spec fn clamp(n: int) -> i64 {
    if n <= i64::MAX {
        n as i64
    } else {
        i64::MAX
    }
}

/// The number of values that an operation takes from the top of the
/// stack. `Join` takes all there are.
pub open spec fn arity(op: Builtin) -> nat {
    match op {
        Builtin::StackLen | Builtin::Join => 0,
        Builtin::Len | Builtin::Drop | Builtin::Copy | Builtin::Not | Builtin::Rev => 1,
        Builtin::IndexRange => 3,
        _ => 2,
    }
}

/// The number that a value is, if it is one.
pub open spec fn number_of(v: ValueView) -> Option<Number> {
    match v {
        ValueView::Int(i) => Some(Number::Int(i)),
        ValueView::Float(x) => Some(Number::Float(x)),
        _ => None,
    }
}

/// The remainder of `a` by `b`, with the sign of `a`; `b` is not zero.
pub open spec fn remainder(a: i64, b: i64) -> i64 {
    match a.checked_rem(b) {
        Some(r) => r,
        None => 0,
    }
}

/// The arithmetic operation that `op` asks for on floating-point
/// numbers, if it is an arithmetic operation.
pub open spec fn arith_of(op: Builtin) -> Option<Arith> {
    match op {
        Builtin::Add => Some(Arith::Add),
        Builtin::Sub => Some(Arith::Sub),
        Builtin::Mult => Some(Arith::Mul),
        Builtin::Div => Some(Arith::Div),
        Builtin::Module => Some(Arith::Rem),
        _ => None,
    }
}

/// The relation that `op` tests, if it tests one.
pub open spec fn relation_of(op: Builtin) -> Option<Relation> {
    match op {
        Builtin::Eq => Some(Relation::Eq),
        Builtin::Ne => Some(Relation::Ne),
        Builtin::Lt => Some(Relation::Lt),
        Builtin::Gt => Some(Relation::Gt),
        Builtin::Le => Some(Relation::Le),
        Builtin::Ge => Some(Relation::Ge),
        _ => None,
    }
}

/// An arithmetic operation on two integers. Sums, differences and
/// products wrap around; a quotient is a floating-point number; a
/// remainder by zero fails.
pub open spec fn int_arith(op: Arith, a: i64, b: i64) -> Computed {
    match op {
        Arith::Add => Computed::Push(seq![ValueView::Int(a.wrapping_add(b))]),
        Arith::Sub => Computed::Push(seq![ValueView::Int(a.wrapping_sub(b))]),
        Arith::Mul => Computed::Push(seq![ValueView::Int(a.wrapping_mul(b))]),
        Arith::Div => Computed::Ask(
            FloatRequestView::Arith(Arith::Div, Number::Int(a), Number::Int(b)),
            Pending::Number,
        ),
        Arith::Rem => if b == 0 {
            Computed::Fail(zero_divisor())
        } else {
            Computed::Push(seq![ValueView::Int(remainder(a, b))])
        },
    }
}

/// An arithmetic operation on two numbers: on integers as `int_arith`
/// says, and asked of the caller where one of them is a floating-point
/// number.
pub open spec fn arith(op: Arith, a: ValueView, b: ValueView) -> Computed {
    match (a, b) {
        (ValueView::Int(x), ValueView::Int(y)) => int_arith(op, x, y),
        _ => if number_of(a) is Some && number_of(b) is Some {
            Computed::Ask(
                FloatRequestView::Arith(op, number_of(a)->0, number_of(b)->0),
                Pending::Number,
            )
        } else {
            Computed::Fail(fault())
        },
    }
}

/// Whether `rel` holds of two integers.
pub open spec fn int_holds(rel: Relation, a: i64, b: i64) -> bool {
    match rel {
        Relation::Eq => a == b,
        Relation::Ne => a != b,
        Relation::Lt => a < b,
        Relation::Gt => a > b,
        Relation::Le => a <= b,
        Relation::Ge => a >= b,
    }
}

/// An ordering comparison of two numbers: decided on integers, and asked
/// of the caller where one of them is a floating-point number.
pub open spec fn ordering(rel: Relation, a: ValueView, b: ValueView) -> Computed {
    match (a, b) {
        (ValueView::Int(x), ValueView::Int(y)) => Computed::Push(
            seq![ValueView::Boolean(int_holds(rel, x, y))],
        ),
        _ => if number_of(a) is Some && number_of(b) is Some {
            Computed::Ask(
                FloatRequestView::Compare(rel, number_of(a)->0, number_of(b)->0),
                Pending::Truth,
            )
        } else {
            Computed::Fail(fault())
        },
    }
}

/// Whether two values are equal, or are not (`negate`). Values of
/// different kinds are not equal; two floating-point numbers are compared
/// by the caller.
pub open spec fn equality(negate: bool, a: ValueView, b: ValueView) -> Computed {
    match (a, b) {
        (ValueView::Float(x), ValueView::Float(y)) => Computed::Ask(
            FloatRequestView::Compare(
                if negate {
                    Relation::Ne
                } else {
                    Relation::Eq
                },
                Number::Float(x),
                Number::Float(y),
            ),
            Pending::Truth,
        ),
        _ => Computed::Push(seq![ValueView::Boolean((a == b) != negate)]),
    }
}

/// How often a text is repeated for the count `n`.
pub open spec fn times(n: i64) -> nat {
    if n > 0 {
        n as nat
    } else {
        0
    }
}

/// The character of `s` at the index `i`, which is brought into `s`
/// first.
pub open spec fn char_at(s: Seq<char>, i: i64) -> Computed {
    if s.len() == 0 {
        Computed::Fail(no_characters())
    } else {
        Computed::Push(seq![ValueView::Char(s[wrapped(i as int, s.len() as int)])])
    }
}

/// The pattern that a value is to search for: a text, or the one
/// character.
pub open spec fn pattern_of(v: ValueView) -> Option<Seq<char>> {
    match v {
        ValueView::String(p) => Some(p),
        ValueView::Char(c) => Some(seq![c]),
        _ => None,
    }
}

/// The texts `items` as string values.
pub open spec fn strings(items: Seq<Seq<char>>) -> Seq<ValueView> {
    Seq::new(items.len(), |i: int| ValueView::String(items[i]))
}

/// What the operation `op` makes of the values `args`, the last of which
/// was on top. `args` has as many values as `arity` says.
pub open spec fn computed(op: Builtin, args: Seq<ValueView>) -> Computed {
    let a = args[0];
    let b = args[1];
    match op {
        Builtin::Len => match a {
            ValueView::String(s) => Computed::Push(seq![ValueView::Int(clamp(s.len() as int))]),
            _ => Computed::Fail(fault()),
        },
        Builtin::Drop => Computed::Push(Seq::empty()),
        Builtin::Copy => Computed::Push(seq![a, a]),
        Builtin::Swap => Computed::Push(seq![b, a]),
        Builtin::Over => Computed::Push(seq![a, b, a]),
        Builtin::Add => match (a, b) {
            (ValueView::String(s), ValueView::String(t)) => Computed::Push(
                seq![ValueView::String(s + t)],
            ),
            (ValueView::String(s), ValueView::Char(c)) => Computed::Push(
                seq![ValueView::String(s.push(c))],
            ),
            _ => arith(Arith::Add, a, b),
        },
        Builtin::Sub => arith(Arith::Sub, a, b),
        Builtin::Mult => match (a, b) {
            (ValueView::String(s), ValueView::Int(n)) => Computed::Push(
                seq![ValueView::String(repeated(s, times(n)))],
            ),
            (ValueView::Char(c), ValueView::Int(n)) => Computed::Push(
                seq![ValueView::String(repeated(seq![c], times(n)))],
            ),
            _ => arith(Arith::Mul, a, b),
        },
        Builtin::Div => arith(Arith::Div, a, b),
        Builtin::Module => arith(Arith::Rem, a, b),
        Builtin::And => match (a, b) {
            (ValueView::Boolean(x), ValueView::Boolean(y)) => Computed::Push(
                seq![ValueView::Boolean(x && y)],
            ),
            _ => Computed::Fail(fault()),
        },
        Builtin::Or => match (a, b) {
            (ValueView::Boolean(x), ValueView::Boolean(y)) => Computed::Push(
                seq![ValueView::Boolean(x || y)],
            ),
            _ => Computed::Fail(fault()),
        },
        Builtin::Not => match a {
            ValueView::Boolean(x) => Computed::Push(seq![ValueView::Boolean(!x)]),
            _ => Computed::Fail(fault()),
        },
        Builtin::Eq => equality(false, a, b),
        Builtin::Ne => equality(true, a, b),
        Builtin::Lt => ordering(Relation::Lt, a, b),
        Builtin::Gt => ordering(Relation::Gt, a, b),
        Builtin::Le => ordering(Relation::Le, a, b),
        Builtin::Ge => ordering(Relation::Ge, a, b),
        Builtin::Index | Builtin::Remove => match (a, b) {
            (ValueView::String(s), ValueView::Int(i)) => char_at(s, i),
            _ => Computed::Fail(fault()),
        },
        Builtin::IndexRange => match (a, b, args[2]) {
            (ValueView::String(s), ValueView::Int(i), ValueView::Int(j)) => if s.len() == 0 {
                Computed::Fail(no_characters())
            } else if wrapped(i as int, s.len() as int) > wrapped(j as int, s.len() as int) {
                Computed::Fail(bad_range())
            } else {
                Computed::Push(
                    seq![
                        ValueView::String(
                            s.subrange(
                                wrapped(i as int, s.len() as int),
                                wrapped(j as int, s.len() as int),
                            ),
                        ),
                    ],
                )
            },
            _ => Computed::Fail(fault()),
        },
        Builtin::Rev => match a {
            ValueView::String(s) => Computed::Push(seq![ValueView::String(s.reverse())]),
            _ => Computed::Fail(fault()),
        },
        Builtin::Pos => match (a, pattern_of(b)) {
            (ValueView::String(s), Some(p)) => match find_from(s, p, 0) {
                Some(i) => Computed::Push(
                    seq![ValueView::Int(clamp(i)), ValueView::Boolean(true)],
                ),
                None => Computed::Push(seq![ValueView::Boolean(false)]),
            },
            _ => Computed::Fail(fault()),
        },
        Builtin::Count => match (a, pattern_of(b)) {
            (ValueView::String(s), Some(p)) => Computed::Push(
                seq![ValueView::Int(clamp(count_from(s, p, 0) as int))],
            ),
            _ => Computed::Fail(fault()),
        },
        Builtin::Split => match (a, pattern_of(b)) {
            (ValueView::String(s), Some(p)) => Computed::Push(
                strings(parts(s, p)).push(ValueView::Int(clamp(parts(s, p).len() as int))),
            ),
            _ => Computed::Fail(fault()),
        },
        Builtin::StackLen | Builtin::Join => Computed::Fail(fault()),
    }
}

/// A value as text, the way it stands in a joined text.
pub open spec fn text_of(v: ValueView) -> Seq<char> {
    match v {
        ValueView::String(s) => s,
        ValueView::Char(c) => seq![c],
        ValueView::Int(i) => signed_decimal(i as int),
        ValueView::Boolean(b) => if b {
            "true"@
        } else {
            "false"@
        },
        ValueView::Float(_) => Seq::empty(),
    }
}

/// The values `items` as texts.
pub open spec fn texts_of(items: Seq<ValueView>) -> Seq<Seq<char>> {
    Seq::new(items.len(), |i: int| text_of(items[i]))
}

/// The index of the first floating-point number among `items` from
/// `from` on, or the number of items.
pub open spec fn first_float(items: Seq<ValueView>, from: int) -> int
    decreases items.len() - from,
{
    if from < 0 || from >= items.len() {
        items.len() as int
    } else if items[from] is Float {
        from
    } else {
        first_float(items, from + 1)
    }
}

/// What joining makes of a stack. The top is the separator, a text or a
/// character. While a floating-point number is among the values below
/// it, the caller is asked to write the first of them as text, which
/// then takes its place. With none left, the values are written one
/// after the other, from the bottom up and with the separator between
/// them, and the one text takes the place of the whole stack.
pub open spec fn join_of(s: Seq<ValueView>) -> Native {
    if s.len() == 0 || pattern_of(s.last()) is None {
        Native::Fail(fault())
    } else {
        let items = s.drop_last();
        let i = first_float(items, 0);
        if i < items.len() {
            Native::Ask(FloatRequestView::Show(items[i]->Float_0), Pending::Text(i as usize), s)
        } else {
            Native::Done(
                seq![ValueView::String(glued(texts_of(items), pattern_of(s.last())->0))],
            )
        }
    }
}

/// What the operation `op` makes of the stack `s`.
pub open spec fn native(op: Builtin, s: Seq<ValueView>) -> Native {
    let n = arity(op);
    match op {
        Builtin::StackLen => Native::Done(s.push(ValueView::Int(clamp(s.len() as int)))),
        Builtin::Drop => if s.len() == 0 {
            Native::Done(s)
        } else {
            Native::Done(s.drop_last())
        },
        Builtin::Join => join_of(s),
        _ => if s.len() < n {
            Native::Fail(fault())
        } else {
            match computed(op, s.subrange(s.len() - n, s.len() as int)) {
                Computed::Push(values) => Native::Done(s.take(s.len() - n) + values),
                Computed::Ask(request, pending) => Native::Ask(
                    request,
                    pending,
                    s.take(s.len() - n),
                ),
                Computed::Fail(msg) => Native::Fail(msg),
            }
        },
    }
}

/// What an operation made of the values it took.
#[derive(Debug, PartialEq)]
pub enum Produced {
    Push(Vec<Value>),
    Ask(FloatRequest, Pending),
}

/// What an operation did besides changing the stack: nothing, or it
/// left floating-point work to ask for and an answer to wait for.
#[derive(Debug, PartialEq)]
pub enum Effect {
    Done,
    Ask(FloatRequest, Pending),
}

/// Whether `r` is what `c` says.
pub open spec fn produced_as(r: Result<Produced, String>, c: Computed) -> bool {
    match c {
        Computed::Push(values) => r is Ok && r->Ok_0 is Push && value_views(r->Ok_0->Push_0@)
            == values,
        Computed::Ask(request, pending) => r is Ok && r->Ok_0 is Ask && r->Ok_0->Ask_0@ == request
            && r->Ok_0->Ask_1 == pending,
        Computed::Fail(msg) => r is Err && r->Err_0@ == msg,
    }
}

/// Whether `r`, with the stack `after` left of the stack `before`, is
/// what `n` says.
pub open spec fn effect_as(
    r: Result<Effect, String>,
    after: Seq<ValueView>,
    before: Seq<ValueView>,
    n: Native,
) -> bool {
    match n {
        Native::Done(stack) => r is Ok && r->Ok_0 is Done && after == stack,
        Native::Ask(request, pending, stack) => r is Ok && r->Ok_0 is Ask && r->Ok_0->Ask_0@
            == request && r->Ok_0->Ask_1 == pending && after == stack,
        Native::Fail(msg) => r is Err && r->Err_0@ == msg && after == before,
    }
}

/// `n` as a 64-bit integer, or the greatest of them.
pub fn clamped(n: usize) -> (r: i64)
    ensures
        r == clamp(n as int),
{
    if n as u128 <= i64::MAX as u128 {
        n as i64
    } else {
        i64::MAX
    }
}

/// The values `a`, `b`, `c`, as far as they are given, in a list.
fn listed(a: Option<Value>, b: Option<Value>, c: Option<Value>) -> (r: Vec<Value>)
    ensures
        value_views(r@) == (match a {
            Some(x) => seq![x@],
            None => Seq::empty(),
        }) + (match b {
            Some(x) => seq![x@],
            None => Seq::empty(),
        }) + (match c {
            Some(x) => seq![x@],
            None => Seq::empty(),
        }),
{
    let mut out: Vec<Value> = Vec::new();
    let ghost mut so_far: Seq<ValueView> = Seq::empty();
    assert(value_views(out@) =~= so_far);
    match a {
        Some(x) => {
            out.push(x);
            proof {
                so_far = so_far.push(x@);
            }
            assert(value_views(out@) =~= so_far);
        },
        None => {},
    }
    match b {
        Some(x) => {
            let ghost before = out@;
            out.push(x);
            proof {
                assert(value_views(before) == so_far);
                so_far = so_far.push(x@);
                assert forall|k: int| 0 <= k < out@.len() implies value_views(out@)[k] == so_far[k] by {
                    if k < before.len() {
                        assert(value_views(before)[k] == before[k]@);
                    }
                }
            }
            assert(value_views(out@) =~= so_far);
        },
        None => {},
    }
    match c {
        Some(x) => {
            let ghost before = out@;
            out.push(x);
            proof {
                assert(value_views(before) == so_far);
                so_far = so_far.push(x@);
                assert forall|k: int| 0 <= k < out@.len() implies value_views(out@)[k] == so_far[k] by {
                    if k < before.len() {
                        assert(value_views(before)[k] == before[k]@);
                    }
                }
            }
            assert(value_views(out@) =~= so_far);
        },
        None => {},
    }
    assert(so_far =~= (match a {
        Some(x) => seq![x@],
        None => Seq::empty(),
    }) + (match b {
        Some(x) => seq![x@],
        None => Seq::empty(),
    }) + (match c {
        Some(x) => seq![x@],
        None => Seq::empty(),
    }));
    out
}

/// The one value `v` to push.
fn one(v: Value) -> (r: Result<Produced, String>)
    ensures
        produced_as(r, Computed::Push(seq![v@])),
{
    let values = listed(Some(v), None, None);
    assert(value_views(values@) =~= seq![v@]);
    Ok(Produced::Push(values))
}

/// The failure of an operation that has no meaning for its values.
fn faulty() -> (r: Result<Produced, String>)
    ensures
        produced_as(r, Computed::Fail(fault())),
{
    Err("type checking error!!!".to_string())
}

/// The number that a value is.
fn number(v: &Value) -> (r: Option<Number>)
    ensures
        r == number_of(v@),
{
    match v {
        Value::Int(i) => Some(Number::Int(*i)),
        Value::Float(x) => Some(Number::Float(*x)),
        _ => None,
    }
}

/// An arithmetic operation on two values.
fn do_arith(op: Arith, a: &Value, b: &Value) -> (r: Result<Produced, String>)
    ensures
        produced_as(r, arith(op, a@, b@)),
{
    match (a, b) {
        (Value::Int(x), Value::Int(y)) => {
            match op {
                Arith::Add => one(Value::Int(x.wrapping_add(*y))),
                Arith::Sub => one(Value::Int(x.wrapping_sub(*y))),
                Arith::Mul => one(Value::Int(x.wrapping_mul(*y))),
                Arith::Div => Ok(
                    Produced::Ask(
                        FloatRequest::Arith(Arith::Div, Number::Int(*x), Number::Int(*y)),
                        Pending::Number,
                    ),
                ),
                Arith::Rem => {
                    if *y == 0 {
                        Err("attempt to calculate the remainder with a divisor of zero".to_string())
                    } else {
                        match x.checked_rem(*y) {
                            Some(r) => one(Value::Int(r)),
                            None => one(Value::Int(0)),
                        }
                    }
                },
            }
        },
        _ => {
            match (number(a), number(b)) {
                (Some(x), Some(y)) => Ok(
                    Produced::Ask(FloatRequest::Arith(op, x, y), Pending::Number),
                ),
                _ => faulty(),
            }
        },
    }
}

/// An ordering comparison of two values.
fn do_ordering(rel: Relation, a: &Value, b: &Value) -> (r: Result<Produced, String>)
    ensures
        produced_as(r, ordering(rel, a@, b@)),
{
    match (a, b) {
        (Value::Int(x), Value::Int(y)) => {
            let holds = match rel {
                Relation::Eq => *x == *y,
                Relation::Ne => *x != *y,
                Relation::Lt => *x < *y,
                Relation::Gt => *x > *y,
                Relation::Le => *x <= *y,
                Relation::Ge => *x >= *y,
            };
            one(Value::Boolean(holds))
        },
        _ => {
            match (number(a), number(b)) {
                (Some(x), Some(y)) => Ok(
                    Produced::Ask(FloatRequest::Compare(rel, x, y), Pending::Truth),
                ),
                _ => faulty(),
            }
        },
    }
}

/// Whether two values are equal, or are not.
fn do_equality(negate: bool, a: &Value, b: &Value) -> (r: Result<Produced, String>)
    ensures
        produced_as(r, equality(negate, a@, b@)),
{
    match (a, b) {
        (Value::Float(x), Value::Float(y)) => {
            let rel = if negate {
                Relation::Ne
            } else {
                Relation::Eq
            };
            Ok(
                Produced::Ask(
                    FloatRequest::Compare(rel, Number::Float(*x), Number::Float(*y)),
                    Pending::Truth,
                ),
            )
        },
        _ => one(Value::Boolean(a.same(b) != negate)),
    }
}

/// The pattern that a value is to search for.
fn pattern(v: &Value) -> (r: Option<Vec<char>>)
    ensures
        match pattern_of(v@) {
            Some(p) => r is Some && r->0@ == p,
            None => r is None,
        },
{
    match v {
        Value::String(p) => Some(chars_of(p.as_str())),
        Value::Char(c) => {
            let mut p: Vec<char> = Vec::new();
            p.push(*c);
            assert(p@ =~= seq![*c]);
            Some(p)
        },
        _ => None,
    }
}

/// The argument `k` of the `n` that lie on top of the stack.
fn arg(stack: &Stack, n: usize, k: usize) -> (r: &Value)
    requires
        k < n <= stack@.len(),
    ensures
        r@ == stack@.subrange(stack@.len() - n, stack@.len() as int)[k as int],
{
    stack.below(n - 1 - k)
}

/// The texts `items` as string values, and their number after them.
fn counted(items: &Vec<Vec<char>>) -> (r: Vec<Value>)
    ensures
        value_views(r@) == strings(rows(items@)).push(
            ValueView::Int(clamp(rows(items@).len() as int)),
        ),
{
    let mut out: Vec<Value> = Vec::new();
    let mut i: usize = 0;
    while i < items.len()
        invariant
            i <= items.len(),
            out.len() == i,
            value_views(out@) == strings(rows(items@)).take(i as int),
        decreases items.len() - i,
    {
        let ghost before = out@;
        out.push(Value::String(string_of(&items[i])));
        assert(value_views(out@) =~= strings(rows(items@)).take(i + 1)) by {
            assert forall|k: int| 0 <= k < i + 1 implies value_views(out@)[k] == strings(
                rows(items@),
            ).take(i + 1)[k] by {
                if k < i {
                    assert(out@[k] == before[k]);
                    assert(value_views(before)[k] == strings(rows(items@)).take(i as int)[k]);
                }
            }
        }
        i += 1;
    }
    assert(strings(rows(items@)).take(items.len() as int) =~= strings(rows(items@)));
    let ghost before = out@;
    out.push(Value::Int(clamped(items.len())));
    assert(value_views(out@) =~= value_views(before).push(
        ValueView::Int(clamp(rows(items@).len() as int)),
    )) by {
        assert forall|k: int| 0 <= k < out@.len() implies value_views(out@)[k] == value_views(
            before,
        ).push(ValueView::Int(clamp(rows(items@).len() as int)))[k] by {
            if k < before.len() {
                assert(out@[k] == before[k]);
            }
        }
    }
    out
}

/// What the operation `op` makes of the values that it takes from the
/// top of `stack`.
pub fn compute(op: Builtin, stack: &Stack) -> (r: Result<Produced, String>)
    requires
        stack@.len() >= arity(op),
    ensures
        produced_as(
            r,
            computed(op, stack@.subrange(stack@.len() - arity(op), stack@.len() as int)),
        ),
{
    match op {
        Builtin::Len => match arg(stack, 1, 0) {
            Value::String(s) => {
                let chars = chars_of(s.as_str());
                one(Value::Int(clamped(chars.len())))
            },
            _ => faulty(),
        },
        Builtin::Drop => {
            let values = listed(None, None, None);
            assert(value_views(values@) =~= Seq::<ValueView>::empty());
            Ok(Produced::Push(values))
        },
        Builtin::Copy => {
            let a = arg(stack, 1, 0);
            let values = listed(Some(a.clone()), Some(a.clone()), None);
            assert(value_views(values@) =~= seq![a@, a@]);
            Ok(Produced::Push(values))
        },
        Builtin::Swap => {
            let a = arg(stack, 2, 0);
            let b = arg(stack, 2, 1);
            let values = listed(Some(b.clone()), Some(a.clone()), None);
            assert(value_views(values@) =~= seq![b@, a@]);
            Ok(Produced::Push(values))
        },
        Builtin::Over => {
            let a = arg(stack, 2, 0);
            let b = arg(stack, 2, 1);
            let values = listed(Some(a.clone()), Some(b.clone()), Some(a.clone()));
            assert(value_views(values@) =~= seq![a@, b@, a@]);
            Ok(Produced::Push(values))
        },
        Builtin::Add => {
            let a = arg(stack, 2, 0);
            let b = arg(stack, 2, 1);
            match (a, b) {
                (Value::String(s), Value::String(t)) => {
                    let mut chars = chars_of(s.as_str());
                    push_str(&mut chars, t.as_str());
                    one(Value::String(string_of(&chars)))
                },
                (Value::String(s), Value::Char(c)) => {
                    let mut chars = chars_of(s.as_str());
                    chars.push(*c);
                    one(Value::String(string_of(&chars)))
                },
                _ => do_arith(Arith::Add, a, b),
            }
        },
        Builtin::Sub => do_arith(Arith::Sub, arg(stack, 2, 0), arg(stack, 2, 1)),
        Builtin::Mult => {
            let a = arg(stack, 2, 0);
            let b = arg(stack, 2, 1);
            match (a, b) {
                (Value::String(s), Value::Int(n)) => {
                    let chars = chars_of(s.as_str());
                    one(Value::String(string_of(&repeat(&chars, *n))))
                },
                (Value::Char(c), Value::Int(n)) => {
                    let mut chars: Vec<char> = Vec::new();
                    chars.push(*c);
                    assert(chars@ =~= seq![*c]);
                    one(Value::String(string_of(&repeat(&chars, *n))))
                },
                _ => do_arith(Arith::Mul, a, b),
            }
        },
        Builtin::Div => do_arith(Arith::Div, arg(stack, 2, 0), arg(stack, 2, 1)),
        Builtin::Module => do_arith(Arith::Rem, arg(stack, 2, 0), arg(stack, 2, 1)),
        Builtin::And => match (arg(stack, 2, 0), arg(stack, 2, 1)) {
            (Value::Boolean(x), Value::Boolean(y)) => one(Value::Boolean(*x && *y)),
            _ => faulty(),
        },
        Builtin::Or => match (arg(stack, 2, 0), arg(stack, 2, 1)) {
            (Value::Boolean(x), Value::Boolean(y)) => one(Value::Boolean(*x || *y)),
            _ => faulty(),
        },
        Builtin::Not => match arg(stack, 1, 0) {
            Value::Boolean(x) => one(Value::Boolean(!*x)),
            _ => faulty(),
        },
        Builtin::Eq => do_equality(false, arg(stack, 2, 0), arg(stack, 2, 1)),
        Builtin::Ne => do_equality(true, arg(stack, 2, 0), arg(stack, 2, 1)),
        Builtin::Lt => do_ordering(Relation::Lt, arg(stack, 2, 0), arg(stack, 2, 1)),
        Builtin::Gt => do_ordering(Relation::Gt, arg(stack, 2, 0), arg(stack, 2, 1)),
        Builtin::Le => do_ordering(Relation::Le, arg(stack, 2, 0), arg(stack, 2, 1)),
        Builtin::Ge => do_ordering(Relation::Ge, arg(stack, 2, 0), arg(stack, 2, 1)),
        Builtin::Index | Builtin::Remove => match (arg(stack, 2, 0), arg(stack, 2, 1)) {
            (Value::String(s), Value::Int(i)) => {
                let chars = chars_of(s.as_str());
                if chars.len() == 0 {
                    Err("cannot index an empty string".to_string())
                } else {
                    one(Value::Char(chars[wrap(*i, chars.len())]))
                }
            },
            _ => faulty(),
        },
        Builtin::IndexRange => match (arg(stack, 3, 0), arg(stack, 3, 1), arg(stack, 3, 2)) {
            (Value::String(s), Value::Int(i), Value::Int(j)) => {
                let chars = chars_of(s.as_str());
                if chars.len() == 0 {
                    Err("cannot index an empty string".to_string())
                } else {
                    let from = wrap(*i, chars.len());
                    let to = wrap(*j, chars.len());
                    if from > to {
                        Err("the range ends before it starts".to_string())
                    } else {
                        one(Value::String(string_of(&slice_of(&chars, from, to))))
                    }
                }
            },
            _ => faulty(),
        },
        Builtin::Rev => match arg(stack, 1, 0) {
            Value::String(s) => {
                let chars = chars_of(s.as_str());
                one(Value::String(string_of(&reverse(&chars))))
            },
            _ => faulty(),
        },
        Builtin::Pos => match (arg(stack, 2, 0), pattern(arg(stack, 2, 1))) {
            (Value::String(s), Some(p)) => {
                let chars = chars_of(s.as_str());
                match find(&chars, &p, 0) {
                    Some(i) => {
                        let values = listed(
                            Some(Value::Int(clamped(i))),
                            Some(Value::Boolean(true)),
                            None,
                        );
                        assert(value_views(values@) =~= seq![
                            ValueView::Int(clamp(i as int)),
                            ValueView::Boolean(true),
                        ]);
                        Ok(Produced::Push(values))
                    },
                    None => one(Value::Boolean(false)),
                }
            },
            _ => faulty(),
        },
        Builtin::Count => match (arg(stack, 2, 0), pattern(arg(stack, 2, 1))) {
            (Value::String(s), Some(p)) => {
                let chars = chars_of(s.as_str());
                one(Value::Int(clamped(count(&chars, &p))))
            },
            _ => faulty(),
        },
        Builtin::Split => match (arg(stack, 2, 0), pattern(arg(stack, 2, 1))) {
            (Value::String(s), Some(p)) => {
                let chars = chars_of(s.as_str());
                let pieces = split(&chars, &p);
                Ok(Produced::Push(counted(&pieces)))
            },
            _ => faulty(),
        },
        Builtin::StackLen | Builtin::Join => faulty(),
    }
}

/// The number of values that an operation takes from the top of the
/// stack.
pub fn arity_of(op: Builtin) -> (r: usize)
    ensures
        r == arity(op),
{
    match op {
        Builtin::StackLen | Builtin::Join => 0,
        Builtin::Len | Builtin::Drop | Builtin::Copy | Builtin::Not | Builtin::Rev => 1,
        Builtin::IndexRange => 3,
        _ => 2,
    }
}

/// A value as text, the way it stands in a joined text.
fn text(v: &Value) -> (r: Vec<char>)
    ensures
        r@ == text_of(v@),
{
    let mut out: Vec<char> = Vec::new();
    match v {
        Value::String(s) => push_str(&mut out, s.as_str()),
        Value::Char(c) => {
            out.push(*c);
            assert(out@ =~= seq![*c]);
        },
        Value::Int(i) => push_signed(&mut out, *i),
        Value::Boolean(b) => {
            if *b {
                push_str(&mut out, "true");
            } else {
                push_str(&mut out, "false");
            }
        },
        Value::Float(_) => {},
    }
    assert(out@ =~= text_of(v@));
    out
}

/// Joins the stack into one text.
fn join(stack: &mut Stack) -> (r: Result<Effect, String>)
    ensures
        effect_as(r, final(stack)@, old(stack)@, join_of(old(stack)@)),
{
    if stack.len() == 0 {
        return Err("type checking error!!!".to_string());
    }
    let sep = match pattern(stack.below(0)) {
        Some(p) => p,
        None => {
            return Err("type checking error!!!".to_string());
        },
    };
    let n: usize = stack.len() - 1;
    let ghost items = stack@.drop_last();
    let mut pieces: Vec<Vec<char>> = Vec::new();
    let mut i: usize = 0;
    while i < n
        invariant
            i <= n,
            n + 1 == stack@.len(),
            items == stack@.drop_last(),
            stack@ == old(stack)@,
            pattern_of(stack@.last()) == Some(sep@),
            pieces.len() == i,
            first_float(items, 0) == first_float(items, i as int),
            rows(pieces@) == texts_of(items).take(i as int),
        decreases n - i,
    {
        let v = stack.get(i);
        assert(v@ == items[i as int]);
        match v {
            Value::Float(x) => {
                return Ok(Effect::Ask(FloatRequest::Show(*x), Pending::Text(i)));
            },
            _ => {},
        }
        let ghost before = pieces@;
        pieces.push(text(v));
        assert(rows(pieces@) =~= texts_of(items).take(i + 1)) by {
            assert forall|k: int| 0 <= k < i + 1 implies rows(pieces@)[k] == texts_of(items).take(
                i + 1,
            )[k] by {
                if k < i {
                    assert(pieces@[k] == before[k]);
                    assert(rows(before)[k] == texts_of(items).take(i as int)[k]);
                }
            }
        }
        i += 1;
    }
    assert(texts_of(items).take(n as int) =~= texts_of(items));
    let joined = glue(&pieces, &sep);
    stack.clear();
    stack.push(Value::String(string_of(&joined)));
    assert(stack@ =~= seq![ValueView::String(glued(texts_of(items), sep@))]);
    Ok(Effect::Done)
}

/// Performs the operation `op` on `stack`. A failure leaves the stack
/// as it was.
pub fn apply(op: Builtin, stack: &mut Stack) -> (r: Result<Effect, String>)
    ensures
        effect_as(r, final(stack)@, old(stack)@, native(op, old(stack)@)),
{
    match op {
        Builtin::StackLen => {
            let n = clamped(stack.len());
            stack.push(Value::Int(n));
            Ok(Effect::Done)
        },
        Builtin::Drop => {
            let _ = stack.pop();
            Ok(Effect::Done)
        },
        Builtin::Join => join(stack),
        _ => {
            let n = arity_of(op);
            if stack.len() < n {
                return Err("type checking error!!!".to_string());
            }
            match compute(op, stack) {
                Err(msg) => Err(msg),
                Ok(Produced::Push(values)) => {
                    stack.discard(n);
                    stack.extend(values);
                    Ok(Effect::Done)
                },
                Ok(Produced::Ask(request, pending)) => {
                    stack.discard(n);
                    Ok(Effect::Ask(request, pending))
                },
            }
        },
    }
}

} // verus!
