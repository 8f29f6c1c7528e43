//! What is written as a literal is what is pushed: for each kind of
//! literal, the text of one literal gives one token, one node, and one
//! value on the stack. And what the control constructs make of literals.

use crate::error::ErrorView;
use crate::lexer::{all_digits, at, classify, digits_end, float_shape, int_literal, is_symbol, keyword, next_token, number, scan_to, scan_word, skip_space, span, step, tokens_from, tokens_of, Cursor, InstrView, Lexed, TokenView};
use crate::ops::{FloatReplyView, FloatRequestView, Pending};
use crate::parser::{leaf, parse_node, parse_rest, parsed, NodeTypeView, NodeView, Parsed};
use crate::position::Position;
use crate::run::{answered, ran, stepped, tasks, ProgramView, StepView, TaskView};
use crate::text::{decimal, digit_char, is_digit, is_space};
use crate::value::{Float, ValueView};
use vstd::prelude::*;

verus! {

/// Whether `c` can stand inside a lexeme.
pub open spec fn plain(c: char) -> bool {
    !is_space(c) && !is_symbol(c)
}

/// Whether every character of `w` can stand inside a lexeme.
pub open spec fn all_plain(w: Seq<char>) -> bool {
    forall|k: int| 0 <= k < w.len() ==> plain(#[trigger] w[k])
}

/// The start of a text.
pub open spec fn origin() -> Cursor {
    Cursor { idx: 0, ln: 0, col: 0 }
}

/// A lexeme runs to the end of a text that has plain characters only.
pub proof fn scan_word_to_end(text: Seq<char>, c: Cursor, pos: Position)
    requires
        text.len() <= usize::MAX,
        c.idx <= text.len(),
        forall|k: int| c.idx <= k < text.len() ==> plain(#[trigger] text[k]),
    ensures
        scan_word(text, c, pos).0.idx == text.len(),
    decreases text.len() - c.idx,
{
    if c.idx < text.len() {
        assert(plain(text[c.idx as int]));
        scan_word_to_end(text, step(text, c), pos.extended(span(c)));
    }
}

/// A text of plain characters that does not start a comment is one
/// lexeme, and gives the one token that the lexeme is classified as.
pub proof fn word_is_one_token(w: Seq<char>)
    requires
        0 < w.len() <= usize::MAX,
        all_plain(w),
        w[0] != '#',
        classify(w, arbitrary()) is Ok,
    ensures
        tokens_of(w) is Ok,
        tokens_of(w)->Ok_0.len() == 1,
        tokens_of(w)->Ok_0[0].instr == classify(w, arbitrary())->Ok_0,
{
    let c = origin();
    let c1 = step(w, c);
    let pos = span(c);
    assert(plain(w[0]));
    assert(skip_space(w, c) == c);
    scan_word_to_end(w, c1, pos);
    let (e, p) = scan_word(w, c1, pos);
    assert(w.subrange(0, w.len() as int) =~= w);
    assert(classify(w, p) is Ok && classify(w, p)->Ok_0 == classify(w, arbitrary())->Ok_0);
    let t = TokenView { instr: classify(w, p)->Ok_0, pos: p };
    assert(next_token(w, c) == Lexed::Token(t, e));
    assert(at(w, e) is None);
    assert(skip_space(w, e) == e);
    assert(next_token(w, e) == Lexed::End(e));
    assert(tokens_from(w, e) == Ok::<Seq<TokenView>, ErrorView>(Seq::empty()));
    assert(seq![t] + Seq::<TokenView>::empty() =~= seq![t]);
}

/// The digits of a numeral are digits, and the numeral denotes its
/// number.
pub proof fn decimal_is_a_numeral(n: nat)
    ensures
        decimal(n).len() > 0,
        all_digits(decimal(n)),
        number(decimal(n)) == n,
    decreases n,
{
    if n < 10 {
        let s = decimal(n);
        assert(s =~= seq![digit_char(n as int)]);
        assert(s.drop_last() =~= Seq::<char>::empty());
        assert(number(s.drop_last()) == 0);
    } else {
        decimal_is_a_numeral(n / 10);
        let s = decimal(n);
        let d = digit_char((n % 10) as int);
        assert(s.drop_last() =~= decimal(n / 10));
        assert(s.last() == d);
        assert forall|i: int| 0 <= i < s.len() implies is_digit(#[trigger] s[i]) by {
            if i < s.len() - 1 {
                assert(s[i] == decimal(n / 10)[i]);
            }
        }
    }
}

/// A digit is a plain character, and starts no keyword.
pub proof fn digits_are_plain(c: char)
    requires
        is_digit(c),
    ensures
        plain(c),
        c != '#',
{
}

/// No keyword starts with a digit.
pub proof fn numeral_is_no_keyword(w: Seq<char>)
    requires
        w.len() > 0,
        is_digit(w[0]),
    ensures
        keyword(w) is None,
{
    reveal_strlit("true");
    reveal_strlit("false");
    reveal_strlit("end");
    reveal_strlit("if");
    reveal_strlit("else");
    reveal_strlit("repeat");
    reveal_strlit("macro");
    assert("true"@[0] == 't');
    assert("false"@[0] == 'f');
    assert("end"@[0] == 'e');
    assert("if"@[0] == 'i');
    assert("else"@[0] == 'e');
    assert("repeat"@[0] == 'r');
    assert("macro"@[0] == 'm');
}

/// Ten to the power of `k`.
pub open spec fn power_of_ten(k: nat) -> nat
    decreases k,
{
    if k == 0 {
        1
    } else {
        10 * power_of_ten((k - 1) as nat)
    }
}

/// A number below ten to the power of `k` has `k` digits at most.
pub proof fn numeral_is_short(n: nat, k: nat)
    requires
        k >= 1,
        n < power_of_ten(k),
    ensures
        decimal(n).len() <= k,
    decreases k,
{
    if n >= 10 {
        assert(power_of_ten(1) == 10) by {
            assert(power_of_ten(0) == 1);
        }
        assert(k >= 2);
        numeral_is_short(n / 10, (k - 1) as nat);
    }
}

/// The numeral of an integer is one token, the integer.
pub proof fn numeral_is_one_token(n: nat)
    requires
        n <= i64::MAX,
    ensures
        tokens_of(decimal(n)) is Ok,
        tokens_of(decimal(n))->Ok_0.len() == 1,
        tokens_of(decimal(n))->Ok_0[0].instr == InstrView::Int(n as i64),
{
    let w = decimal(n);
    assert(n < power_of_ten(19)) by {
        reveal_with_fuel(power_of_ten, 20);
    }
    numeral_is_short(n, 19);
    decimal_is_a_numeral(n);
    numeral_is_no_keyword(w);
    assert forall|k: int| 0 <= k < w.len() implies plain(#[trigger] w[k]) by {
        digits_are_plain(w[k]);
    }
    assert(int_literal(w) == Some(n as i64));
    word_is_one_token(w);
}

/// The words `true` and `false` are one token each, the truth value.
pub proof fn truth_is_one_token(b: bool)
    ensures
        ({
            let w = if b {
                "true"@
            } else {
                "false"@
            };
            &&& tokens_of(w) is Ok
            &&& tokens_of(w)->Ok_0.len() == 1
            &&& tokens_of(w)->Ok_0[0].instr == InstrView::Boolean(b)
        }),
{
    reveal_strlit("true");
    reveal_strlit("false");
    let w = if b {
        "true"@
    } else {
        "false"@
    };
    assert(w.len() == 4 || w.len() == 5);
    assert forall|k: int| 0 <= k < w.len() implies plain(#[trigger] w[k]) by {
        if b {
            assert(w[k] == 't' || w[k] == 'r' || w[k] == 'u' || w[k] == 'e');
        } else {
            assert(w[k] == 'f' || w[k] == 'a' || w[k] == 'l' || w[k] == 's' || w[k] == 'e');
        }
    }
    assert("true"@ != "false"@) by {
        assert("true"@.len() != "false"@.len());
    }
    word_is_one_token(w);
}

/// A character between single quotes is one token, the character.
pub proof fn quoted_char_is_one_token(c: char)
    ensures
        tokens_of(seq!['\'', c, '\'']) is Ok,
        tokens_of(seq!['\'', c, '\''])->Ok_0.len() == 1,
        tokens_of(seq!['\'', c, '\''])->Ok_0[0].instr == InstrView::Char(c),
{
    let w = seq!['\'', c, '\''];
    let c0 = origin();
    let c1 = step(w, c0);
    let c2 = step(w, c1);
    let e = step(w, c2);
    assert(skip_space(w, c0) == c0);
    assert(at(w, c0) == Some('\''));
    assert(at(w, c1) == Some(c));
    assert(at(w, c2) == Some('\''));
    let t = TokenView { instr: InstrView::Char(c), pos: span(c0).extended(span(c2)) };
    assert(next_token(w, c0) == Lexed::Token(t, e));
    assert(at(w, e) is None);
    assert(skip_space(w, e) == e);
    assert(next_token(w, e) == Lexed::End(e));
    assert(tokens_from(w, e) == Ok::<Seq<TokenView>, ErrorView>(Seq::empty()));
    assert(seq![t] + Seq::<TokenView>::empty() =~= seq![t]);
}

/// Scanning for a double quote runs over a text without one to the
/// quote that ends it.
pub proof fn scan_to_quote(text: Seq<char>, c: Cursor)
    requires
        text.len() <= usize::MAX,
        0 < c.idx < text.len(),
        forall|k: int| c.idx <= k < text.len() - 1 ==> #[trigger] text[k] != '"',
        text.last() == '"',
    ensures
        scan_to(text, c, '"').idx == text.len() - 1,
    decreases text.len() - c.idx,
{
    if c.idx < text.len() - 1 {
        assert(text[c.idx as int] != '"');
        scan_to_quote(text, step(text, c));
    }
}

/// A text without double quotes, between double quotes, is one token:
/// the text as a string.
pub proof fn quoted_text_is_one_token(s: Seq<char>)
    requires
        s.len() + 2 <= usize::MAX,
        forall|k: int| 0 <= k < s.len() ==> #[trigger] s[k] != '"',
    ensures
        tokens_of(seq!['"'] + s + seq!['"']) is Ok,
        tokens_of(seq!['"'] + s + seq!['"'])->Ok_0.len() == 1,
        tokens_of(seq!['"'] + s + seq!['"'])->Ok_0[0].instr == InstrView::String(s),
{
    let w = seq!['"'] + s + seq!['"'];
    let c0 = origin();
    let c1 = step(w, c0);
    assert(w.len() == s.len() + 2);
    assert(w[0] == '"');
    assert(w.last() == '"');
    assert(skip_space(w, c0) == c0);
    assert(at(w, c0) == Some('"'));
    assert forall|k: int| 1 <= k < w.len() - 1 implies #[trigger] w[k] != '"' by {
        assert(w[k] == s[k - 1]);
    }
    scan_to_quote(w, c1);
    let e = scan_to(w, c1, '"');
    assert(at(w, e) == Some('"'));
    assert(w.subrange(1, w.len() - 1) =~= s);
    let after = step(w, e);
    let t = TokenView { instr: InstrView::String(s), pos: span(c0).extended(span(e)) };
    assert(next_token(w, c0) == Lexed::Token(t, after));
    assert(at(w, after) is None);
    assert(skip_space(w, after) == after);
    assert(next_token(w, after) == Lexed::End(after));
    assert(tokens_from(w, after) == Ok::<Seq<TokenView>, ErrorView>(Seq::empty()));
    assert(seq![t] + Seq::<TokenView>::empty() =~= seq![t]);
}

/// One token that is a node by itself gives a chunk of that one node.
pub proof fn leaf_is_one_node(t: TokenView)
    requires
        leaf(t.instr) is Some,
    ensures
        parsed(seq![t]) is Ok,
        parsed(seq![t])->Ok_0.node == NodeTypeView::Chunk(
            seq![NodeView { node: leaf(t.instr)->0, pos: t.pos }],
        ),
{
    let tokens = seq![t];
    let n = NodeView { node: leaf(t.instr)->0, pos: t.pos };
    assert(parse_node(tokens, 0) == Parsed::Node(n, 1));
    assert(parse_node(tokens, 1) == Parsed::End);
    let nodes = Seq::<NodeView>::empty().push(n);
    assert(nodes =~= seq![n]);
    assert(parse_rest(tokens, 1, t.pos.extended(n.pos), nodes) == Ok::<
        NodeView,
        ErrorView,
    >(NodeView { node: NodeTypeView::Chunk(nodes), pos: t.pos.extended(n.pos) }));
}

/// The value that a literal node stands for, if it stands for one that
/// the library itself can tell.
pub open spec fn literal_value(node: NodeTypeView) -> Option<ValueView> {
    match node {
        NodeTypeView::String(s) => Some(ValueView::String(s)),
        NodeTypeView::Char(c) => Some(ValueView::Char(c)),
        NodeTypeView::Int(i) => Some(ValueView::Int(i)),
        NodeTypeView::Boolean(b) => Some(ValueView::Boolean(b)),
        _ => None,
    }
}

/// Running a chunk of one literal, with no other work at hand, pushes the
/// one value of the literal, changes nothing else, and is done after
/// three steps.
pub proof fn literal_chunk_runs(p: ProgramView, root: NodeView, node: NodeView)
    requires
        root.node == NodeTypeView::Chunk(seq![node]),
        literal_value(node.node) is Some,
        p.control.len() == 0,
        p.pending is Nothing,
    ensures
        ran(ProgramView { control: seq![TaskView::Eval(root)], ..p }, 3) == (
            ProgramView { stack: p.stack.push(literal_value(node.node)->0), ..p },
            StepView::Done,
        ),
{
    let p0 = ProgramView { control: seq![TaskView::Eval(root)], ..p };
    assert(p0.control.drop_last() =~= Seq::<TaskView>::empty());
    assert(p.control =~= Seq::<TaskView>::empty());
    let p1 = stepped(p0).0;
    assert(seq![node].reverse() =~= seq![node]);
    assert(tasks(seq![node]) =~= seq![TaskView::Eval(node)]);
    assert(p1.control =~= seq![TaskView::Eval(node)]);
    assert(stepped(p0).1 is Next);
    assert(p1 == ProgramView { control: p1.control, ..p });
    assert(p1.control.drop_last() =~= Seq::<TaskView>::empty());
    let p2 = stepped(p1).0;
    assert(stepped(p1).1 is Next);
    assert(p2.control =~= Seq::<TaskView>::empty());
    assert(p2 == ProgramView { stack: p.stack.push(literal_value(node.node)->0), ..p });
    assert(stepped(p2) == (p2, StepView::Done));
    assert(ran(p2, 1) == (p2, StepView::Done));
    assert(ran(p1, 2) == (p2, StepView::Done));
    assert(ran(p0, 3) == (p2, StepView::Done));
}

/// What is written as one literal is what is pushed. Where the text
/// `source` gives one token, and that token is a string, a character, an
/// integer or a truth value, the tree of the text, run with no other
/// work at hand, pushes exactly the value of the token.
pub proof fn written_is_pushed(source: Seq<char>, p: ProgramView)
    requires
        tokens_of(source) is Ok,
        tokens_of(source)->Ok_0.len() == 1,
        leaf(tokens_of(source)->Ok_0[0].instr) is Some,
        literal_value(leaf(tokens_of(source)->Ok_0[0].instr)->0) is Some,
        p.control.len() == 0,
        p.pending is Nothing,
    ensures
        parsed(tokens_of(source)->Ok_0) is Ok,
        ran(
            ProgramView {
                control: seq![TaskView::Eval(parsed(tokens_of(source)->Ok_0)->Ok_0)],
                ..p
            },
            3,
        ) == (
            ProgramView {
                stack: p.stack.push(
                    literal_value(leaf(tokens_of(source)->Ok_0[0].instr)->0)->0,
                ),
                ..p
            },
            StepView::Done,
        ),
{
    let tokens = tokens_of(source)->Ok_0;
    let t = tokens[0];
    assert(tokens =~= seq![t]);
    leaf_is_one_node(t);
    let root = parsed(tokens)->Ok_0;
    literal_chunk_runs(p, root, NodeView { node: leaf(t.instr)->0, pos: t.pos });
}

/// A run of digits holds digits only, and ends inside the text.
pub proof fn digits_run(s: Seq<char>, from: int)
    requires
        0 <= from <= s.len(),
    ensures
        from <= digits_end(s, from) <= s.len(),
        forall|k: int| from <= k < digits_end(s, from) ==> is_digit(#[trigger] s[k]),
    decreases s.len() - from,
{
    if from < s.len() && is_digit(s[from]) {
        digits_run(s, from + 1);
    }
}

/// Whether `c` can stand in a floating-point literal.
pub open spec fn float_char(c: char) -> bool {
    is_digit(c) || c == '.' || c == 'e' || c == 'E' || c == '+' || c == '-'
}

/// A floating-point literal is made of digits, a point, the letter of
/// the exponent and a sign, and starts with a digit.
pub proof fn float_literal_chars(w: Seq<char>)
    requires
        float_shape(w),
    ensures
        w.len() > 0,
        is_digit(w[0]),
        forall|k: int| 0 <= k < w.len() ==> float_char(#[trigger] w[k]),
{
    let a = digits_end(w, 0);
    digits_run(w, 0);
    let b = if a < w.len() && w[a] == '.' {
        digits_end(w, a + 1)
    } else {
        a
    };
    if a < w.len() && w[a] == '.' {
        digits_run(w, a + 1);
    }
    let c = if b + 1 < w.len() && (w[b + 1] == '+' || w[b + 1] == '-') {
        b + 2
    } else {
        b + 1
    };
    if b < w.len() {
        digits_run(w, c);
    }
    assert(is_digit(w[0]));
    assert forall|k: int| 0 <= k < w.len() implies float_char(#[trigger] w[k]) by {
        if k < a {
        } else if k < b {
        } else if k == b {
        } else if k < c {
        } else {
        }
    }
}

/// A floating-point literal that is no integer is one token, which keeps
/// the literal as it is written.
pub proof fn float_literal_is_one_token(w: Seq<char>)
    requires
        float_shape(w),
        int_literal(w) is None,
        w.len() <= usize::MAX,
    ensures
        tokens_of(w) is Ok,
        tokens_of(w)->Ok_0.len() == 1,
        tokens_of(w)->Ok_0[0].instr == InstrView::Float(w),
{
    float_literal_chars(w);
    numeral_is_no_keyword(w);
    assert forall|k: int| 0 <= k < w.len() implies plain(#[trigger] w[k]) by {
        assert(float_char(w[k]));
    }
    word_is_one_token(w);
}

/// What is written as a floating-point literal is what is pushed: the
/// tree of a text that gives one such token, run with no other work at
/// hand, asks after two steps for the number that the literal denotes,
/// and the answer is the one value pushed.
pub proof fn written_float_is_pushed(source: Seq<char>, p: ProgramView, x: Float)
    requires
        tokens_of(source) is Ok,
        tokens_of(source)->Ok_0.len() == 1,
        tokens_of(source)->Ok_0[0].instr is Float,
        p.control.len() == 0,
        p.pending is Nothing,
    ensures
        parsed(tokens_of(source)->Ok_0) is Ok,
        ({
            let text = tokens_of(source)->Ok_0[0].instr->Float_0;
            let asked = ran(
                ProgramView {
                    control: seq![TaskView::Eval(parsed(tokens_of(source)->Ok_0)->Ok_0)],
                    ..p
                },
                2,
            );
            &&& asked.1 == StepView::Ask(FloatRequestView::Parse(text))
            &&& answered(asked.0, FloatReplyView::Number(x)) == (
                ProgramView { stack: p.stack.push(ValueView::Float(x)), ..p },
                None::<ErrorView>,
            )
        }),
{
    let tokens = tokens_of(source)->Ok_0;
    let t = tokens[0];
    assert(tokens =~= seq![t]);
    leaf_is_one_node(t);
    let root = parsed(tokens)->Ok_0;
    let node = NodeView { node: leaf(t.instr)->0, pos: t.pos };
    let p0 = ProgramView { control: seq![TaskView::Eval(root)], ..p };
    assert(p0.control.drop_last() =~= Seq::<TaskView>::empty());
    assert(p.control =~= Seq::<TaskView>::empty());
    let p1 = stepped(p0).0;
    assert(seq![node].reverse() =~= seq![node]);
    assert(tasks(seq![node]) =~= seq![TaskView::Eval(node)]);
    assert(p1.control =~= seq![TaskView::Eval(node)]);
    assert(stepped(p0).1 is Next);
    assert(p1 == ProgramView { control: p1.control, ..p });
    assert(p1.control.drop_last() =~= Seq::<TaskView>::empty());
    let p2 = stepped(p1).0;
    assert(p2.control =~= Seq::<TaskView>::empty());
    assert(p2 == ProgramView { pending: Pending::Number, ..p });
    assert(ran(p1, 1) == stepped(p1));
    assert(ran(p0, 2) == stepped(p1));
}

/// The value `v`, `n` times.
pub open spec fn copies(v: ValueView, n: nat) -> Seq<ValueView> {
    Seq::new(n, |i: int| v)
}

/// A loop over a literal, with no other work at hand, pushes the value of
/// the literal as often as its count says, and is done after two steps
/// for each time and two more.
pub proof fn loop_of_literal_runs(p: ProgramView, body: NodeView, n: nat)
    requires
        literal_value(body.node) is Some,
        n <= i64::MAX,
        p.control == seq![TaskView::Loop(body, n as i64)],
        p.pending is Nothing,
    ensures
        ran(p, 2 * n + 2) == (
            ProgramView {
                stack: p.stack + copies(literal_value(body.node)->0, n),
                control: Seq::empty(),
                ..p
            },
            StepView::Done,
        ),
    decreases n,
{
    let v = literal_value(body.node)->0;
    assert(p.control.drop_last() =~= Seq::<TaskView>::empty());
    let p1 = stepped(p).0;
    assert(stepped(p).1 is Next);
    if n == 0 {
        assert(p1.control =~= Seq::<TaskView>::empty());
        assert(p.stack + copies(v, 0) =~= p.stack);
        assert(stepped(p1) == (p1, StepView::Done));
        assert(ran(p1, 1) == (p1, StepView::Done));
    } else {
        let again = TaskView::Loop(body, (n - 1) as i64);
        assert(p1.control =~= seq![again, TaskView::Eval(body)]);
        assert(p1.control.drop_last() =~= seq![again]);
        let p2 = stepped(p1).0;
        assert(stepped(p1).1 is Next);
        assert(p2.control =~= seq![again]);
        assert(p2 == ProgramView { stack: p.stack.push(v), control: p2.control, ..p });
        loop_of_literal_runs(p2, body, (n - 1) as nat);
        assert(p.stack.push(v) + copies(v, (n - 1) as nat) =~= p.stack + copies(v, n));
        assert(ran(p1, (2 * n + 1) as nat) == ran(p2, (2 * n) as nat));
    }
}

/// A repetition of a literal, with the count on top of the stack and no
/// other work at hand, takes the count and pushes the value of the
/// literal that many times; a count below zero counts as zero.
pub proof fn repeat_of_literal_runs(p: ProgramView, node: NodeView, body: NodeView, n: i64)
    requires
        node.node == NodeTypeView::Repeat(Box::new(body)),
        literal_value(body.node) is Some,
        p.stack.len() > 0,
        p.stack.last() == ValueView::Int(n),
        p.control.len() == 0,
        p.pending is Nothing,
    ensures
        ({
            let times: nat = if n > 0 {
                n as nat
            } else {
                0
            };
            ran(ProgramView { control: seq![TaskView::Eval(node)], ..p }, 2 * times + 3) == (
                ProgramView {
                    stack: p.stack.drop_last() + copies(literal_value(body.node)->0, times),
                    ..p
                },
                StepView::Done,
            )
        }),
{
    let times: nat = if n > 0 {
        n as nat
    } else {
        0
    };
    let v = literal_value(body.node)->0;
    let p0 = ProgramView { control: seq![TaskView::Eval(node)], ..p };
    assert(p0.control.drop_last() =~= Seq::<TaskView>::empty());
    assert(p.control =~= Seq::<TaskView>::empty());
    let p1 = stepped(p0).0;
    assert(stepped(p0).1 is Next);
    assert(p1.control =~= seq![TaskView::Loop(body, n)]);
    assert(p1 == ProgramView { stack: p.stack.drop_last(), control: p1.control, ..p });
    if n >= 0 {
        loop_of_literal_runs(p1, body, times);
    } else {
        assert(p1.control.drop_last() =~= Seq::<TaskView>::empty());
        let p2 = stepped(p1).0;
        assert(stepped(p1).1 is Next);
        assert(p2.control =~= Seq::<TaskView>::empty());
        assert(stepped(p2) == (p2, StepView::Done));
        assert(ran(p2, 1) == (p2, StepView::Done));
        assert(ran(p1, 2) == (p2, StepView::Done));
        assert(p.stack.drop_last() + copies(v, 0) =~= p.stack.drop_last());
    }
}

/// A conditional over literals, with a truth value on top of the stack
/// and no other work at hand, takes the truth value and pushes the value
/// of its first body where it is true, and that of its second body
/// otherwise.
pub proof fn if_of_literals_runs(
    p: ProgramView,
    node: NodeView,
    first: NodeView,
    second: NodeView,
    b: bool,
)
    requires
        node.node == NodeTypeView::If(Box::new(first), Some(Box::new(second))),
        literal_value(first.node) is Some,
        literal_value(second.node) is Some,
        p.stack.len() > 0,
        p.stack.last() == ValueView::Boolean(b),
        p.control.len() == 0,
        p.pending is Nothing,
    ensures
        ran(ProgramView { control: seq![TaskView::Eval(node)], ..p }, 3) == (
            ProgramView {
                stack: p.stack.drop_last().push(
                    if b {
                        literal_value(first.node)->0
                    } else {
                        literal_value(second.node)->0
                    },
                ),
                ..p
            },
            StepView::Done,
        ),
{
    let chosen = if b {
        first
    } else {
        second
    };
    let p0 = ProgramView { control: seq![TaskView::Eval(node)], ..p };
    assert(p0.control.drop_last() =~= Seq::<TaskView>::empty());
    assert(p.control =~= Seq::<TaskView>::empty());
    let p1 = stepped(p0).0;
    assert(stepped(p0).1 is Next);
    assert(p1.control =~= seq![TaskView::Eval(chosen)]);
    assert(p1 == ProgramView { stack: p.stack.drop_last(), control: p1.control, ..p });
    assert(p1.control.drop_last() =~= Seq::<TaskView>::empty());
    let p2 = stepped(p1).0;
    assert(stepped(p1).1 is Next);
    assert(p2.control =~= Seq::<TaskView>::empty());
    assert(stepped(p2) == (p2, StepView::Done));
    assert(ran(p2, 1) == (p2, StepView::Done));
    assert(ran(p1, 2) == (p2, StepView::Done));
}

} // verus!
