//! What holds of the evaluator in every state, proved from the
//! definitions of its steps.

use crate::error::ErrorView;
use crate::lexer::{
    after_comment, at, fail, group, is_symbol, next_token, scan_to, scan_word, skip_space, span, step,
    tokens_from, tokens_of, Cursor, Grouped, InstrView, Lexed, TokenView,
};
use crate::ops::{
    arity, char_at, native, Arith, Computed, FloatReplyView, FloatRequestView, Number,
};
use crate::parser::{
    parse_body, parse_node, parse_rest, parsed, wrap, Body, NodeTypeView, NodeView, Parsed,
};
use crate::position::Position;
use crate::registry::{fits, select, Builtin, CandidateView};
use crate::run::{
    answered, called, evaluated, given, halted, library, no_condition, numeric, overload, stepped,
    taken, underflow, unknown, ProgramView, StepView, TaskView,
};
use crate::text::is_space;
use crate::value::{Float, Type, ValueView};
use vstd::prelude::*;

verus! {

/// A step that fails leaves the stack, the variables and the operations
/// as they were, and gives up all work.
pub proof fn failure_keeps_state(p: ProgramView)
    requires
        stepped(p).1 is Failed,
    ensures
        stepped(p).0.stack == p.stack,
        stepped(p).0.vars == p.vars,
        stepped(p).0.macros == p.macros,
        stepped(p).0.control == Seq::<TaskView>::empty(),
        stepped(p).0.pending is Nothing,
{
}

/// A literal pushes exactly one value, which holds what the literal
/// holds, and changes nothing else.
pub proof fn literal_pushes_one(p: ProgramView, node: NodeView)
    ensures
        node.node matches NodeTypeView::String(s) ==> evaluated(p, node) == (
            ProgramView { stack: p.stack.push(ValueView::String(s)), ..p },
            StepView::Next,
        ),
        node.node matches NodeTypeView::Char(c) ==> evaluated(p, node) == (
            ProgramView { stack: p.stack.push(ValueView::Char(c)), ..p },
            StepView::Next,
        ),
        node.node matches NodeTypeView::Int(i) ==> evaluated(p, node) == (
            ProgramView { stack: p.stack.push(ValueView::Int(i)), ..p },
            StepView::Next,
        ),
        node.node matches NodeTypeView::Boolean(b) ==> evaluated(p, node) == (
            ProgramView { stack: p.stack.push(ValueView::Boolean(b)), ..p },
            StepView::Next,
        ),
{
}

/// Taking values to more names than the stack has values fails with an
/// underflow error that names the first name left without a value, and
/// leaves the stack and the variables as they were.
pub proof fn take_underflows(p: ProgramView, names: Seq<Seq<char>>, node: NodeView)
    requires
        node.node == NodeTypeView::Take(names),
        names.len() > p.stack.len(),
    ensures
        evaluated(p, node) == halted(
            p,
            fail(node.pos, underflow(names[p.stack.len() as int])),
        ),
        evaluated(p, node).0.stack == p.stack,
        evaluated(p, node).0.vars == p.vars,
{
}

/// A conditional and a repetition on an empty stack fail with an
/// underflow error and change neither the stack nor the variables.
pub proof fn control_underflows(p: ProgramView, node: NodeView)
    requires
        node.node is If || node.node is Repeat,
        p.stack.len() == 0,
    ensures
        evaluated(p, node) == halted(p, fail(node.pos, no_condition())),
        evaluated(p, node).0.stack == p.stack,
        evaluated(p, node).0.vars == p.vars,
{
}

/// No overload is selected whose signature asks for more values than the
/// stack has.
pub proof fn undersized_stack_selects_none(cands: Seq<CandidateView>, stack: Seq<ValueView>)
    requires
        forall|i: int| 0 <= i < cands.len() ==> (#[trigger] cands[i]).types.len() > stack.len(),
    ensures
        select(cands, stack) is None,
    decreases cands.len(),
{
    if cands.len() > 0 {
        assert(!fits(cands[0].types, stack));
        assert forall|i: int| 0 <= i < cands.drop_first().len() implies (
        #[trigger] cands.drop_first()[i]).types.len() > stack.len() by {
            assert(cands.drop_first()[i] == cands[i + 1]);
        }
        undersized_stack_selects_none(cands.drop_first(), stack);
    }
}

/// An operation all of whose overloads ask for more values than the
/// stack has fails, and leaves the stack and the variables as they were.
pub proof fn operation_underflows(p: ProgramView, id: Seq<char>, node: NodeView)
    requires
        p.macros.contains_key(id),
        forall|i: int|
            0 <= i < p.macros[id].len() ==> (#[trigger] p.macros[id][i]).types.len()
                > p.stack.len(),
    ensures
        called(p, id, node).1 is Failed,
        called(p, id, node).0.stack == p.stack,
        called(p, id, node).0.vars == p.vars,
{
    undersized_stack_selects_none(p.macros[id], p.stack);
}

/// An operation of the library that fails leaves the stack as it was, and
/// with fewer values than it takes it fails.
pub proof fn native_underflows(op: Builtin, stack: Seq<ValueView>)
    requires
        stack.len() < arity(op),
        !(op is Drop),
    ensures
        native(op, stack) is Fail,
{
}

/// Binding names to a copy of the top of the stack leaves the stack as it
/// was and binds every one of the names to that value.
pub proof fn copy_to_binds_all(p: ProgramView, names: Seq<Seq<char>>, node: NodeView, k: int)
    requires
        node.node == NodeTypeView::CopyTo(names),
        p.stack.len() > 0,
        0 <= k < names.len(),
    ensures
        evaluated(p, node).1 is Next,
        evaluated(p, node).0.stack == p.stack,
        evaluated(p, node).0.vars.contains_key(names[k]),
        evaluated(p, node).0.vars[names[k]] == p.stack.last(),
{
    given_binds(p.vars, names, p.stack.last(), k);
}

/// After two names were bound to a copy of the top of the stack, reading
/// the one and then the other pushes that value twice, above the value
/// itself, which has stayed on the stack.
pub proof fn copies_are_read_back(
    p: ProgramView,
    a: Seq<char>,
    b: Seq<char>,
    node: NodeView,
    first: NodeView,
    second: NodeView,
)
    requires
        node.node == NodeTypeView::CopyTo(seq![a, b]),
        a != b,
        !p.macros.contains_key(a),
        !p.macros.contains_key(b),
        p.stack.len() > 0,
    ensures
        ({
            let bound = evaluated(p, node).0;
            let once = called(bound, a, first);
            let twice = called(once.0, b, second);
            &&& bound.stack == p.stack
            &&& once.1 is Next
            &&& twice.1 is Next
            &&& twice.0.stack == p.stack.push(p.stack.last()).push(p.stack.last())
        }),
{
    let names = seq![a, b];
    given_binds(p.vars, names, p.stack.last(), 0);
    given_binds(p.vars, names, p.stack.last(), 1);
}

/// Every one of `names` is bound to `value` after all were given it.
pub proof fn given_binds(
    vars: Map<Seq<char>, ValueView>,
    names: Seq<Seq<char>>,
    value: ValueView,
    k: int,
)
    requires
        0 <= k < names.len(),
    ensures
        given(vars, names, value).contains_key(names[k]),
        given(vars, names, value)[names[k]] == value,
    decreases names.len(),
{
    if k < names.len() - 1 {
        given_binds(vars, names.drop_last(), value, k);
        assert(names.drop_last()[k] == names[k]);
    }
}

/// Reading a variable pushes its value and unbinds it, so that reading
/// it again fails with an unknown-identifier error.
pub proof fn read_consumes(p: ProgramView, id: Seq<char>, node: NodeView, again: NodeView)
    requires
        !p.macros.contains_key(id),
        p.vars.contains_key(id),
    ensures
        called(p, id, node).1 is Next,
        called(p, id, node).0.stack == p.stack.push(p.vars[id]),
        !called(p, id, node).0.vars.contains_key(id),
        called(called(p, id, node).0, id, again) == halted(
            called(p, id, node).0,
            fail(again.pos, unknown(id)),
        ),
{
}

/// A value taken to a name is what reading the name gives back: taking
/// the top of the stack to `id` and reading `id` leaves the stack as it
/// was.
pub proof fn take_then_read(p: ProgramView, id: Seq<char>, take: NodeView, read: NodeView)
    requires
        take.node == NodeTypeView::Take(seq![id]),
        read.node == NodeTypeView::ID(id),
        !p.macros.contains_key(id),
        p.stack.len() > 0,
    ensures
        evaluated(p, take).1 is Next,
        evaluated(evaluated(p, take).0, read).1 is Next,
        evaluated(evaluated(p, take).0, read).0.stack == p.stack,
        !evaluated(evaluated(p, take).0, read).0.vars.contains_key(id),
{
    let names = seq![id];
    assert(names.drop_last() =~= Seq::<Seq<char>>::empty());
    assert(taken(p.vars, names, p.stack) == p.vars.insert(id, p.stack.last())) by {
        assert(taken(p.vars, names.drop_last(), p.stack) == p.vars);
    }
    let q = evaluated(p, take).0;
    assert(q.stack == p.stack.take(p.stack.len() - 1));
    assert(q.stack.push(p.stack.last()) =~= p.stack);
}

/// After the top of the stack was taken to a name, the name can be read
/// once: a second read fails with an unknown-identifier error, and leaves
/// the stack as the first read left it.
pub proof fn second_read_fails(
    p: ProgramView,
    id: Seq<char>,
    take: NodeView,
    read: NodeView,
    again: NodeView,
)
    requires
        take.node == NodeTypeView::Take(seq![id]),
        read.node == NodeTypeView::ID(id),
        again.node == NodeTypeView::ID(id),
        !p.macros.contains_key(id),
        p.stack.len() > 0,
    ensures
        ({
            let taken = evaluated(p, take).0;
            let once = evaluated(taken, read);
            let twice = evaluated(once.0, again);
            &&& once.1 is Next
            &&& once.0.stack == p.stack
            &&& twice == halted(once.0, fail(again.pos, unknown(id)))
            &&& twice.0.stack == p.stack
        }),
{
    take_then_read(p, id, take, read);
}

/// Indices count on from the end: in a text with characters, the index
/// `i` and the index `i` less the length of the text give the same
/// character.
pub proof fn index_wraps(s: Seq<char>, i: i64, j: i64)
    requires
        s.len() > 0,
        j == i - s.len(),
    ensures
        char_at(s, j) == char_at(s, i),
{
    let n = s.len() as int;
    vstd::arithmetic::div_mod::lemma_mod_sub_multiples_vanish(i as int, n);
}

/// An index inside a text is the index of its character, and the index
/// of the last character is also `-1`.
pub proof fn index_inside(s: Seq<char>, i: i64)
    requires
        0 <= i < s.len(),
    ensures
        char_at(s, i) == Computed::Push(seq![ValueView::Char(s[i as int])]),
        char_at(s, -1i64) == Computed::Push(seq![ValueView::Char(s.last())]),
{
    let n = s.len() as int;
    vstd::arithmetic::div_mod::lemma_small_mod(i as nat, n as nat);
    vstd::arithmetic::div_mod::lemma_fundamental_div_mod_converse(-1, n, -1, n - 1);
}

/// A cursor whose line and column do not run ahead of its offset, as it
/// is at the start of a text and stays from there on.
pub open spec fn tame(c: Cursor) -> bool {
    c.ln <= c.idx && c.col <= c.idx
}

/// A span that covers a line still does after it was grown by a later
/// one.
pub proof fn extended_covers(pos: Position, other: Position)
    requires
        pos.covers_line(),
        other.covers_line(),
        pos.idx.start <= other.idx.start,
        pos.ln.start <= other.ln.start,
    ensures
        pos.extended(other).covers_line(),
        pos.extended(other).idx.start == pos.idx.start,
        pos.extended(other).ln.start == pos.ln.start,
{
}

/// Moving the cursor keeps it tame, and never moves its line backward.
pub proof fn step_tame(text: Seq<char>, c: Cursor)
    requires
        tame(c),
    ensures
        tame(step(text, c)),
        step(text, c).ln >= c.ln,
        step(text, c).idx >= c.idx,
{
}

/// Skipping white space keeps the cursor tame.
pub proof fn skip_space_tame(text: Seq<char>, c: Cursor)
    requires
        tame(c),
    ensures
        tame(skip_space(text, c)),
        skip_space(text, c).ln >= c.ln,
        skip_space(text, c).idx >= c.idx,
    decreases usize::MAX - c.idx,
{
    if at(text, c) is Some && is_space(at(text, c)->0) {
        step_tame(text, c);
        skip_space_tame(text, step(text, c));
    }
}

/// Scanning for a character keeps the cursor tame.
pub proof fn scan_to_tame(text: Seq<char>, c: Cursor, stop: char)
    requires
        tame(c),
    ensures
        tame(scan_to(text, c, stop)),
        scan_to(text, c, stop).ln >= c.ln,
        scan_to(text, c, stop).idx >= c.idx,
    decreases usize::MAX - c.idx,
{
    if at(text, c) is Some && at(text, c)->0 != stop {
        step_tame(text, c);
        scan_to_tame(text, step(text, c), stop);
    }
}

/// The span of a character that the cursor stands on covers it.
pub proof fn span_covers(text: Seq<char>, c: Cursor)
    requires
        tame(c),
        at(text, c) is Some,
    ensures
        span(c).covers_line(),
        span(c).idx.start == c.idx,
        span(c).ln.start == c.ln,
{
}

/// Scanning a lexeme keeps the cursor tame and the span covering.
pub proof fn scan_word_tame(text: Seq<char>, c: Cursor, pos: Position)
    requires
        tame(c),
        pos.covers_line(),
        pos.idx.start <= c.idx,
        pos.ln.start <= c.ln,
    ensures
        tame(scan_word(text, c, pos).0),
        scan_word(text, c, pos).0.idx >= c.idx,
        scan_word(text, c, pos).0.ln >= c.ln,
        scan_word(text, c, pos).1.covers_line(),
        scan_word(text, c, pos).1.idx.start == pos.idx.start,
        scan_word(text, c, pos).1.ln.start == pos.ln.start,
    decreases usize::MAX - c.idx,
{
    if at(text, c) is Some && !is_space(at(text, c)->0) && !is_symbol(
        at(text, c)->0,
    ) {
        span_covers(text, c);
        extended_covers(pos, span(c));
        step_tame(text, c);
        scan_word_tame(text, step(text, c), pos.extended(span(c)));
    }
}

/// Every token covers at least one character and one line, and starts
/// where the tokenizer looked for it or after that. The cursor is tame
/// after it.
pub proof fn token_covers(text: Seq<char>, start: Cursor)
    requires
        tame(start),
    ensures
        match next_token(text, start) {
            Lexed::Token(t, after) => {
                &&& t.pos.covers_line()
                &&& t.pos.idx.start >= start.idx
                &&& t.pos.ln.start >= start.ln
                &&& tame(after)
                &&& after.idx > start.idx
                &&& after.ln >= start.ln
            },
            _ => true,
        },
    decreases usize::MAX - start.idx, 0nat,
{
    let c = skip_space(text, start);
    skip_space_tame(text, start);
    let pos = span(c);
    let c1 = step(text, c);
    if at(text, c) is Some {
        let ch = at(text, c)->0;
        span_covers(text, c);
        step_tame(text, c);
        if ch == '"' {
            let e = scan_to(text, c1, '"');
            scan_to_tame(text, c1, '"');
            if at(text, e) is Some {
                span_covers(text, e);
                extended_covers(pos, span(e));
                step_tame(text, e);
            }
        } else if ch == '\'' {
            let c2 = step(text, c1);
            step_tame(text, c1);
            if at(text, c1) is Some && at(text, c2) == Some('\'') {
                span_covers(text, c2);
                extended_covers(pos, span(c2));
                step_tame(text, c2);
            }
        } else if ch == '(' || ch == '{' {
            let close = if ch == '(' {
                ')'
            } else {
                '}'
            };
            group_tame(text, c1, close, pos, Seq::empty());
            match group(text, c1, close, pos, Seq::empty()) {
                Grouped::Done(_, e) => {
                    span_covers(text, e);
                    extended_covers(pos, span(e));
                    step_tame(text, e);
                },
                _ => {},
            }
        } else if ch == '@' {
            token_covers(text, c1);
            match next_token(text, c1) {
                Lexed::Token(t, _) => {
                    extended_covers(pos, t.pos);
                },
                _ => {},
            }
        } else if ch == '#' {
            scan_to_tame(text, c, '\n');
            scan_to_tame(text, c1, '\n');
            let e = scan_to(text, c, '\n');
            if at(text, e) is Some {
                step_tame(text, e);
            }
            token_covers(text, after_comment(text, c));
        } else {
            scan_word_tame(text, c1, pos);
        }
    }
}

/// Reading a group keeps the cursor tame, and leaves it on the closing
/// character.
pub proof fn group_tame(
    text: Seq<char>,
    c: Cursor,
    close: char,
    pos: Position,
    ids: Seq<Seq<char>>,
)
    requires
        tame(c),
    ensures
        match group(text, c, close, pos, ids) {
            Grouped::Done(_, e) => tame(e) && at(text, e) is Some && e.idx >= c.idx && e.ln
                >= c.ln,
            _ => true,
        },
    decreases usize::MAX - c.idx, 1nat,
{
    if at(text, c) is Some && at(text, c)->0 != close {
        token_covers(text, c);
        match next_token(text, c) {
            Lexed::Token(t, after) => {
                if t.instr is ID && after.idx > c.idx {
                    group_tame(text, after, close, pos, ids.push(t.instr->ID_0));
                }
            },
            _ => {},
        }
    }
}

/// Every token of a text covers at least one character and one line.
pub proof fn tokens_cover(text: Seq<char>, c: Cursor, k: int)
    requires
        tame(c),
        tokens_from(text, c) is Ok,
        0 <= k < tokens_from(text, c)->Ok_0.len(),
    ensures
        tokens_from(text, c)->Ok_0[k].pos.covers_line(),
    decreases usize::MAX - c.idx,
{
    token_covers(text, c);
    match next_token(text, c) {
        Lexed::Token(t, after) => {
            if k > 0 {
                tokens_cover(text, after, k - 1);
            }
        },
        _ => {},
    }
}

/// Every token of a text covers at least one character and one line.
pub proof fn lexed_spans_cover(text: Seq<char>)
    requires
        tokens_of(text) is Ok,
    ensures
        forall|k: int|
            0 <= k < tokens_of(text)->Ok_0.len() ==> (#[trigger] tokens_of(
                text,
            )->Ok_0[k]).pos.covers_line(),
{
    let start = Cursor { idx: 0, ln: 0, col: 0 };
    assert forall|k: int| 0 <= k < tokens_of(text)->Ok_0.len() implies (#[trigger] tokens_of(
        text,
    )->Ok_0[k]).pos.covers_line() by {
        tokens_cover(text, start, k);
    }
}

/// A span that covers something still does after it was grown.
pub proof fn extended_still_covers(pos: Position, other: Position)
    requires
        pos.covers(),
    ensures
        pos.extended(other).covers(),
{
}

/// Whether the span of a node and the spans of all nodes in it cover at
/// least one unit of text.
pub open spec fn spanned(n: NodeView) -> bool
    decreases n,
{
    &&& n.pos.covers()
    &&& match n.node {
        NodeTypeView::Chunk(nodes) => forall|i: int|
            0 <= i < nodes.len() ==> spanned(#[trigger] nodes[i]),
        NodeTypeView::If(body, other) => spanned(*body) && match other {
            Some(e) => spanned(*e),
            None => true,
        },
        NodeTypeView::Repeat(body) => spanned(*body),
        NodeTypeView::Macro(_, _, body) => spanned(*body),
        _ => true,
    }
}

/// Whether the spans of all of `nodes`, and of all nodes in them, cover
/// at least one unit of text.
pub open spec fn all_spanned(nodes: Seq<NodeView>) -> bool {
    forall|i: int| 0 <= i < nodes.len() ==> spanned(#[trigger] nodes[i])
}

/// Whether the spans of all of `tokens` cover at least one unit of text.
pub open spec fn all_cover(tokens: Seq<TokenView>) -> bool {
    forall|i: int| 0 <= i < tokens.len() ==> (#[trigger] tokens[i]).pos.covers()
}

/// The body made of spanned nodes is spanned.
pub proof fn wrap_spanned(nodes: Seq<NodeView>, pos: Position)
    requires
        all_spanned(nodes),
        pos.covers(),
    ensures
        spanned(wrap(nodes, pos)),
{
    if nodes.len() == 1 {
        assert(spanned(nodes[0]));
    }
}

/// Where every token covers at least one unit of text, so does every
/// node that is parsed from them, with all nodes in it.
pub proof fn node_spanned(tokens: Seq<TokenView>, i: int)
    requires
        all_cover(tokens),
    ensures
        match parse_node(tokens, i) {
            Parsed::Node(n, _) => spanned(n),
            _ => true,
        },
    decreases tokens.len() - i, 0nat,
{
    if 0 <= i < tokens.len() {
        let t = tokens[i];
        assert(t.pos.covers());
        match t.instr {
            InstrView::If => {
                body_spanned(tokens, i + 1, t.pos, Seq::empty(), true);
                match parse_body(tokens, i + 1, t.pos, Seq::empty(), true) {
                    Body::Closed(nodes, pos, j, by_else) => {
                        if !by_else {
                            wrap_spanned(nodes, pos);
                        } else if i < j < tokens.len() {
                            body_spanned(tokens, j + 1, pos, Seq::empty(), false);
                            match parse_body(tokens, j + 1, pos, Seq::empty(), false) {
                                Body::Closed(others, end, _, _) => {
                                    wrap_spanned(nodes, end);
                                    wrap_spanned(others, end);
                                },
                                _ => {},
                            }
                        }
                    },
                    _ => {},
                }
            },
            InstrView::Repeat => {
                body_spanned(tokens, i + 1, t.pos, Seq::empty(), false);
                match parse_body(tokens, i + 1, t.pos, Seq::empty(), false) {
                    Body::Closed(nodes, pos, _, _) => {
                        wrap_spanned(nodes, pos);
                    },
                    _ => {},
                }
            },
            _ => {},
        }
    }
}

/// The nodes of a body are spanned, and so is the span grown over them.
pub proof fn body_spanned(
    tokens: Seq<TokenView>,
    i: int,
    pos: Position,
    nodes: Seq<NodeView>,
    else_closes: bool,
)
    requires
        all_cover(tokens),
        all_spanned(nodes),
        pos.covers(),
    ensures
        match parse_body(tokens, i, pos, nodes, else_closes) {
            Body::Closed(all, end, _, _) => all_spanned(all) && end.covers(),
            _ => true,
        },
    decreases tokens.len() - i, 1nat,
{
    if 0 <= i < tokens.len() && !(tokens[i].instr is End) && !(tokens[i].instr is Else
        && else_closes) {
        node_spanned(tokens, i);
        match parse_node(tokens, i) {
            Parsed::Node(n, j) => {
                if i < j <= tokens.len() {
                    extended_still_covers(pos, n.pos);
                    body_spanned(tokens, j, pos.extended(n.pos), nodes.push(n), else_closes);
                }
            },
            _ => {},
        }
    }
}

/// The chunk of the nodes from a token on is spanned.
pub proof fn rest_spanned(tokens: Seq<TokenView>, i: int, pos: Position, nodes: Seq<NodeView>)
    requires
        all_cover(tokens),
        all_spanned(nodes),
        pos.covers(),
    ensures
        match parse_rest(tokens, i, pos, nodes) {
            Ok(n) => spanned(n),
            _ => true,
        },
    decreases tokens.len() - i,
{
    node_spanned(tokens, i);
    match parse_node(tokens, i) {
        Parsed::Node(n, j) => {
            if i < j <= tokens.len() {
                extended_still_covers(pos, n.pos);
                rest_spanned(tokens, j, pos.extended(n.pos), nodes.push(n));
            }
        },
        _ => {},
    }
}

/// Every node of a tree covers at least one unit of text where every
/// token does.
pub proof fn tree_spanned(tokens: Seq<TokenView>)
    requires
        all_cover(tokens),
    ensures
        match parsed(tokens) {
            Ok(n) => spanned(n),
            _ => true,
        },
{
    if tokens.len() > 0 {
        assert(tokens[0].pos.covers());
        rest_spanned(tokens, 0, tokens[0].pos, Seq::empty());
    }
}

/// What is selected is what the first candidate that the stack fits
/// runs, and the stack has at least as many values as that candidate
/// asks for. Nothing is selected only where the stack fits no candidate.
pub proof fn selection_is_first_fit(cands: Seq<CandidateView>, stack: Seq<ValueView>)
    ensures
        match select(cands, stack) {
            Some(action) => exists|i: int|
                {
                    &&& 0 <= i < cands.len()
                    &&& fits(#[trigger] cands[i].types, stack)
                    &&& cands[i].action == action
                    &&& cands[i].types.len() <= stack.len()
                    &&& forall|j: int| 0 <= j < i ==> !fits(#[trigger] cands[j].types, stack)
                },
            None => forall|j: int| 0 <= j < cands.len() ==> !fits(#[trigger] cands[j].types, stack),
        },
    decreases cands.len(),
{
    if cands.len() > 0 {
        if fits(cands[0].types, stack) {
            assert(fits(cands[0].types, stack) && cands[0].action == select(cands, stack)->0);
        } else {
            let rest = cands.drop_first();
            selection_is_first_fit(rest, stack);
            match select(rest, stack) {
                Some(action) => {
                    let i = choose|i: int|
                        {
                            &&& 0 <= i < rest.len()
                            &&& fits(#[trigger] rest[i].types, stack)
                            &&& rest[i].action == action
                            &&& rest[i].types.len() <= stack.len()
                            &&& forall|j: int|
                                0 <= j < i ==> !fits(#[trigger] rest[j].types, stack)
                        };
                    assert(rest[i] == cands[i + 1]);
                    assert forall|j: int| 0 <= j < i + 1 implies !fits(
                        #[trigger] cands[j].types,
                        stack,
                    ) by {
                        if j > 0 {
                            assert(rest[j - 1] == cands[j]);
                        }
                    }
                    assert(fits(cands[i + 1].types, stack));
                },
                None => {
                    assert forall|j: int| 0 <= j < cands.len() implies !fits(
                        #[trigger] cands[j].types,
                        stack,
                    ) by {
                        if j > 0 {
                            assert(rest[j - 1] == cands[j]);
                        }
                    }
                },
            }
        }
    }
}

/// `Any` goes with every type, every other type goes with itself only,
/// and it does not matter which of two types is asked for and which is
/// there.
pub proof fn accepts_is_symmetric(a: Type, b: Type)
    ensures
        a.accepts(b) == b.accepts(a),
        a.accepts(a),
        Type::Any.accepts(a),
        !(a is Any) && !(b is Any) ==> a.accepts(b) == (a == b),
{
}

/// A floating-point literal asks for its number, and the answer is
/// pushed as the one value of the literal.
pub proof fn float_literal_pushes_one(p: ProgramView, node: NodeView, x: Float)
    requires
        node.node is Float,
        p.pending is Nothing,
    ensures
        evaluated(p, node).1 == StepView::Ask(
            FloatRequestView::Parse(node.node->Float_0),
        ),
        answered(evaluated(p, node).0, FloatReplyView::Number(x)) == (
            ProgramView { stack: p.stack.push(ValueView::Float(x)), ..p },
            None::<ErrorView>,
        ),
{
}

/// Every node of the tree of a text covers at least one unit of the
/// text.
pub proof fn parsed_spans_cover(text: Seq<char>)
    requires
        tokens_of(text) is Ok,
    ensures
        match parsed(tokens_of(text)->Ok_0) {
            Ok(n) => spanned(n),
            _ => true,
        },
{
    lexed_spans_cover(text);
    tree_spanned(tokens_of(text)->Ok_0);
}

/// The overloads that the library gives the operation `+`.
pub proof fn overloads_of_plus()
    ensures
        library().contains_key("+"@),
        library()["+"@] == numeric(Builtin::Add) + seq![
            overload(
                seq![Type::String, Type::String],
                Builtin::Add,
            ),
            overload(
                seq![Type::String, Type::Char],
                Builtin::Add,
            ),
        ],
{
    reveal_strlit("+");
    reveal_strlit("-");
    reveal_strlit("*");
    reveal_strlit("/");
    reveal_strlit("%");
    reveal_strlit("and");
    reveal_strlit("or");
    reveal_strlit("not");
    reveal_strlit("=");
    reveal_strlit("!=");
    reveal_strlit("<");
    reveal_strlit(">");
    reveal_strlit("<=");
    reveal_strlit(">=");
    reveal_strlit(".");
    reveal_strlit("rev");
    reveal_strlit("pos");
    reveal_strlit("remove");
    reveal_strlit("count");
    reveal_strlit("split");
    reveal_strlit("join");
    let plus = "+"@;
    assert(plus[0] == '+');
    assert("-"@[0] != plus[0]);
    assert("*"@[0] != plus[0]);
    assert("/"@[0] != plus[0]);
    assert("%"@[0] != plus[0]);
    assert("and"@[0] != plus[0]);
    assert("or"@[0] != plus[0]);
    assert("not"@[0] != plus[0]);
    assert("="@[0] != plus[0]);
    assert("!="@[0] != plus[0]);
    assert("<"@[0] != plus[0]);
    assert(">"@[0] != plus[0]);
    assert("<="@[0] != plus[0]);
    assert(">="@[0] != plus[0]);
    assert("."@[0] != plus[0]);
    assert("rev"@[0] != plus[0]);
    assert("pos"@[0] != plus[0]);
    assert("remove"@[0] != plus[0]);
    assert("count"@[0] != plus[0]);
    assert("split"@[0] != plus[0]);
    assert("join"@[0] != plus[0]);
}

/// In a session with the operations of the library, `+` on two integers
/// on top of the stack leaves their sum in their place.
pub proof fn plus_adds_integers(p: ProgramView, node: NodeView, a: i64, b: i64)
    requires
        p.macros == library(),
        p.stack.len() >= 2,
        p.stack[p.stack.len() - 2] == ValueView::Int(a),
        p.stack.last() == ValueView::Int(b),
    ensures
        called(p, "+"@, node) == (
            ProgramView {
                stack: p.stack.take(p.stack.len() - 2).push(ValueView::Int(a.wrapping_add(b))),
                ..p
            },
            StepView::Next,
        ),
{
    overloads_of_plus();
    let cands = p.macros["+"@];
    assert(fits(cands[0].types, p.stack)) by {
        assert(cands[0].types =~= seq![Type::Int, Type::Int]);
    }
    let args = p.stack.subrange(p.stack.len() - 2, p.stack.len() as int);
    assert(args[0] == ValueView::Int(a));
    assert(args[1] == ValueView::Int(b));
    assert(p.stack.take(p.stack.len() - 2) + seq![ValueView::Int(a.wrapping_add(b))]
        =~= p.stack.take(p.stack.len() - 2).push(ValueView::Int(a.wrapping_add(b))));
}

/// In a session with the operations of the library, `+` on a
/// floating-point number and an integer asks for their sum, and the
/// answer takes their place.
pub proof fn plus_adds_float_and_integer(
    p: ProgramView,
    node: NodeView,
    x: Float,
    b: i64,
    sum: Float,
)
    requires
        p.macros == library(),
        p.pending is Nothing,
        p.stack.len() >= 2,
        p.stack[p.stack.len() - 2] == ValueView::Float(x),
        p.stack.last() == ValueView::Int(b),
    ensures
        called(p, "+"@, node).1 == StepView::Ask(
            FloatRequestView::Arith(
                Arith::Add,
                Number::Float(x),
                Number::Int(b),
            ),
        ),
        answered(called(p, "+"@, node).0, FloatReplyView::Number(sum)) == (
            ProgramView {
                stack: p.stack.take(p.stack.len() - 2).push(ValueView::Float(sum)),
                ..p
            },
            None::<ErrorView>,
        ),
{
    overloads_of_plus();
    let cands = p.macros["+"@];
    let n = p.stack.len() as int;
    assert(!fits(cands[0].types, p.stack)) by {
        assert(cands[0].types =~= seq![Type::Int, Type::Int]);
        assert(!cands[0].types[2 - 1 - 1].accepts(p.stack[n - 1 - 1].typ()));
    }
    assert(!fits(cands[1].types, p.stack)) by {
        assert(cands[1].types =~= seq![Type::Float, Type::Float]);
        assert(!cands[1].types[2 - 1 - 0].accepts(p.stack[n - 1 - 0].typ()));
    }
    assert(!fits(cands[2].types, p.stack)) by {
        assert(cands[2].types =~= seq![Type::Int, Type::Float]);
        assert(!cands[2].types[2 - 1 - 0].accepts(p.stack[n - 1 - 0].typ()));
    }
    assert(fits(cands[3].types, p.stack)) by {
        assert(cands[3].types =~= seq![Type::Float, Type::Int]);
    }
    let r1 = cands.drop_first();
    let r2 = r1.drop_first();
    let r3 = r2.drop_first();
    assert(r1[0] == cands[1]);
    assert(r2[0] == cands[2]);
    assert(r3[0] == cands[3]);
    assert(select(r3, p.stack) == Some(cands[3].action));
    assert(select(r2, p.stack) == select(r3, p.stack));
    assert(select(r1, p.stack) == select(r2, p.stack));
    assert(select(cands, p.stack) == select(r1, p.stack));
    let args = p.stack.subrange(n - 2, n);
    assert(args[0] == ValueView::Float(x));
    assert(args[1] == ValueView::Int(b));
}

/// In a session with the operations of the library, `+` on a text and a
/// character on top of the stack leaves the text with the character
/// after it in their place.
pub proof fn plus_appends_a_character(p: ProgramView, node: NodeView, s: Seq<char>, c: char)
    requires
        p.macros == library(),
        p.stack.len() >= 2,
        p.stack[p.stack.len() - 2] == ValueView::String(s),
        p.stack.last() == ValueView::Char(c),
    ensures
        called(p, "+"@, node) == (
            ProgramView {
                stack: p.stack.take(p.stack.len() - 2).push(ValueView::String(s.push(c))),
                ..p
            },
            StepView::Next,
        ),
{
    overloads_of_plus();
    let cands = p.macros["+"@];
    let n = p.stack.len() as int;
    assert forall|i: int| 0 <= i < 5 implies !fits(#[trigger] cands[i].types, p.stack) by {
        if i < 4 {
            assert(cands[i].types.len() == 2);
            assert(!cands[i].types[2 - 1 - 0].accepts(p.stack[n - 1 - 0].typ()));
        } else {
            assert(cands[4].types =~= seq![
                Type::String,
                Type::String,
            ]);
            assert(!cands[4].types[2 - 1 - 0].accepts(p.stack[n - 1 - 0].typ()));
        }
    }
    assert(fits(cands[5].types, p.stack)) by {
        assert(cands[5].types =~= seq![Type::String, Type::Char]);
    }
    let r1 = cands.drop_first();
    let r2 = r1.drop_first();
    let r3 = r2.drop_first();
    let r4 = r3.drop_first();
    let r5 = r4.drop_first();
    assert(r1[0] == cands[1]);
    assert(r2[0] == cands[2]);
    assert(r3[0] == cands[3]);
    assert(r4[0] == cands[4]);
    assert(r5[0] == cands[5]);
    assert(select(r5, p.stack) == Some(cands[5].action));
    assert(select(r4, p.stack) == select(r5, p.stack));
    assert(select(r3, p.stack) == select(r4, p.stack));
    assert(select(r2, p.stack) == select(r3, p.stack));
    assert(select(r1, p.stack) == select(r2, p.stack));
    assert(select(cands, p.stack) == select(r1, p.stack));
    let args = p.stack.subrange(n - 2, n);
    assert(args[0] == ValueView::String(s));
    assert(args[1] == ValueView::Char(c));
    assert(p.stack.take(n - 2) + seq![ValueView::String(s.push(c))] =~= p.stack.take(
        n - 2,
    ).push(ValueView::String(s.push(c))));
}

} // verus!
