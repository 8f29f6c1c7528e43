//! The evaluator: a machine that walks a tree of nodes one step at a
//! time, over a stack of values, a table of variables and a table of
//! operations.

use crate::error::{Error, ErrorView};
use crate::lexer::{fail, Instr, InstrView, Token, TokenView};
use crate::ops::{apply, native, Effect, FloatReply, FloatReplyView, FloatRequest, FloatRequestView, Native, Pending};
use crate::parser::{chunk_view, node_views, Node, NodeType, NodeTypeView, NodeView};
use crate::position::Position;
pub use crate::registry::{MacroOverload, MacroType};
use crate::registry::{
    defined, displaced, listing, place, same_signature, select, Builtin, CandidateView,
    MacroTypeView, Registry,
};
use crate::stack::value_views;
pub use crate::stack::Stack;
use crate::text::{push_str, quote, quoted, string_of, texts};
use crate::value::{Type, Value, ValueView};
use crate::vars::Vars;
use vstd::prelude::*;

verus! {

/// Work that the machine has still to do.
pub enum TaskView {
    /// A node to evaluate.
    Eval(NodeView),
    /// A body to evaluate as often as the count says.
    Loop(NodeView, i64),
}

/// The state of the machine: the stack, the variables, the operations,
/// the work still to do, the last of it first, and the answer that the
/// machine waits for.
pub struct ProgramView {
    pub vars: Map<Seq<char>, ValueView>,
    pub macros: Map<Seq<char>, Seq<CandidateView>>,
    pub stack: Seq<ValueView>,
    pub control: Seq<TaskView>,
    pub pending: Pending,
}

/// What a step of the machine comes to.
pub enum StepView {
    /// Nothing was left to do.
    Done,
    /// A step was made.
    Next,
    /// The caller is asked for floating-point work.
    Ask(FloatRequestView),
    /// The run failed.
    Failed(ErrorView),
}

/// The state and the step of a run that fails with `e`: the work still to
/// do is given up; the stack and the variables stay as they are.
pub open spec fn halted(p: ProgramView, e: ErrorView) -> (ProgramView, StepView) {
    (ProgramView { control: Seq::empty(), pending: Pending::Nothing, ..p }, StepView::Failed(e))
}

/// The message for a name that nothing can be taken to.
pub open spec fn underflow(id: Seq<char>) -> Seq<char> {
    "cannot take value to "@ + quoted(id) + " due to stack underflow"@
}

/// The message for a name that is neither a variable nor an operation.
pub open spec fn unknown(id: Seq<char>) -> Seq<char> {
    "unknown id "@ + quoted(id)
}

/// The message for an operation that was asked to be copied.
pub open spec fn no_copy(id: Seq<char>) -> Seq<char> {
    "cannot copy a macro, "@ + quoted(id) + " is defined as a macro"@
}

/// The message for `@` before something that names no variable.
pub open spec fn not_copyable(got: InstrView) -> Seq<char> {
    "expected identifier or copy-to-indentifiers, got "@ + got.name()
}

/// The message for an operation none of whose overloads the stack fits;
/// it lists them all.
pub open spec fn no_overload(id: Seq<char>, cands: Seq<CandidateView>) -> Seq<char> {
    "no macro definition "@ + quoted(id)
        + " found with current stack, following macros are defined:\n"@ + listing(cands, id)
        + "\n"@
}

/// The message for a control construct on an empty stack.
pub open spec fn no_condition() -> Seq<char> {
    "couldn't perform if-control-flow operation due to stack underflow"@
}

/// The message for a control construct that finds a value of the wrong
/// type on top of the stack.
pub open spec fn bad_condition(got: ValueView) -> Seq<char> {
    "expected a boolean value on top of the stack, got "@ + got.typ().spec_name()
}

/// The message for a macro definition, which cannot be run.
pub open spec fn no_definitions() -> Seq<char> {
    "macro definitions cannot be run"@
}

/// The message for a step or an answer that the machine did not wait
/// for.
pub open spec fn out_of_turn() -> Seq<char> {
    "the machine waits for something else"@
}

/// The tasks to evaluate `nodes`, one for each.
pub open spec fn tasks(nodes: Seq<NodeView>) -> Seq<TaskView> {
    Seq::new(nodes.len(), |i: int| TaskView::Eval(nodes[i]))
}

/// The variables after each of `names`, in order, was bound to a value
/// taken from the stack `stack`, the first to the top.
pub open spec fn taken(
    vars: Map<Seq<char>, ValueView>,
    names: Seq<Seq<char>>,
    stack: Seq<ValueView>,
) -> Map<Seq<char>, ValueView>
    decreases names.len(),
{
    if names.len() == 0 {
        vars
    } else {
        taken(vars, names.drop_last(), stack).insert(
            names.last(),
            stack[stack.len() - names.len()],
        )
    }
}

/// The variables after each of `names` was bound to `value`.
pub open spec fn given(
    vars: Map<Seq<char>, ValueView>,
    names: Seq<Seq<char>>,
    value: ValueView,
) -> Map<Seq<char>, ValueView>
    decreases names.len(),
{
    if names.len() == 0 {
        vars
    } else {
        given(vars, names.drop_last(), value).insert(names.last(), value)
    }
}

/// The index of the first of `names` from `from` on that is not bound,
/// or the number of names.
pub open spec fn first_unbound(vars: Map<Seq<char>, ValueView>, names: Seq<Seq<char>>, from: int) -> int
    decreases names.len() - from,
{
    if from < 0 || from >= names.len() {
        names.len() as int
    } else if !vars.contains_key(names[from]) {
        from
    } else {
        first_unbound(vars, names, from + 1)
    }
}

/// The values of the variables `names`.
pub open spec fn values_of(vars: Map<Seq<char>, ValueView>, names: Seq<Seq<char>>) -> Seq<ValueView> {
    Seq::new(names.len(), |i: int| vars[names[i]])
}

/// The error for a name that cannot be copied: it is an operation, or
/// nothing at all.
pub open spec fn copy_error(p: ProgramView, id: Seq<char>, pos: Position) -> ErrorView {
    if p.macros.contains_key(id) {
        fail(pos, no_copy(id))
    } else {
        fail(pos, unknown(id))
    }
}

/// The step for `@` before `token`: the value of the variable is pushed
/// and stays bound. Before a group of names, the values of all of them
/// are pushed in the order in which the names were written, so that the
/// first name of the token, which was written last, ends topmost. The
/// step fails where a name is not bound, and before anything is pushed.
pub open spec fn copied(p: ProgramView, token: TokenView) -> (ProgramView, StepView) {
    match token.instr {
        InstrView::ID(id) => if p.vars.contains_key(id) {
            (ProgramView { stack: p.stack.push(p.vars[id]), ..p }, StepView::Next)
        } else {
            halted(p, copy_error(p, id, token.pos))
        },
        InstrView::CopyTo(ids) => {
            let names = ids.reverse();
            let i = first_unbound(p.vars, names, 0);
            if i < names.len() {
                halted(p, copy_error(p, names[i], token.pos))
            } else {
                (ProgramView { stack: p.stack + values_of(p.vars, names), ..p }, StepView::Next)
            }
        },
        other => halted(p, fail(token.pos, not_copyable(other))),
    }
}

/// The step for the name `id` at `pos`. Where `id` names an operation,
/// the first overload that the stack fits is run: a tree becomes work to
/// do, an operation of the library is performed. Otherwise the variable
/// `id` is read: its value is pushed and its binding is gone.
pub open spec fn called(p: ProgramView, id: Seq<char>, node: NodeView) -> (ProgramView, StepView) {
    if p.macros.contains_key(id) {
        match select(p.macros[id], p.stack) {
            Some(MacroTypeView::Macro(body)) => (
                ProgramView { control: p.control.push(TaskView::Eval(body)), ..p },
                StepView::Next,
            ),
            Some(MacroTypeView::Operation(op)) => match native(op, p.stack) {
                Native::Done(stack) => (ProgramView { stack, ..p }, StepView::Next),
                Native::Ask(request, pending, stack) => (
                    ProgramView {
                        stack,
                        pending,
                        control: if pending is Text {
                            p.control.push(TaskView::Eval(node))
                        } else {
                            p.control
                        },
                        ..p
                    },
                    StepView::Ask(request),
                ),
                Native::Fail(msg) => halted(p, fail(node.pos, msg)),
            },
            None => halted(p, fail(node.pos, no_overload(id, p.macros[id]))),
        }
    } else if p.vars.contains_key(id) {
        (
            ProgramView { vars: p.vars.remove(id), stack: p.stack.push(p.vars[id]), ..p },
            StepView::Next,
        )
    } else {
        halted(p, fail(node.pos, unknown(id)))
    }
}

/// The step that evaluates `node`.
pub open spec fn evaluated(p: ProgramView, node: NodeView) -> (ProgramView, StepView) {
    match node.node {
        NodeTypeView::Chunk(nodes) => (
            ProgramView { control: p.control + tasks(nodes.reverse()), ..p },
            StepView::Next,
        ),
        NodeTypeView::String(s) => (
            ProgramView { stack: p.stack.push(ValueView::String(s)), ..p },
            StepView::Next,
        ),
        NodeTypeView::Char(c) => (
            ProgramView { stack: p.stack.push(ValueView::Char(c)), ..p },
            StepView::Next,
        ),
        NodeTypeView::Int(i) => (
            ProgramView { stack: p.stack.push(ValueView::Int(i)), ..p },
            StepView::Next,
        ),
        NodeTypeView::Boolean(b) => (
            ProgramView { stack: p.stack.push(ValueView::Boolean(b)), ..p },
            StepView::Next,
        ),
        NodeTypeView::Float(text) => (
            ProgramView { pending: Pending::Number, ..p },
            StepView::Ask(FloatRequestView::Parse(text)),
        ),
        NodeTypeView::Take(names) => if names.len() > p.stack.len() {
            halted(p, fail(node.pos, underflow(names[p.stack.len() as int])))
        } else {
            (
                ProgramView {
                    vars: taken(p.vars, names, p.stack),
                    stack: p.stack.take(p.stack.len() - names.len()),
                    ..p
                },
                StepView::Next,
            )
        },
        NodeTypeView::CopyTo(names) => if names.len() == 0 {
            (p, StepView::Next)
        } else if p.stack.len() == 0 {
            halted(p, fail(node.pos, underflow(names[0])))
        } else {
            (ProgramView { vars: given(p.vars, names, p.stack.last()), ..p }, StepView::Next)
        },
        NodeTypeView::Copy(token) => copied(p, *token),
        NodeTypeView::ID(id) => called(p, id, node),
        NodeTypeView::If(body, other) => if p.stack.len() == 0 {
            halted(p, fail(node.pos, no_condition()))
        } else {
            match p.stack.last() {
                ValueView::Boolean(b) => (
                    ProgramView {
                        stack: p.stack.drop_last(),
                        control: if b {
                            p.control.push(TaskView::Eval(*body))
                        } else {
                            match other {
                                Some(e) => p.control.push(TaskView::Eval(*e)),
                                None => p.control,
                            }
                        },
                        ..p
                    },
                    StepView::Next,
                ),
                got => halted(p, fail(node.pos, bad_condition(got))),
            }
        },
        NodeTypeView::Repeat(body) => if p.stack.len() == 0 {
            halted(p, fail(node.pos, no_condition()))
        } else {
            match p.stack.last() {
                ValueView::Int(n) => (
                    ProgramView {
                        stack: p.stack.drop_last(),
                        control: p.control.push(TaskView::Loop(*body, n)),
                        ..p
                    },
                    StepView::Next,
                ),
                got => halted(p, fail(node.pos, bad_condition(got))),
            }
        },
        NodeTypeView::Macro(_, _, _) => halted(p, fail(node.pos, no_definitions())),
    }
}

/// One step of the machine. With nothing left to do it is done. A loop
/// with a count above zero counts down and gives its body to evaluate;
/// with another count it is over. A node is evaluated as `evaluated`
/// says. A step while an answer is awaited fails.
pub open spec fn stepped(p: ProgramView) -> (ProgramView, StepView) {
    if !(p.pending is Nothing) {
        halted(p, ErrorView { msg: out_of_turn(), pos: None })
    } else if p.control.len() == 0 {
        (p, StepView::Done)
    } else {
        let rest = ProgramView { control: p.control.drop_last(), ..p };
        match p.control.last() {
            TaskView::Loop(body, n) => if n > 0 {
                (
                    ProgramView {
                        control: rest.control.push(TaskView::Loop(body, (n - 1) as i64)).push(
                            TaskView::Eval(body),
                        ),
                        ..p
                    },
                    StepView::Next,
                )
            } else {
                (rest, StepView::Next)
            },
            TaskView::Eval(node) => evaluated(rest, node),
        }
    }
}

/// The state after the answer `reply` was given, and the error where it
/// is not the kind of answer that the machine waits for: a number or a
/// truth value is pushed; a text takes the place of the value that was
/// to be written.
pub open spec fn answered(p: ProgramView, reply: FloatReplyView) -> (ProgramView, Option<ErrorView>) {
    let ready = ProgramView { pending: Pending::Nothing, ..p };
    match (p.pending, reply) {
        (Pending::Number, FloatReplyView::Number(x)) => (
            ProgramView { stack: p.stack.push(ValueView::Float(x)), ..ready },
            None,
        ),
        (Pending::Truth, FloatReplyView::Truth(b)) => (
            ProgramView { stack: p.stack.push(ValueView::Boolean(b)), ..ready },
            None,
        ),
        (Pending::Text(i), FloatReplyView::Text(t)) => if i < p.stack.len() {
            (ProgramView { stack: p.stack.update(i as int, ValueView::String(t)), ..ready }, None)
        } else {
            (
                ProgramView { control: Seq::empty(), ..ready },
                Some(ErrorView { msg: out_of_turn(), pos: None }),
            )
        },
        _ => (
            ProgramView { control: Seq::empty(), ..ready },
            Some(ErrorView { msg: out_of_turn(), pos: None }),
        ),
    }
}

/// The state and the step after at most `limit` steps: the run goes on
/// while steps are made, and stops with the first step that is done,
/// asks or fails.
pub open spec fn ran(p: ProgramView, limit: nat) -> (ProgramView, StepView)
    decreases limit,
{
    if limit == 0 {
        (p, StepView::Next)
    } else {
        let (q, step) = stepped(p);
        if step is Next {
            ran(q, (limit - 1) as nat)
        } else {
            (q, step)
        }
    }
}

/// Work that the machine has still to do.
#[derive(Debug, PartialEq)]
pub enum Task {
    Eval(Node),
    Loop(Node, i64),
}

impl View for Task {
    type V = TaskView;

    open spec fn view(&self) -> TaskView {
        match self {
            Task::Eval(node) => TaskView::Eval(node@),
            Task::Loop(body, n) => TaskView::Loop(body@, *n),
        }
    }
}

/// The views of a sequence of tasks.
pub open spec fn task_views(v: Seq<Task>) -> Seq<TaskView> {
    Seq::new(v.len(), |i: int| v[i]@)
}

/// What a step of the machine comes to.
#[derive(Debug, PartialEq)]
pub enum Step {
    /// Nothing was left to do.
    Done,
    /// A step was made.
    Next,
    /// The caller is asked for floating-point work, and to give the
    /// result to `Program::answer`.
    Ask(FloatRequest),
    /// The run failed.
    Failed(Error),
}

impl View for Step {
    type V = StepView;

    open spec fn view(&self) -> StepView {
        match self {
            Step::Done => StepView::Done,
            Step::Next => StepView::Next,
            Step::Ask(request) => StepView::Ask(request@),
            Step::Failed(e) => StepView::Failed(e@),
        }
    }
}

/// What a name stands for when it is evaluated.
enum Choice {
    Body(Node),
    Op(Builtin),
    NoMatch(String),
    Var,
}

/// The texts `a`, `b` and `c`, one after the other.
fn message(a: &str, b: &str, c: &str) -> (r: String)
    ensures
        r@ == a@ + b@ + c@,
{
    let mut out: Vec<char> = Vec::new();
    push_str(&mut out, a);
    push_str(&mut out, b);
    push_str(&mut out, c);
    assert(out@ =~= a@ + b@ + c@);
    string_of(&out)
}

/// The texts `a` and `b`, one after the other.
fn message2(a: &str, b: &str) -> (r: String)
    ensures
        r@ == a@ + b@,
{
    let mut out: Vec<char> = Vec::new();
    push_str(&mut out, a);
    push_str(&mut out, b);
    assert(out@ =~= a@ + b@);
    string_of(&out)
}

/// A session of the evaluator.
#[derive(Debug, PartialEq)]
pub struct Program {
    pub vars: Vars,
    pub macros: Registry,
    pub stack: Stack,
    /// The work still to do, the last of it first.
    pub control: Vec<Task>,
    /// The answer that the machine waits for.
    pub pending: Pending,
}

impl View for Program {
    type V = ProgramView;

    open spec fn view(&self) -> ProgramView {
        ProgramView {
            vars: self.vars@,
            macros: self.macros@,
            stack: self.stack@,
            control: task_views(self.control@),
            pending: self.pending,
        }
    }
}

impl Program {
    /// A session without variables and operations.
    pub fn new() -> (r: Self)
        ensures
            r@ == (ProgramView {
                vars: Map::empty(),
                macros: Map::empty(),
                stack: Seq::empty(),
                control: Seq::empty(),
                pending: Pending::Nothing,
            }),
    {
        let r = Self {
            vars: Vars::new(),
            macros: Registry::new(),
            stack: Stack::new(),
            control: Vec::new(),
            pending: Pending::Nothing,
        };
        assert(r@.control =~= Seq::<TaskView>::empty());
        r
    }

    /// The overloads of the operation `id`, one on a line.
    pub fn display_macro(&self, id: &String) -> (r: String)
        ensures
            r@ == if self@.macros.contains_key(id@) {
                listing(self@.macros[id@], id@)
            } else {
                "no definition found"@
            },
    {
        match self.macros.get(id) {
            Some(set) => set.display(id),
            None => "no definition found".to_string(),
        }
    }

    /// Whether nothing is left to do and no answer is awaited.
    pub fn idle(&self) -> (r: bool)
        ensures
            r == (self@.control.len() == 0 && self@.pending is Nothing),
    {
        let waiting = match self.pending {
            Pending::Nothing => false,
            _ => true,
        };
        self.control.len() == 0 && !waiting
    }

    /// Gives the machine `node` to evaluate before all other work.
    pub fn load(&mut self, node: Node)
        ensures
            final(self)@ == (ProgramView {
                control: old(self)@.control.push(TaskView::Eval(node@)),
                ..old(self)@
            }),
    {
        self.push_task(Task::Eval(node));
    }

    fn push_task(&mut self, task: Task)
        ensures
            final(self)@ == (ProgramView {
                control: old(self)@.control.push(task@),
                ..old(self)@
            }),
    {
        self.control.push(task);
        assert(self@.control =~= old(self)@.control.push(task@));
    }

    /// Gives up all work and the answer that is awaited. The stack, the
    /// variables and the operations stay as they are.
    pub fn cancel(&mut self)
        ensures
            final(self)@ == (ProgramView {
                control: Seq::empty(),
                pending: Pending::Nothing,
                ..old(self)@
            }),
    {
        self.control.clear();
        self.pending = Pending::Nothing;
        assert(self@.control =~= Seq::<TaskView>::empty());
    }

    /// Gives up the run with the error `e`.
    fn halt(&mut self, e: Error) -> (r: Step)
        ensures
            (final(self)@, r@) == halted(old(self)@, e@),
    {
        self.control.clear();
        self.pending = Pending::Nothing;
        assert(self@.control =~= Seq::<TaskView>::empty());
        Step::Failed(e)
    }

    /// Gives up the run with the message `msg` about `pos`.
    fn halt_at(&mut self, pos: Position, msg: String) -> (r: Step)
        ensures
            (final(self)@, r@) == halted(old(self)@, fail(pos, msg@)),
    {
        self.halt(Error::new(msg, Some(pos)))
    }

    /// Binds each of `names` to a value taken from the stack.
    fn take(&mut self, names: &Vec<String>, pos: Position) -> (r: Step)
        ensures
            (final(self)@, r@) == evaluated(
                old(self)@,
                NodeView { node: NodeTypeView::Take(texts(names@)), pos },
            ),
    {
        let depth = self.stack.len();
        if names.len() > depth {
            let q = quote(names[depth].as_str());
            return self.halt_at(
                pos,
                message("cannot take value to ", q.as_str(), " due to stack underflow"),
            );
        }
        let mut i: usize = 0;
        while i < names.len()
            invariant
                i <= names.len() <= depth,
                depth == old(self)@.stack.len(),
                self@.macros == old(self)@.macros,
                self@.control == old(self)@.control,
                self@.pending == old(self)@.pending,
                self@.stack == old(self)@.stack.take(depth - i),
                self@.vars == taken(old(self)@.vars, texts(names@).take(i as int), old(self)@.stack),
            decreases names.len() - i,
        {
            let value = self.stack.pop().unwrap();
            self.vars.insert(names[i].clone(), value);
            proof {
                let next = texts(names@).take(i + 1);
                assert(next.drop_last() =~= texts(names@).take(i as int));
                assert(next.last() == names@[i as int]@);
                assert(self@.stack =~= old(self)@.stack.take(depth - (i + 1)));
            }
            i += 1;
        }
        assert(texts(names@).take(names.len() as int) =~= texts(names@));
        Step::Next
    }

    /// Binds each of `names` to a copy of the top of the stack.
    fn copy_to(&mut self, names: &Vec<String>, pos: Position) -> (r: Step)
        ensures
            (final(self)@, r@) == evaluated(
                old(self)@,
                NodeView { node: NodeTypeView::CopyTo(texts(names@)), pos },
            ),
    {
        if names.len() == 0 {
            return Step::Next;
        }
        if self.stack.len() == 0 {
            let q = quote(names[0].as_str());
            return self.halt_at(
                pos,
                message("cannot take value to ", q.as_str(), " due to stack underflow"),
            );
        }
        let mut i: usize = 0;
        while i < names.len()
            invariant
                i <= names.len(),
                self@.stack.len() > 0,
                self@.macros == old(self)@.macros,
                self@.control == old(self)@.control,
                self@.pending == old(self)@.pending,
                self@.stack == old(self)@.stack,
                self@.vars == given(
                    old(self)@.vars,
                    texts(names@).take(i as int),
                    old(self)@.stack.last(),
                ),
            decreases names.len() - i,
        {
            let value = self.stack.below(0).clone();
            self.vars.insert(names[i].clone(), value);
            proof {
                let next = texts(names@).take(i + 1);
                assert(next.drop_last() =~= texts(names@).take(i as int));
                assert(next.last() == names@[i as int]@);
            }
            i += 1;
        }
        assert(texts(names@).take(names.len() as int) =~= texts(names@));
        Step::Next
    }

    /// The error for the name `id`, which cannot be copied.
    fn cannot_copy(&self, id: &String, pos: Position) -> (r: Error)
        requires
            !self@.vars.contains_key(id@),
        ensures
            r@ == copy_error(self@, id@, pos),
    {
        let q = quote(id.as_str());
        match self.macros.get(id) {
            Some(_) => Error::new(
                message("cannot copy a macro, ", q.as_str(), " is defined as a macro"),
                Some(pos),
            ),
            None => Error::new(message2("unknown id ", q.as_str()), Some(pos)),
        }
    }

    /// Pushes copies of the variables that `token` names.
    fn copy(&mut self, token: &Token) -> (r: Step)
        ensures
            (final(self)@, r@) == copied(old(self)@, token@),
    {
        match &token.instr {
            Instr::ID(id) => {
                let found: Option<Value> = match self.vars.get(id) {
                    Some(value) => Some(value.clone()),
                    None => None,
                };
                match found {
                    Some(value) => {
                        self.stack.push(value);
                        Step::Next
                    },
                    None => {
                        let e = self.cannot_copy(id, token.pos.clone());
                        self.halt(e)
                    },
                }
            },
            Instr::CopyTo(ids) => {
                let ghost names = texts(ids@).reverse();
                let n = ids.len();
                let mut values: Vec<Value> = Vec::new();
                let mut i: usize = 0;
                while i < n
                    invariant
                        i <= n,
                        n == ids.len(),
                        names == texts(ids@).reverse(),
                        token@.instr == InstrView::CopyTo(texts(ids@)),
                        *self == *old(self),
                        values.len() == i,
                        first_unbound(self@.vars, names, 0) == first_unbound(
                            self@.vars,
                            names,
                            i as int,
                        ),
                        value_views(values@) == values_of(self@.vars, names).take(
                            i as int,
                        ),
                    decreases n - i,
                {
                    let id = &ids[n - 1 - i];
                    assert(names[i as int] == id@);
                    let found: Option<Value> = match self.vars.get(id) {
                        Some(value) => Some(value.clone()),
                        None => None,
                    };
                    match found {
                        Some(value) => {
                            let ghost before = values@;
                            values.push(value);
                            assert(value_views(values@) =~= values_of(
                                self@.vars,
                                names,
                            ).take(i + 1)) by {
                                assert forall|k: int| 0 <= k < i + 1 implies value_views(
                                    values@,
                                )[k] == values_of(self@.vars, names).take(i + 1)[k] by {
                                    if k < i {
                                        assert(values@[k] == before[k]);
                                        assert(value_views(before)[k] == values_of(
                                            self@.vars,
                                            names,
                                        ).take(i as int)[k]);
                                    }
                                }
                            }
                        },
                        None => {
                            let e = self.cannot_copy(id, token.pos.clone());
                            return self.halt(e);
                        },
                    }
                    i += 1;
                }
                assert(values_of(self@.vars, names).take(n as int) =~= values_of(
                    self@.vars,
                    names,
                ));
                self.stack.extend(values);
                Step::Next
            },
            other => {
                let name = other.name();
                let msg = message2(
                    "expected identifier or copy-to-indentifiers, got ",
                    name.as_str(),
                );
                self.halt_at(token.pos.clone(), msg)
            },
        }
    }

    /// Evaluates the name `id`.
    fn call(&mut self, id: String, pos: Position) -> (r: Step)
        ensures
            (final(self)@, r@) == called(
                old(self)@,
                id@,
                NodeView { node: NodeTypeView::ID(id@), pos },
            ),
    {
        let choice = match self.macros.get(&id) {
            Some(set) => match set.get(&self.stack) {
                Some(MacroType::Macro(body)) => Choice::Body(body.clone()),
                Some(MacroType::Operation(op)) => Choice::Op(*op),
                None => Choice::NoMatch(set.display(&id)),
            },
            None => Choice::Var,
        };
        match choice {
            Choice::Body(body) => {
                self.push_task(Task::Eval(body));
                Step::Next
            },
            Choice::Op(op) => match apply(op, &mut self.stack) {
                Ok(Effect::Done) => Step::Next,
                Ok(Effect::Ask(request, pending)) => {
                    self.pending = pending;
                    match pending {
                        Pending::Text(_) => {
                            self.push_task(Task::Eval(Node::new(NodeType::ID(id), pos)));
                        },
                        _ => {},
                    }
                    Step::Ask(request)
                },
                Err(msg) => self.halt_at(pos, msg),
            },
            Choice::NoMatch(list) => {
                let q = quote(id.as_str());
                let mut out: Vec<char> = Vec::new();
                push_str(&mut out, "no macro definition ");
                push_str(&mut out, q.as_str());
                push_str(&mut out, " found with current stack, following macros are defined:\n");
                push_str(&mut out, list.as_str());
                push_str(&mut out, "\n");
                assert(out@ =~= no_overload(id@, old(self)@.macros[id@]));
                self.halt_at(pos, string_of(&out))
            },
            Choice::Var => match self.vars.remove(&id) {
                Some(value) => {
                    self.stack.push(value);
                    Step::Next
                },
                None => {
                    let q = quote(id.as_str());
                    assert(self@.vars =~= old(self)@.vars);
                    self.halt_at(pos, message2("unknown id ", q.as_str()))
                },
            },
        }
    }

    /// The failure of a control construct that finds no value, or one of
    /// the wrong type.
    fn bad_top(&mut self, pos: Position) -> (r: Step)
        ensures
            (final(self)@, r@) == halted(
                old(self)@,
                fail(
                    pos,
                    if old(self)@.stack.len() == 0 {
                        no_condition()
                    } else {
                        bad_condition(old(self)@.stack.last())
                    },
                ),
            ),
    {
        if self.stack.len() == 0 {
            self.halt_at(
                pos,
                "couldn't perform if-control-flow operation due to stack underflow".to_string(),
            )
        } else {
            let name = self.stack.below(0).typ().name();
            self.halt_at(
                pos,
                message2("expected a boolean value on top of the stack, got ", name),
            )
        }
    }

    /// Evaluates `node`.
    fn eval(&mut self, node: Node) -> (r: Step)
        ensures
            (final(self)@, r@) == evaluated(old(self)@, node@),
    {
        let pos = node.pos;
        proof {
            if node.node is Chunk {
                chunk_view(node);
            }
        }
        match node.node {
            NodeType::Chunk(nodes) => {
                let mut nodes = nodes;
                let ghost all = node_views(nodes@);
                let ghost n = nodes@.len();
                while nodes.len() > 0
                    invariant
                        nodes@.len() <= n,
                        n == all.len(),
                        node_views(nodes@) == all.take(nodes@.len() as int),
                        self@.vars == old(self)@.vars,
                        self@.macros == old(self)@.macros,
                        self@.stack == old(self)@.stack,
                        self@.pending == old(self)@.pending,
                        self@.control == old(self)@.control + tasks(all.reverse()).take(
                            n - nodes@.len(),
                        ),
                    decreases nodes.len(),
                {
                    let ghost left = nodes@;
                    let child = nodes.pop().unwrap();
                    assert(child@ == node_views(left)[left.len() - 1]);
                    assert(node_views(nodes@) =~= all.take(nodes@.len() as int));
                    self.push_task(Task::Eval(child));
                    assert(self@.control =~= old(self)@.control + tasks(all.reverse()).take(
                        n - nodes@.len(),
                    ));
                }
                assert(tasks(all.reverse()).take(n as int) =~= tasks(all.reverse()));
                Step::Next
            },
            NodeType::String(s) => {
                self.stack.push(Value::String(s));
                Step::Next
            },
            NodeType::Char(c) => {
                self.stack.push(Value::Char(c));
                Step::Next
            },
            NodeType::Int(i) => {
                self.stack.push(Value::Int(i));
                Step::Next
            },
            NodeType::Boolean(b) => {
                self.stack.push(Value::Boolean(b));
                Step::Next
            },
            NodeType::Float(text) => {
                self.pending = Pending::Number;
                Step::Ask(FloatRequest::Parse(text))
            },
            NodeType::Take(names) => self.take(&names, pos),
            NodeType::CopyTo(names) => self.copy_to(&names, pos),
            NodeType::Copy(token) => self.copy(&*token),
            NodeType::ID(id) => self.call(id, pos),
            NodeType::If(body, other) => {
                let cond: Option<bool> = match self.stack.peek() {
                    Some(Value::Boolean(b)) => Some(*b),
                    _ => None,
                };
                match cond {
                    None => self.bad_top(pos),
                    Some(b) => {
                        let _ = self.stack.pop();
                        if b {
                            self.push_task(Task::Eval(*body));
                        } else {
                            match other {
                                Some(e) => {
                                    self.push_task(Task::Eval(*e));
                                },
                                None => {},
                            }
                        }
                        Step::Next
                    },
                }
            },
            NodeType::Repeat(body) => {
                let count: Option<i64> = match self.stack.peek() {
                    Some(Value::Int(n)) => Some(*n),
                    _ => None,
                };
                match count {
                    None => self.bad_top(pos),
                    Some(n) => {
                        let _ = self.stack.pop();
                        self.push_task(Task::Loop(*body, n));
                        Step::Next
                    },
                }
            },
            NodeType::Macro(_, _, _) => self.halt_at(
                pos,
                "macro definitions cannot be run".to_string(),
            ),
        }
    }

    /// Makes one step.
    pub fn step(&mut self) -> (r: Step)
        ensures
            (final(self)@, r@) == stepped(old(self)@),
    {
        match self.pending {
            Pending::Nothing => {},
            _ => {
                return self.halt(
                    Error::new("the machine waits for something else".to_string(), None),
                );
            },
        }
        match self.control.pop() {
            None => Step::Done,
            Some(task) => {
                assert(task@ == old(self)@.control.last());
                assert(self@.control =~= old(self)@.control.drop_last());
                match task {
                    Task::Loop(body, n) => {
                        if n > 0 {
                            let again = body.clone();
                            self.push_task(Task::Loop(body, n - 1));
                            self.push_task(Task::Eval(again));
                        }
                        Step::Next
                    },
                    Task::Eval(node) => self.eval(node),
                }
            },
        }
    }

    /// Takes the answer to what the last step asked for.
    pub fn answer(&mut self, reply: FloatReply) -> (r: Result<(), Error>)
        ensures
            final(self)@ == answered(old(self)@, reply@).0,
            match answered(old(self)@, reply@).1 {
                Some(e) => r is Err && r->Err_0@ == e,
                None => r is Ok,
            },
    {
        let pending = self.pending;
        self.pending = Pending::Nothing;
        match (pending, reply) {
            (Pending::Number, FloatReply::Number(x)) => {
                self.stack.push(Value::Float(x));
                Ok(())
            },
            (Pending::Truth, FloatReply::Truth(b)) => {
                self.stack.push(Value::Boolean(b));
                Ok(())
            },
            (Pending::Text(i), FloatReply::Text(t)) => {
                if i < self.stack.len() {
                    self.stack.set(i, Value::String(t));
                    Ok(())
                } else {
                    self.control.clear();
                    assert(self@.control =~= Seq::<TaskView>::empty());
                    Err(Error::new("the machine waits for something else".to_string(), None))
                }
            },
            _ => {
                self.control.clear();
                assert(self@.control =~= Seq::<TaskView>::empty());
                Err(Error::new("the machine waits for something else".to_string(), None))
            },
        }
    }

    /// Goes on with the work for `limit` steps at most, and stops before
    /// that at the first step that is done, asks or fails. `Step::Next`
    /// says that the limit was reached.
    pub fn resume(&mut self, limit: u64) -> (r: Step)
        ensures
            (final(self)@, r@) == ran(old(self)@, limit as nat),
    {
        let mut left: u64 = limit;
        while left > 0
            invariant
                ran(old(self)@, limit as nat) == ran(self@, left as nat),
            decreases left,
        {
            match self.step() {
                Step::Next => {
                    left -= 1;
                },
                other => {
                    return other;
                },
            }
        }
        Step::Next
    }

    /// Evaluates `node`, before all other work, for `limit` steps at
    /// most; see `resume`.
    pub fn run(&mut self, node: Node, limit: u64) -> (r: Step)
        ensures
            (final(self)@, r@) == ran(
                ProgramView {
                    control: old(self)@.control.push(TaskView::Eval(node@)),
                    ..old(self)@
                },
                limit as nat,
            ),
    {
        self.load(node);
        self.resume(limit)
    }
}

/// An overload that runs an operation of the library.
pub open spec fn overload(types: Seq<Type>, op: Builtin) -> CandidateView {
    CandidateView { types, action: MacroTypeView::Operation(op) }
}

/// The overloads of an operation on two numbers, be they integers or
/// floating-point numbers.
pub open spec fn numeric(op: Builtin) -> Seq<CandidateView> {
    seq![
        overload(seq![Type::Int, Type::Int], op),
        overload(seq![Type::Float, Type::Float], op),
        overload(seq![Type::Int, Type::Float], op),
        overload(seq![Type::Float, Type::Int], op),
    ]
}

/// A signature that none of `cands` is taken for is defined last.
pub proof fn defined_last(cands: Seq<CandidateView>, types: Seq<Type>, action: MacroTypeView)
    requires
        forall|i: int| 0 <= i < cands.len() ==> !same_signature(
            (#[trigger] cands[i]).types,
            types,
        ),
    ensures
        defined(cands, types, action) == cands.push(
            CandidateView { types, action },
        ),
        displaced(cands, types) is None,
{
    unplaced(cands, types, 0);
}

proof fn unplaced(cands: Seq<CandidateView>, types: Seq<Type>, from: int)
    requires
        0 <= from <= cands.len(),
        forall|i: int| 0 <= i < cands.len() ==> !same_signature(
            (#[trigger] cands[i]).types,
            types,
        ),
    ensures
        place(cands, types, from) == cands.len(),
    decreases cands.len() - from,
{
    if from < cands.len() {
        unplaced(cands, types, from + 1);
    }
}

/// The signature of one type.
fn types1(a: Type) -> (r: Vec<Type>)
    ensures
        r@ == seq![a],
{
    let mut v: Vec<Type> = Vec::new();
    v.push(a);
    assert(v@ =~= seq![a]);
    v
}

/// The signature of two types.
fn types2(a: Type, b: Type) -> (r: Vec<Type>)
    ensures
        r@ == seq![a, b],
{
    let mut v: Vec<Type> = Vec::new();
    v.push(a);
    v.push(b);
    assert(v@ =~= seq![a, b]);
    v
}

/// The signature of three types.
fn types3(a: Type, b: Type, c: Type) -> (r: Vec<Type>)
    ensures
        r@ == seq![a, b, c],
{
    let mut v: Vec<Type> = Vec::new();
    v.push(a);
    v.push(b);
    v.push(c);
    assert(v@ =~= seq![a, b, c]);
    v
}

/// The overload set of an operation on two numbers.
fn numbers(op: Builtin) -> (r: MacroOverload)
    ensures
        r@ == numeric(op),
{
    let mut set = MacroOverload::new();
    let ghost run = MacroTypeView::Operation(op);
    proof {
        defined_last(set@, seq![Type::Int, Type::Int], run);
    }
    set.def(types2(Type::Int, Type::Int), MacroType::Operation(op));
    proof {
        assert(!seq![Type::Int, Type::Int][0].accepts(seq![Type::Float, Type::Float][0]));
        defined_last(set@, seq![Type::Float, Type::Float], run);
    }
    set.def(types2(Type::Float, Type::Float), MacroType::Operation(op));
    proof {
        assert(!seq![Type::Int, Type::Int][1].accepts(seq![Type::Int, Type::Float][1]));
        assert(!seq![Type::Float, Type::Float][0].accepts(seq![Type::Int, Type::Float][0]));
        defined_last(set@, seq![Type::Int, Type::Float], run);
    }
    set.def(types2(Type::Int, Type::Float), MacroType::Operation(op));
    proof {
        assert(!seq![Type::Int, Type::Int][0].accepts(seq![Type::Float, Type::Int][0]));
        assert(!seq![Type::Float, Type::Float][1].accepts(seq![Type::Float, Type::Int][1]));
        assert(!seq![Type::Int, Type::Float][0].accepts(seq![Type::Float, Type::Int][0]));
        defined_last(set@, seq![Type::Float, Type::Int], run);
    }
    set.def(types2(Type::Float, Type::Int), MacroType::Operation(op));
    assert(set@ =~= numeric(op));
    set
}

/// The overload set of two signatures, which are not taken for the same.
fn pair(a: Vec<Type>, run_a: Builtin, b: Vec<Type>, run_b: Builtin) -> (r: MacroOverload)
    requires
        !same_signature(a@, b@),
    ensures
        r@ == seq![overload(a@, run_a), overload(b@, run_b)],
{
    let mut set = MacroOverload::from(a, MacroType::Operation(run_a));
    proof {
        defined_last(set@, b@, MacroTypeView::Operation(run_b));
    }
    set.def(b, MacroType::Operation(run_b));
    assert(set@ =~= seq![overload(a@, run_a), overload(b@, run_b)]);
    set
}

/// The overload set of an operation on two numbers that also works on a
/// text or a character, in the two ways `a` and `b`.
fn numbers_and(op: Builtin, a: Vec<Type>, b: Vec<Type>) -> (r: MacroOverload)
    requires
        a@.len() == 2,
        b@.len() == 2,
        a@[0] is String || a@[0] is Char,
        b@[0] is String || b@[0] is Char,
        !same_signature(a@, b@),
    ensures
        r@ == numeric(op) + seq![overload(a@, op), overload(b@, op)],
{
    let mut set = numbers(op);
    proof {
        assert forall|i: int| 0 <= i < set@.len() implies !same_signature(
            (#[trigger] set@[i]).types,
            a@,
        ) by {
            assert(!set@[i].types[0].accepts(a@[0]));
        }
        defined_last(set@, a@, MacroTypeView::Operation(op));
    }
    set.def(a, MacroType::Operation(op));
    proof {
        assert forall|i: int| 0 <= i < set@.len() implies !same_signature(
            (#[trigger] set@[i]).types,
            b@,
        ) by {
            if i < 4 {
                assert(!set@[i].types[0].accepts(b@[0]));
            }
        }
        defined_last(set@, b@, MacroTypeView::Operation(op));
    }
    set.def(b, MacroType::Operation(op));
    assert(set@ =~= numeric(op) + seq![overload(a@, op), overload(b@, op)]);
    set
}

/// The operations that a session starts with.
pub open spec fn library() -> Map<Seq<char>, Seq<CandidateView>> {
    Map::<Seq<char>, Seq<CandidateView>>::empty().insert(
        "LEN"@,
        seq![overload(seq![], Builtin::StackLen)],
    ).insert("len"@, seq![overload(seq![Type::String], Builtin::Len)]).insert(
        "drop"@,
        seq![overload(seq![Type::Any], Builtin::Drop)],
    ).insert("copy"@, seq![overload(seq![Type::Any], Builtin::Copy)]).insert(
        "swap"@,
        seq![overload(seq![Type::Any, Type::Any], Builtin::Swap)],
    ).insert("over"@, seq![overload(seq![Type::Any, Type::Any], Builtin::Over)]).insert(
        "+"@,
        numeric(Builtin::Add) + seq![
            overload(seq![Type::String, Type::String], Builtin::Add),
            overload(seq![Type::String, Type::Char], Builtin::Add),
        ],
    ).insert("-"@, numeric(Builtin::Sub)).insert(
        "*"@,
        numeric(Builtin::Mult) + seq![
            overload(seq![Type::String, Type::Int], Builtin::Mult),
            overload(seq![Type::Char, Type::Int], Builtin::Mult),
        ],
    ).insert("/"@, numeric(Builtin::Div)).insert("%"@, numeric(Builtin::Module)).insert(
        "and"@,
        seq![overload(seq![Type::Boolean, Type::Boolean], Builtin::And)],
    ).insert("or"@, seq![overload(seq![Type::Boolean, Type::Boolean], Builtin::Or)]).insert(
        "not"@,
        seq![overload(seq![Type::Boolean], Builtin::Not)],
    ).insert("="@, seq![overload(seq![Type::Any, Type::Any], Builtin::Eq)]).insert(
        "!="@,
        seq![overload(seq![Type::Any, Type::Any], Builtin::Ne)],
    ).insert("<"@, numeric(Builtin::Lt)).insert(">"@, numeric(Builtin::Gt)).insert(
        "<="@,
        numeric(Builtin::Le),
    ).insert(">="@, numeric(Builtin::Ge)).insert(
        "."@,
        seq![
            overload(seq![Type::String, Type::Int], Builtin::Index),
            overload(seq![Type::String, Type::Int, Type::Int], Builtin::IndexRange),
        ],
    ).insert("rev"@, seq![overload(seq![Type::String], Builtin::Rev)]).insert(
        "pos"@,
        seq![
            overload(seq![Type::String, Type::String], Builtin::Pos),
            overload(seq![Type::String, Type::Char], Builtin::Pos),
        ],
    ).insert("remove"@, seq![overload(seq![Type::String, Type::Int], Builtin::Remove)]).insert(
        "count"@,
        seq![
            overload(seq![Type::String, Type::Char], Builtin::Count),
            overload(seq![Type::String, Type::String], Builtin::Count),
        ],
    ).insert(
        "split"@,
        seq![
            overload(seq![Type::String, Type::Char], Builtin::Split),
            overload(seq![Type::String, Type::String], Builtin::Split),
        ],
    ).insert(
        "join"@,
        seq![
            overload(seq![Type::Char], Builtin::Join),
            overload(seq![Type::String], Builtin::Join),
        ],
    )
}

impl Program {
    /// A session with the operations of the library: the size of the
    /// stack and of a text; dropping, copying and swapping values;
    /// arithmetic on numbers, texts and characters; logic; equality and
    /// order; and taking texts apart and putting them together.
    pub fn std_program() -> (r: Self)
        ensures
            r@ == (ProgramView {
                vars: Map::empty(),
                macros: library(),
                stack: Seq::empty(),
                control: Seq::empty(),
                pending: Pending::Nothing,
            }),
    {
        let mut program = Program::new();
        program.macros.insert(
            "LEN".to_string(),
            MacroOverload::from(Vec::new(), MacroType::Operation(Builtin::StackLen)),
        );
        program.macros.insert(
            "len".to_string(),
            MacroOverload::from(types1(Type::String), MacroType::Operation(Builtin::Len)),
        );
        program.macros.insert(
            "drop".to_string(),
            MacroOverload::from(types1(Type::Any), MacroType::Operation(Builtin::Drop)),
        );
        program.macros.insert(
            "copy".to_string(),
            MacroOverload::from(types1(Type::Any), MacroType::Operation(Builtin::Copy)),
        );
        program.macros.insert(
            "swap".to_string(),
            MacroOverload::from(types2(Type::Any, Type::Any), MacroType::Operation(Builtin::Swap)),
        );
        program.macros.insert(
            "over".to_string(),
            MacroOverload::from(types2(Type::Any, Type::Any), MacroType::Operation(Builtin::Over)),
        );
        proof {
            assert(!seq![Type::String, Type::String][1].accepts(seq![Type::String, Type::Char][1]));
        }
        program.macros.insert(
            "+".to_string(),
            numbers_and(
                Builtin::Add,
                types2(Type::String, Type::String),
                types2(Type::String, Type::Char),
            ),
        );
        program.macros.insert("-".to_string(), numbers(Builtin::Sub));
        proof {
            assert(!seq![Type::String, Type::Int][0].accepts(seq![Type::Char, Type::Int][0]));
        }
        program.macros.insert(
            "*".to_string(),
            numbers_and(Builtin::Mult, types2(Type::String, Type::Int), types2(Type::Char, Type::Int)),
        );
        program.macros.insert("/".to_string(), numbers(Builtin::Div));
        program.macros.insert("%".to_string(), numbers(Builtin::Module));
        program.macros.insert(
            "and".to_string(),
            MacroOverload::from(
                types2(Type::Boolean, Type::Boolean),
                MacroType::Operation(Builtin::And),
            ),
        );
        program.macros.insert(
            "or".to_string(),
            MacroOverload::from(
                types2(Type::Boolean, Type::Boolean),
                MacroType::Operation(Builtin::Or),
            ),
        );
        program.macros.insert(
            "not".to_string(),
            MacroOverload::from(types1(Type::Boolean), MacroType::Operation(Builtin::Not)),
        );
        program.macros.insert(
            "=".to_string(),
            MacroOverload::from(types2(Type::Any, Type::Any), MacroType::Operation(Builtin::Eq)),
        );
        program.macros.insert(
            "!=".to_string(),
            MacroOverload::from(types2(Type::Any, Type::Any), MacroType::Operation(Builtin::Ne)),
        );
        program.macros.insert("<".to_string(), numbers(Builtin::Lt));
        program.macros.insert(">".to_string(), numbers(Builtin::Gt));
        program.macros.insert("<=".to_string(), numbers(Builtin::Le));
        program.macros.insert(">=".to_string(), numbers(Builtin::Ge));
        program.macros.insert(
            ".".to_string(),
            pair(
                types2(Type::String, Type::Int),
                Builtin::Index,
                types3(Type::String, Type::Int, Type::Int),
                Builtin::IndexRange,
            ),
        );
        program.macros.insert(
            "rev".to_string(),
            MacroOverload::from(types1(Type::String), MacroType::Operation(Builtin::Rev)),
        );
        proof {
            assert(!seq![Type::String, Type::Char][1].accepts(seq![Type::String, Type::String][1]));
        }
        program.macros.insert(
            "pos".to_string(),
            pair(
                types2(Type::String, Type::String),
                Builtin::Pos,
                types2(Type::String, Type::Char),
                Builtin::Pos,
            ),
        );
        program.macros.insert(
            "remove".to_string(),
            MacroOverload::from(types2(Type::String, Type::Int), MacroType::Operation(Builtin::Remove)),
        );
        program.macros.insert(
            "count".to_string(),
            pair(
                types2(Type::String, Type::Char),
                Builtin::Count,
                types2(Type::String, Type::String),
                Builtin::Count,
            ),
        );
        program.macros.insert(
            "split".to_string(),
            pair(
                types2(Type::String, Type::Char),
                Builtin::Split,
                types2(Type::String, Type::String),
                Builtin::Split,
            ),
        );
        proof {
            assert(!seq![Type::Char][0].accepts(seq![Type::String][0]));
        }
        program.macros.insert(
            "join".to_string(),
            pair(types1(Type::Char), Builtin::Join, types1(Type::String), Builtin::Join),
        );
        program
    }
}

} // verus!
