//! Overload sets: for one operation name, the signatures it was defined
//! with and what each of them runs.

use crate::parser::{clone_types, Node, NodeView};
use crate::stack::Stack;
use crate::table::Table;
use crate::text::{push_str, string_of};
use crate::value::{Type, ValueView};
use vstd::prelude::*;

verus! {

/// The operations that the library implements itself.
#[derive(Clone, Copy, Debug, PartialEq, Eq, Structural)]
pub enum Builtin {
    StackLen,
    Len,
    Drop,
    Copy,
    Swap,
    Over,
    Add,
    Sub,
    Mult,
    Div,
    Module,
    And,
    Or,
    Not,
    Eq,
    Ne,
    Lt,
    Gt,
    Le,
    Ge,
    Index,
    IndexRange,
    Rev,
    Pos,
    Remove,
    Count,
    Split,
    Join,
}

/// What an overload runs: a tree of nodes, or an operation of the
/// library.
#[derive(Debug, PartialEq)]
pub enum MacroType {
    Macro(Node),
    Operation(Builtin),
}

/// What a `MacroType` holds.
pub enum MacroTypeView {
    Macro(NodeView),
    Operation(Builtin),
}

impl View for MacroType {
    type V = MacroTypeView;

    open spec fn view(&self) -> MacroTypeView {
        match self {
            MacroType::Macro(node) => MacroTypeView::Macro(node@),
            MacroType::Operation(op) => MacroTypeView::Operation(*op),
        }
    }
}

impl Clone for MacroType {
    fn clone(&self) -> (r: Self)
        ensures
            r@ == self@,
    {
        match self {
            MacroType::Macro(node) => MacroType::Macro(node.clone()),
            MacroType::Operation(op) => MacroType::Operation(*op),
        }
    }
}

/// One overload: the types it asks for on top of the stack, the last of
/// them for the top, and what it runs.
#[derive(Debug, PartialEq)]
pub struct Candidate {
    pub types: Vec<Type>,
    pub action: MacroType,
}

/// What a `Candidate` holds.
pub struct CandidateView {
    pub types: Seq<Type>,
    pub action: MacroTypeView,
}

impl View for Candidate {
    type V = CandidateView;

    open spec fn view(&self) -> CandidateView {
        CandidateView { types: self.types@, action: self.action@ }
    }
}

/// The views of a sequence of candidates.
pub open spec fn candidate_views(v: Seq<Candidate>) -> Seq<CandidateView> {
    Seq::new(v.len(), |i: int| v[i]@)
}

/// Whether the stack holds what a signature asks for: at least as many
/// values as the signature has types, and on top of the stack, read from
/// the top down against the signature read from its end, values that
/// each type accepts.
pub open spec fn fits(types: Seq<Type>, stack: Seq<ValueView>) -> bool {
    &&& types.len() <= stack.len()
    &&& forall|k: int|
        0 <= k < types.len() ==> (#[trigger] types[types.len() - 1 - k]).accepts(
            stack[stack.len() - 1 - k].typ(),
        )
}

/// What the first candidate that the stack fits runs. The candidates are
/// tried in the order in which they were defined.
pub open spec fn select(cands: Seq<CandidateView>, stack: Seq<ValueView>) -> Option<MacroTypeView>
    decreases cands.len(),
{
    if cands.len() == 0 {
        None
    } else if fits(cands[0].types, stack) {
        Some(cands[0].action)
    } else {
        select(cands.drop_first(), stack)
    }
}

/// Whether two signatures are taken for the same: they have the same
/// length and, place by place, types that accept each other.
pub open spec fn same_signature(a: Seq<Type>, b: Seq<Type>) -> bool {
    &&& a.len() == b.len()
    &&& forall|k: int| 0 <= k < a.len() ==> (#[trigger] a[k]).accepts(b[k])
}

/// The index of the first candidate from `from` on whose signature is
/// taken for the same as `types`, or the number of candidates.
pub open spec fn place(cands: Seq<CandidateView>, types: Seq<Type>, from: int) -> int
    decreases cands.len() - from,
{
    if from < 0 || from >= cands.len() {
        cands.len() as int
    } else if same_signature(cands[from].types, types) {
        from
    } else {
        place(cands, types, from + 1)
    }
}

/// The candidates after `types` was defined to run `action`: the first
/// candidate with the same signature runs `action` from now on, and
/// keeps its own signature; where there is none, a new candidate comes
/// last.
pub open spec fn defined(cands: Seq<CandidateView>, types: Seq<Type>, action: MacroTypeView) -> Seq<
    CandidateView,
> {
    let i = place(cands, types, 0);
    if i < cands.len() {
        cands.update(i, CandidateView { types: cands[i].types, action })
    } else {
        cands.push(CandidateView { types, action })
    }
}

/// What the candidate that `defined` replaces ran, if it replaces one.
pub open spec fn displaced(cands: Seq<CandidateView>, types: Seq<Type>) -> Option<MacroTypeView> {
    let i = place(cands, types, 0);
    if i < cands.len() {
        Some(cands[i].action)
    } else {
        None
    }
}

/// The names of the types of a signature with a blank between them.
pub open spec fn signature_text(types: Seq<Type>) -> Seq<char>
    decreases types.len(),
{
    if types.len() == 0 {
        Seq::empty()
    } else if types.len() == 1 {
        types[0].spec_name()
    } else {
        signature_text(types.drop_last()) + " "@ + types.last().spec_name()
    }
}

/// One line for each candidate: its signature in square brackets and the
/// name `id`.
pub open spec fn listing(cands: Seq<CandidateView>, id: Seq<char>) -> Seq<char>
    decreases cands.len(),
{
    if cands.len() == 0 {
        Seq::empty()
    } else {
        listing(cands.drop_last(), id) + "["@ + signature_text(cands.last().types) + "] "@ + id
            + "\n"@
    }
}

/// Whether the stack holds what `types` asks for.
pub fn matches_stack(types: &Vec<Type>, stack: &Stack) -> (r: bool)
    ensures
        r == fits(types@, stack@),
{
    if stack.len() < types.len() {
        return false;
    }
    let n = types.len();
    let mut k: usize = 0;
    while k < n
        invariant
            k <= n,
            n == types.len(),
            n <= stack@.len(),
            forall|j: int|
                0 <= j < k ==> (#[trigger] types@[n - 1 - j]).accepts(
                    stack@[stack@.len() - 1 - j].typ(),
                ),
        decreases n - k,
    {
        let have = stack.below(k).typ();
        if !(have == types[n - 1 - k]) {
            assert(!types@[n - 1 - k].accepts(stack@[stack@.len() - 1 - k].typ()));
            return false;
        }
        k += 1;
    }
    true
}

/// Whether two signatures are taken for the same.
pub fn same_types(a: &Vec<Type>, b: &Vec<Type>) -> (r: bool)
    ensures
        r == same_signature(a@, b@),
{
    if a.len() != b.len() {
        return false;
    }
    let mut k: usize = 0;
    while k < a.len()
        invariant
            k <= a.len(),
            a.len() == b.len(),
            forall|j: int| 0 <= j < k ==> (#[trigger] a@[j]).accepts(b@[j]),
        decreases a.len() - k,
    {
        if !(a[k] == b[k]) {
            assert(!a@[k as int].accepts(b@[k as int]));
            return false;
        }
        k += 1;
    }
    true
}

/// The overloads of one operation name, in the order of their
/// definition.
#[derive(Debug, PartialEq)]
pub struct MacroOverload {
    macros: Vec<Candidate>,
}

impl View for MacroOverload {
    type V = Seq<CandidateView>;

    closed spec fn view(&self) -> Seq<CandidateView> {
        candidate_views(self.macros@)
    }
}

impl MacroOverload {
    /// The overload set without overloads.
    pub fn new() -> (r: Self)
        ensures
            r@ == Seq::<CandidateView>::empty(),
    {
        let r = Self { macros: Vec::new() };
        assert(r@ =~= Seq::<CandidateView>::empty());
        r
    }

    /// The overload set with one overload.
    pub fn from(args: Vec<Type>, macro_type: MacroType) -> (r: Self)
        ensures
            r@ == seq![CandidateView { types: args@, action: macro_type@ }],
    {
        let mut macros: Vec<Candidate> = Vec::new();
        macros.push(Candidate { types: args, action: macro_type });
        let r = Self { macros };
        assert(r@ =~= seq![CandidateView { types: args@, action: macro_type@ }]);
        r
    }

    /// What the first overload that the stack fits runs.
    pub fn get(&self, stack: &Stack) -> (r: Option<&MacroType>)
        ensures
            match select(self@, stack@) {
                Some(action) => r is Some && r->0@ == action,
                None => r is None,
            },
    {
        let mut i: usize = 0;
        assert(self@.skip(0) =~= self@);
        while i < self.macros.len()
            invariant
                i <= self.macros.len(),
                select(self@, stack@) == select(self@.skip(i as int), stack@),
            decreases self.macros.len() - i,
        {
            assert(self@.skip(i as int)[0] == self.macros@[i as int]@);
            assert(self@.skip(i as int).drop_first() =~= self@.skip(i + 1));
            if matches_stack(&self.macros[i].types, stack) {
                return Some(&self.macros[i].action);
            }
            i += 1;
        }
        assert(self@.skip(self.macros.len() as int).len() == 0);
        None
    }

    /// Defines what the signature `args` runs, and returns what it ran
    /// before.
    pub fn def(&mut self, args: Vec<Type>, macro_type: MacroType) -> (r: Option<MacroType>)
        ensures
            final(self)@ == defined(old(self)@, args@, macro_type@),
            match displaced(old(self)@, args@) {
                Some(action) => r is Some && r->0@ == action,
                None => r is None,
            },
    {
        let mut i: usize = 0;
        while i < self.macros.len()
            invariant
                i <= self.macros.len(),
                self.macros == old(self).macros,
                place(self@, args@, 0) == place(self@, args@, i as int),
            decreases self.macros.len() - i,
        {
            assert(self@[i as int] == self.macros@[i as int]@);
            if same_types(&self.macros[i].types, &args) {
                let ghost before = self@;
                let found = self.macros.remove(i);
                self.macros.insert(i, Candidate { types: found.types, action: macro_type });
                assert(self@ =~= before.update(
                    i as int,
                    CandidateView { types: before[i as int].types, action: macro_type@ },
                ));
                return Some(found.action);
            }
            i += 1;
        }
        let ghost before = self@;
        self.macros.push(Candidate { types: args, action: macro_type });
        assert(self@ =~= before.push(CandidateView { types: args@, action: macro_type@ }));
        None
    }

    /// Lists the signatures of the overloads, one on a line, each with
    /// the name `id`.
    pub fn display(&self, id: &String) -> (r: String)
        ensures
            r@ == listing(self@, id@),
    {
        let mut out: Vec<char> = Vec::new();
        let mut i: usize = 0;
        while i < self.macros.len()
            invariant
                i <= self.macros.len(),
                out@ == listing(self@.take(i as int), id@),
            decreases self.macros.len() - i,
        {
            let ghost start = out@;
            let types = &self.macros[i].types;
            out.push('[');
            let ghost open = out@;
            let mut k: usize = 0;
            while k < types.len()
                invariant
                    k <= types.len(),
                    out@ == open + signature_text(types@.take(k as int)),
                decreases types.len() - k,
            {
                assert(types@.take(k + 1).drop_last() =~= types@.take(k as int));
                if k > 0 {
                    out.push(' ');
                }
                push_str(&mut out, types[k].name());
                proof {
                    reveal_strlit(" ");
                    assert(" "@ =~= seq![' ']);
                    assert(out@ =~= open + signature_text(types@.take(k + 1)));
                }
                k += 1;
            }
            assert(types@.take(types.len() as int) =~= types@);
            push_str(&mut out, "] ");
            push_str(&mut out, id.as_str());
            out.push('\n');
            proof {
                reveal_strlit("[");
                reveal_strlit("\n");
                assert("["@ =~= seq!['[']);
                assert("\n"@ =~= seq!['\n']);
                assert(self@.take(i + 1).drop_last() =~= self@.take(i as int));
                assert(self@.take(i + 1).last().types == types@);
                assert(out@ =~= listing(self@.take(i + 1), id@));
            }
            i += 1;
        }
        assert(self@.take(self.macros.len() as int) =~= self@);
        string_of(&out)
    }
}

impl Clone for MacroOverload {
    fn clone(&self) -> (r: Self)
        ensures
            r@ == self@,
    {
        let mut macros: Vec<Candidate> = Vec::new();
        let mut i: usize = 0;
        while i < self.macros.len()
            invariant
                i <= self.macros.len(),
                macros.len() == i,
                candidate_views(macros@) == self@.take(i as int),
            decreases self.macros.len() - i,
        {
            let c = &self.macros[i];
            let ghost before = macros@;
            macros.push(Candidate { types: clone_types(&c.types), action: c.action.clone() });
            assert(candidate_views(macros@) =~= self@.take(i + 1)) by {
                assert forall|k: int| 0 <= k < i + 1 implies candidate_views(macros@)[k]
                    == self@.take(i + 1)[k] by {
                    if k < i {
                        assert(macros@[k] == before[k]);
                        assert(candidate_views(before)[k] == self@.take(i as int)[k]);
                    }
                }
            }
            i += 1;
        }
        assert(self@.take(self.macros.len() as int) =~= self@);
        Self { macros }
    }
}

/// The overload sets of a table, each by what it holds.
pub open spec fn overloads(t: Map<Seq<char>, MacroOverload>) -> Map<Seq<char>, Seq<CandidateView>> {
    Map::new(|name: Seq<char>| t.contains_key(name), |name: Seq<char>| t[name]@)
}

/// The operations: a mapping from names to overload sets.
#[derive(Debug, PartialEq)]
pub struct Registry {
    table: Table<MacroOverload>,
}

impl View for Registry {
    type V = Map<Seq<char>, Seq<CandidateView>>;

    closed spec fn view(&self) -> Map<Seq<char>, Seq<CandidateView>> {
        overloads(self.table@)
    }
}

impl Registry {
    /// No operations.
    pub fn new() -> (r: Self)
        ensures
            r@ == Map::<Seq<char>, Seq<CandidateView>>::empty(),
    {
        let r = Self { table: Table::new() };
        assert(r@ =~= Map::<Seq<char>, Seq<CandidateView>>::empty());
        r
    }

    /// The overload set of `name`.
    pub fn get(&self, name: &String) -> (r: Option<&MacroOverload>)
        ensures
            match r {
                Some(set) => self@.contains_key(name@) && self@[name@] == set@,
                None => !self@.contains_key(name@),
            },
    {
        self.table.get(name)
    }

    /// Gives `name` the overload set `set`, in place of the one it had.
    pub fn insert(&mut self, name: String, set: MacroOverload)
        ensures
            final(self)@ == old(self)@.insert(name@, set@),
    {
        self.table.insert(name, set);
        assert(self@ =~= old(self)@.insert(name@, set@));
    }
}

} // verus!
