//! Tables keyed by name.

use vstd::prelude::*;

verus! {

/// A name with the value bound to it.
#[derive(Debug, PartialEq)]
pub struct Binding<V> {
    pub name: String,
    pub value: V,
}

/// The table that a list of bindings stands for. Where a name occurs
/// twice, the first binding counts.
pub open spec fn table<V>(entries: Seq<Binding<V>>) -> Map<Seq<char>, V>
    decreases entries.len(),
{
    if entries.len() == 0 {
        Map::empty()
    } else {
        let before = table(entries.drop_last());
        if before.contains_key(entries.last().name@) {
            before
        } else {
            before.insert(entries.last().name@, entries.last().value)
        }
    }
}

/// What a prefix of the bindings binds, all of them bind too.
proof fn table_stable<V>(entries: Seq<Binding<V>>, k: int, name: Seq<char>)
    requires
        0 <= k <= entries.len(),
        table(entries.take(k)).contains_key(name),
    ensures
        table(entries).contains_key(name),
        table(entries)[name] == table(entries.take(k))[name],
    decreases entries.len() - k,
{
    if k < entries.len() {
        assert(entries.take(k + 1).drop_last() =~= entries.take(k));
        table_stable(entries, k + 1, name);
    } else {
        assert(entries.take(k) =~= entries);
    }
}

/// A mapping from names to values. A name has one value at most.
#[derive(Debug, PartialEq)]
pub struct Table<V> {
    entries: Vec<Binding<V>>,
}

impl<V> View for Table<V> {
    type V = Map<Seq<char>, V>;

    closed spec fn view(&self) -> Map<Seq<char>, V> {
        table(self.entries@)
    }
}

impl<V> Table<V> {
    /// The empty table.
    pub fn new() -> (r: Self)
        ensures
            r@ == Map::<Seq<char>, V>::empty(),
    {
        Self { entries: Vec::new() }
    }

    /// The value bound to `name`.
    pub fn get(&self, name: &String) -> (r: Option<&V>)
        ensures
            match r {
                Some(v) => self@.contains_key(name@) && self@[name@] == *v,
                None => !self@.contains_key(name@),
            },
    {
        let mut i: usize = 0;
        while i < self.entries.len()
            invariant
                i <= self.entries.len(),
                !table(self.entries@.take(i as int)).contains_key(name@),
            decreases self.entries.len() - i,
        {
            assert(self.entries@.take(i + 1).drop_last() =~= self.entries@.take(i as int));
            if self.entries[i].name == *name {
                proof {
                    table_stable(self.entries@, i + 1, name@);
                }
                return Some(&self.entries[i].value);
            }
            i += 1;
        }
        assert(self.entries@.take(self.entries.len() as int) =~= self.entries@);
        None
    }

    /// Takes the binding of `name` out of the table and returns its
    /// value.
    pub fn remove(&mut self, name: &String) -> (r: Option<V>)
        ensures
            final(self)@ == old(self)@.remove(name@),
            match r {
                Some(v) => old(self)@.contains_key(name@) && old(self)@[name@] == v,
                None => !old(self)@.contains_key(name@),
            },
    {
        let mut kept: Vec<Binding<V>> = Vec::new();
        let mut found: Option<V> = None;
        let mut all: Vec<Binding<V>> = Vec::new();
        std::mem::swap(&mut all, &mut self.entries);
        let ghost entries = all@;
        for b in it: all
            invariant
                it.seq() == entries,
                table(kept@) == table(entries.take(it.index() as int)).remove(name@),
                match found {
                    Some(v) => table(entries.take(it.index() as int)).contains_key(name@) && table(
                        entries.take(it.index() as int),
                    )[name@] == v,
                    None => !table(entries.take(it.index() as int)).contains_key(name@),
                },
        {
            let ghost i = it.index() as int;
            assert(entries.take(i + 1).drop_last() =~= entries.take(i));
            let ghost before = kept@;
            if b.name == *name {
                if found.is_none() {
                    found = Some(b.value);
                }
                assert(table(kept@) =~= table(entries.take(i + 1)).remove(name@));
            } else {
                kept.push(b);
                assert(kept@.drop_last() =~= before);
                assert(table(kept@) =~= table(entries.take(i + 1)).remove(name@));
            }
        }
        assert(entries.take(entries.len() as int) =~= entries);
        self.entries = kept;
        found
    }

    /// Binds `name` to `value`; an earlier binding of `name` is lost.
    pub fn insert(&mut self, name: String, value: V)
        ensures
            final(self)@ == old(self)@.insert(name@, value),
    {
        let _ = self.remove(&name);
        let ghost before = self.entries@;
        self.entries.push(Binding { name, value });
        assert(self.entries@.drop_last() =~= before);
        assert(self@ =~= old(self)@.insert(name@, value));
    }

    /// Whether no name is bound.
    pub fn is_empty(&self) -> (r: bool)
        ensures
            r == (self@ == Map::<Seq<char>, V>::empty()),
    {
        let r = self.entries.len() == 0;
        proof {
            if !r {
                let first = self.entries@[0];
                assert(self.entries@.take(1).drop_last() =~= Seq::<Binding<V>>::empty());
                assert(table(self.entries@.take(1)).contains_key(first.name@));
                table_stable(self.entries@, 1, first.name@);
                assert(self@.contains_key(first.name@));
            }
        }
        r
    }
}

} // verus!
