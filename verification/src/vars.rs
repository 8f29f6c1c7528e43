//! The variable table.

use crate::table::Table;
use crate::value::{Value, ValueView};
use vstd::prelude::*;

verus! {

/// The values of a table, each by what it holds.
pub open spec fn bound(t: Map<Seq<char>, Value>) -> Map<Seq<char>, ValueView> {
    Map::new(|name: Seq<char>| t.contains_key(name), |name: Seq<char>| t[name]@)
}

/// The variables: a mapping from names to values. Binding a name again
/// replaces its value.
#[derive(Debug, PartialEq)]
pub struct Vars {
    table: Table<Value>,
}

impl View for Vars {
    type V = Map<Seq<char>, ValueView>;

    closed spec fn view(&self) -> Map<Seq<char>, ValueView> {
        bound(self.table@)
    }
}

impl Vars {
    /// No variables.
    pub fn new() -> (r: Self)
        ensures
            r@ == Map::<Seq<char>, ValueView>::empty(),
    {
        let r = Self { table: Table::new() };
        assert(r@ =~= Map::<Seq<char>, ValueView>::empty());
        r
    }

    /// The value bound to `name`.
    pub fn get(&self, name: &String) -> (r: Option<&Value>)
        ensures
            match r {
                Some(v) => self@.contains_key(name@) && self@[name@] == v@,
                None => !self@.contains_key(name@),
            },
    {
        self.table.get(name)
    }

    /// Takes the binding of `name` out of the table and returns its
    /// value.
    pub fn remove(&mut self, name: &String) -> (r: Option<Value>)
        ensures
            final(self)@ == old(self)@.remove(name@),
            match r {
                Some(v) => old(self)@.contains_key(name@) && old(self)@[name@] == v@,
                None => !old(self)@.contains_key(name@),
            },
    {
        let r = self.table.remove(name);
        assert(self@ =~= old(self)@.remove(name@));
        r
    }

    /// Binds `name` to `value`; an earlier binding of `name` is lost.
    pub fn insert(&mut self, name: String, value: Value)
        ensures
            final(self)@ == old(self)@.insert(name@, value@),
    {
        self.table.insert(name, value);
        assert(self@ =~= old(self)@.insert(name@, value@));
    }
}

} // verus!
