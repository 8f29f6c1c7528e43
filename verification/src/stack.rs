//! The operand stack.

use crate::value::{Value, ValueView};
use vstd::prelude::*;

verus! {

/// The views of a sequence of values.
pub open spec fn value_views(v: Seq<Value>) -> Seq<ValueView> {
    Seq::new(v.len(), |i: int| v[i]@)
}

/// A last-in-first-out sequence of values; the last is the top.
#[derive(Debug, PartialEq)]
pub struct Stack {
    stack: Vec<Value>,
}

impl View for Stack {
    type V = Seq<ValueView>;

    closed spec fn view(&self) -> Seq<ValueView> {
        value_views(self.stack@)
    }
}

impl Stack {
    /// The empty stack.
    pub fn new() -> (r: Self)
        ensures
            r@ == Seq::<ValueView>::empty(),
    {
        let r = Self { stack: Vec::new() };
        assert(r@ =~= Seq::<ValueView>::empty());
        r
    }

    /// Puts `value` on top.
    pub fn push(&mut self, value: Value)
        ensures
            final(self)@ == old(self)@.push(value@),
    {
        self.stack.push(value);
        assert(self@ =~= old(self)@.push(value@));
    }

    /// Takes the top value off; `None` on an empty stack, which stays as
    /// it is.
    pub fn pop(&mut self) -> (r: Option<Value>)
        ensures
            old(self)@.len() == 0 ==> r is None && final(self)@ == old(self)@,
            old(self)@.len() > 0 ==> r is Some && r->0@ == old(self)@.last() && final(self)@
                == old(self)@.drop_last(),
    {
        let r = self.stack.pop();
        assert(old(self)@.len() > 0 ==> self@ =~= old(self)@.drop_last());
        assert(old(self)@.len() == 0 ==> self@ =~= old(self)@);
        r
    }

    /// The top value; `None` on an empty stack.
    pub fn peek(&self) -> (r: Option<&Value>)
        ensures
            self@.len() == 0 ==> r is None,
            self@.len() > 0 ==> r is Some && r->0@ == self@.last(),
    {
        if self.stack.len() == 0 {
            None
        } else {
            Some(&self.stack[self.stack.len() - 1])
        }
    }

    /// The number of values.
    pub fn len(&self) -> (r: usize)
        ensures
            r == self@.len(),
    {
        self.stack.len()
    }

    /// Takes all values off.
    pub fn clear(&mut self)
        ensures
            final(self)@ == Seq::<ValueView>::empty(),
    {
        self.stack.clear();
        assert(self@ =~= Seq::<ValueView>::empty());
    }

    /// Takes the top `n` values off.
    pub fn discard(&mut self, n: usize)
        requires
            n <= old(self)@.len(),
        ensures
            final(self)@ == old(self)@.take(old(self)@.len() - n),
    {
        let keep: usize = self.stack.len() - n;
        self.stack.truncate(keep);
        assert(self@ =~= old(self)@.take(old(self)@.len() - n));
    }

    /// Puts `values` on top, the last of them topmost.
    pub fn extend(&mut self, values: Vec<Value>)
        ensures
            final(self)@ == old(self)@ + value_views(values@),
    {
        let ghost added = values@;
        let mut values = values;
        self.stack.append(&mut values);
        assert(self@ =~= old(self)@ + value_views(added));
    }

    /// The value `depth` places below the top.
    pub fn below(&self, depth: usize) -> (r: &Value)
        requires
            depth < self@.len(),
        ensures
            r@ == self@[self@.len() - 1 - depth],
    {
        &self.stack[self.stack.len() - 1 - depth]
    }

    /// The value at `index`, counted from the bottom.
    pub fn get(&self, index: usize) -> (r: &Value)
        requires
            index < self@.len(),
        ensures
            r@ == self@[index as int],
    {
        &self.stack[index]
    }

    /// Puts `value` in the place of the value at `index`, counted from
    /// the bottom.
    pub fn set(&mut self, index: usize, value: Value)
        requires
            index < old(self)@.len(),
        ensures
            final(self)@ == old(self)@.update(index as int, value@),
    {
        self.stack.set(index, value);
        assert(self@ =~= old(self)@.update(index as int, value@));
    }
}

} // verus!
