//! A stack of `i32` values whose nodes are kept in one vector, the top at
//! its end. Dropping the stack frees the nodes one after another in a flat
//! loop, however many there are.

use vstd::prelude::*;

verus! {

pub struct List {
    elems: Vec<i32>,
}

/// The values of `s` from its end back to its start: the order in which a
/// stack kept in `s` hands them out.
pub open spec fn top_first(s: Seq<i32>) -> Seq<i32> {
    Seq::new(s.len(), |i: int| s[s.len() - 1 - i])
}

impl View for List {
    type V = Seq<i32>;

    /// The stored values, the most recently pushed first.
    closed spec fn view(&self) -> Seq<i32> {
        top_first(self.elems@)
    }
}

impl List {
    /// An empty stack.
    pub fn new() -> (r: Self)
        ensures
            r@ == Seq::<i32>::empty(),
    {
        List { elems: Vec::new() }
    }

    /// Puts `elem` on top of the stack.
    pub fn push(&mut self, elem: i32)
        ensures
            final(self)@ == seq![elem] + old(self)@,
    {
        self.elems.push(elem);
        assert(self@ =~= seq![elem] + old(self)@);
    }

    /// Removes and returns the top value, or `None` when the stack is empty.
    pub fn pop(&mut self) -> (r: Option<i32>)
        ensures
            old(self)@.len() == 0 ==> r is None && final(self)@ == old(self)@,
            old(self)@.len() > 0 ==> r == Some(old(self)@[0]) && final(self)@
                == old(self)@.drop_first(),
    {
        let r = self.elems.pop();
        proof {
            if old(self)@.len() > 0 {
                assert(self@ =~= old(self)@.drop_first());
            }
        }
        r
    }
}

} // verus!
