//! A generic stack whose nodes are kept in one vector, the top at its end,
//! with peeking and iteration. Dropping the stack frees the nodes in a flat
//! loop, however many there are.

use crate::sequences::{lemma_popped_front, lemma_pushed_front, popped_front, pushed_front, somes};
use vstd::prelude::*;

verus! {

pub struct List<T> {
    elems: Vec<T>,
}

/// Hands out the elements of a stack by value, from the top.
pub struct IntoIter<T>(List<T>);

/// Hands out shared references to the elements of a stack, from the top.
pub struct Iter<'a, T> {
    list: &'a List<T>,
    /// How many elements are still to come.
    left: usize,
}

/// The values of `s` from its end back to its start: the order in which a
/// stack kept in `s` hands them out.
pub open spec fn top_first<T>(s: Seq<T>) -> Seq<T> {
    Seq::new(s.len(), |i: int| s[s.len() - 1 - i])
}

impl<T> View for List<T> {
    type V = Seq<T>;

    /// The stored values, the most recently pushed first.
    closed spec fn view(&self) -> Seq<T> {
        top_first(self.elems@)
    }
}

impl<T> List<T> {
    /// An empty stack.
    pub fn new() -> (r: Self)
        ensures
            r@ == Seq::<T>::empty(),
    {
        List { elems: Vec::new() }
    }

    /// Puts `elem` on top of the stack.
    pub fn push(&mut self, elem: T)
        ensures
            final(self)@ == seq![elem] + old(self)@,
    {
        self.elems.push(elem);
        assert(self@ =~= seq![elem] + old(self)@);
    }

    /// Removes and returns the top value, or `None` when the stack is empty.
    pub fn pop(&mut self) -> (r: Option<T>)
        ensures
            old(self)@.len() == 0 ==> r is None && final(self)@ == old(self)@,
            old(self)@.len() > 0 ==> r == Some(old(self)@[0]) && final(self)@
                == old(self)@.drop_first(),
    {
        let r = self.elems.pop();
        proof {
            if old(self)@.len() > 0 {
                assert(self@ =~= old(self)@.drop_first());
            }
        }
        r
    }

    /// The top value, or `None` when the stack is empty.
    pub fn peek(&self) -> (r: Option<&T>)
        ensures
            r is Some <==> self@.len() > 0,
            r is Some ==> *r->0 == self@[0],
    {
        let n = self.elems.len();
        if n == 0 {
            None
        } else {
            Some(&self.elems[n - 1])
        }
    }

    /// The top value, to change in place, or `None` when the stack is empty.
    /// What is written through the reference becomes the top value.
    pub fn peek_mut(&mut self) -> (r: Option<&mut T>)
        ensures
            r is Some <==> old(self)@.len() > 0,
            r is None ==> final(self)@ == old(self)@,
            r is Some ==> *r->0 == old(self)@[0] && final(self)@ == old(self)@.update(
                0,
                *final(r->0),
            ),
    {
        let n = self.elems.len();
        if n == 0 {
            None
        } else {
            let r = &mut self.elems[n - 1];
            proof {
                let s = old(self).elems@;
                assert forall|e: T| #[trigger] top_first(s.update(n - 1, e)) == top_first(s).update(
                    0,
                    e,
                ) by {
                    assert(top_first(s.update(n - 1, e)) =~= top_first(s).update(0, e));
                }
            }
            Some(r)
        }
    }

    /// An iterator that takes the values out, from the top.
    pub fn into_iter(self) -> (r: IntoIter<T>)
        ensures
            r@ == self@,
    {
        IntoIter(self)
    }

    /// An iterator over shared references to the values, from the top.
    pub fn iter(&self) -> (r: Iter<'_, T>)
        ensures
            r.wf(),
            r@ == self@,
    {
        Iter { list: self, left: self.elems.len() }
    }
}

impl<T> IntoIter<T> {
    /// Returns the top value and removes it, or `None` once the stack is
    /// used up; after that it keeps returning `None`.
    pub fn next(&mut self) -> (r: Option<T>)
        ensures
            r is None <==> old(self)@.len() == 0,
            r is None ==> final(self)@ == old(self)@,
            r is Some ==> r->0 == old(self)@[0] && final(self)@ == old(self)@.drop_first(),
    {
        self.0.pop()
    }
}

impl<T> View for IntoIter<T> {
    type V = Seq<T>;

    /// The values not yet handed out, from the top.
    closed spec fn view(&self) -> Seq<T> {
        self.0@
    }
}

impl<'a, T> Iter<'a, T> {
    /// The iterator's position lies within the list it walks.
    pub closed spec fn wf(&self) -> bool {
        self.left <= self.list.elems@.len()
    }

    /// Returns a reference to the next value, or `None` once every value has
    /// been handed out; after that it keeps returning `None`.
    pub fn next(&mut self) -> (r: Option<&'a T>)
        requires
            old(self).wf(),
        ensures
            final(self).wf(),
            r is None <==> old(self)@.len() == 0,
            r is None ==> final(self)@ == old(self)@,
            r is Some ==> *r->0 == old(self)@[0] && final(self)@ == old(self)@.drop_first(),
    {
        if self.left == 0 {
            None
        } else {
            self.left = self.left - 1;
            let list: &'a List<T> = self.list;
            assert(self@ =~= old(self)@.drop_first());
            Some(&list.elems[self.left])
        }
    }
}

impl<'a, T> View for Iter<'a, T> {
    type V = Seq<T>;

    /// The values not yet handed out, from the top.
    closed spec fn view(&self) -> Seq<T> {
        top_first(self.list.elems@.subrange(0, self.left as int))
    }
}

/// Last in, first out: pushing the values of `s` onto a stack that holds `v`
/// and then popping as many times hands `s` back in reverse order and leaves
/// `v`; popping an empty stack hands back nothing. (The `i32` stacks of
/// `first` and `bad_stack` have the same `push` and `pop` contracts, so this
/// holds of them too.)
///
/// The last two clauses tie the run to the contracts: from a stack that holds
/// `pushed_front(v, t)`, one `push(x)` (whose contract gives
/// `seq![x] + old@`) leaves `pushed_front(v, t.push(x))`; and on a stack that
/// holds `w`, one `pop` (whose contract gives `Some(w[0])` and
/// `w.drop_first()`, or `None` and `w` when empty) followed by `k` more is
/// what `popped_front(w, k + 1)` describes.
pub proof fn lemma_lifo<T>(v: Seq<T>, s: Seq<T>)
    ensures
        popped_front(pushed_front(v, s), s.len()) == (somes(s.reverse()), v),
        popped_front(Seq::<T>::empty(), 1) == (seq![None::<T>], Seq::<T>::empty()),
        forall|t: Seq<T>, x: T| #[trigger] pushed_front(v, t.push(x)) == seq![x] + pushed_front(v, t),
        forall|w: Seq<T>, k: nat|
            w.len() > 0 ==> #[trigger] popped_front(w, k + 1) == (
                seq![Some(w[0])] + popped_front(w.drop_first(), k).0,
                popped_front(w.drop_first(), k).1,
            ),
{
    lemma_pushed_front(v, s);
    lemma_popped_front(s.reverse(), v);
    assert(popped_front(Seq::<T>::empty(), 0) == (Seq::<Option<T>>::empty(), Seq::<T>::empty()));
    assert(seq![None::<T>] + Seq::<Option<T>>::empty() =~= seq![None::<T>]);
    assert forall|t: Seq<T>, x: T| #[trigger] pushed_front(v, t.push(x)) == seq![x] + pushed_front(v, t) by {
        assert(t.push(x).drop_last() =~= t);
    }
}
} // verus!
