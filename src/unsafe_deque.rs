//! A singly linked queue with O(1) append. The nodes live in an arena of
//! slots addressed by index, and the list keeps the index of its last node,
//! so `push` links the new node in without walking the chain. An index can
//! be checked against the arena, so the cached tail can never dangle: the
//! well-formedness predicate ties it to the true last node at every step.

use crate::sequences::{lemma_popped_front, lemma_pushed_back, popped_front, pushed_back, somes};
use crate::arena::Arena;
use vstd::prelude::*;

verus! {

struct Node<T> {
    elem: T,
    next: Option<usize>,
}

pub struct List<T> {
    slots: Arena<Node<T>>,
    head: Option<usize>,
    tail: Option<usize>,
    /// The slots of the live nodes, from the front to the back.
    order: Ghost<Seq<usize>>,
}

/// Hands out the elements of a queue by value, from the front.
pub struct IntoIter<T>(List<T>);

/// Hands out shared references to the elements of a queue, from the front.
pub struct Iter<'a, T> {
    list: &'a List<T>,
    next: Option<usize>,
    /// How many elements have been handed out.
    pos: Ghost<int>,
}

/// Hands out mutable references to the elements of a queue, from the front,
/// one at a time.
pub struct IterMut<'a, T> {
    list: &'a mut List<T>,
    next: Option<usize>,
    /// How many elements have been handed out.
    pos: Ghost<int>,
}

impl<T> List<T> {
    /// The node at position `i` of the order sits in a used slot whose link
    /// names the next node of the order.
    closed spec fn linked_at(&self, i: int) -> bool {
        let ord = self.order@;
        let idx = ord[i];
        &&& idx < self.slots@.len()
        &&& self.slots@[idx as int] is Some
        &&& self.slots@[idx as int]->Some_0.next == (if i == ord.len() - 1 {
            None
        } else {
            Some(ord[i + 1])
        })
    }

    /// The list is well formed: the links from `head` reach each live node
    /// once, in order, and `tail` is the last of them (and `None` exactly
    /// when the list is empty).
    pub closed spec fn wf(&self) -> bool {
        let ord = self.order@;
        &&& ord.no_duplicates()
        &&& forall|i: int| 0 <= i < ord.len() ==> #[trigger] self.linked_at(i)
        &&& self.head == (if ord.len() == 0 {
            None
        } else {
            Some(ord[0])
        })
        &&& self.tail == (if ord.len() == 0 {
            None
        } else {
            Some(ord[ord.len() - 1])
        })
        &&& self.slots.wf()
    }

    /// The cached tail is unset.
    pub closed spec fn tail_is_null(&self) -> bool {
        self.tail is None
    }

    /// In a well-formed queue the cached tail is unset exactly when the queue
    /// is empty, so a queue that has been drained has no stale tail for the
    /// next `push` to write through.
    pub proof fn lemma_tail_null_iff_empty(&self)
        requires
            self.wf(),
        ensures
            self.tail_is_null() <==> self@.len() == 0,
    {
    }

    closed spec fn elem_at(&self, idx: usize) -> T {
        self.slots@[idx as int]->Some_0.elem
    }
}

impl<T> View for List<T> {
    type V = Seq<T>;

    /// The elements from the front to the back.
    closed spec fn view(&self) -> Seq<T> {
        Seq::new(self.order@.len(), |i: int| self.elem_at(self.order@[i]))
    }
}

impl<T> List<T> {
    /// An empty queue.
    pub fn new() -> (r: Self)
        ensures
            r.wf(),
            r@ == Seq::<T>::empty(),
    {
        List { slots: Arena::new(), head: None, tail: None, order: Ghost(Seq::empty()) }
    }

    /// `b` is `a` with, at most, the element at position `k` of the order
    /// replaced.
    closed spec fn elem_replaced(a: Self, b: Self, k: int) -> bool {
        let idx = a.order@[k];
        &&& b.order == a.order
        &&& b.slots.wf()
        &&& b.head == a.head
        &&& b.tail == a.tail
        &&& b.slots@.len() == a.slots@.len()
        &&& forall|j: int| 0 <= j < a.slots@.len() && j != idx ==> b.slots@[j] == a.slots@[j]
        &&& b.slots@[idx as int] is Some
        &&& b.slots@[idx as int]->Some_0.next == a.slots@[idx as int]->Some_0.next
    }

    /// Replacing one element, whatever the new one is, leaves the links
    /// intact and changes the view at that one position.
    proof fn lemma_elem_replaced(a: Self, k: int)
        requires
            a.wf(),
            0 <= k < a.order@.len(),
        ensures
            forall|b: Self| Self::elem_replaced(a, b, k) ==> #[trigger] b.wf(),
            forall|b: Self| Self::elem_replaced(a, b, k) ==> #[trigger] b.view()
                == a@.update(k, b.elem_at(a.order@[k])),
    {
        assert(a.linked_at(k));
        assert forall|b: Self| #![trigger b.wf()] #![trigger b.view()] Self::elem_replaced(a, b, k) implies b.wf()
            && b@ == a@.update(k, b.elem_at(a.order@[k])) by {
            assert forall|i: int| 0 <= i < b.order@.len() implies #[trigger] b.linked_at(i) by {
                assert(a.linked_at(i));
            }
            assert forall|i: int| 0 <= i < b.order@.len() implies b@[i] == a@.update(
                k,
                b.elem_at(a.order@[k]),
            )[i] by {
                assert(a.linked_at(i));
                if i != k {
                    assert(a.order@[i] != a.order@[k]);
                }
            }
            assert(b@ =~= a@.update(k, b.elem_at(a.order@[k])));
        }
    }

    /// Adds `elem` at the back, linking it after the cached tail node.
    pub fn push(&mut self, elem: T)
        requires
            old(self).wf(),
        ensures
            final(self).wf(),
            final(self)@ == old(self)@.push(elem),
    {
        let idx = self.slots.store(Node { elem, next: None });
        proof {
            assert(!self.order@.contains(idx)) by {
                if self.order@.contains(idx) {
                    let k = choose|k: int| 0 <= k < self.order@.len() && self.order@[k] == idx;
                    assert(old(self).linked_at(k));
                }
            }
        }
        match self.tail {
            Some(t) => {
                proof {
                    assert(old(self).linked_at(old(self).order@.len() - 1));
                }
                self.slots.get_mut(t).next = Some(idx);
            },
            None => {
                self.head = Some(idx);
            },
        }
        self.tail = Some(idx);
        let ghost ord = self.order@;
        self.order = Ghost(ord.push(idx));
        proof {
            let n = ord.len();
            assert forall|i: int| 0 <= i < n + 1 implies #[trigger] self.linked_at(i) by {
                if i < n {
                    assert(old(self).linked_at(i));
                }
            }
            assert forall|i: int| 0 <= i < n + 1 implies #[trigger] self@[i] == old(self)@.push(
                elem,
            )[i] by {
                if i < n {
                    assert(old(self).linked_at(i));
                }
            }
            assert(self@ =~= old(self)@.push(elem));
        }
    }

    /// Removes and returns the front element, or `None` when the queue is
    /// empty. Taking the last element also unsets the cached tail.
    pub fn pop(&mut self) -> (r: Option<T>)
        requires
            old(self).wf(),
        ensures
            final(self).wf(),
            old(self)@.len() == 0 ==> r is None && final(self)@ == old(self)@,
            old(self)@.len() > 0 ==> r == Some(old(self)@[0]) && final(self)@
                == old(self)@.drop_first(),
    {
        match self.head {
            None => None,
            Some(h) => {
                let ghost ord = self.order@;
                proof {
                    assert(self.linked_at(0));
                }
                let node = self.slots.release(h);
                self.head = node.next;
                if self.head.is_none() {
                    self.tail = None;
                }
                self.order = Ghost(ord.drop_first());
                proof {
                    let n = ord.len();
                    if n > 1 {
                        assert(old(self).linked_at(1));
                    }
                    assert forall|i: int| 0 <= i < n - 1 implies #[trigger] self.linked_at(i) by {
                        assert(old(self).linked_at(i + 1));
                        assert(ord[i + 1] != ord[0]);
                    }
                    assert forall|i: int| 0 <= i < n - 1 implies #[trigger] self@[i]
                        == old(self)@.drop_first()[i] by {
                        assert(old(self).linked_at(i + 1));
                        assert(ord[i + 1] != ord[0]);
                    }
                    assert(self@ =~= old(self)@.drop_first());
                }
                Some(node.elem)
            },
        }
    }

    /// An iterator that takes the elements out, from the front.
    pub fn into_iter(self) -> (r: IntoIter<T>)
        requires
            self.wf(),
        ensures
            r.wf(),
            r@ == self@,
    {
        IntoIter(self)
    }

    /// An iterator over shared references to the elements, from the front.
    pub fn iter(&self) -> (r: Iter<'_, T>)
        requires
            self.wf(),
        ensures
            r.wf(),
            r@ == self@,
    {
        Iter { list: self, next: self.head, pos: Ghost(0) }
    }

    /// An iterator over mutable references to the elements, from the front.
    /// What is written through them is what the queue holds once the
    /// iterator is done.
    pub fn iter_mut(&mut self) -> (r: IterMut<'_, T>)
        requires
            old(self).wf(),
        ensures
            r.wf(),
            r@ == old(self)@,
            r.pos() == 0,
            r.list_view() == old(self)@,
            final(self)@ == final(r.list_ref())@,
            final(self).wf() == final(r.list_ref()).wf(),
    {
        IterMut { next: self.head, list: self, pos: Ghost(0) }
    }
}

impl<T> IntoIter<T> {
    /// The queue the iterator takes from is well formed.
    pub closed spec fn wf(&self) -> bool {
        self.0.wf()
    }

    /// Returns the front element and removes it, or `None` once the queue is
    /// used up; after that it keeps returning `None`.
    pub fn next(&mut self) -> (r: Option<T>)
        requires
            old(self).wf(),
        ensures
            final(self).wf(),
            r is None <==> old(self)@.len() == 0,
            r is None ==> final(self)@ == old(self)@,
            r is Some ==> r->0 == old(self)@[0] && final(self)@ == old(self)@.drop_first(),
    {
        self.0.pop()
    }
}

impl<T> View for IntoIter<T> {
    type V = Seq<T>;

    /// The elements not yet handed out, from the front.
    closed spec fn view(&self) -> Seq<T> {
        self.0@
    }
}

impl<'a, T> Iter<'a, T> {
    /// The iterator's position lies within the list it walks.
    pub closed spec fn wf(&self) -> bool {
        let ord = self.list.order@;
        &&& self.list.wf()
        &&& 0 <= self.pos@ <= ord.len()
        &&& self.next == (if self.pos@ < ord.len() {
            Some(ord[self.pos@])
        } else {
            None
        })
    }

    /// Returns a reference to the next element, or `None` once every element
    /// has been handed out; after that it keeps returning `None`.
    pub fn next(&mut self) -> (r: Option<&'a T>)
        requires
            old(self).wf(),
        ensures
            final(self).wf(),
            r is None <==> old(self)@.len() == 0,
            r is None ==> final(self)@ == old(self)@,
            r is Some ==> *r->0 == old(self)@[0] && final(self)@ == old(self)@.drop_first(),
    {
        match self.next {
            None => None,
            Some(idx) => {
                let list: &'a List<T> = self.list;
                proof {
                    assert(list.linked_at(self.pos@));
                }
                let node = list.slots.get(idx);
                self.next = node.next;
                self.pos = Ghost(self.pos@ + 1);
                proof {
                    assert(self@ =~= old(self)@.drop_first());
                }
                Some(&node.elem)
            },
        }
    }
}

impl<'a, T> View for Iter<'a, T> {
    type V = Seq<T>;

    /// The elements not yet handed out, from the front.
    closed spec fn view(&self) -> Seq<T> {
        self.list@.skip(self.pos@)
    }
}

impl<'a, T> IterMut<'a, T> {
    /// The iterator's position lies within the well-formed list it walks.
    pub closed spec fn wf(&self) -> bool {
        let ord = self.list.order@;
        &&& self.list.wf()
        &&& 0 <= self.pos@ <= ord.len()
        &&& self.next == (if self.pos@ < ord.len() {
            Some(ord[self.pos@])
        } else {
            None
        })
    }

    /// All the elements of the queue, as they stand now.
    pub closed spec fn list_view(&self) -> Seq<T> {
        self.list@
    }

    /// How many elements have been handed out.
    pub closed spec fn pos(&self) -> int {
        self.pos@
    }

    /// The borrow of the queue that the iterator holds.
    pub closed spec fn list_ref(&self) -> &'a mut List<T> {
        self.list
    }

    /// Once the iterator is dropped, the queue holds what the iterator last
    /// saw, and is well formed.
    pub proof fn lemma_done(&self)
        requires
            self.wf(),
            has_resolved(*self),
        ensures
            final(self.list_ref())@ == self.list_view(),
            final(self.list_ref()).wf(),
    {
    }

    /// Returns a mutable reference to the next element, or `None` once every
    /// element has been handed out; after that it keeps returning `None`.
    pub fn next(&mut self) -> (r: Option<&mut T>)
        requires
            old(self).wf(),
        ensures
            final(self).wf(),
            *final(final(self).list_ref()) == *final(old(self).list_ref()),
            r is None <==> old(self)@.len() == 0,
            r is None ==> final(self)@ == old(self)@ && final(self).list_view()
                == old(self).list_view(),
            r is Some ==> *r->0 == old(self)@[0] && final(self)@ == old(self)@.drop_first(),
            r is Some ==> final(self).pos() == old(self).pos() + 1 && final(self).list_view()
                == old(self).list_view().update(old(self).pos(), *final(r->0)),
    {
        match self.next {
            None => None,
            Some(idx) => {
                proof {
                    assert(self.list.linked_at(self.pos@));
                    List::lemma_elem_replaced(*self.list, self.pos@);
                }
                self.pos = Ghost(self.pos@ + 1);
                let node = self.list.slots.get_mut(idx);
                self.next = node.next;
                Some(&mut node.elem)
            },
        }
    }
}

impl<'a, T> View for IterMut<'a, T> {
    type V = Seq<T>;

    /// The elements not yet handed out, from the front.
    closed spec fn view(&self) -> Seq<T> {
        self.list@.skip(self.pos@)
    }
}

/// First in, first out: adding the values of `s` at the back of a queue that
/// holds `v` and then taking every element from the front hands back `v`
/// and then `s`, in order, and leaves the queue empty.
pub proof fn lemma_fifo<T>(v: Seq<T>, s: Seq<T>)
    ensures
        popped_front(pushed_back(v, s), v.len() + s.len()) == (somes(v + s), Seq::<T>::empty()),
{
    lemma_pushed_back(v, s);
    lemma_popped_front(v + s, Seq::<T>::empty());
    assert(v + s + Seq::<T>::empty() =~= v + s);
}

} // verus!
