//! A double-ended list whose nodes live in an arena of slots addressed by
//! index. Each node names its neighbours by slot index, so the two-way links
//! need neither shared ownership nor run-time borrow checks: the arena owns
//! every element, and access goes through the list itself. Freed slots are
//! kept on a free list and reused.

use crate::sequences::{
    lemma_popped_back, lemma_popped_front, lemma_pushed_back, lemma_pushed_front, popped_back,
    popped_front, pushed_back, pushed_front, somes,
};
use crate::arena::Arena;
use vstd::prelude::*;

verus! {

struct Node<T> {
    elem: T,
    prev: Option<usize>,
    next: Option<usize>,
}

pub struct List<T> {
    slots: Arena<Node<T>>,
    head: Option<usize>,
    tail: Option<usize>,
    /// The slots of the live nodes, from the front to the back.
    order: Ghost<Seq<usize>>,
}

impl<T> List<T> {
    /// The node at position `i` of the order sits in a used slot whose links
    /// name exactly its neighbours in the order.
    closed spec fn linked_at(&self, i: int) -> bool {
        let ord = self.order@;
        let idx = ord[i];
        &&& idx < self.slots@.len()
        &&& self.slots@[idx as int] is Some
        &&& self.slots@[idx as int]->Some_0.prev == (if i == 0 {
            None
        } else {
            Some(ord[i - 1])
        })
        &&& self.slots@[idx as int]->Some_0.next == (if i == ord.len() - 1 {
            None
        } else {
            Some(ord[i + 1])
        })
    }

    /// The list is well formed: the links from `head` reach each live node
    /// once, in order, and end at `tail`; the two directions agree.
    pub closed spec fn wf(&self) -> bool {
        let ord = self.order@;
        &&& ord.no_duplicates()
        &&& forall|i: int| 0 <= i < ord.len() ==> #[trigger] self.linked_at(i)
        &&& self.head == (if ord.len() == 0 {
            None
        } else {
            Some(ord[0])
        })
        &&& self.tail == (if ord.len() == 0 {
            None
        } else {
            Some(ord[ord.len() - 1])
        })
        &&& self.slots.wf()
    }

    /// The neighbours that the node at position `i` of the order names link
    /// back to it.
    closed spec fn links_agree_at(&self, i: int) -> bool {
        let idx = self.order@[i];
        let s = self.slots@;
        let node = s[idx as int]->Some_0;
        &&& node.next matches Some(b) ==> b < s.len() && s[b as int] is Some && s[b as int]->Some_0.prev
            == Some(idx)
        &&& node.prev matches Some(a) ==> a < s.len() && s[a as int] is Some && s[a as int]->Some_0.next
            == Some(idx)
    }

    /// For every live node, the neighbour that its `next` link names links
    /// back to it through `prev`, and the other way round; the front node has
    /// no `prev` and the back node no `next`.
    pub closed spec fn links_agree(&self) -> bool {
        let s = self.slots@;
        &&& forall|i: int| 0 <= i < self.order@.len() ==> #[trigger] self.links_agree_at(i)
        &&& self.head matches Some(h) ==> s[h as int]->Some_0.prev is None
        &&& self.tail matches Some(t) ==> s[t as int]->Some_0.next is None
    }

    /// The links of a well-formed list agree in both directions.
    pub proof fn lemma_links_agree(&self)
        requires
            self.wf(),
        ensures
            self.links_agree(),
    {
        let ord = self.order@;
        assert forall|i: int| 0 <= i < ord.len() implies #[trigger] self.links_agree_at(i) by {
            assert(self.linked_at(i));
            if i + 1 < ord.len() {
                assert(self.linked_at(i + 1));
            }
            if i > 0 {
                assert(self.linked_at(i - 1));
            }
        }
        if ord.len() > 0 {
            assert(self.linked_at(0));
            assert(self.linked_at(ord.len() - 1));
        }
    }

    closed spec fn elem_at(&self, idx: usize) -> T {
        self.slots@[idx as int]->Some_0.elem
    }
}

impl<T> View for List<T> {
    type V = Seq<T>;

    /// The elements from the front to the back.
    closed spec fn view(&self) -> Seq<T> {
        Seq::new(self.order@.len(), |i: int| self.elem_at(self.order@[i]))
    }
}

impl<T> List<T> {
    /// An empty list.
    pub fn new() -> (r: Self)
        ensures
            r.wf(),
            r@ == Seq::<T>::empty(),
    {
        List { slots: Arena::new(), head: None, tail: None, order: Ghost(Seq::empty()) }
    }

    /// Adds `elem` at the back.
    pub fn push_back(&mut self, elem: T)
        requires
            old(self).wf(),
        ensures
            final(self).wf(),
            final(self)@ == old(self)@.push(elem),
    {
        let old_tail = self.tail;
        let idx = self.slots.store(Node { elem, prev: old_tail, next: None });
        proof {
            assert(!self.order@.contains(idx)) by {
                if self.order@.contains(idx) {
                    let k = choose|k: int| 0 <= k < self.order@.len() && self.order@[k] == idx;
                    assert(old(self).linked_at(k));
                }
            }
        }
        match old_tail {
            Some(t) => {
                proof {
                    assert(old(self).linked_at(old(self).order@.len() - 1));
                }
                self.slots.get_mut(t).next = Some(idx);
            },
            None => {
                self.head = Some(idx);
            },
        }
        self.tail = Some(idx);
        let ghost ord = self.order@;
        self.order = Ghost(ord.push(idx));
        proof {
            let n = ord.len();
            assert forall|i: int| 0 <= i < n + 1 implies #[trigger] self.linked_at(i) by {
                if i < n {
                    assert(old(self).linked_at(i));
                }
            }
            assert forall|i: int| 0 <= i < n + 1 implies #[trigger] self@[i] == old(self)@.push(elem)[i] by {
                if i < n {
                    assert(old(self).linked_at(i));
                }
            }
            assert(self@ =~= old(self)@.push(elem));
        }
    }

    /// Adds `elem` at the front.
    pub fn push_front(&mut self, elem: T)
        requires
            old(self).wf(),
        ensures
            final(self).wf(),
            final(self)@ == seq![elem] + old(self)@,
    {
        let old_head = self.head;
        let idx = self.slots.store(Node { elem, prev: None, next: old_head });
        proof {
            assert(!self.order@.contains(idx)) by {
                if self.order@.contains(idx) {
                    let k = choose|k: int| 0 <= k < self.order@.len() && self.order@[k] == idx;
                    assert(old(self).linked_at(k));
                }
            }
        }
        match old_head {
            Some(h) => {
                proof {
                    assert(old(self).linked_at(0));
                }
                self.slots.get_mut(h).prev = Some(idx);
            },
            None => {
                self.tail = Some(idx);
            },
        }
        self.head = Some(idx);
        let ghost ord = self.order@;
        self.order = Ghost(seq![idx] + ord);
        proof {
            let n = ord.len();
            assert forall|i: int| 0 <= i < n + 1 implies #[trigger] self.linked_at(i) by {
                if i > 0 {
                    assert(old(self).linked_at(i - 1));
                }
            }
            assert forall|i: int| 0 <= i < n + 1 implies #[trigger] self@[i] == (seq![elem] + old(self)@)[i] by {
                if i > 0 {
                    assert(old(self).linked_at(i - 1));
                }
            }
            assert(self@ =~= seq![elem] + old(self)@);
        }
    }

    /// Removes and returns the front element, or `None` when the list is
    /// empty.
    pub fn pop_front(&mut self) -> (r: Option<T>)
        requires
            old(self).wf(),
        ensures
            final(self).wf(),
            old(self)@.len() == 0 ==> r is None && final(self)@ == old(self)@,
            old(self)@.len() > 0 ==> r == Some(old(self)@[0]) && final(self)@
                == old(self)@.drop_first(),
    {
        match self.head {
            None => None,
            Some(h) => {
                let ghost ord = self.order@;
                proof {
                    assert(self.linked_at(0));
                }
                let node = self.slots.release(h);
                match node.next {
                    Some(n) => {
                        proof {
                            assert(old(self).linked_at(1));
                        }
                        self.slots.get_mut(n).prev = None;
                        self.head = Some(n);
                    },
                    None => {
                        self.head = None;
                        self.tail = None;
                    },
                }
                self.order = Ghost(ord.drop_first());
                proof {
                    let n = ord.len();
                    assert forall|i: int| 0 <= i < n - 1 implies #[trigger] self.linked_at(i) by {
                        assert(old(self).linked_at(i + 1));
                        assert(ord[i + 1] != ord[0]);
                    }
                    assert forall|i: int| 0 <= i < n - 1 implies #[trigger] self@[i]
                        == old(self)@.drop_first()[i] by {
                        assert(old(self).linked_at(i + 1));
                        assert(ord[i + 1] != ord[0]);
                    }
                    assert(self@ =~= old(self)@.drop_first());
                }
                Some(node.elem)
            },
        }
    }

    /// Removes and returns the back element, or `None` when the list is
    /// empty.
    pub fn pop_back(&mut self) -> (r: Option<T>)
        requires
            old(self).wf(),
        ensures
            final(self).wf(),
            old(self)@.len() == 0 ==> r is None && final(self)@ == old(self)@,
            old(self)@.len() > 0 ==> r == Some(old(self)@.last()) && final(self)@
                == old(self)@.drop_last(),
    {
        match self.tail {
            None => None,
            Some(t) => {
                let ghost ord = self.order@;
                let ghost n = ord.len();
                proof {
                    assert(self.linked_at(n - 1));
                }
                let node = self.slots.release(t);
                match node.prev {
                    Some(p) => {
                        proof {
                            assert(old(self).linked_at(n - 2));
                        }
                        self.slots.get_mut(p).next = None;
                        self.tail = Some(p);
                    },
                    None => {
                        self.head = None;
                        self.tail = None;
                    },
                }
                self.order = Ghost(ord.drop_last());
                proof {
                    assert forall|i: int| 0 <= i < n - 1 implies #[trigger] self.linked_at(i) by {
                        assert(old(self).linked_at(i));
                        assert(ord[i] != ord[n - 1]);
                    }
                    assert forall|i: int| 0 <= i < n - 1 implies #[trigger] self@[i]
                        == old(self)@.drop_last()[i] by {
                        assert(old(self).linked_at(i));
                        assert(ord[i] != ord[n - 1]);
                    }
                    assert(self@ =~= old(self)@.drop_last());
                }
                Some(node.elem)
            },
        }
    }

    /// The front element, or `None` when the list is empty.
    pub fn peek_front(&self) -> (r: Option<&T>)
        requires
            self.wf(),
        ensures
            r is Some <==> self@.len() > 0,
            r is Some ==> *r->0 == self@[0],
    {
        match self.head {
            Some(h) => {
                proof {
                    assert(self.linked_at(0));
                }
                Some(&self.slots.get(h).elem)
            },
            None => None,
        }
    }

    /// The back element, or `None` when the list is empty.
    pub fn peek_back(&self) -> (r: Option<&T>)
        requires
            self.wf(),
        ensures
            r is Some <==> self@.len() > 0,
            r is Some ==> *r->0 == self@.last(),
    {
        match self.tail {
            Some(t) => {
                proof {
                    assert(self.linked_at(self.order@.len() - 1));
                }
                Some(&self.slots.get(t).elem)
            },
            None => None,
        }
    }

    /// `b` is `a` with, at most, the element at position `k` of the order
    /// replaced.
    closed spec fn elem_replaced(a: Self, b: Self, k: int) -> bool {
        let idx = a.order@[k];
        &&& b.order == a.order
        &&& b.slots.wf()
        &&& b.head == a.head
        &&& b.tail == a.tail
        &&& b.slots@.len() == a.slots@.len()
        &&& forall|j: int| 0 <= j < a.slots@.len() && j != idx ==> b.slots@[j] == a.slots@[j]
        &&& b.slots@[idx as int] is Some
        &&& b.slots@[idx as int]->Some_0.prev == a.slots@[idx as int]->Some_0.prev
        &&& b.slots@[idx as int]->Some_0.next == a.slots@[idx as int]->Some_0.next
    }

    /// Replacing one element, whatever the new one is, leaves the links
    /// intact and changes the view at that one position.
    proof fn lemma_elem_replaced(a: Self, k: int)
        requires
            a.wf(),
            0 <= k < a.order@.len(),
        ensures
            forall|b: Self| Self::elem_replaced(a, b, k) ==> #[trigger] b.wf(),
            forall|b: Self| Self::elem_replaced(a, b, k) ==> #[trigger] b.view()
                == a@.update(k, b.elem_at(a.order@[k])),
    {
        assert(a.linked_at(k));
        assert forall|b: Self| #![trigger b.wf()] #![trigger b.view()] Self::elem_replaced(a, b, k) implies b.wf()
            && b@ == a@.update(k, b.elem_at(a.order@[k])) by {
            assert forall|i: int| 0 <= i < b.order@.len() implies #[trigger] b.linked_at(i) by {
                assert(a.linked_at(i));
            }
            assert forall|i: int| 0 <= i < b.order@.len() implies b@[i] == a@.update(
                k,
                b.elem_at(a.order@[k]),
            )[i] by {
                assert(a.linked_at(i));
                if i != k {
                    assert(a.order@[i] != a.order@[k]);
                }
            }
            assert(b@ =~= a@.update(k, b.elem_at(a.order@[k])));
        }
    }

    /// The front element, to change in place, or `None` when the list is
    /// empty. What is written through the reference becomes the front
    /// element; the rest of the list stays as it is.
    pub fn peek_front_mut(&mut self) -> (r: Option<&mut T>)
        requires
            old(self).wf(),
        ensures
            final(self).wf(),
            r is Some <==> old(self)@.len() > 0,
            r is None ==> final(self)@ == old(self)@,
            r is Some ==> *r->0 == old(self)@[0] && final(self)@ == old(self)@.update(
                0,
                *final(r->0),
            ),
    {
        match self.head {
            Some(h) => {
                proof {
                    assert(self.linked_at(0));
                    Self::lemma_elem_replaced(*self, 0);
                }
                Some(&mut self.slots.get_mut(h).elem)
            },
            None => None,
        }
    }

    /// The back element, to change in place, or `None` when the list is
    /// empty. What is written through the reference becomes the back
    /// element; the rest of the list stays as it is.
    pub fn peek_back_mut(&mut self) -> (r: Option<&mut T>)
        requires
            old(self).wf(),
        ensures
            final(self).wf(),
            r is Some <==> old(self)@.len() > 0,
            r is None ==> final(self)@ == old(self)@,
            r is Some ==> *r->0 == old(self)@.last() && final(self)@ == old(self)@.update(
                old(self)@.len() - 1,
                *final(r->0),
            ),
    {
        match self.tail {
            Some(t) => {
                proof {
                    assert(self.linked_at(self.order@.len() - 1));
                    Self::lemma_elem_replaced(*self, self.order@.len() - 1);
                }
                Some(&mut self.slots.get_mut(t).elem)
            },
            None => None,
        }
    }
}

/// The two ends mirror each other: adding the values of `s` at the front of
/// a list that holds `v` and taking as many from the front hands `s` back
/// reversed and leaves `v`, and the same holds at the back.
pub proof fn lemma_ends_mirror<T>(v: Seq<T>, s: Seq<T>)
    ensures
        popped_front(pushed_front(v, s), s.len()) == (somes(s.reverse()), v),
        popped_back(pushed_back(v, s), s.len()) == (somes(s.reverse()), v),
{
    lemma_pushed_front(v, s);
    lemma_popped_front(s.reverse(), v);
    lemma_pushed_back(v, s);
    lemma_popped_back(v, s);
}

} // verus!
