//! An arena of slots addressed by index, in which the linked lists keep
//! their nodes. A slot is used (`Some`) or free (`None`); freed slots are
//! kept on a free list and handed out again before the arena grows.

use vstd::prelude::*;

verus! {

pub struct Arena<N> {
    slots: Vec<Option<N>>,
    free: Vec<usize>,
}

impl<N> View for Arena<N> {
    type V = Seq<Option<N>>;

    /// The slots, each holding a node or nothing.
    closed spec fn view(&self) -> Seq<Option<N>> {
        self.slots@
    }
}

impl<N> Arena<N> {
    /// Every slot on the free list is unused, and none is listed twice.
    pub closed spec fn wf(&self) -> bool {
        &&& self.free@.no_duplicates()
        &&& forall|j: int|
            0 <= j < self.free@.len() ==> #[trigger] self.free@[j] < self.slots@.len()
                && self.slots@[self.free@[j] as int] is None
    }

    /// An arena with no slots.
    pub fn new() -> (r: Self)
        ensures
            r.wf(),
            r@ == Seq::<Option<N>>::empty(),
    {
        Arena { slots: Vec::new(), free: Vec::new() }
    }

    /// Stores `node` in a slot that was unused, reusing a freed one where
    /// there is one, and returns that slot. No other slot changes.
    pub fn store(&mut self, node: N) -> (idx: usize)
        requires
            old(self).wf(),
        ensures
            final(self).wf(),
            idx < final(self)@.len(),
            old(self)@.len() <= final(self)@.len(),
            idx >= old(self)@.len() || old(self)@[idx as int] is None,
            final(self)@[idx as int] == Some(node),
            forall|j: int|
                0 <= j < old(self)@.len() && j != idx ==> final(self)@[j] == old(self)@[j],
    {
        match self.free.pop() {
            Some(idx) => {
                proof {
                    assert(old(self).free@[old(self).free@.len() - 1] == idx);
                }
                self.slots.set(idx, Some(node));
                proof {
                    assert forall|j: int| 0 <= j < self.free@.len() implies #[trigger] self.free@[j]
                        < self.slots@.len() && self.slots@[self.free@[j] as int] is None by {
                        assert(old(self).free@[j] == self.free@[j]);
                        assert(old(self).free@[j] != idx);
                    }
                }
                idx
            },
            None => {
                let idx = self.slots.len();
                self.slots.push(Some(node));
                idx
            },
        }
    }

    /// Empties the used slot `at`, puts it on the free list, and returns its
    /// node.
    pub fn release(&mut self, at: usize) -> (node: N)
        requires
            old(self).wf(),
            at < old(self)@.len(),
            old(self)@[at as int] is Some,
        ensures
            final(self).wf(),
            Some(node) == old(self)@[at as int],
            final(self)@ == old(self)@.update(at as int, None),
    {
        let slot = self.slots[at].take();
        proof {
            assert(!self.free@.contains(at)) by {
                if self.free@.contains(at) {
                    let k = choose|k: int| 0 <= k < self.free@.len() && self.free@[k] == at;
                    assert(old(self).free@[k] < old(self).slots@.len());
                }
            }
        }
        self.free.push(at);
        proof {
            assert forall|j: int| 0 <= j < self.free@.len() implies #[trigger] self.free@[j]
                < self.slots@.len() && self.slots@[self.free@[j] as int] is None by {
                if j < self.free@.len() - 1 {
                    assert(old(self).free@[j] < old(self).slots@.len());
                }
            }
        }
        slot.unwrap()
    }

    /// The node in the used slot `at`.
    pub fn get(&self, at: usize) -> (r: &N)
        requires
            at < self@.len(),
            self@[at as int] is Some,
        ensures
            *r == self@[at as int]->Some_0,
    {
        self.slots[at].as_ref().unwrap()
    }

    /// The node in the used slot `at`, to change in place. What is written
    /// through the reference becomes the node in that slot.
    pub fn get_mut(&mut self, at: usize) -> (r: &mut N)
        requires
            at < old(self)@.len(),
            old(self)@[at as int] is Some,
        ensures
            *r == old(self)@[at as int]->Some_0,
            final(self)@ == old(self)@.update(at as int, Some(*final(r))),
            final(self).wf() == old(self).wf(),
    {
        self.slots[at].as_mut().unwrap()
    }
}

} // verus!
