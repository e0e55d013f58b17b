//! A persistent singly linked list. Nodes are never changed once made and
//! are shared between lists through atomically counted references: adding
//! an element in front makes a new list that shares every node of the old
//! one, and the old list stays as it was. Dropping a list, like `clear`,
//! frees the nodes that it alone holds one after another in a loop, and
//! stops at the first node that another list still holds.

use std::sync::Arc;
use vstd::prelude::*;

verus! {

pub struct List<T> {
    head: Option<Arc<Node<T>>>,
}

struct Node<T> {
    elem: T,
    next: Option<Arc<Node<T>>>,
}

/// Hands out shared references to the elements of a list, from the front.
pub struct Iter<'a, T> {
    next: Option<&'a Arc<Node<T>>>,
}

/// The elements of the chain that starts at `link`.
spec fn link_view<T>(link: Option<Arc<Node<T>>>) -> Seq<T>
    decreases link,
{
    match link {
        None => Seq::empty(),
        Some(node) => seq![node.elem] + link_view(node.next),
    }
}

/// Another reference to the chain that starts at `link`.
fn share<T>(link: &Option<Arc<Node<T>>>) -> (r: Option<Arc<Node<T>>>)
    ensures
        r == *link,
{
    match link {
        Some(node) => Some(Arc::clone(node)),
        None => None,
    }
}

/// Relies on `Arc::try_unwrap`: it hands back the node itself when `node`
/// is its only strong reference, and otherwise returns `node` unchanged.
#[verifier::external_body]
fn try_take<T>(node: Arc<Node<T>>) -> (r: Result<Node<T>, Arc<Node<T>>>)
    ensures
        match r {
            Ok(n) => n == *node,
            Err(a) => a == node,
        },
    opens_invariants none
    no_unwind
{
    Arc::try_unwrap(node)
}

impl<T> View for List<T> {
    type V = Seq<T>;

    /// The elements from the front.
    closed spec fn view(&self) -> Seq<T> {
        link_view(self.head)
    }
}

impl<T> List<T> {
    /// An empty list.
    pub fn new() -> (r: Self)
        ensures
            r@ == Seq::<T>::empty(),
    {
        List { head: None }
    }

    /// A new list with `elem` in front of the elements of this one, whose
    /// other nodes are this list's own, shared rather than copied.
    pub fn append(&self, elem: T) -> (r: List<T>)
        ensures
            r@ == seq![elem] + self@,
    {
        let next = share(&self.head);
        List { head: Some(Arc::new(Node { elem, next })) }
    }

    /// The list without its first element, sharing its nodes with this one.
    /// The tail of an empty list is empty.
    pub fn tail(&self) -> (r: List<T>)
        ensures
            self@.len() == 0 ==> r@ == Seq::<T>::empty(),
            self@.len() > 0 ==> r@ == self@.drop_first(),
    {
        match &self.head {
            Some(node) => {
                assert(self@.drop_first() =~= link_view(node.next));
                List { head: share(&node.next) }
            },
            None => List { head: None },
        }
    }

    /// The first element, or `None` when the list is empty.
    pub fn head(&self) -> (r: Option<&T>)
        ensures
            r is Some <==> self@.len() > 0,
            r is Some ==> *r->0 == self@[0],
    {
        match &self.head {
            Some(node) => Some(&node.elem),
            None => None,
        }
    }

    /// Empties this list. Its nodes are freed one after another in a loop,
    /// from the front, as long as no other list shares them; the first node
    /// that another list still holds ends the loop, and stays with that list
    /// together with the nodes after it.
    pub fn clear(&mut self)
        ensures
            final(self)@ == Seq::<T>::empty(),
        opens_invariants none
        no_unwind
    {
        let mut cur = None;
        std::mem::swap(&mut self.head, &mut cur);
        loop
            invariant
                self.head is None,
            decreases link_view(cur).len(),
        {
            match cur {
                None => break,
                Some(node) => match try_take(node) {
                    Ok(n) => {
                        proof {
                            assert(link_view(cur) == seq![n.elem] + link_view(n.next));
                        }
                        cur = n.next;
                    },
                    Err(_) => break,
                },
            }
        }
    }

    /// An iterator over shared references to the elements, from the front.
    pub fn iter(&self) -> (r: Iter<'_, T>)
        ensures
            r@ == self@,
    {
        Iter { next: self.head.as_ref() }
    }
}

impl<'a, T> View for Iter<'a, T> {
    type V = Seq<T>;

    /// The elements not yet handed out, from the front.
    closed spec fn view(&self) -> Seq<T> {
        match self.next {
            None => Seq::empty(),
            Some(node) => link_view(Some(*node)),
        }
    }
}

impl<'a, T> Iter<'a, T> {
    /// Returns a reference to the next element, or `None` once every element
    /// has been handed out; after that it keeps returning `None`.
    pub fn next(&mut self) -> (r: Option<&'a T>)
        ensures
            r is None <==> old(self)@.len() == 0,
            r is None ==> final(self)@ == old(self)@,
            r is Some ==> *r->0 == old(self)@[0] && final(self)@ == old(self)@.drop_first(),
    {
        match self.next {
            Some(node) => {
                self.next = node.next.as_ref();
                proof {
                    assert(old(self)@ == seq![node.elem] + link_view(node.next));
                    assert(self@ == link_view(node.next));
                    assert(old(self)@.drop_first() =~= self@);
                }
                Some(&node.elem)
            },
            None => None,
        }
    }
}

impl<T> Drop for List<T> {
    /// Frees the nodes that this list alone holds in a loop, through
    /// `clear`, so that a long list does not exhaust the stack.
    fn drop(&mut self)
        opens_invariants none
        no_unwind
    {
        self.clear();
    }
}

} // verus!
