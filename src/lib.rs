//! Linked-list variants, each exploring a different way of owning and
//! linking nodes, with their behaviour stated and proved as contracts.
//!
//! - `first`: an `i32` stack of boxed nodes.
//! - `bad_stack`, `second`: stacks kept in one vector; `second` is generic,
//!   with peeking and iterators.
//! - `third`: a persistent list whose lists share their nodes.
//! - `fourth`: a double-ended list of two-way linked nodes in an arena.
//! - `unsafe_deque` (also `fifth`): a queue of one-way linked nodes in an
//!   arena, with a cached tail for O(1) append.
//! - `arena`: the slots, addressed by index, that `fourth` and
//!   `unsafe_deque` keep their nodes in.
//! - `sequences`: what runs of pushes and pops do to a container's contents.

pub mod arena;
pub mod bad_stack;
pub mod fifth;
pub mod first;
pub mod fourth;
pub mod second;
pub mod sequences;
pub mod third;
pub mod unsafe_deque;
