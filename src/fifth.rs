//! The singly linked queue with a cached tail node, under this module's
//! name as well; see `unsafe_deque`.

pub use crate::unsafe_deque::List;
