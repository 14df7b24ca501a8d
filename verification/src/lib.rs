//! Fixed-capacity in-process caching built from verified containers.
//!
//! The centrepiece is [`lru::LRU`], a key-value cache that evicts the
//! least-recently-used entry once a fixed capacity is reached.  Around it
//! stand the simpler containers the cache grew out of: a binary tree keyed
//! by a total order, a singly linked list, a doubly linked list, and the
//! recency list the cache itself drives.
//!
//! Every container carries a mathematical model (a `Seq`, or a tree
//! predicate) and every public operation states in its contract exactly how
//! it moves that model.

pub mod binary_tree;
pub mod doubly_linked_list;
pub mod lru;
pub mod simple_list;
pub mod singly_linked_list;
pub mod traits;
