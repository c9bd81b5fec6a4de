//! Three linked-list containers: two singly linked stacks built from owned
//! chains, and a doubly linked list kept in an index arena.
//!
//! Every container is described by a view, the sequence of its elements from
//! head to tail, and every operation is specified over that view.

pub mod model;
pub mod list1;
pub mod list2;
pub mod dlist;
