//! A persistent (immutable, structurally shared) singly-linked list.
//!
//! Every update operation returns a new list and leaves existing lists
//! unchanged; unrelated lists may share trailing nodes through reference
//! counting instead of copying them.

pub mod list;
mod rc_utils;

pub use list::Cons;
pub use list::List;
