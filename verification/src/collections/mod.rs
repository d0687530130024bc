//! Fixed-capacity ring queue and doubly-linked list.
pub mod list;
pub mod queue;
