//! An array-backed linked list: elements live in a growable arena of slots
//! linked by indices, with vacated slots recycled through a free list.

pub mod laws;
pub mod list;

pub use list::LinkedNode;
pub use list::LinkedVector;
