//! Capability-tagged access to heap cells.
//!
//! Values live in a [`Heap`]. A [`Pointer`] names a cell and a tag, and every
//! access presents a permission witness whose tag matches. Tags come from one
//! [`Tags`] source shared by all heaps whose pointers may meet, so a tag is never
//! handed out twice among them. Borrow scopes are opened and closed in stack
//! order; the contracts reject, at verification time, every access that the
//! current scopes of the heap do not allow under the presented tag.

pub mod heap;
pub mod laws;
pub mod perms;
pub mod refs;
mod sealed;

pub use heap::{Access, Heap, HeapView, Pointer, Scope, Tags};
pub use perms::{AllowsRead, AllowsWrite, Dealloc, Read, Reserved, Token, Write};
pub use refs::{Ref, RefMut, RefReserved, Value};
