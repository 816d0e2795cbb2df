use vstd::prelude::*;

verus! {

/// Implemented only by this crate's witness types, so no type outside the
/// crate can stand in for a permission.
pub trait Sealed {
}

} // verus!
