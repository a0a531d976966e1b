//! Traits shared by the decoded object variants.

use vstd::prelude::*;

verus! {

/// An object that can report its own total on-disk size in bytes.
pub trait SizedObject {
    /// The size the object claims for itself.
    spec fn spec_size(&self) -> u64;

    /// Returns the object's size.
    fn size(&self) -> (r: u64)
        ensures
            r == self.spec_size(),
    ;
}

/// An object whose integrity hash can be recomputed from its contents.
pub trait HashableObject {
    /// The hash the object's contents produce.
    spec fn spec_hash(&self) -> u64;

    /// Recomputes the hash of the object's contents.
    fn hash(&self) -> (r: u64)
        ensures
            r == self.spec_hash(),
    ;
}

} // verus!
