//! Vtable slot indexing for virtual dispatch.
//!
//! A `VirtualIndex` names one slot of a vtable; the code generator turns it
//! into a load at `index * pointer_size` from the vtable's address.

use vstd::prelude::*;

verus! {

/// The index of one slot in a vtable.
#[derive(Copy, Clone, Debug, PartialEq, Eq, Structural)]
pub struct VirtualIndex(pub u64);

impl VirtualIndex {
    /// Wraps a slot index.
    pub fn from_index(index: usize) -> (r: Self)
        ensures
            r.0 == index as u64,
    {
        VirtualIndex(index as u64)
    }

    /// The byte offset of this slot in a vtable whose slots are
    /// `pointer_size` bytes wide.
    pub fn byte_offset(self, pointer_size: u64) -> (r: u64)
        requires
            self.0 * pointer_size <= u64::MAX,
        ensures
            r == self.0 * pointer_size,
    {
        self.0 * pointer_size
    }
}

} // verus!
