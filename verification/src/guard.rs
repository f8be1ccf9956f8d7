//! Conversion of plain argument types into their wire representation.

use vstd::prelude::*;

verus! {

/// Conversion of an argument into the form a system call takes.
pub trait IntoLibnx<T> {
    /// The value as the system call takes it.
    fn into_libnx(self) -> T;
}

impl IntoLibnx<u32> for crate::types::Handle {
    fn into_libnx(self) -> u32 {
        self.0
    }
}

} // verus!
