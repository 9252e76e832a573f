use vstd::prelude::*;

verus! {

/// What a memory-management call reports when it cannot do its work.
#[derive(Clone, Copy, Debug, PartialEq, Eq, Structural)]
pub enum KError {
    /// A frame or heap request cannot be satisfied.
    AllocationExhausted,
    /// The leaf entry of the page is already valid.
    AlreadyMapped,
    /// The address has no valid leaf entry.
    NotMapped,
    /// An address that must be page-aligned is not.
    MisalignedAddress,
}

pub type KResult<T> = Result<T, KError>;

} // verus!
