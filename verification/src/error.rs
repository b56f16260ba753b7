//! Errors that callers can recover from.

use vstd::prelude::*;

verus! {

/// Why no evaluation domains could be made for a requested size.
#[derive(Debug, Clone, PartialEq, Eq)]
pub enum DomainCreationError {
    /// The field has no radix-2 domain with at least this many points.
    DomainSizeFailed(usize),
    /// The field has no domain of this size for the scaled domain with this
    /// label (`"d1"`, `"d2"`, `"d4"` or `"d8"`).
    DomainConstructionFailed(String, usize),
}

/// A [`DomainCreationError`] with its label as a sequence of characters.
pub enum DomainCreationFailure {
    DomainSizeFailed(nat),
    DomainConstructionFailed(Seq<char>, nat),
}

impl View for DomainCreationError {
    type V = DomainCreationFailure;

    open spec fn view(&self) -> DomainCreationFailure {
        match self {
            DomainCreationError::DomainSizeFailed(n) => DomainCreationFailure::DomainSizeFailed(
                *n as nat,
            ),
            DomainCreationError::DomainConstructionFailed(label, size) => {
                DomainCreationFailure::DomainConstructionFailed(label@, *size as nat)
            },
        }
    }
}

} // verus!
