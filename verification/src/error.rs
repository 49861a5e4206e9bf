use vstd::prelude::*;

verus! {

/// The ways a ledger operation can fail.  Every failure aborts the whole
/// invocation: callers never observe a partially applied operation.
#[derive(Clone, Copy, Debug, PartialEq, Eq, Structural)]
pub enum DistributorError {
    /// The caller is not the configured controller.
    Unauthorized,
    /// A deposit was attempted while the total weight is zero, so there is
    /// no eligible weight to distribute it over.
    InvalidWeight,
    /// A supplied user or token-address identifier failed validation.
    MalformedIdentity,
    /// Exact fixed-point arithmetic left the representable range.
    Overflow,
}

} // verus!
