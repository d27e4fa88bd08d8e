use vstd::prelude::*;

verus! {

/// Why an operation was rejected. No state changes when one is returned.
#[derive(Clone, Copy, Debug, PartialEq, Eq, Structural)]
pub enum Error {
    /// The caller is not the account that the operation must come from.
    AuthorizationError,
    /// A range is not a sub-range of what it must lie in, or ranges do not meet.
    RangeViolation,
    /// A checkpoint, challenge, exit or game with the same content hash exists.
    DuplicateEntry,
    /// A checkpoint, exit, challenge, range slot or game is missing.
    NotFound,
    /// A period has not elapsed yet, or has elapsed where it must not have.
    TimingViolation,
    /// A stored value is not in the state the operation requires.
    StateMismatch,
    /// An inclusion proof or a predicate's check failed.
    VerificationFailure,
    /// A counter or a range bound would leave the range of its integer type.
    Overflow,
}

} // verus!
