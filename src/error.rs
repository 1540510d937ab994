use vstd::prelude::*;

verus! {

/// Every failure this layer reports to its caller.
#[derive(Debug, Clone, Copy, PartialEq, Eq, Structural)]
pub enum VaaError {
    /// The buffer ended before a field was complete.
    ShortBuffer,
    /// A top-level payload left bytes unread.
    TrailingBytes,
    /// A field held a value outside its allowed range.
    FieldOutOfRange,
    /// A tag byte named no known variant.
    UnknownDiscriminant,
    /// The governance header's module tag did not match.
    InvalidGovernanceModule,
    /// The governance header's action byte did not match.
    InvalidGovernanceAction,
    /// The governance header named neither this chain nor every chain.
    InvalidGovernanceChain,
    /// The message's claim record is already set.
    AlreadyExecuted,
    /// The claim record does not sit at the address derived for the message.
    DerivationMismatch,
}

} // verus!
