use vstd::prelude::*;

verus! {

/// Every way in which a contract call is refused.
#[derive(Clone, Copy, Debug, PartialEq, Eq, Structural)]
pub enum Error {
    AlreadyInitialized,
    NotInitialized,
    Unauthorized,
    RootNotFound,
    NonCanonicalSignature,
    BatchTooLarge,
    InvalidAmount,
    SelfTransfer,
    Paused,
    RefundNotFound,
    MathOverflow,
    TimelockNotExpired,
    InsufficientFloat,
    StaleState,
    UnsupportedAsset,
    ExceedsPayment,
    ChannelNotFound,
    ChannelNotOpen,
    ChannelExpired,
    ChannelAlreadyClosed,
    ChallengeActive,
    ChallengeExpired,
}

} // verus!
