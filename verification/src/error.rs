//! The error taxonomy of the agent.

use vstd::prelude::*;

verus! {

/// Everything that can go wrong while dispatching a request or while
/// enforcing the relay protocol's ordering rules.
#[derive(Clone, Copy, Debug, PartialEq, Eq, Structural)]
pub enum Error {
    /// The subnet identifier does not follow the `/`-delimited path grammar.
    MalformedIdentifier,
    /// The request names a subnet that the pool does not hold.
    UnknownSubnet,
    /// The operation is parent-scoped but the identifier is the root.
    NoParent,
    /// A configuration fault that must not leak details to the caller,
    /// such as a missing auth token.
    Internal,
    /// A sender was needed but the subnet configures no account.
    NoAccountConfigured,
    /// An address string was rejected by the address parser.
    InvalidAddress,
    /// A decimal amount cannot be represented exactly in atto units.
    InvalidAmount,
    /// The parent has already committed a checkpoint at or past this epoch.
    StaleCheckpoint,
    /// The child has not yet produced a template for this epoch.
    NotYetFinalized,
    /// This validator already voted for this epoch.
    AlreadySubmitted,
    /// Cross-messages from the node skip a nonce.
    NonceGap,
    /// The node could not be reached or timed out.
    Transport,
}

/// The classes of the taxonomy: they decide how an error is reported and
/// whether the caller may retry.
#[derive(Clone, Copy, Debug, PartialEq, Eq, Structural)]
pub enum ErrorClass {
    /// Malformed input from the caller; reported verbatim.
    ClientInput,
    /// A local configuration fault; reported only as a generic internal error.
    Configuration,
    /// The target subnet is unknown or has no parent; safe to expose.
    SubnetUnavailable,
    /// An ordering rule of the chain was violated; retry with fresh state.
    ChainConsistency,
    /// The node was unreachable; the caller's retry policy decides.
    Transport,
}

impl Error {
    /// The class an error belongs to.
    pub open spec fn spec_class(self) -> ErrorClass {
        match self {
            Error::MalformedIdentifier => ErrorClass::ClientInput,
            Error::InvalidAddress => ErrorClass::ClientInput,
            Error::InvalidAmount => ErrorClass::ClientInput,
            Error::Internal => ErrorClass::Configuration,
            Error::NoAccountConfigured => ErrorClass::Configuration,
            Error::UnknownSubnet => ErrorClass::SubnetUnavailable,
            Error::NoParent => ErrorClass::SubnetUnavailable,
            Error::StaleCheckpoint => ErrorClass::ChainConsistency,
            Error::NotYetFinalized => ErrorClass::ChainConsistency,
            Error::AlreadySubmitted => ErrorClass::ChainConsistency,
            Error::NonceGap => ErrorClass::ChainConsistency,
            Error::Transport => ErrorClass::Transport,
        }
    }

    /// The class an error belongs to.
    pub fn class(&self) -> (c: ErrorClass)
        ensures
            c == self.spec_class(),
    {
        match self {
            Error::MalformedIdentifier => ErrorClass::ClientInput,
            Error::InvalidAddress => ErrorClass::ClientInput,
            Error::InvalidAmount => ErrorClass::ClientInput,
            Error::Internal => ErrorClass::Configuration,
            Error::NoAccountConfigured => ErrorClass::Configuration,
            Error::UnknownSubnet => ErrorClass::SubnetUnavailable,
            Error::NoParent => ErrorClass::SubnetUnavailable,
            Error::StaleCheckpoint => ErrorClass::ChainConsistency,
            Error::NotYetFinalized => ErrorClass::ChainConsistency,
            Error::AlreadySubmitted => ErrorClass::ChainConsistency,
            Error::NonceGap => ErrorClass::ChainConsistency,
            Error::Transport => ErrorClass::Transport,
        }
    }
}

} // verus!
