//! The gateway's error taxonomy.

use vstd::prelude::*;

verus! {

/// Everything that can go wrong in the gateway core.
#[derive(Clone, Copy, Debug, PartialEq, Eq, Structural)]
pub enum GatewayError {
    /// The first client frame was malformed, unsigned, or late.
    InvalidHandshake,
    /// The registry already holds a registration for the client.
    AlreadyRegistered,
    /// A connection was refused because its client is already connected.
    DuplicateClient,
    /// A client's messages arrived with a gap wider than its reorder window.
    SequenceGap,
    /// A client's inbound queue filled up.
    SlowConsumer,
    /// A message was addressed to a client that is not registered.
    UnknownClient,
    /// A backend call failed; it is retried on the next tick.
    BackendUnavailable,
    /// A poll response failed its authenticity check.
    VerificationFailed,
    /// The registry disagrees with itself; this is a programming error.
    RegistryInconsistency,
}

impl GatewayError {
    /// The code under which a client sees its connection closed, for the
    /// errors that a client sees at all.
    pub open spec fn spec_close_code(self) -> Option<u16> {
        match self {
            GatewayError::InvalidHandshake => Some(4001u16),
            GatewayError::DuplicateClient => Some(4002u16),
            GatewayError::SequenceGap => Some(4003u16),
            GatewayError::SlowConsumer => Some(4004u16),
            _ => None,
        }
    }

    /// Whether the error ends the one connection it occurred on.
    pub open spec fn spec_closes_connection(self) -> bool {
        self.spec_close_code().is_some()
    }

    /// Whether the task that meets the error must abort instead of going on.
    pub open spec fn spec_aborts_task(self) -> bool {
        self == GatewayError::RegistryInconsistency
    }

    /// The code under which a client sees its connection closed.
    #[verifier::when_used_as_spec(spec_close_code)]
    pub fn close_code(self) -> (code: Option<u16>)
        ensures
            code == self.spec_close_code(),
    {
        match self {
            GatewayError::InvalidHandshake => Some(4001u16),
            GatewayError::DuplicateClient => Some(4002u16),
            GatewayError::SequenceGap => Some(4003u16),
            GatewayError::SlowConsumer => Some(4004u16),
            _ => None,
        }
    }

    /// Whether the error ends the one connection it occurred on.
    #[verifier::when_used_as_spec(spec_closes_connection)]
    pub fn closes_connection(self) -> (closes: bool)
        ensures
            closes == self.spec_closes_connection(),
    {
        self.close_code().is_some()
    }

    /// Whether the task that meets the error must abort.
    #[verifier::when_used_as_spec(spec_aborts_task)]
    pub fn aborts_task(self) -> (aborts: bool)
        ensures
            aborts == self.spec_aborts_task(),
    {
        match self {
            GatewayError::RegistryInconsistency => true,
            _ => false,
        }
    }
}

} // verus!
