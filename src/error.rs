//! The error kinds of the consensus core and how severe each one is.

use vstd::prelude::*;
use crate::message::PbftMessageType;

verus! {

/// Why an event could not be handled.
#[derive(Clone, Copy, Debug, PartialEq, Eq, Structural)]
pub enum PbftError {
    /// No event arrived within the message timeout.
    Timeout,
    /// The message refers to a round this node has not reached yet.
    NotReadyForMessage,
    /// A quorum check came short: the phase, the required count, the count found.
    WrongNumMessages(PbftMessageType, u64, u64),
    /// A signer sent two different messages for one round.
    ConflictingMessage,
    /// The message kind does not fit where it arrived.
    InvalidMessage,
    /// The signer is not one of the configured peers.
    UnknownSigner,
    /// A pre-prepare that does not come from the primary of its view.
    NotFromPrimary,
    /// The block is not the one under agreement.
    UnknownBlock,
    /// A counter of the protocol cannot advance any further.
    CounterExhausted,
}

/// How the event loop treats the outcome of a handler.
#[derive(Clone, Copy, Debug, PartialEq, Eq, Structural)]
pub enum Severity {
    /// Nothing to report.
    Quiet,
    /// Benign or transient: reported at trace level only.
    Trace,
    /// A protocol violation or a failed operation.
    Error,
}

pub open spec fn severity_of(res: Result<(), PbftError>) -> Severity {
    match res {
        Ok(()) => Severity::Quiet,
        Err(PbftError::Timeout) => Severity::Quiet,
        Err(PbftError::WrongNumMessages(_, _, _)) => Severity::Trace,
        Err(PbftError::NotReadyForMessage) => Severity::Trace,
        Err(_) => Severity::Error,
    }
}

/// Classifies the result of a handler: timeouts are silent, missing quorums
/// and premature messages are benign, everything else is an error.
pub fn handle_pbft_result(res: &Result<(), PbftError>) -> (r: Severity)
    ensures
        r == severity_of(*res),
{
    match res {
        Ok(()) => Severity::Quiet,
        Err(PbftError::Timeout) => Severity::Quiet,
        Err(PbftError::WrongNumMessages(_, _, _)) => Severity::Trace,
        Err(PbftError::NotReadyForMessage) => Severity::Trace,
        Err(_) => Severity::Error,
    }
}

} // verus!
