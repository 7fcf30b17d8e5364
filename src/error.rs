//! Errors of every layer, typed so that callers can tell "retry or replug",
//! "confirm" and "protocol mismatch" apart.
use vstd::prelude::*;

use crate::transport::ctap::Error as CtaphidError;

verus! {

/// What was wrong with the shape of a packet or response.
#[derive(Clone, Copy, Debug, PartialEq, Eq)]
pub enum ProtocolError {
    /// A smartcard response without its two status bytes.
    MissingStatusWord,
    /// A CTAPHID reply whose command byte is not the request's.
    UnexpectedCommand,
    /// A CTAPHID continuation packet out of sequence.
    UnexpectedSequence,
    /// A reply of a length the exchange does not allow.
    UnexpectedLength,
    /// The `Init` reply did not echo the nonce that was sent.
    NonceMismatch,
    /// The `Init` reply announced a CTAPHID version other than 2.
    UnsupportedVersion,
}

/// The library's error.
#[derive(Clone, Debug, PartialEq, Eq)]
pub enum Error {
    /// Malformed packet or response shape.
    Protocol(ProtocolError),
    /// A smartcard answered with a status word other than success,
    /// possibly with diagnostic data.
    Device { sw1: u8, sw2: u8, data: Vec<u8> },
    /// A CTAPHID device answered with an error packet.
    Ctaphid(CtaphidError),
    /// The operation needs a capability that this transport lacks.
    TransportUnavailable,
    /// No device has the requested UUID.
    NoSuchDevice,
    /// Several devices (their number given) share the requested UUID.
    IdentityAmbiguous(usize),
    /// The operator declined a required confirmation.
    UserAborted,
    /// A bounded polling loop used up its attempts.
    Timeout,
    /// The underlying channel failed (reported by the caller that does I/O).
    Io,
    /// An argument that the operation cannot accept.
    InvalidInput,
}

} // verus!
