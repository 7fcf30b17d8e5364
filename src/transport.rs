//! A uniform command interface over both physical channels.
//!
//! Applications that only need single-byte instructions with byte-string
//! replies are written against [`Transport`], and so work over CTAPHID and
//! over a smartcard alike.
use vstd::prelude::*;

use crate::error::Error;

pub mod ctap;

verus! {

/// One exchange with a device: what was sent, and what came back.
pub enum Exchange {
    /// An instruction with its data, and the reply payload or error.
    Call(u8, Seq<u8>, Result<Seq<u8>, Error>),
    /// A full ISO 7816 command (class, instruction, p1, p2, data), and its outcome.
    Iso(u8, u8, u8, u8, Seq<u8>, Result<Seq<u8>, Error>),
    /// The selection of an application by identifier, and its outcome.
    Select(Seq<u8>, Result<(), Error>),
}

/// The exchanges on a channel, oldest first.
pub type ExchangeLog = Seq<Exchange>;

/// A reply as a byte sequence.
pub open spec fn reply_view(r: Result<Vec<u8>, Error>) -> Result<Seq<u8>, Error> {
    match r {
        Ok(v) => Ok(v@),
        Err(e) => Err(e),
    }
}

/// The minimal command interface of a channel to a device.
///
/// Implemented over CTAPHID handles and smartcard handles by the code that owns
/// them, and by a [`Solo2`](crate::device::Solo2), which routes to one of its handles.
/// Every operation appends one [`Exchange`] to the channel's log.
pub trait Transport {
    /// Every exchange on this channel so far, oldest first. It exists for
    /// proofs only; implementations outside verified code never evaluate it.
    spec fn log(&self) -> ExchangeLog;

    /// Sends an instruction with its data and returns the reply payload.
    fn call(&mut self, instruction: u8, data: &[u8]) -> (r: Result<Vec<u8>, Error>)
        ensures
            final(self).log() == old(self).log().push(Exchange::Call(instruction, data@, reply_view(r))),
    ;

    /// Sends an instruction without data.
    fn instruct(&mut self, instruction: u8) -> (r: Result<Vec<u8>, Error>)
        ensures
            final(self).log() == old(self).log().push(
                Exchange::Call(instruction, Seq::empty(), reply_view(r)),
            ),
    {
        let empty: Vec<u8> = Vec::new();
        let r = self.call(instruction, empty.as_slice());
        assert(empty@ =~= Seq::<u8>::empty());
        r
    }

    /// Sends a full ISO 7816 command; transports without APDU framing fail
    /// with [`Error::TransportUnavailable`].
    fn call_iso(&mut self, class: u8, instruction: u8, p1: u8, p2: u8, data: &[u8]) -> (r: Result<
        Vec<u8>,
        Error,
    >)
        ensures
            final(self).log() == old(self).log().push(
                Exchange::Iso(class, instruction, p1, p2, data@, reply_view(r)),
            ),
    ;

    /// Selects an on-device application by its identifier; a no-op where the
    /// transport has no notion of applications.
    fn select(&mut self, aid: Vec<u8>) -> (r: Result<(), Error>)
        ensures
            final(self).log() == old(self).log().push(Exchange::Select(aid@, r)),
    ;
}

/// The log grew by exactly one exchange, an instruction with its data; its reply.
pub open spec fn called(before: Seq<Exchange>, after: Seq<Exchange>, instruction: u8, data: Seq<u8>) -> bool {
    &&& after.len() == before.len() + 1
    &&& after.drop_last() == before
    &&& after.last() matches Exchange::Call(i, d, _) && i == instruction && d == data
}

/// The log grew by exactly one ISO 7816 command with these arguments.
pub open spec fn iso_called(
    before: Seq<Exchange>,
    after: Seq<Exchange>,
    class: u8,
    instruction: u8,
    p1: u8,
    p2: u8,
    data: Seq<u8>,
) -> bool {
    &&& after.len() == before.len() + 1
    &&& after.drop_last() == before
    &&& after.last() matches Exchange::Iso(c, i, a, b, d, _) && c == class && i == instruction && a == p1
        && b == p2 && d == data
}

/// The reply of the last exchange, if it was a call.
pub open spec fn last_reply(log: Seq<Exchange>) -> Result<Seq<u8>, Error> {
    match log.last() {
        Exchange::Call(_, _, reply) => reply,
        Exchange::Iso(_, _, _, _, _, reply) => reply,
        Exchange::Select(_, Ok(())) => Ok(Seq::empty()),
        Exchange::Select(_, Err(e)) => Err(e),
    }
}

/// A reply reduced to its outcome.
pub open spec fn outcome(reply: Result<Seq<u8>, Error>) -> Result<(), Error> {
    match reply {
        Ok(_) => Ok(()),
        Err(e) => Err(e),
    }
}

} // verus!
