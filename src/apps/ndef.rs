//! The NFC data exchange (NDEF) application: capability container and data.
use vstd::prelude::*;

use crate::apdu::{read_binary_instruction, select_instruction};
use crate::apps::{concat_aid, Pix, Rid, Select};
use crate::error::Error;
use crate::transport::{last_reply, reply_view, Exchange, Transport};

verus! {

/// The log grew by a file selection (instruction 0xA4 with `file`) and, if
/// that succeeded, a read (instruction 0xB0 without data).
pub open spec fn read_file_exchange(before: Seq<Exchange>, after: Seq<Exchange>, file: Seq<u8>) -> bool {
    &&& after.len() >= before.len() + 1
    &&& after.take(before.len() as int) == before
    &&& after[before.len() as int] matches Exchange::Call(i, d, reply) && i == 0xA4 && d == file && match reply {
        Err(_) => after.len() == before.len() + 1,
        Ok(_) => after.len() == before.len() + 2 && (after[before.len() as int + 1] matches Exchange::Call(
            i2,
            d2,
            _,
        ) && i2 == 0xB0 && d2 == Seq::<u8>::empty()),
    }
}

/// The outcome of reading a file: the selection's error, or the read's reply.
pub open spec fn read_file_reply(before: Seq<Exchange>, after: Seq<Exchange>) -> Result<Seq<u8>, Error> {
    match after[before.len() as int] {
        Exchange::Call(_, _, Err(e)) => Err(e),
        _ => last_reply(after),
    }
}

/// The NDEF application over a transport.
pub struct App<T> {
    transport: T,
}

impl<T> Select for App<T> {
    open spec fn aid_spec() -> Seq<u8> {
        seq![0xD2u8, 0x76u8, 0x00u8, 0x00u8, 0x85u8, 0x01u8, 0x01u8]
    }

    fn application_id() -> (r: Vec<u8>) {
        let r = concat_aid(&Rid::NFC_FORUM, &Pix::NDEF);
        assert(r@ =~= Self::aid_spec());
        r
    }
}

impl<T: Transport> App<T> {
    /// The transport the application runs on.
    pub closed spec fn transport_spec(&self) -> T {
        self.transport
    }

    /// Selects the application on the transport: a SELECT of its identifier.
    pub fn select(transport: T) -> (r: Result<App<T>, Error>)
        ensures
            r matches Ok(app) ==> app.transport_spec().log() == transport.log().push(
                Exchange::Select(Self::aid_spec(), Ok(())),
            ),
    {
        let mut transport = transport;
        let aid = <App<T> as Select>::application_id();
        let selected = transport.select(aid);
        match selected {
            Ok(u) => {
                assert(selected == Ok::<(), Error>(()));
                let app = App { transport };
                assert(app.transport_spec() == transport);
                Ok(app)
            },
            Err(e) => Err(e),
        }
    }

    /// Gives the transport back.
    pub fn into_inner(self) -> (r: T)
        ensures
            r == self.transport_spec(),
    {
        self.transport
    }

    /// Selects a file (instruction 0xA4 with the file identifier) and, if
    /// that succeeds, reads it (instruction 0xB0 without data).
    fn read_file(&mut self, file: &[u8]) -> (r: Result<Vec<u8>, Error>)
        ensures
            read_file_exchange(old(self).transport_spec().log(), final(self).transport_spec().log(), file@),
            reply_view(r) == read_file_reply(old(self).transport_spec().log(), final(self).transport_spec().log()),
    {
        let ghost before = self.transport.log();
        let selected = self.transport.call(select_instruction(), file);
        match selected {
            Ok(_) => {},
            Err(e) => {
                assert(self.transport.log().take(before.len() as int) =~= before);
                return Err(e);
            },
        }
        let ghost middle = self.transport.log();
        let r = self.transport.instruct(read_binary_instruction());
        assert(self.transport.log().take(before.len() as int) =~= before);
        assert(self.transport.log()[before.len() as int] == middle[before.len() as int]);
        r
    }

    /// The capability container (file E103), read as [`read_file_exchange`] states.
    pub fn capabilities(&mut self) -> (r: Result<Vec<u8>, Error>)
        ensures
            read_file_exchange(old(self).transport_spec().log(), final(self).transport_spec().log(), seq![0xE1u8, 0x03u8]),
            reply_view(r) == read_file_reply(old(self).transport_spec().log(), final(self).transport_spec().log()),
    {
        let file: [u8; 2] = [0xE1, 0x03];
        assert(file@ =~= seq![0xE1u8, 0x03u8]);
        self.read_file(&file)
    }

    /// The NDEF data (file E104), read as [`read_file_exchange`] states.
    pub fn data(&mut self) -> (r: Result<Vec<u8>, Error>)
        ensures
            read_file_exchange(old(self).transport_spec().log(), final(self).transport_spec().log(), seq![0xE1u8, 0x04u8]),
            reply_view(r) == read_file_reply(old(self).transport_spec().log(), final(self).transport_spec().log()),
    {
        let file: [u8; 2] = [0xE1, 0x04];
        assert(file@ =~= seq![0xE1u8, 0x04u8]);
        self.read_file(&file)
    }
}

} // verus!
