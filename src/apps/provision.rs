//! The provisioning application, used once during production to create the
//! device's attestation keys and store their certificates.
use vstd::prelude::*;
use vstd::string::StringSliceAdditionalSpecFns;

use crate::apps::{concat_aid, Pix, Rid, Select};
use crate::error::Error;
use crate::apps::admin::{uuid_from_reply, uuid_of_reply};
use crate::transport::{called, last_reply, outcome, reply_view, Exchange, Transport};
use crate::apdu::{select_instruction, write_binary_instruction};

verus! {

/// Generate the P-256 attestation key.
pub const GENERATE_P256_ATTESTATION: u8 = 0xbc;
/// Generate the Ed25519 attestation key.
pub const GENERATE_ED255_ATTESTATION: u8 = 0xbb;
/// Generate the X25519 attestation key.
pub const GENERATE_X255_ATTESTATION: u8 = 0xb7;
/// Reboot into the bootloader.
pub const BOOT_TO_BOOTROM: u8 = 0x51;
/// Report the 16-byte UUID.
pub const GET_UUID: u8 = 0x62;
/// Reformat the file system.
pub const REFORMAT_FS: u8 = 0xbd;
/// Store the P-256 attestation certificate.
pub const STORE_P256_ATTESTATION_CERT: u8 = 0xba;
/// Store the Ed25519 attestation certificate.
pub const STORE_ED255_ATTESTATION_CERT: u8 = 0xb9;
/// Store the X25519 attestation certificate.
pub const STORE_X255_ATTESTATION_CERT: u8 = 0xb6;
/// Store the public key of the intermediate authority.
pub const STORE_T1_INTERMEDIATE_PUBKEY: u8 = 0xb5;
/// Write the file selected and filled before.
pub const WRITE_FILE: u8 = 0xbf;

/// Largest file that [`App::write_file`] stores.
pub const MAX_FILE_LEN: usize = 8192;

/// Longest path that [`App::write_file`] accepts.
pub const MAX_PATH_LEN: usize = 128;

/// A fixed-size key in a reply: the reply's bytes if it has `n` of them,
/// [`Error::InvalidInput`] otherwise, or the transport's error.
pub open spec fn fixed_reply(reply: Result<Seq<u8>, Error>, n: nat, r: Result<Seq<u8>, Error>) -> bool {
    match reply {
        Ok(b) => if b.len() == n {
            r == Ok::<Seq<u8>, Error>(b)
        } else {
            r == Err::<Seq<u8>, Error>(Error::InvalidInput)
        },
        Err(e) => r == Err::<Seq<u8>, Error>(e),
    }
}

/// A 32-byte result as a sequence.
pub open spec fn array32_view(r: Result<[u8; 32], Error>) -> Result<Seq<u8>, Error> {
    match r {
        Ok(a) => Ok(a@),
        Err(e) => Err(e),
    }
}

/// A 64-byte result as a sequence.
pub open spec fn array64_view(r: Result<[u8; 64], Error>) -> Result<Seq<u8>, Error> {
    match r {
        Ok(a) => Ok(a@),
        Err(e) => Err(e),
    }
}

/// A reply of exactly 32 bytes as an array.
pub fn array32(reply: &[u8]) -> (r: Result<[u8; 32], Error>)
    ensures
        reply@.len() == 32 ==> (r matches Ok(a) && a@ == reply@),
        reply@.len() != 32 ==> r == Err::<[u8; 32], Error>(Error::InvalidInput),
{
    if reply.len() != 32 {
        return Err(Error::InvalidInput);
    }
    let mut a = [0u8; 32];
    let mut i: usize = 0;
    while i < 32
        invariant
            i <= 32,
            reply@.len() == 32,
            a@.len() == 32,
            forall|j: int| 0 <= j < i ==> a@[j] == reply@[j],
        decreases 32 - i,
    {
        a[i] = reply[i];
        i = i + 1;
    }
    assert(a@ =~= reply@);
    Ok(a)
}

/// A reply of exactly 64 bytes as an array.
pub fn array64(reply: &[u8]) -> (r: Result<[u8; 64], Error>)
    ensures
        reply@.len() == 64 ==> (r matches Ok(a) && a@ == reply@),
        reply@.len() != 64 ==> r == Err::<[u8; 64], Error>(Error::InvalidInput),
{
    if reply.len() != 64 {
        return Err(Error::InvalidInput);
    }
    let mut a = [0u8; 64];
    let mut i: usize = 0;
    while i < 64
        invariant
            i <= 64,
            reply@.len() == 64,
            a@.len() == 64,
            forall|j: int| 0 <= j < i ==> a@[j] == reply@[j],
        decreases 64 - i,
    {
        a[i] = reply[i];
        i = i + 1;
    }
    assert(a@ =~= reply@);
    Ok(a)
}

/// The provisioning application over a transport.
pub struct App<T> {
    transport: T,
}

impl<T> Select for App<T> {
    open spec fn aid_spec() -> Seq<u8> {
        seq![0xA0u8, 0x00u8, 0x00u8, 0x08u8, 0x47u8, 0x01u8, 0x00u8, 0x00u8, 0x01u8]
    }

    fn application_id() -> (r: Vec<u8>) {
        let r = concat_aid(&Rid::SOLOKEYS, &Pix::PROVISION);
        assert(r@ =~= Self::aid_spec());
        r
    }
}

/// Drops a reply payload, keeping the outcome.
fn discard(r: Result<Vec<u8>, Error>) -> (o: Result<(), Error>)
    ensures
        r is Ok <==> o is Ok,
        r matches Err(e) ==> o == Err::<(), Error>(e),
{
    match r {
        Ok(_) => Ok(()),
        Err(e) => Err(e),
    }
}

impl<T: Transport> App<T> {
    /// The transport the application runs on.
    pub closed spec fn transport_spec(&self) -> T {
        self.transport
    }

    /// The application over a transport on which it is already selected.
    pub fn new(transport: T) -> (r: App<T>)
        ensures
            r.transport_spec() == transport,
    {
        App { transport }
    }

    /// Selects the application on the transport: a SELECT of its identifier.
    pub fn select(transport: T) -> (r: Result<App<T>, Error>)
        ensures
            r matches Ok(app) ==> app.transport_spec().log() == transport.log().push(
                Exchange::Select(Self::aid_spec(), Ok(())),
            ),
    {
        let mut transport = transport;
        let aid = <App<T> as Select>::application_id();
        let selected = transport.select(aid);
        match selected {
            Ok(u) => {
                assert(selected == Ok::<(), Error>(()));
                let app = App { transport };
                assert(app.transport_spec() == transport);
                Ok(app)
            },
            Err(e) => Err(e),
        }
    }

    /// Gives the transport back.
    pub fn into_inner(self) -> (r: T)
        ensures
            r == self.transport_spec(),
    {
        self.transport
    }

    /// Sends an instruction with data; its outcome is returned, the reply dropped.
    fn call_only(&mut self, instruction: u8, data: &[u8]) -> (r: Result<(), Error>)
        ensures
            called(old(self).transport_spec().log(), final(self).transport_spec().log(), instruction, data@),
            r == outcome(last_reply(final(self).transport_spec().log())),
    {
        let ghost before = self.transport.log();
        let reply = self.transport.call(instruction, data);
        assert(self.transport.log().drop_last() =~= before);
        match reply {
            Ok(_) => Ok(()),
            Err(e) => Err(e),
        }
    }

    /// Sends an instruction without data and returns its reply.
    fn instruct_reply(&mut self, instruction: u8) -> (r: Result<Vec<u8>, Error>)
        ensures
            called(old(self).transport_spec().log(), final(self).transport_spec().log(), instruction, Seq::empty()),
            reply_view(r) == last_reply(final(self).transport_spec().log()),
    {
        let ghost before = self.transport.log();
        let reply = self.transport.instruct(instruction);
        assert(self.transport.log().drop_last() =~= before);
        reply
    }

    /// Generates the Ed25519 attestation key (instruction 0xBB without data);
    /// returns its 32-byte public key, refusing a reply of another length.
    pub fn generate_trussed_ed255_attestation_key(&mut self) -> (r: Result<[u8; 32], Error>)
        ensures
            called(old(self).transport_spec().log(), final(self).transport_spec().log(), GENERATE_ED255_ATTESTATION, Seq::empty()),
            fixed_reply(last_reply(final(self).transport_spec().log()), 32, array32_view(r)),
    {
        match self.instruct_reply(GENERATE_ED255_ATTESTATION) {
            Ok(reply) => array32(reply.as_slice()),
            Err(e) => Err(e),
        }
    }

    /// Generates the P-256 attestation key (instruction 0xBC without data);
    /// returns its 64-byte public key, refusing a reply of another length.
    pub fn generate_trussed_p256_attestation_key(&mut self) -> (r: Result<[u8; 64], Error>)
        ensures
            called(old(self).transport_spec().log(), final(self).transport_spec().log(), GENERATE_P256_ATTESTATION, Seq::empty()),
            fixed_reply(last_reply(final(self).transport_spec().log()), 64, array64_view(r)),
    {
        match self.instruct_reply(GENERATE_P256_ATTESTATION) {
            Ok(reply) => array64(reply.as_slice()),
            Err(e) => Err(e),
        }
    }

    /// Generates the X25519 attestation key (instruction 0xB7 without data);
    /// returns its 32-byte public key, refusing a reply of another length.
    pub fn generate_trussed_x255_attestation_key(&mut self) -> (r: Result<[u8; 32], Error>)
        ensures
            called(old(self).transport_spec().log(), final(self).transport_spec().log(), GENERATE_X255_ATTESTATION, Seq::empty()),
            fixed_reply(last_reply(final(self).transport_spec().log()), 32, array32_view(r)),
    {
        match self.instruct_reply(GENERATE_X255_ATTESTATION) {
            Ok(reply) => array32(reply.as_slice()),
            Err(e) => Err(e),
        }
    }

    /// Reformats the device's file system (instruction 0xBD without data).
    pub fn reformat_filesystem(&mut self) -> (r: Result<(), Error>)
        ensures
            called(old(self).transport_spec().log(), final(self).transport_spec().log(), REFORMAT_FS, Seq::empty()),
            r == outcome(last_reply(final(self).transport_spec().log())),
    {
        let empty: Vec<u8> = Vec::new();
        let r = self.call_only(REFORMAT_FS, empty.as_slice());
        assert(empty@ =~= Seq::<u8>::empty());
        r
    }

    /// Stores the DER certificate of the Ed25519 attestation key (instruction 0xB9).
    pub fn store_trussed_ed255_attestation_certificate(&mut self, der: &[u8]) -> (r: Result<(), Error>)
        ensures
            called(old(self).transport_spec().log(), final(self).transport_spec().log(), STORE_ED255_ATTESTATION_CERT, der@),
            r == outcome(last_reply(final(self).transport_spec().log())),
    {
        self.call_only(STORE_ED255_ATTESTATION_CERT, der)
    }

    /// Stores the DER certificate of the P-256 attestation key (instruction 0xBA).
    pub fn store_trussed_p256_attestation_certificate(&mut self, der: &[u8]) -> (r: Result<(), Error>)
        ensures
            called(old(self).transport_spec().log(), final(self).transport_spec().log(), STORE_P256_ATTESTATION_CERT, der@),
            r == outcome(last_reply(final(self).transport_spec().log())),
    {
        self.call_only(STORE_P256_ATTESTATION_CERT, der)
    }

    /// Stores the DER certificate of the X25519 attestation key (instruction 0xB6).
    pub fn store_trussed_x255_attestation_certificate(&mut self, der: &[u8]) -> (r: Result<(), Error>)
        ensures
            called(old(self).transport_spec().log(), final(self).transport_spec().log(), STORE_X255_ATTESTATION_CERT, der@),
            r == outcome(last_reply(final(self).transport_spec().log())),
    {
        self.call_only(STORE_X255_ATTESTATION_CERT, der)
    }

    /// Stores the public key of the intermediate authority that signs the device certificates (instruction 0xB5).
    pub fn store_trussed_t1_intermediate_public_key(&mut self, public_key: [u8; 32]) -> (r: Result<(), Error>)
        ensures
            called(old(self).transport_spec().log(), final(self).transport_spec().log(), STORE_T1_INTERMEDIATE_PUBKEY, public_key@),
            r == outcome(last_reply(final(self).transport_spec().log())),
    {
        self.call_only(STORE_T1_INTERMEDIATE_PUBKEY, &public_key)
    }

    /// Reboots into the bootloader (instruction 0x51 without data).
    pub fn boot_to_bootrom(&mut self) -> (r: Result<(), Error>)
        ensures
            called(old(self).transport_spec().log(), final(self).transport_spec().log(), BOOT_TO_BOOTROM, Seq::empty()),
            r == outcome(last_reply(final(self).transport_spec().log())),
    {
        let empty: Vec<u8> = Vec::new();
        let r = self.call_only(BOOT_TO_BOOTROM, empty.as_slice());
        assert(empty@ =~= Seq::<u8>::empty());
        r
    }

    /// The device's UUID as a number (instruction 0x62 without data); a reply
    /// of any length but 16 is refused, a transport error returned unchanged.
    pub fn uuid(&mut self) -> (r: Result<u128, Error>)
        ensures
            called(old(self).transport_spec().log(), final(self).transport_spec().log(), GET_UUID, Seq::empty()),
            r == match last_reply(final(self).transport_spec().log()) {
                Ok(b) => match uuid_of_reply(b) {
                    Ok(u) => Ok(u.0),
                    Err(e) => Err(e),
                },
                Err(e) => Err(e),
            },
    {
        match self.instruct_reply(GET_UUID) {
            Ok(reply) => match uuid_from_reply(reply.as_slice()) {
                Ok(u) => Ok(u.0),
                Err(e) => Err(e),
            },
            Err(e) => Err(e),
        }
    }

    /// Writes a file of at most 8192 bytes at a path of at most 128 bytes;
    /// longer ones are refused before anything is sent.
    pub fn write_file(&mut self, data: &[u8], path: &str) -> (r: Result<(), Error>)
        ensures
            data@.len() > MAX_FILE_LEN ==> r == Err::<(), Error>(Error::InvalidInput),
            path.spec_bytes().len() > MAX_PATH_LEN ==> r == Err::<(), Error>(Error::InvalidInput),
            data@.len() > MAX_FILE_LEN || path.spec_bytes().len() > MAX_PATH_LEN
                ==> final(self).transport_spec().log() == old(self).transport_spec().log(),
    {
        let path = path.as_bytes();
        if data.len() > MAX_FILE_LEN {
            return Err(Error::InvalidInput);
        }
        if path.len() > MAX_PATH_LEN {
            return Err(Error::InvalidInput);
        }
        let select = select_instruction();
        let write_binary = write_binary_instruction();
        let path_id: [u8; 2] = [0xe1, 0x01];
        let data_id: [u8; 2] = [0xe1, 0x02];
        discard(self.transport.call(select, &path_id))?;
        discard(self.transport.call(write_binary, path))?;
        discard(self.transport.call(select, &data_id))?;
        discard(self.transport.call(write_binary, data))?;
        discard(self.transport.instruct(WRITE_FILE))
    }
}

} // verus!
