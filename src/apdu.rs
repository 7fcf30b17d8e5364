//! ISO 7816 command/response framing over a smartcard channel.
use vstd::prelude::*;

use crate::error::{Error, ProtocolError};

verus! {

/// The status word of a response: success, or an opaque failure code.
#[derive(Clone, Copy, Debug, PartialEq, Eq)]
pub enum StatusWord {
    Success,
    Failure(u8, u8),
}

/// The longest command data that the extended length form can carry.
pub const MAX_COMMAND_DATA: usize = 65535;

/// The bytes of a command: header, then for non-empty data a short
/// (one byte) or extended (zero, then two bytes big endian) length and the data,
/// then the expected response length in the same form (all zero: "as much as you have").
pub open spec fn command_bytes(cla: u8, ins: u8, p1: u8, p2: u8, data: Seq<u8>) -> Seq<u8> {
    let header = seq![cla, ins, p1, p2];
    let l = data.len();
    if l == 0 {
        header + seq![0u8]
    } else if l <= 255 {
        header + seq![l as u8] + data + seq![0u8]
    } else {
        header + seq![0u8, (l / 256) as u8, (l % 256) as u8] + data + seq![0u8, 0u8]
    }
}

/// The length forms: data of at most 255 bytes is announced in one byte and
/// followed by a one-byte expected length; longer data is announced as a zero
/// and two bytes big endian, and followed by a two-byte expected length.
pub proof fn lemma_length_forms(cla: u8, ins: u8, p1: u8, p2: u8, data: Seq<u8>)
    requires
        data.len() <= MAX_COMMAND_DATA,
    ensures
        data.len() == 0 ==> command_bytes(cla, ins, p1, p2, data) == seq![cla, ins, p1, p2, 0u8],
        0 < data.len() <= 255 ==> {
            let c = command_bytes(cla, ins, p1, p2, data);
            &&& c.len() == data.len() + 6
            &&& c[4] as nat == data.len()
            &&& c.subrange(5, 5 + data.len() as int) == data
            &&& c[c.len() - 1] == 0
        },
        data.len() > 255 ==> {
            let c = command_bytes(cla, ins, p1, p2, data);
            &&& c.len() == data.len() + 9
            &&& c[4] == 0
            &&& c[5] as nat * 256 + c[6] as nat == data.len()
            &&& c.subrange(7, 7 + data.len() as int) == data
            &&& c[c.len() - 2] == 0 && c[c.len() - 1] == 0
        },
{
    let c = command_bytes(cla, ins, p1, p2, data);
    let l = data.len();
    if l == 0 {
        assert(c =~= seq![cla, ins, p1, p2, 0u8]);
    } else if l <= 255 {
        assert(c.subrange(5, 5 + l as int) =~= data);
    } else {
        assert(c.subrange(7, 7 + l as int) =~= data);
    }
}

/// Whether a status pair is the success code (0x90, 0x00).
pub open spec fn is_success_pair(sw1: u8, sw2: u8) -> bool {
    sw1 == 0x90 && sw2 == 0x00
}

/// What a raw response decodes to: `Ok(payload)`, or the error with its fields
/// (for a device error, the payload bytes received before the status word).
pub open spec fn response_meaning(raw: Seq<u8>, r: Result<Vec<u8>, Error>) -> bool {
    if raw.len() < 2 {
        r == Err::<Vec<u8>, Error>(Error::Protocol(ProtocolError::MissingStatusWord))
    } else {
        let payload = raw.take(raw.len() - 2);
        let sw1 = raw[raw.len() - 2];
        let sw2 = raw[raw.len() - 1];
        if is_success_pair(sw1, sw2) {
            r matches Ok(v) && v@ == payload
        } else {
            r matches Err(Error::Device { sw1: a, sw2: b, data }) && a == sw1 && b == sw2
                && data@ == payload
        }
    }
}

/// Relies on `iso7816::Status::from((u8, u8))`, which maps exactly 0x9000 to `Success`.
#[verifier::external_body]
fn iso_status_is_success(sw1: u8, sw2: u8) -> (r: bool)
    ensures
        r == is_success_pair(sw1, sw2),
{
    matches!(iso7816::Status::from((sw1, sw2)), iso7816::Status::Success)
}

/// Relies on `iso7816::Instruction::Select` converting to its byte 0xA4.
#[verifier::external_body]
pub(crate) fn select_instruction() -> (r: u8)
    ensures
        r == 0xA4,
{
    iso7816::Instruction::Select.into()
}

/// Relies on `iso7816::Instruction::WriteBinary` converting to its byte 0xD0.
#[verifier::external_body]
pub(crate) fn write_binary_instruction() -> (r: u8)
    ensures
        r == 0xD0,
{
    iso7816::Instruction::WriteBinary.into()
}

/// Relies on `iso7816::Instruction::ReadBinary` converting to its byte 0xB0.
#[verifier::external_body]
pub(crate) fn read_binary_instruction() -> (r: u8)
    ensures
        r == 0xB0,
{
    iso7816::Instruction::ReadBinary.into()
}

impl StatusWord {
    /// Classifies a status pair.
    pub fn from_pair(sw1: u8, sw2: u8) -> (r: StatusWord)
        ensures
            is_success_pair(sw1, sw2) ==> r == StatusWord::Success,
            !is_success_pair(sw1, sw2) ==> r == StatusWord::Failure(sw1, sw2),
    {
        if iso_status_is_success(sw1, sw2) {
            StatusWord::Success
        } else {
            StatusWord::Failure(sw1, sw2)
        }
    }
}

/// Appends `data` to `buf`.
fn append_bytes(buf: &mut Vec<u8>, data: &[u8])
    ensures
        final(buf)@ == old(buf)@ + data@,
{
    buf.extend_from_slice(data);
}

/// Encodes a command for transmission.
pub fn encode_command(cla: u8, ins: u8, p1: u8, p2: u8, data: &[u8]) -> (r: Vec<u8>)
    requires
        data@.len() <= MAX_COMMAND_DATA,
    ensures
        r@ == command_bytes(cla, ins, p1, p2, data@),
{
    let mut buf: Vec<u8> = Vec::new();
    buf.push(cla);
    buf.push(ins);
    buf.push(p1);
    buf.push(p2);
    let l = data.len();
    if l == 0 {
        buf.push(0);
    } else if l <= 255 {
        buf.push(l as u8);
        append_bytes(&mut buf, data);
        buf.push(0);
    } else {
        buf.push(0);
        buf.push((l / 256) as u8);
        buf.push((l % 256) as u8);
        append_bytes(&mut buf, data);
        buf.push(0);
        buf.push(0);
    }
    assert(buf@ =~= command_bytes(cla, ins, p1, p2, data@));
    buf
}

/// The SELECT command for an application identifier.
pub fn select_command(aid: &[u8]) -> (r: Vec<u8>)
    requires
        aid@.len() <= MAX_COMMAND_DATA,
    ensures
        r@ == command_bytes(0, 0xA4, 0x04, 0x00, aid@),
{
    encode_command(0, select_instruction(), 0x04, 0x00, aid)
}

/// Decodes a raw response: splits off the status word and returns the payload
/// on success, or the device error with whatever payload came with it.
pub fn decode_response(raw: Vec<u8>) -> (r: Result<Vec<u8>, Error>)
    ensures
        response_meaning(raw@, r),
{
    let mut payload = raw;
    if payload.len() < 2 {
        return Err(Error::Protocol(ProtocolError::MissingStatusWord));
    }
    let ghost raw_view = payload@;
    let sw2 = payload.pop().unwrap();
    let sw1 = payload.pop().unwrap();
    assert(payload@ =~= raw_view.take(raw_view.len() - 2));
    match StatusWord::from_pair(sw1, sw2) {
        StatusWord::Success => Ok(payload),
        StatusWord::Failure(a, b) => Err(Error::Device { sw1: a, sw2: b, data: payload }),
    }
}

} // verus!
