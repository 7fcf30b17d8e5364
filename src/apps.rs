//! Applications on the device, reached through any [`Transport`](crate::transport::Transport).
use vstd::prelude::*;

pub mod admin;
pub mod ndef;
pub mod oath;
pub mod piv;
pub mod provision;

verus! {

/// Well-known registered application provider identifiers.
pub struct Rid;

impl Rid {
    pub const NFC_FORUM: [u8; 5] = [0xD2, 0x76, 0x00, 0x00, 0x85];
    pub const NIST: [u8; 5] = [0xA0, 0x00, 0x00, 0x03, 0x08];
    pub const SOLOKEYS: [u8; 5] = [0xA0, 0x00, 0x00, 0x08, 0x47];
    pub const YUBICO: [u8; 5] = [0xA0, 0x00, 0x00, 0x05, 0x27];
}

/// Well-known proprietary application identifier extensions.
pub struct Pix;

impl Pix {
    pub const ADMIN: [u8; 4] = [0x00, 0x00, 0x00, 0x01];
    pub const NDEF: [u8; 2] = [0x01, 0x01];
    pub const OATH: [u8; 2] = [0x21, 0x01];
    pub const PIV: [u8; 4] = [0x00, 0x00, 0x10, 0x00];
    pub const PROVISION: [u8; 4] = [0x01, 0x00, 0x00, 0x01];
    pub const QA: [u8; 4] = [0x01, 0x00, 0x00, 0x00];
}

/// An application selected by its identifier: provider identifier, then extension.
pub trait Select {
    /// The application identifier.
    spec fn aid_spec() -> Seq<u8>;

    /// The application identifier, as sent in a SELECT.
    fn application_id() -> (r: Vec<u8>)
        ensures
            r@ == Self::aid_spec(),
    ;
}

/// The identifier made of a provider identifier and an extension.
pub fn concat_aid(rid: &[u8], pix: &[u8]) -> (r: Vec<u8>)
    ensures
        r@ == rid@ + pix@,
{
    let mut aid: Vec<u8> = Vec::new();
    aid.extend_from_slice(rid);
    aid.extend_from_slice(pix);
    aid
}

} // verus!
