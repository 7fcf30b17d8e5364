//! Firmware images and versions.
use vstd::prelude::*;

use crate::error::Error;
use vstd::string::StringSliceAdditionalSpecFns;

use crate::hexcode::{bytes_equal, encode_lower, hex_ascii};

pub mod github;

verus! {

/// A firmware version.
#[derive(Clone, Copy, Debug, PartialEq, Eq, Structural)]
pub struct Version {
    pub major: u16,
    pub minor: u16,
    pub patch: u16,
}

/// The version that a packed 32-bit word (big endian) denotes:
/// 10 bits major, 16 bits minor, 6 bits patch.
pub open spec fn packed_version(b: Seq<u8>) -> Version {
    let v = b[0] as nat * 0x100_0000 + b[1] as nat * 0x1_0000 + b[2] as nat * 0x100 + b[3] as nat;
    Version {
        major: (v / 0x40_0000) as u16,
        minor: ((v / 0x40) % 0x1_0000) as u16,
        patch: (v % 0x40) as u16,
    }
}

impl Version {
    /// Decodes the packed form in which a device reports its version.
    pub fn from_packed(bytes: [u8; 4]) -> (r: Version)
        ensures
            r == packed_version(bytes@),
    {
        let v: u32 = bytes[0] as u32 * 0x100_0000 + bytes[1] as u32 * 0x1_0000 + bytes[2] as u32
            * 0x100 + bytes[3] as u32;
        Version {
            major: (v / 0x40_0000) as u16,
            minor: ((v / 0x40) % 0x1_0000) as u16,
            patch: (v % 0x40) as u16,
        }
    }
}

/// The SHA-256 digest of a byte string.
pub uninterp spec fn sha256_of(b: Seq<u8>) -> Seq<u8>;

/// Relies on `sha2::Sha256::digest`: the digest depends on the bytes alone.
#[verifier::external_body]
pub(crate) fn sha256(b: &[u8]) -> (r: Vec<u8>)
    ensures
        r@ == sha256_of(b@),
{
    <sha2::Sha256 as sha2::Digest>::digest(b).to_vec()
}

/// Size of the secure-binary header at the start of every image.
pub const HEADER_LEN: usize = 96;

/// A signed firmware image with the version its header declares.
#[derive(Clone, Debug, PartialEq, Eq)]
pub struct Firmware {
    content: Vec<u8>,
    version: Version,
}

impl Firmware {
    pub closed spec fn content_spec(&self) -> Seq<u8> {
        self.content@
    }

    pub closed spec fn version_spec(&self) -> Version {
        self.version
    }

    /// An image with the version parsed from its header; images shorter than
    /// the header are refused.
    pub fn new(content: Vec<u8>, version: Version) -> (r: Result<Firmware, Error>)
        ensures
            content@.len() >= HEADER_LEN ==> (r matches Ok(f) && f.content_spec() == content@
                && f.version_spec() == version),
            content@.len() < HEADER_LEN ==> r == Err::<Firmware, Error>(Error::InvalidInput),
    {
        if content.len() < HEADER_LEN {
            return Err(Error::InvalidInput);
        }
        Ok(Firmware { content, version })
    }

    /// The declared version.
    pub fn version(&self) -> (r: Version)
        ensures
            r == self.version_spec(),
    {
        self.version
    }

    /// The whole image.
    pub fn content(&self) -> (r: &Vec<u8>)
        ensures
            r@ == self.content_spec(),
    {
        &self.content
    }

    /// Size of the image in bytes.
    pub fn len(&self) -> (r: usize)
        ensures
            r == self.content_spec().len(),
    {
        self.content.len()
    }

    /// Whether the image is empty.
    pub fn is_empty(&self) -> (r: bool)
        ensures
            r == (self.content_spec().len() == 0),
    {
        self.content.len() == 0
    }

    /// Checks the image against the lower-case hex SHA-256 digest published with it.
    pub fn verify_hexhash(&self, sha256_hex_hash: &str) -> (r: Result<(), Error>)
        ensures
            r is Ok <==> hex_ascii(sha256_of(self.content_spec()), false)
                == sha256_hex_hash.spec_bytes(),
            r matches Err(e) ==> e == Error::InvalidInput,
    {
        let digest = sha256(self.content.as_slice());
        let text = encode_lower(digest.as_slice());
        if bytes_equal(text.as_slice(), sha256_hex_hash.as_bytes()) {
            Ok(())
        } else {
            Err(Error::InvalidInput)
        }
    }
}

} // verus!
