//! The public key infrastructure behind each device's identity: its
//! certificate authorities and where their certificates are published.
use vstd::prelude::*;
use vstd::string::{StringExecFns, StringSliceAdditionalSpecFns};

use crate::error::Error;
use crate::text::{to_upper, upper_of};

verus! {

/// The domain under which certificates are published.
pub const S2PKI_TLD: &'static str = "s2pki.net";

/// Certificate authorities.
#[derive(Clone, Copy, Debug, PartialEq, Eq, PartialOrd, Ord, Structural)]
pub enum Authority {
    /// The root RSA-4096 certificate authority.
    R1,
    /// The intermediate authority for Ed25519 and X25519 device certificates.
    T1,
    /// The intermediate authority for P-256 device certificates.
    T2,
    /// Firmware signing authority, US, active.
    S1,
    /// Firmware signing authority, US, backup.
    S2,
    /// Firmware signing authority, CH, active.
    S3,
    /// Firmware signing authority, CH, backup.
    S4,
    /// The FIDO intermediate authority (P-256).
    F1,
    /// FIDO batch certificate of the USB-A model with NFC.
    B1,
    /// FIDO batch certificate of the USB-C model with NFC.
    B2,
    /// FIDO batch certificate of the USB-A model.
    B3,
    /// FIDO batch certificate of the USB-C model.
    B4,
}

/// The authority's name.
pub open spec fn authority_name(a: Authority) -> Seq<char> {
    match a {
        Authority::R1 => "R1"@,
        Authority::T1 => "T1"@,
        Authority::T2 => "T2"@,
        Authority::S1 => "S1"@,
        Authority::S2 => "S2"@,
        Authority::S3 => "S3"@,
        Authority::S4 => "S4"@,
        Authority::F1 => "F1"@,
        Authority::B1 => "B1"@,
        Authority::B2 => "B2"@,
        Authority::B3 => "B3"@,
        Authority::B4 => "B4"@,
    }
}

/// The authority's name in lower case.
pub open spec fn authority_lower_name(a: Authority) -> Seq<char> {
    match a {
        Authority::R1 => "r1"@,
        Authority::T1 => "t1"@,
        Authority::T2 => "t2"@,
        Authority::S1 => "s1"@,
        Authority::S2 => "s2"@,
        Authority::S3 => "s3"@,
        Authority::S4 => "s4"@,
        Authority::F1 => "f1"@,
        Authority::B1 => "b1"@,
        Authority::B2 => "b2"@,
        Authority::B3 => "b3"@,
        Authority::B4 => "b4"@,
    }
}

/// The authority's name as ASCII bytes.
pub open spec fn authority_name_bytes(a: Authority) -> Seq<u8> {
    match a {
        Authority::R1 => seq![0x52u8, 0x31u8],
        Authority::T1 => seq![0x54u8, 0x31u8],
        Authority::T2 => seq![0x54u8, 0x32u8],
        Authority::S1 => seq![0x53u8, 0x31u8],
        Authority::S2 => seq![0x53u8, 0x32u8],
        Authority::S3 => seq![0x53u8, 0x33u8],
        Authority::S4 => seq![0x53u8, 0x34u8],
        Authority::F1 => seq![0x46u8, 0x31u8],
        Authority::B1 => seq![0x42u8, 0x31u8],
        Authority::B2 => seq![0x42u8, 0x32u8],
        Authority::B3 => seq![0x42u8, 0x33u8],
        Authority::B4 => seq![0x42u8, 0x34u8],
    }
}

impl Authority {
    /// The authority of a name, ignoring case (`r1`, `T2`, ...).
    pub fn from_name(name: &str) -> (r: Result<Authority, Error>)
        ensures
            match r {
                Ok(a) => upper_of(name.spec_bytes()) == authority_name_bytes(a),
                Err(e) => e == Error::InvalidInput && forall|a: Authority|
                    upper_of(name.spec_bytes()) != #[trigger] authority_name_bytes(a),
            },
    {
        let upper = to_upper(name);
        let ghost u = upper@;
        if upper.len() != 2 {
            assert forall|a: Authority| u != #[trigger] authority_name_bytes(a) by {
                assert(authority_name_bytes(a).len() == 2);
            }
            return Err(Error::InvalidInput);
        }
        let (c, d) = (upper[0], upper[1]);
        let found = if c == 0x52 && d == 0x31 {
            Some(Authority::R1)
        } else if c == 0x54 && d == 0x31 {
            Some(Authority::T1)
        } else if c == 0x54 && d == 0x32 {
            Some(Authority::T2)
        } else if c == 0x53 && d == 0x31 {
            Some(Authority::S1)
        } else if c == 0x53 && d == 0x32 {
            Some(Authority::S2)
        } else if c == 0x53 && d == 0x33 {
            Some(Authority::S3)
        } else if c == 0x53 && d == 0x34 {
            Some(Authority::S4)
        } else if c == 0x46 && d == 0x31 {
            Some(Authority::F1)
        } else if c == 0x42 && d == 0x31 {
            Some(Authority::B1)
        } else if c == 0x42 && d == 0x32 {
            Some(Authority::B2)
        } else if c == 0x42 && d == 0x33 {
            Some(Authority::B3)
        } else if c == 0x42 && d == 0x34 {
            Some(Authority::B4)
        } else {
            None
        };
        match found {
            Some(a) => {
                assert(u =~= authority_name_bytes(a));
                Ok(a)
            },
            None => {
                assert forall|a: Authority| u != #[trigger] authority_name_bytes(a) by {
                    if u == authority_name_bytes(a) {
                        assert(u[0] == authority_name_bytes(a)[0]);
                        assert(u[1] == authority_name_bytes(a)[1]);
                    }
                }
                Err(Error::InvalidInput)
            },
        }
    }

    fn name_str(&self) -> (r: &'static str)
        ensures
            r@ == authority_name(*self),
    {
        match self {
            Authority::R1 => "R1",
            Authority::T1 => "T1",
            Authority::T2 => "T2",
            Authority::S1 => "S1",
            Authority::S2 => "S2",
            Authority::S3 => "S3",
            Authority::S4 => "S4",
            Authority::F1 => "F1",
            Authority::B1 => "B1",
            Authority::B2 => "B2",
            Authority::B3 => "B3",
            Authority::B4 => "B4",
        }
    }

    fn lower_name_str(&self) -> (r: &'static str)
        ensures
            r@ == authority_lower_name(*self),
    {
        match self {
            Authority::R1 => "r1",
            Authority::T1 => "t1",
            Authority::T2 => "t2",
            Authority::S1 => "s1",
            Authority::S2 => "s2",
            Authority::S3 => "s3",
            Authority::S4 => "s4",
            Authority::F1 => "f1",
            Authority::B1 => "b1",
            Authority::B2 => "b2",
            Authority::B3 => "b3",
            Authority::B4 => "b4",
        }
    }

    /// The authority's name, such as `R1`.
    pub fn name(&self) -> (r: String)
        ensures
            r@ == authority_name(*self),
    {
        String::from_str(self.name_str())
    }
}

/// Where an authority's DER certificate is published: `http://i.s2pki.net/{lower-case name}/`.
pub fn authority_information_access(authority: Authority) -> (r: String)
    ensures
        r@ == "http://i."@ + S2PKI_TLD@ + "/"@ + authority_lower_name(authority) + "/"@,
{
    let mut url = String::from_str("http://i.");
    url.append(S2PKI_TLD);
    url.append("/");
    url.append(authority.lower_name_str());
    url.append("/");
    url
}

/// Whether bytes parse as a DER X.509 certificate.
pub uninterp spec fn is_der_certificate(der: Seq<u8>) -> bool;

/// Relies on `x509_parser`'s `X509Certificate::from_der`: whether the bytes
/// parse (trailing bytes allowed); the answer depends on the bytes alone.
#[verifier::external_body]
fn parses_as_certificate(der: &[u8]) -> (r: bool)
    ensures
        r == is_der_certificate(der@),
{
    <x509_parser::certificate::X509Certificate as x509_parser::prelude::FromDer<
        x509_parser::error::X509Error,
    >>::from_der(der).is_ok()
}

/// An owned DER certificate.
#[derive(Clone, Debug)]
pub struct Certificate {
    der: Vec<u8>,
}

impl Certificate {
    pub closed spec fn der_spec(&self) -> Seq<u8> {
        self.der@
    }

    /// Keeps the bytes if they parse as a certificate.
    pub fn try_from_der(der: &[u8]) -> (r: Result<Certificate, Error>)
        ensures
            is_der_certificate(der@) ==> (r matches Ok(c) && c.der_spec() == der@),
            !is_der_certificate(der@) ==> r == Err::<Certificate, Error>(Error::InvalidInput),
    {
        if parses_as_certificate(der) {
            let mut v: Vec<u8> = Vec::new();
            v.extend_from_slice(der);
            Ok(Certificate { der: v })
        } else {
            Err(Error::InvalidInput)
        }
    }

    /// The DER bytes.
    pub fn der(&self) -> (r: &[u8])
        ensures
            r@ == self.der_spec(),
    {
        self.der.as_slice()
    }
}

} // verus!
