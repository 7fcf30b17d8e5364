//! The one-time-password (OATH) application: credentials and their encoding.
use vstd::prelude::*;
use vstd::string::{StrSliceExecFns, StringExecFns, StringSliceAdditionalSpecFns};
use vstd::utf8::{encode_utf8, valid_utf8};

use crate::apps::{concat_aid, Pix, Rid, Select};
use crate::error::Error;
use crate::firmware::{sha256, sha256_of};
use crate::text::{decimal, decimal_text, to_upper, upper_of, utf8_text};
use crate::transport::{called, iso_called, last_reply, outcome, Exchange, Transport};

verus! {

/// Counter-based credentials.
#[derive(Clone, Copy, Debug, PartialEq, Eq, Structural)]
pub struct Hotp {
    pub initial_counter: u32,
}

/// Time-based credentials.
#[derive(Clone, Copy, Debug, PartialEq, Eq, Structural)]
pub struct Totp {
    pub period: u32,
}

/// The usual period of time-based credentials, in seconds.
pub const DEFAULT_PERIOD: u32 = 30;

impl Default for Totp {
    fn default() -> (r: Totp)
        ensures
            r.period == DEFAULT_PERIOD,
    {
        Totp { period: DEFAULT_PERIOD }
    }
}

/// The kind of a credential.
#[derive(Clone, Copy, Debug, PartialEq, Eq, Structural)]
pub enum Kind {
    Hotp(Hotp),
    Totp(Totp),
}

/// The byte of a credential kind.
pub open spec fn kind_byte(k: Kind) -> u8 {
    match k {
        Kind::Hotp(_) => 0x1,
        Kind::Totp(_) => 0x2,
    }
}

/// The hash algorithm of a credential.
#[derive(Clone, Copy, Debug, PartialEq, Eq, Structural)]
pub enum Digest {
    Sha1,
    Sha256,
}

/// The byte of a hash algorithm.
pub open spec fn digest_byte(d: Digest) -> u8 {
    match d {
        Digest::Sha1 => 0x1,
        Digest::Sha256 => 0x2,
    }
}

impl Default for Digest {
    fn default() -> (r: Digest)
        ensures
            r == Digest::Sha1,
    {
        Digest::Sha1
    }
}

impl Digest {
    /// The algorithm of a name, ignoring case: `SHA1` or `SHA256`.
    pub fn from_name(name: &str) -> (r: Result<Digest, Error>)
        ensures
            upper_of(name.spec_bytes()) == seq![0x53u8, 0x48u8, 0x41u8, 0x31u8] ==> r == Ok::<
                Digest,
                Error,
            >(Digest::Sha1),
            upper_of(name.spec_bytes()) == seq![0x53u8, 0x48u8, 0x41u8, 0x32u8, 0x35u8, 0x36u8]
                ==> r == Ok::<Digest, Error>(Digest::Sha256),
            upper_of(name.spec_bytes()) != seq![0x53u8, 0x48u8, 0x41u8, 0x31u8] && upper_of(
                name.spec_bytes(),
            ) != seq![0x53u8, 0x48u8, 0x41u8, 0x32u8, 0x35u8, 0x36u8] ==> r == Err::<
                Digest,
                Error,
            >(Error::InvalidInput),
    {
        let upper = to_upper(name);
        let sha1: [u8; 4] = [0x53, 0x48, 0x41, 0x31];
        let sha256: [u8; 6] = [0x53, 0x48, 0x41, 0x32, 0x35, 0x36];
        if crate::hexcode::bytes_equal(upper.as_slice(), &sha1) {
            assert(sha1@ =~= seq![0x53u8, 0x48u8, 0x41u8, 0x31u8]);
            Ok(Digest::Sha1)
        } else if crate::hexcode::bytes_equal(upper.as_slice(), &sha256) {
            assert(sha256@ =~= seq![0x53u8, 0x48u8, 0x41u8, 0x32u8, 0x35u8, 0x36u8]);
            Ok(Digest::Sha256)
        } else {
            assert(sha1@ =~= seq![0x53u8, 0x48u8, 0x41u8, 0x31u8]);
            assert(sha256@ =~= seq![0x53u8, 0x48u8, 0x41u8, 0x32u8, 0x35u8, 0x36u8]);
            Err(Error::InvalidInput)
        }
    }
}

/// The bytes that base32 text (RFC 4648 alphabet, with padding) denotes.
pub uninterp spec fn base32_decoded(text: Seq<u8>) -> Option<Seq<u8>>;

/// Relies on `data_encoding::BASE32.decode`: the result depends on the text alone.
#[verifier::external_body]
fn decode_base32(text: &[u8]) -> (r: Option<Vec<u8>>)
    ensures
        match base32_decoded(text@) {
            Some(d) => r matches Some(v) && v@ == d,
            None => r is None,
        },
{
    data_encoding::BASE32.decode(text).ok()
}

/// The SHA-1 digest of a byte string.
pub uninterp spec fn sha1_of(b: Seq<u8>) -> Seq<u8>;

/// Relies on `sha1::Sha1::digest`: the digest depends on the bytes alone.
#[verifier::external_body]
fn sha1(b: &[u8]) -> (r: Vec<u8>)
    ensures
        r@ == sha1_of(b@),
{
    <sha1::Sha1 as sha1::Digest>::digest(b).to_vec()
}

/// The block size of both digests; longer HMAC keys are first hashed.
pub const BLOCK_SIZE: usize = 64;

/// The shortest secret sent to the device; shorter ones are padded with zeros.
pub const MINIMUM_SIZE: usize = 14;

/// A key longer than a block, replaced by its digest (which HMAC would do anyway).
pub open spec fn shortened(key: Seq<u8>, digest: Digest) -> Seq<u8> {
    if key.len() > BLOCK_SIZE {
        match digest {
            Digest::Sha1 => sha1_of(key),
            Digest::Sha256 => sha256_of(key),
        }
    } else {
        key
    }
}

/// A key padded with zeros to at least the minimum size.
pub open spec fn padded(key: Seq<u8>) -> Seq<u8> {
    if key.len() < MINIMUM_SIZE {
        key + Seq::new((MINIMUM_SIZE - key.len()) as nat, |i: int| 0u8)
    } else {
        key
    }
}

/// A shared secret.
#[derive(Clone, Debug, PartialEq, Eq)]
pub struct Secret(Vec<u8>);

impl Secret {
    pub closed spec fn bytes_spec(&self) -> Seq<u8> {
        self.0@
    }

    /// The secret's bytes.
    pub fn as_bytes(&self) -> (r: &[u8])
        ensures
            r@ == self.bytes_spec(),
    {
        self.0.as_slice()
    }

    /// Decodes a base32 secret for use with `digest`: keys longer than a block
    /// are replaced by their digest, and short ones padded with zeros to 14 bytes.
    pub fn from_base32(encoded: &str, digest: Digest) -> (r: Result<Secret, Error>)
        ensures
            match base32_decoded(encoded.spec_bytes()) {
                Some(key) => r matches Ok(s) && s.bytes_spec() == padded(shortened(key, digest)),
                None => r == Err::<Secret, Error>(Error::InvalidInput),
            },
    {
        Secret::from_base32_bytes(encoded.as_bytes(), digest)
    }

    fn from_base32_bytes(encoded: &[u8], digest: Digest) -> (r: Result<Secret, Error>)
        ensures
            match base32_decoded(encoded@) {
                Some(key) => r matches Ok(s) && s.bytes_spec() == padded(shortened(key, digest)),
                None => r == Err::<Secret, Error>(Error::InvalidInput),
            },
    {
        let key = match decode_base32(encoded) {
            Some(key) => key,
            None => return Err(Error::InvalidInput),
        };
        let mut key = if key.len() > BLOCK_SIZE {
            match digest {
                Digest::Sha1 => sha1(key.as_slice()),
                Digest::Sha256 => sha256(key.as_slice()),
            }
        } else {
            key
        };
        let ghost short = key@;
        while key.len() < MINIMUM_SIZE
            invariant
                key@ =~= short + Seq::new((key@.len() - short.len()) as nat, |i: int| 0u8),
                key@.len() >= short.len(),
                key@.len() > MINIMUM_SIZE ==> key@ == short,
            decreases MINIMUM_SIZE - key@.len(),
        {
            key.push(0);
        }
        assert(padded(short) =~= key@);
        Ok(Secret(key))
    }
}

/// A credential to register.
#[derive(Clone, Debug, PartialEq, Eq)]
pub struct Credential {
    pub label: String,
    pub issuer: Option<String>,
    pub secret: Secret,
    pub kind: Kind,
    pub algorithm: Digest,
    pub digits: u8,
}

/// A credential's identifier on the device: `period/` for a time-based
/// credential with a period other than 30 s, then `issuer:` if there is an
/// issuer, then the label.
pub open spec fn credential_id(kind: Kind, issuer: Option<Seq<char>>, label: Seq<char>) -> Seq<char> {
    let period = match kind {
        Kind::Totp(t) => if t.period != DEFAULT_PERIOD {
            decimal(t.period as nat) + "/"@
        } else {
            Seq::empty()
        },
        Kind::Hotp(_) => Seq::empty(),
    };
    let issuer = match issuer {
        Some(i) => i + ":"@,
        None => Seq::empty(),
    };
    period + issuer + label
}

impl Credential {
    /// A time-based SHA-1 credential with six digits and the usual period,
    /// from a base32 secret (of either case).
    pub fn default_totp(label: &str, secret32: &str) -> (r: Result<Credential, Error>)
        ensures
            match base32_decoded(upper_of(secret32.spec_bytes())) {
                Some(key) => r matches Ok(c) && c.label@ == label@ && c.issuer is None
                    && c.secret.bytes_spec() == padded(shortened(key, Digest::Sha1)) && c.kind
                    == Kind::Totp(Totp { period: DEFAULT_PERIOD }) && c.algorithm == Digest::Sha1
                    && c.digits == 6,
                None => r == Err::<Credential, Error>(Error::InvalidInput),
            },
    {
        let upper = to_upper(secret32);
        let secret = Secret::from_base32_bytes(upper.as_slice(), Digest::Sha1)?;
        Ok(
            Credential {
                label: String::from_str(label),
                issuer: None,
                secret,
                kind: Kind::Totp(Totp { period: DEFAULT_PERIOD }),
                algorithm: Digest::Sha1,
                digits: 6,
            },
        )
    }

    /// The credential's identifier on the device.
    pub fn id(&self) -> (r: String)
        ensures
            r@ == credential_id(
                self.kind,
                match self.issuer {
                    Some(i) => Some(i@),
                    None => None,
                },
                self.label@,
            ),
    {
        let mut id = String::from_str("");
        if let Kind::Totp(totp) = self.kind {
            if totp.period != DEFAULT_PERIOD {
                let period = decimal_text(totp.period);
                id.append(period.as_str());
                id.append("/");
            }
        }
        if let Some(issuer) = &self.issuer {
            id.append(issuer.as_str());
            id.append(":");
        }
        id.append(self.label.as_str());
        proof {
            reveal_strlit("");
        }
        assert(id@ =~= credential_id(
            self.kind,
            match self.issuer {
                Some(i) => Some(i@),
                None => None,
            },
            self.label@,
        ));
        id
    }

    /// The key record sent to the device: kind and algorithm in one byte,
    /// the number of digits, then the secret.
    pub fn key(&self) -> (r: Vec<u8>)
        ensures
            r@ == seq![
                (kind_byte(self.kind) * 16 + digest_byte(self.algorithm)) as u8,
                self.digits,
            ] + self.secret.bytes_spec(),
    {
        let kind: u8 = match self.kind {
            Kind::Hotp(_) => 0x1,
            Kind::Totp(_) => 0x2,
        };
        let algorithm: u8 = match self.algorithm {
            Digest::Sha1 => 0x1,
            Digest::Sha256 => 0x2,
        };
        let mut key: Vec<u8> = Vec::new();
        key.push(kind * 16 + algorithm);
        key.push(self.digits);
        key.extend_from_slice(self.secret.as_bytes());
        key
    }
}

/// A request for a one-time password.
pub struct Authenticate {
    pub label: String,
    pub timestamp: u64,
}

/// Relies on `SystemTime::now` measured from the Unix epoch in whole seconds;
/// nothing is known of the value, and a clock before the epoch gives `None`.
#[verifier::external_body]
fn unix_time_now() -> (r: Option<u64>) {
    match std::time::SystemTime::now().duration_since(std::time::UNIX_EPOCH) {
        Ok(d) => Some(d.as_secs()),
        Err(_) => None,
    }
}

impl Authenticate {
    /// A request for the credential with `label`, at the current time.
    /// Fails only if the system clock reads before the Unix epoch.
    pub fn with_label(label: &str) -> (r: Option<Authenticate>)
        ensures
            r matches Some(a) ==> a.label@ == label@,
    {
        match unix_time_now() {
            Some(timestamp) => Some(Authenticate { label: String::from_str(label), timestamp }),
            None => None,
        }
    }
}

/// Commands of the application.
pub enum Command {
    Register(Credential),
    Authenticate(Authenticate),
    Delete(String),
    List,
    Reset,
}

/// Tags of the application's TLV records.
#[derive(Clone, Copy, Debug, PartialEq, Eq, Structural)]
pub enum Tag {
    CredentialId,
    NameList,
    Key,
    Challenge,
    InitialCounter,
}

/// The byte of a record tag.
pub open spec fn tag_byte(t: Tag) -> u8 {
    match t {
        Tag::CredentialId => 0x71,
        Tag::NameList => 0x72,
        Tag::Key => 0x73,
        Tag::Challenge => 0x74,
        Tag::InitialCounter => 0x7A,
    }
}

impl Tag {
    /// The tag's byte.
    pub fn to_byte(&self) -> (r: u8)
        ensures
            r == tag_byte(*self),
    {
        match self {
            Tag::CredentialId => 0x71,
            Tag::NameList => 0x72,
            Tag::Key => 0x73,
            Tag::Challenge => 0x74,
            Tag::InitialCounter => 0x7A,
        }
    }

    /// The tag of a byte; unknown bytes are refused.
    pub fn try_from_byte(byte: u8) -> (r: Result<Tag, Error>)
        ensures
            r matches Ok(t) ==> tag_byte(t) == byte,
            r is Err <==> !(byte == 0x71 || byte == 0x72 || byte == 0x73 || byte == 0x74 || byte
                == 0x7A),
    {
        if byte == 0x71 {
            Ok(Tag::CredentialId)
        } else if byte == 0x72 {
            Ok(Tag::NameList)
        } else if byte == 0x73 {
            Ok(Tag::Key)
        } else if byte == 0x74 {
            Ok(Tag::Challenge)
        } else if byte == 0x7A {
            Ok(Tag::InitialCounter)
        } else {
            Err(Error::InvalidInput)
        }
    }
}

/// Instructions of the application.
#[derive(Clone, Copy, Debug, PartialEq, Eq, Structural)]
pub enum Instruction {
    Put,
    Delete,
    Reset,
    List,
    Calculate,
}

/// The byte of an instruction.
pub open spec fn instruction_byte(i: Instruction) -> u8 {
    match i {
        Instruction::Put => 0x1,
        Instruction::Delete => 0x2,
        Instruction::Reset => 0x4,
        Instruction::List => 0xA1,
        Instruction::Calculate => 0xA2,
    }
}

impl Instruction {
    /// The instruction's byte.
    pub fn to_byte(&self) -> (r: u8)
        ensures
            r == instruction_byte(*self),
    {
        match self {
            Instruction::Put => 0x1,
            Instruction::Delete => 0x2,
            Instruction::Reset => 0x4,
            Instruction::List => 0xA1,
            Instruction::Calculate => 0xA2,
        }
    }
}

/// The BER length field of a value of `l` bytes.
pub open spec fn ber_length(l: nat) -> Seq<u8> {
    if l <= 0x7F {
        seq![l as u8]
    } else if l <= 0xFF {
        seq![0x81u8, l as u8]
    } else {
        seq![0x82u8, (l / 256) as u8, (l % 256) as u8]
    }
}

/// A tag-length-value record with a one-byte tag, when one can be made:
/// the tag is neither 0 nor 0xFF and the whole record fits in 65535 bytes.
pub open spec fn tlv_spec(tag: u8, value: Seq<u8>) -> Option<Seq<u8>> {
    if tag == 0 || tag == 0xFF || value.len() + 1 + ber_length(value.len()).len() > 0xFFFF {
        None
    } else {
        Some(seq![tag] + ber_length(value.len()) + value)
    }
}

/// Relies on `flexiber::TaggedSlice::from` with a `SimpleTag` and `Encodable::to_vec`:
/// the tag byte, the BER length and the value; no record for tags 0 and 0xFF
/// or beyond 65535 bytes in all.
#[verifier::external_body]
fn tlv(tag: u8, value: &[u8]) -> (r: Option<Vec<u8>>)
    ensures
        match tlv_spec(tag, value@) {
            Some(t) => r matches Some(v) && v@ == t,
            None => r is None,
        },
{
    let tag = <flexiber::SimpleTag as core::convert::TryFrom<u8>>::try_from(tag).ok()?;
    let record = flexiber::TaggedSlice::from(tag, value).ok()?;
    flexiber::Encodable::to_vec(&record).ok()
}

/// Appends a record to `buf`, or fails with [`Error::InvalidInput`].
fn push_tlv(buf: &mut Vec<u8>, tag: u8, value: &[u8]) -> (r: Result<(), Error>)
    ensures
        match tlv_spec(tag, value@) {
            Some(t) => r is Ok && final(buf)@ == old(buf)@ + t,
            None => r == Err::<(), Error>(Error::InvalidInput),
        },
{
    match tlv(tag, value) {
        Some(record) => {
            buf.extend_from_slice(record.as_slice());
            Ok(())
        },
        None => Err(Error::InvalidInput),
    }
}

/// The big-endian bytes of a 32-bit number.
pub open spec fn be32(n: u32) -> Seq<u8> {
    seq![
        (n / 0x100_0000) as u8,
        ((n / 0x1_0000) % 0x100) as u8,
        ((n / 0x100) % 0x100) as u8,
        (n % 0x100) as u8,
    ]
}

fn be32_bytes(n: u32) -> (r: [u8; 4])
    ensures
        r@ == be32(n),
{
    let r = [(n / 0x100_0000) as u8, ((n / 0x1_0000) % 0x100) as u8, ((n / 0x100) % 0x100) as u8, (n % 0x100) as u8];
    assert(r@ =~= be32(n));
    r
}

/// The big-endian bytes of a 64-bit number.
pub open spec fn be64(n: u64) -> Seq<u8> {
    be32((n / 0x1_0000_0000) as u32) + be32((n % 0x1_0000_0000) as u32)
}

fn be64_bytes(n: u64) -> (r: Vec<u8>)
    ensures
        r@ == be64(n),
{
    let high = be32_bytes((n / 0x1_0000_0000) as u32);
    let low = be32_bytes((n % 0x1_0000_0000) as u32);
    let mut r: Vec<u8> = Vec::new();
    r.extend_from_slice(&high);
    r.extend_from_slice(&low);
    r
}

/// The key record of a credential (see [`Credential::key`]).
pub open spec fn key_spec(c: Credential) -> Seq<u8> {
    seq![(kind_byte(c.kind) * 16 + digest_byte(c.algorithm)) as u8, c.digits] + c.secret.bytes_spec()
}

/// The data of a registration: the identifier, the key and, for counter-based
/// credentials, the initial counter, each as a record.
pub open spec fn register_data(id: Seq<u8>, key: Seq<u8>, kind: Kind) -> Option<Seq<u8>> {
    match (tlv_spec(0x71, id), tlv_spec(0x73, key)) {
        (Some(a), Some(b)) => match kind {
            Kind::Hotp(h) => match tlv_spec(0x7A, be32(h.initial_counter)) {
                Some(c) => Some(a + b + c),
                None => None,
            },
            Kind::Totp(_) => Some(a + b),
        },
        _ => None,
    }
}

/// The challenge for a time: the number of 30-second periods since the epoch.
pub open spec fn challenge(timestamp: u64) -> u64 {
    (timestamp / DEFAULT_PERIOD as u64) as u64
}

/// The data of a calculation: the identifier and the challenge, each as a record.
pub open spec fn calculate_data(id: Seq<u8>, timestamp: u64) -> Option<Seq<u8>> {
    match (tlv_spec(0x71, id), tlv_spec(0x74, be64(challenge(timestamp)))) {
        (Some(a), Some(b)) => Some(a + b),
        _ => None,
    }
}

/// Builds the data of a registration.
pub fn register_payload(credential: &Credential) -> (r: Result<Vec<u8>, Error>)
    ensures
        match register_data(
            encode_utf8(credential_id(credential.kind, match credential.issuer {
                Some(i) => Some(i@),
                None => None,
            }, credential.label@)),
            key_spec(*credential),
            credential.kind,
        ) {
            Some(d) => r matches Ok(v) && v@ == d,
            None => r == Err::<Vec<u8>, Error>(Error::InvalidInput),
        },
{
    let id = credential.id();
    let key = credential.key();
    let mut data: Vec<u8> = Vec::new();
    push_tlv(&mut data, Tag::CredentialId.to_byte(), id.as_str().as_bytes())?;
    push_tlv(&mut data, Tag::Key.to_byte(), key.as_slice())?;
    if let Kind::Hotp(hotp) = credential.kind {
        let counter = be32_bytes(hotp.initial_counter);
        push_tlv(&mut data, Tag::InitialCounter.to_byte(), &counter)?;
    }
    Ok(data)
}

/// Builds the data of a calculation.
pub fn calculate_payload(label: &str, timestamp: u64) -> (r: Result<Vec<u8>, Error>)
    ensures
        match calculate_data(label.spec_bytes(), timestamp) {
            Some(d) => r matches Ok(v) && v@ == d,
            None => r == Err::<Vec<u8>, Error>(Error::InvalidInput),
        },
{
    let mut data: Vec<u8> = Vec::new();
    push_tlv(&mut data, Tag::CredentialId.to_byte(), label.as_bytes())?;
    let challenge = be64_bytes(timestamp / DEFAULT_PERIOD as u64);
    push_tlv(&mut data, Tag::Challenge.to_byte(), challenge.as_slice())?;
    Ok(data)
}

/// Ten to the power `n`.
pub open spec fn pow10(n: nat) -> nat
    decreases n,
{
    if n == 0 {
        1
    } else {
        10 * pow10((n - 1) as nat)
    }
}

/// `n` in decimal, padded with leading zeros to `width` digits.
pub open spec fn zero_padded(n: nat, width: nat) -> Seq<char> {
    if decimal(n).len() >= width {
        decimal(n)
    } else {
        Seq::new((width - decimal(n).len()) as nat, |i: int| '0') + decimal(n)
    }
}

/// The one-time password in a calculation response: seven bytes, a
/// truncated-response record (0x76, length 5) with the number of digits
/// (at most 9) and four bytes of code, shown zero-padded to that many digits.
pub open spec fn code_meaning(resp: Seq<u8>, r: Result<String, Error>) -> bool {
    if resp.len() != 7 || resp[0] != 0x76 || resp[1] != 5 {
        r == Err::<String, Error>(Error::Protocol(crate::error::ProtocolError::UnexpectedLength))
    } else if resp[2] > 9 {
        r == Err::<String, Error>(Error::InvalidInput)
    } else {
        let truncated = (resp[3] as nat * 0x100_0000 + resp[4] as nat * 0x1_0000 + resp[5] as nat * 0x100 + resp[6] as nat) % 0x8000_0000;
        r matches Ok(s) && s@ == zero_padded(truncated % pow10(resp[2] as nat), resp[2] as nat)
    }
}

/// Decodes the one-time password in a calculation response.
pub fn code_from_response(response: &[u8]) -> (r: Result<String, Error>)
    ensures
        code_meaning(response@, r),
{
    if response.len() != 7 || response[0] != 0x76 || response[1] != 5 {
        return Err(Error::Protocol(crate::error::ProtocolError::UnexpectedLength));
    }
    let digits = response[2];
    if digits > 9 {
        return Err(Error::InvalidInput);
    }
    let truncated: u32 = (response[3] as u32 % 0x80) * 0x100_0000 + response[4] as u32 * 0x1_0000
        + response[5] as u32 * 0x100 + response[6] as u32;
    let mut modulus: u32 = 1;
    let mut i: u8 = 0;
    while i < digits
        invariant
            i <= digits <= 9,
            modulus as nat == pow10(i as nat),
            1 <= modulus <= 1_000_000_000,
        decreases digits - i,
    {
        assert(pow10(i as nat) <= 100_000_000) by {
            lemma_pow10_bound(i as nat, 8);
            lemma_pow10_8();
        }
        modulus = modulus * 10;
        i = i + 1;
    }
    let code = truncated % modulus;
    let text = decimal_text(code);
    let len = text.as_str().unicode_len();
    let mut padded = String::from_str("");
    proof {
        reveal_strlit("");
        reveal_strlit("0");
    }
    let mut count: usize = 0;
    while count + len < digits as usize
        invariant
            padded@ == Seq::new(count as nat, |k: int| '0'),
            len == decimal(code as nat).len(),
            count + len <= digits as usize || count == 0,
        decreases digits as usize - count,
    {
        proof {
            reveal_strlit("0");
        }
        padded.append("0");
        count = count + 1;
        assert(padded@ =~= Seq::new(count as nat, |k: int| '0'));
    }
    padded.append(text.as_str());
    proof {
        let t = (response@[3] as nat * 0x100_0000 + response@[4] as nat * 0x1_0000 + response@[5] as nat * 0x100 + response@[6] as nat) % 0x8000_0000;
        assert(truncated as nat == t) by (nonlinear_arith)
            requires
                truncated as nat == (response@[3] as nat % 0x80) * 0x100_0000 + response@[4] as nat * 0x1_0000 + response@[5] as nat * 0x100 + response@[6] as nat,
                response@[3] < 256, response@[4] < 256, response@[5] < 256, response@[6] < 256,
                t == (response@[3] as nat * 0x100_0000 + response@[4] as nat * 0x1_0000 + response@[5] as nat * 0x100 + response@[6] as nat) % 0x8000_0000,
        ;
        assert(padded@ =~= zero_padded(code as nat, digits as nat));
    }
    Ok(padded)
}

proof fn lemma_pow10_bound(i: nat, n: nat)
    requires
        i <= n,
    ensures
        pow10(i) <= pow10(n),
    decreases n - i,
{
    if i < n {
        lemma_pow10_bound(i, (n - 1) as nat);
    }
}

proof fn lemma_pow10_8()
    ensures
        pow10(8) == 100_000_000,
{
    reveal_with_fuel(pow10, 9);
}

/// One record of a list response: the value's start and length after the
/// header at the front of `resp`, if the header is well formed.
pub open spec fn record_bounds(resp: Seq<u8>) -> Option<(nat, nat)> {
    if resp.len() < 2 {
        None
    } else if resp[1] < 0x80 {
        Some((2, resp[1] as nat))
    } else if resp[1] == 0x81 && resp.len() >= 3 {
        Some((3, resp[2] as nat))
    } else if resp[1] == 0x82 && resp.len() >= 4 {
        Some((4, resp[2] as nat * 256 + resp[3] as nat))
    } else {
        None
    }
}

/// The credential identifiers in a list response: a sequence of name-list
/// records (tag 0x72), each a kind byte followed by the identifier.
pub open spec fn name_list(resp: Seq<u8>) -> Option<Seq<Seq<u8>>>
    decreases resp.len(),
{
    if resp.len() == 0 {
        Some(Seq::empty())
    } else if resp[0] != 0x72 {
        None
    } else {
        match record_bounds(resp) {
            Some((start, len)) => if len == 0 || start + len > resp.len() {
                None
            } else {
                match name_list(resp.subrange((start + len) as int, resp.len() as int)) {
                    Some(rest) => Some(seq![resp.subrange(start as int + 1, (start + len) as int)] + rest),
                    None => None,
                }
            },
            None => None,
        }
    }
}

/// Whether every byte string is valid UTF-8.
pub open spec fn all_valid_utf8(names: Seq<Seq<u8>>) -> bool {
    forall|k: int| 0 <= k < names.len() ==> valid_utf8(#[trigger] names[k])
}

/// What a list response means: the identifiers it names, as text, or
/// [`Error::InvalidInput`] for a malformed response or an identifier that is
/// not UTF-8.
pub open spec fn names_meaning(resp: Seq<u8>, r: Result<Vec<String>, Error>) -> bool {
    match name_list(resp) {
        Some(names) => if all_valid_utf8(names) {
            r matches Ok(v) && v@.len() == names.len() && forall|k: int|
                0 <= k < names.len() ==> encode_utf8((#[trigger] v@[k])@) == names[k]
        } else {
            r == Err::<Vec<String>, Error>(Error::InvalidInput)
        },
        None => r == Err::<Vec<String>, Error>(Error::InvalidInput),
    }
}

/// Decodes a list response into the credential identifiers it names.
pub fn names_from_response(response: &[u8]) -> (r: Result<Vec<String>, Error>)
    ensures
        names_meaning(response@, r),
{
    let mut names: Vec<String> = Vec::new();
    let mut pos: usize = 0;
    let ghost all = response@;
    assert(all.subrange(0, all.len() as int) =~= all);
    assert(names@.map_values(|s: String| encode_utf8(s@)) =~= Seq::<Seq<u8>>::empty());
    proof {
        match name_list(all) {
            Some(l) => {
                assert(Seq::<Seq<u8>>::empty() + l =~= l);
            },
            None => {},
        }
    }
    while pos < response.len()
        invariant
            pos <= all.len(),
            all == response@,
            name_list(all) == match name_list(all.subrange(pos as int, all.len() as int)) {
                Some(rest) => Some(names@.map_values(|s: String| encode_utf8(s@)) + rest),
                None => None,
            },
            forall|k: int| 0 <= k < names@.len() ==> valid_utf8(encode_utf8((#[trigger] names@[k])@)),
        decreases all.len() - pos,
    {
        let ghost rest = all.subrange(pos as int, all.len() as int);
        let remaining = response.len() - pos;
        if response[pos] != 0x72 || remaining < 2 {
            proof { assert(name_list(rest) is None); }
            return Err(Error::InvalidInput);
        }
        let b = response[pos + 1];
        let (start, len): (usize, usize) = if b < 0x80 {
            (2, b as usize)
        } else if b == 0x81 && remaining >= 3 {
            (3, response[pos + 2] as usize)
        } else if b == 0x82 && remaining >= 4 {
            (4, response[pos + 2] as usize * 256 + response[pos + 3] as usize)
        } else {
            proof { assert(name_list(rest) is None); }
            return Err(Error::InvalidInput);
        };
        assert(record_bounds(rest) == Some((start as nat, len as nat)));
        if len == 0 || start + len > remaining {
            return Err(Error::InvalidInput);
        }
        let mut entry: Vec<u8> = Vec::new();
        let end = pos + start + len;
        let mut k: usize = pos + start + 1;
        while k < end
            invariant
                pos + start + 1 <= k <= end <= response@.len(),
                end == pos + start + len,
                entry@ == response@.subrange(pos + start + 1, k as int),
            decreases end - k,
        {
            entry.push(response[k]);
            k = k + 1;
            assert(entry@ =~= response@.subrange(pos + start + 1, k as int));
        }
        let ghost entry_bytes = entry@;
        assert(entry_bytes =~= rest.subrange(start as int + 1, (start + len) as int));
        let ghost next = all.subrange((pos + start + len) as int, all.len() as int);
        assert(rest.subrange((start + len) as int, rest.len() as int) =~= next);
        match utf8_text(entry) {
            Some(text) => {
                let ghost before = names@;
                names.push(text);
                proof {
                    assert(names@.map_values(|s: String| encode_utf8(s@)) =~= before.map_values(|s: String| encode_utf8(s@)).push(entry_bytes));
                    match name_list(next) {
                        Some(tail) => {
                            assert(before.map_values(|s: String| encode_utf8(s@)) + (seq![entry_bytes] + tail) =~= names@.map_values(|s: String| encode_utf8(s@)) + tail);
                        },
                        None => {},
                    }
                }
            },
            None => {
                proof {
                    match name_list(next) {
                        Some(tail) => {
                            let full = names@.map_values(|s: String| encode_utf8(s@)) + (seq![entry_bytes] + tail);
                            assert(name_list(rest) == Some(seq![entry_bytes] + tail));
                            assert(name_list(all) == Some(full));
                            assert(full[names@.len() as int] == entry_bytes);
                            assert(!all_valid_utf8(full));
                        },
                        None => {
                            assert(name_list(rest) is None);
                        },
                    }
                }
                return Err(Error::InvalidInput);
            },
        }
        pos = pos + start + len;
    }
    proof {
        assert(all.subrange(pos as int, all.len() as int) =~= Seq::<u8>::empty());
        let names_bytes = names@.map_values(|s: String| encode_utf8(s@));
        assert(names_bytes + Seq::<Seq<u8>>::empty() =~= names_bytes);
    }
    Ok(names)
}

/// The OATH application over a transport.
pub struct App<T> {
    transport: T,
}

impl<T> Select for App<T> {
    open spec fn aid_spec() -> Seq<u8> {
        seq![0xA0u8, 0x00u8, 0x00u8, 0x05u8, 0x27u8, 0x21u8, 0x01u8]
    }

    fn application_id() -> (r: Vec<u8>) {
        let r = concat_aid(&Rid::YUBICO, &Pix::OATH);
        assert(r@ =~= Self::aid_spec());
        r
    }
}

/// A credential's identifier on the device (see [`credential_id`]).
pub open spec fn credential_id_of(c: Credential) -> Seq<char> {
    credential_id(
        c.kind,
        match c.issuer {
            Some(i) => Some(i@),
            None => None,
        },
        c.label@,
    )
}

impl<T: Transport> App<T> {
    /// The transport the application runs on.
    pub closed spec fn transport_spec(&self) -> T {
        self.transport
    }

    /// Selects the application on the transport: a SELECT of its identifier.
    pub fn select(transport: T) -> (r: Result<App<T>, Error>)
        ensures
            r matches Ok(app) ==> app.transport_spec().log() == transport.log().push(
                Exchange::Select(Self::aid_spec(), Ok(())),
            ),
    {
        let mut transport = transport;
        let aid = <App<T> as Select>::application_id();
        let selected = transport.select(aid);
        match selected {
            Ok(u) => {
                assert(selected == Ok::<(), Error>(()));
                let app = App { transport };
                assert(app.transport_spec() == transport);
                Ok(app)
            },
            Err(e) => Err(e),
        }
    }

    /// Gives the transport back.
    pub fn into_inner(self) -> (r: T)
        ensures
            r == self.transport_spec(),
    {
        self.transport
    }

    /// Registers a credential (instruction 0x01 with the registration data);
    /// returns its identifier on the device. Data that cannot be encoded is
    /// refused before anything is sent; a transport error is returned unchanged.
    pub fn register(&mut self, credential: &Credential) -> (r: Result<String, Error>)
        ensures
            register_data(encode_utf8(credential_id_of(*credential)), key_spec(*credential), credential.kind) is None
                ==> r == Err::<String, Error>(Error::InvalidInput) && final(self).transport_spec().log() == old(self).transport_spec().log(),
            register_data(encode_utf8(credential_id_of(*credential)), key_spec(*credential), credential.kind) matches Some(d)
                ==> called(old(self).transport_spec().log(), final(self).transport_spec().log(), 0x01, d) && (r is Ok <==> last_reply(final(self).transport_spec().log()) is Ok) && (r matches Err(e) ==> last_reply(final(self).transport_spec().log()) == Err::<Seq<u8>, Error>(e)),
            r matches Ok(id) ==> id@ == credential_id_of(*credential),
    {
        let data = match register_payload(credential) {
            Ok(data) => data,
            Err(e) => return Err(e),
        };
        let ghost before = self.transport.log();
        let reply = self.transport.call(Instruction::Put.to_byte(), data.as_slice());
        assert(self.transport.log().drop_last() =~= before);
        match reply {
            Ok(_) => Ok(credential.id()),
            Err(e) => Err(e),
        }
    }

    /// Deletes the credential with an identifier (instruction 0x02 with the
    /// identifier as a record), returning the transport's outcome; an
    /// identifier too long for a record is refused before anything is sent.
    pub fn delete(&mut self, label: String) -> (r: Result<(), Error>)
        ensures
            tlv_spec(0x71, encode_utf8(label@)) is None ==> r == Err::<(), Error>(Error::InvalidInput) && final(self).transport_spec().log() == old(self).transport_spec().log(),
            tlv_spec(0x71, encode_utf8(label@)) matches Some(d) ==> called(old(self).transport_spec().log(), final(self).transport_spec().log(), 0x02, d) && r == outcome(last_reply(final(self).transport_spec().log())),
    {
        let mut data: Vec<u8> = Vec::new();
        match push_tlv(&mut data, Tag::CredentialId.to_byte(), label.as_str().as_bytes()) {
            Ok(()) => {},
            Err(e) => return Err(e),
        }
        assert(data@ =~= tlv_spec(0x71, encode_utf8(label@))->0);
        let ghost before = self.transport.log();
        let reply = self.transport.call(Instruction::Delete.to_byte(), data.as_slice());
        assert(self.transport.log().drop_last() =~= before);
        match reply {
            Ok(_) => Ok(()),
            Err(e) => Err(e),
        }
    }

    /// Calculates the time-based one-time password of a credential: an ISO
    /// 7816 command (class 0, instruction 0xA2, p1 0, p2 1) with the calculation
    /// data, whose response is decoded; smartcard channels only. The period is
    /// always 30 s.
    pub fn authenticate(&mut self, authenticate: Authenticate) -> (r: Result<String, Error>)
        ensures
            calculate_data(encode_utf8(authenticate.label@), authenticate.timestamp) is None
                ==> r == Err::<String, Error>(Error::InvalidInput) && final(self).transport_spec().log() == old(self).transport_spec().log(),
            calculate_data(encode_utf8(authenticate.label@), authenticate.timestamp) matches Some(d)
                ==> iso_called(old(self).transport_spec().log(), final(self).transport_spec().log(), 0, 0xA2, 0x00, 0x01, d) && match last_reply(final(self).transport_spec().log()) {
                    Ok(b) => code_meaning(b, r),
                    Err(e) => r == Err::<String, Error>(e),
                },
    {
        let data = match calculate_payload(authenticate.label.as_str(), authenticate.timestamp) {
            Ok(data) => data,
            Err(e) => return Err(e),
        };
        let ghost before = self.transport.log();
        let response = self.transport.call_iso(0, Instruction::Calculate.to_byte(), 0x00, 0x01, data.as_slice());
        assert(self.transport.log().drop_last() =~= before);
        match response {
            Ok(b) => code_from_response(b.as_slice()),
            Err(e) => Err(e),
        }
    }

    /// The identifiers of all credentials: instruction 0xA1 without data,
    /// whose response is decoded; a transport error is returned unchanged.
    pub fn list(&mut self) -> (r: Result<Vec<String>, Error>)
        ensures
            called(old(self).transport_spec().log(), final(self).transport_spec().log(), 0xA1, Seq::empty()),
            match last_reply(final(self).transport_spec().log()) {
                Ok(b) => names_meaning(b, r),
                Err(e) => r == Err::<Vec<String>, Error>(e),
            },
    {
        let ghost before = self.transport.log();
        let response = self.transport.instruct(Instruction::List.to_byte());
        assert(self.transport.log().drop_last() =~= before);
        match response {
            Ok(b) => names_from_response(b.as_slice()),
            Err(e) => Err(e),
        }
    }

    /// Deletes every credential: an ISO 7816 command (class 0, instruction
    /// 0x04, p1 0xDE, p2 0xAD) without data, whose outcome is returned;
    /// smartcard channels only.
    pub fn reset(&mut self) -> (r: Result<(), Error>)
        ensures
            iso_called(old(self).transport_spec().log(), final(self).transport_spec().log(), 0, 0x04, 0xDE, 0xAD, Seq::empty()),
            r == outcome(last_reply(final(self).transport_spec().log())),
    {
        let empty: Vec<u8> = Vec::new();
        let ghost before = self.transport.log();
        let reply = self.transport.call_iso(0, Instruction::Reset.to_byte(), 0xDE, 0xAD, empty.as_slice());
        assert(self.transport.log().drop_last() =~= before);
        assert(empty@ =~= Seq::<u8>::empty());
        match reply {
            Ok(_) => Ok(()),
            Err(e) => Err(e),
        }
    }
}

} // verus!
