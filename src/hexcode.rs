//! Hexadecimal text of byte strings, through the `hex` crate.
use vstd::prelude::*;

verus! {

/// The ASCII digit of a nibble, in upper or lower case.
pub open spec fn hex_digit(n: u8, upper: bool) -> u8 {
    if n < 10 {
        (n + 0x30) as u8
    } else if upper {
        (n - 10 + 0x41) as u8
    } else {
        (n - 10 + 0x61) as u8
    }
}

/// Two ASCII digits per byte, high nibble first.
pub open spec fn hex_ascii(b: Seq<u8>, upper: bool) -> Seq<u8>
    decreases b.len(),
{
    if b.len() == 0 {
        Seq::empty()
    } else {
        seq![hex_digit(b[0] / 16, upper), hex_digit(b[0] % 16, upper)] + hex_ascii(b.drop_first(), upper)
    }
}

/// The same digits as characters.
pub open spec fn hex_text(b: Seq<u8>, upper: bool) -> Seq<char> {
    hex_ascii(b, upper).map_values(|c: u8| c as char)
}

/// The value of a hex digit byte (either case), if it is one.
pub open spec fn hex_value(c: u8) -> Option<u8> {
    if 0x30 <= c <= 0x39 {
        Some((c - 0x30) as u8)
    } else if 0x41 <= c <= 0x46 {
        Some((c - 0x41 + 10) as u8)
    } else if 0x61 <= c <= 0x66 {
        Some((c - 0x61 + 10) as u8)
    } else {
        None
    }
}

/// The bytes that hex text denotes: even length, every byte a digit.
pub open spec fn hex_decoded(t: Seq<u8>) -> Option<Seq<u8>>
    decreases t.len(),
{
    if t.len() % 2 != 0 {
        None
    } else if t.len() == 0 {
        Some(Seq::empty())
    } else {
        match (hex_value(t[0]), hex_value(t[1]), hex_decoded(t.subrange(2, t.len() as int))) {
            (Some(h), Some(l), Some(rest)) => Some(seq![(h * 16 + l) as u8] + rest),
            _ => None,
        }
    }
}

/// Relies on `hex::encode_upper`: two upper-case digits per byte, high nibble first.
#[verifier::external_body]
pub(crate) fn encode_upper(b: &[u8]) -> (r: String)
    ensures
        r@ == hex_text(b@, true),
{
    hex::encode_upper(b)
}

/// Relies on `hex::encode`: two lower-case ASCII digits per byte, high nibble first.
#[verifier::external_body]
pub(crate) fn encode_lower(b: &[u8]) -> (r: Vec<u8>)
    ensures
        r@ == hex_ascii(b@, false),
{
    hex::encode(b).into_bytes()
}

/// Whether two byte strings are equal.
pub fn bytes_equal(a: &[u8], b: &[u8]) -> (r: bool)
    ensures
        r == (a@ == b@),
{
    if a.len() != b.len() {
        return false;
    }
    let mut i: usize = 0;
    while i < a.len()
        invariant
            i <= a@.len(),
            a@.len() == b@.len(),
            forall|j: int| 0 <= j < i ==> a@[j] == b@[j],
        decreases a@.len() - i,
    {
        if a[i] != b[i] {
            return false;
        }
        i = i + 1;
    }
    assert(a@ =~= b@);
    true
}

/// Relies on `hex::decode`: fails on odd length or a byte that is no hex digit
/// of either case, else the bytes denoted.
#[verifier::external_body]
pub(crate) fn decode(t: &[u8]) -> (r: Option<Vec<u8>>)
    ensures
        match hex_decoded(t@) {
            Some(v) => r matches Some(x) && x@ == v,
            None => r is None,
        },
{
    hex::decode(t).ok()
}

} // verus!
