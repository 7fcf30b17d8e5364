//! The 128-bit identity of a device.
use vstd::prelude::*;

use vstd::string::StringSliceAdditionalSpecFns;

use vstd::arithmetic::div_mod::{lemma_div_denominator, lemma_fundamental_div_mod};

use crate::error::Error;
use crate::hexcode::{decode, encode_upper, hex_decoded, hex_text};

verus! {

/// The number that big-endian bytes denote.
pub open spec fn be_value(s: Seq<u8>) -> nat
    decreases s.len(),
{
    if s.len() == 0 {
        0
    } else {
        be_value(s.drop_last()) * 256 + s.last() as nat
    }
}

/// 256 to the power `n`.
pub open spec fn pow256(n: nat) -> nat
    decreases n,
{
    if n == 0 {
        1
    } else {
        256 * pow256((n - 1) as nat)
    }
}

/// The sixteen big-endian bytes of a 128-bit number.
pub open spec fn be_bytes(v: u128) -> Seq<u8> {
    Seq::new(16, |i: int| ((v as nat / pow256((15 - i) as nat)) % 256) as u8)
}

/// The identifier that names one physical device, stable across transports and modes.
#[derive(Clone, Copy, Debug, PartialEq, Eq, Hash, Structural)]
pub struct Uuid(pub u128);

proof fn lemma_be_value_bound(s: Seq<u8>)
    ensures
        be_value(s) < pow256(s.len()),
    decreases s.len(),
{
    if s.len() > 0 {
        lemma_be_value_bound(s.drop_last());
        let a = be_value(s.drop_last());
        let p = pow256(s.drop_last().len());
        assert(a * 256 + (s.last() as nat) < p * 256) by (nonlinear_arith)
            requires
                a < p,
                s.last() < 256,
        ;
    }
}

impl Uuid {
    /// The identifier as a number.
    pub fn u128(&self) -> (r: u128)
        ensures
            r == self.0,
    {
        self.0
    }

    /// The sixteen big-endian bytes.
    pub fn bytes(&self) -> (r: [u8; 16])
        ensures
            r@ == be_bytes(self.0),
    {
        let v = self.0;
        let mut r = [0u8; 16];
        let mut d: u128 = 1;
        let mut i: usize = 0;
        while i < 16
            invariant
                i <= 16,
                r@.len() == 16,
                i < 16 ==> d as nat == pow256(i as nat),
                forall|j: int| 15 - i < j < 16 ==> r@[j] == be_bytes(v)[j],
            decreases 16 - i,
        {
            r[15 - i] = ((v / d) % 256) as u8;
            if i < 15 {
                assert(pow256((i + 1) as nat) <= pow256(15)) by {
                    lemma_pow_mono((i + 1) as nat, 15);
                }
                assert(pow256(15) == 0x1_0000_0000_0000_0000_0000_0000_0000_00) by {
                    reveal_with_fuel(pow256, 16);
                }
                d = d * 256;
            }
            i = i + 1;
        }
        assert(r@ =~= be_bytes(v));
        r
    }

    /// The identifier that sixteen big-endian bytes denote; any other length is refused.
    pub fn from_bytes(bytes: &[u8]) -> (r: Result<Uuid, Error>)
        ensures
            bytes@.len() == 16 ==> r == Ok::<Uuid, Error>(Uuid(be_value(bytes@) as u128)),
            bytes@.len() != 16 ==> r == Err::<Uuid, Error>(Error::InvalidInput),
    {
        if bytes.len() != 16 {
            return Err(Error::InvalidInput);
        }
        let mut acc: u128 = 0;
        let mut i: usize = 0;
        while i < 16
            invariant
                i <= 16,
                bytes@.len() == 16,
                acc as nat == be_value(bytes@.take(i as int)),
            decreases 16 - i,
        {
            proof {
                lemma_be_value_bound(bytes@.take(i as int));
                lemma_pow_mono(i as nat, 15);
                assert(pow256(15) == 0x1_0000_0000_0000_0000_0000_0000_0000_00) by {
                    reveal_with_fuel(pow256, 16);
                }
                assert(bytes@.take(i + 1).drop_last() =~= bytes@.take(i as int));
            }
            acc = acc * 256 + bytes[i] as u128;
            i = i + 1;
        }
        assert(bytes@.take(16) =~= bytes@);
        Ok(Uuid(acc))
    }

    /// The identifier as 32 upper-case hex digits.
    pub fn hex(&self) -> (r: String)
        ensures
            r@ == hex_text(be_bytes(self.0), true),
    {
        let b = self.bytes();
        encode_upper(&b)
    }

    /// The identifier that 32 hex digits (either case) denote.
    pub fn from_hex(hex: &str) -> (r: Result<Uuid, Error>)
        ensures
            match hex_decoded(hex.spec_bytes()) {
                Some(b) => if b.len() == 16 {
                    r == Ok::<Uuid, Error>(Uuid(be_value(b) as u128))
                } else {
                    r == Err::<Uuid, Error>(Error::InvalidInput)
                },
                None => r == Err::<Uuid, Error>(Error::InvalidInput),
            },
    {
        match decode(hex.as_bytes()) {
            Some(bytes) => Uuid::from_bytes(bytes.as_slice()),
            None => Err(Error::InvalidInput),
        }
    }
}

proof fn lemma_pow_mono(a: nat, b: nat)
    requires
        a <= b,
    ensures
        pow256(a) <= pow256(b),
    decreases b - a,
{
    if a < b {
        lemma_pow_mono(a, (b - 1) as nat);
    }
}

proof fn lemma_pow256_positive(n: nat)
    ensures
        pow256(n) > 0,
    decreases n,
{
    if n > 0 {
        lemma_pow256_positive((n - 1) as nat);
    }
}

/// The first `i` big-endian bytes of `v` denote `v` without its last `16 - i` bytes.
proof fn lemma_be_prefix(v: u128, i: nat)
    requires
        i <= 16,
    ensures
        be_value(be_bytes(v).take(i as int)) == v as nat / pow256((16 - i) as nat),
    decreases i,
{
    let b = be_bytes(v);
    if i == 0 {
        assert(b.take(0) =~= Seq::<u8>::empty());
        lemma_be_value_bound(Seq::<u8>::empty());
        lemma_pow_mono(0, 16);
        assert(pow256(16) == 0x1_0000_0000_0000_0000_0000_0000_0000_0000) by {
            reveal_with_fuel(pow256, 17);
        }
        assert(v as nat / pow256(16) == 0) by (nonlinear_arith)
            requires
                v as nat <= 0xffff_ffff_ffff_ffff_ffff_ffff_ffff_ffff,
                pow256(16) == 0x1_0000_0000_0000_0000_0000_0000_0000_0000,
        ;
    } else {
        lemma_be_prefix(v, (i - 1) as nat);
        assert(b.take(i as int).drop_last() =~= b.take(i - 1));
        let d = pow256((16 - i) as nat);
        lemma_pow256_positive((16 - i) as nat);
        assert(pow256((16 - (i - 1)) as nat) == 256 * d);
        let x = v as nat / d;
        lemma_div_denominator(v as int, d as int, 256);
        lemma_fundamental_div_mod(x as int, 256);
        assert(b.take(i as int).last() == b[i - 1]);
        assert(b[i - 1] as nat == x % 256);
        assert(v as nat / (d * 256) == x / 256);
        assert(256 * d == d * 256) by (nonlinear_arith);
    }
}

/// The bytes of an identifier denote it again: [`Uuid::from_bytes`] of
/// [`Uuid::bytes`] gives back the same identifier.
pub proof fn lemma_uuid_round_trip(u: Uuid)
    ensures
        be_bytes(u.0).len() == 16,
        Uuid(be_value(be_bytes(u.0)) as u128) == u,
{
    lemma_be_prefix(u.0, 16);
    assert(be_bytes(u.0).take(16) =~= be_bytes(u.0));
    assert(pow256(0) == 1);
    assert(u.0 as nat / 1 == u.0 as nat);
    assert(be_value(be_bytes(u.0)) == u.0 as nat);
    assert((be_value(be_bytes(u.0)) as u128) == u.0);
}

} // verus!
