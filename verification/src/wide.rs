//! 256- and 512-bit amounts, held as little-endian `u64` limbs, and the
//! `casper_types` arithmetic on them.
use vstd::prelude::*;
use casper_types::{U256, U512};
use crate::text::{dec_scan, decimal_digits};

verus! {

/// The number whose little-endian base-2^64 digits are `s`.
pub open spec fn limbs_value(s: Seq<u64>) -> nat
    decreases s.len(),
{
    if s.len() == 0 {
        0
    } else {
        s[0] as nat + 0x1_0000_0000_0000_0000 * limbs_value(s.drop_first())
    }
}

/// 2^(64 n)
pub open spec fn pow64(n: nat) -> nat
    decreases n,
{
    if n == 0 {
        1
    } else {
        0x1_0000_0000_0000_0000 * pow64((n - 1) as nat)
    }
}

pub proof fn lemma_limbs_bound(s: Seq<u64>)
    ensures
        limbs_value(s) < pow64(s.len()),
    decreases s.len(),
{
    if s.len() > 0 {
        lemma_limbs_bound(s.drop_first());
        let r = limbs_value(s.drop_first());
        let p = pow64(s.drop_first().len());
        assert(s[0] as nat + 0x1_0000_0000_0000_0000 * r < 0x1_0000_0000_0000_0000 * p) by (nonlinear_arith)
            requires
                r < p,
                s[0] < 0x1_0000_0000_0000_0000,
        ;
    }
}

pub proof fn lemma_pow64_values()
    ensures
        pow64(1) == 0x1_0000_0000_0000_0000,
        pow64(4) == 0x1_0000_0000_0000_0000 * 0x1_0000_0000_0000_0000 * 0x1_0000_0000_0000_0000
            * 0x1_0000_0000_0000_0000,
        pow64(5) == pow64(4) * 0x1_0000_0000_0000_0000,
        pow64(8) == pow64(5) * 0x1_0000_0000_0000_0000 * 0x1_0000_0000_0000_0000
            * 0x1_0000_0000_0000_0000,
{
    reveal_with_fuel(pow64, 9);
}

/// A 256-bit unsigned amount (the limbs of a `U256`).
#[derive(Clone, Copy, Debug, PartialEq, Eq)]
pub struct Wide256 {
    pub limbs: [u64; 4],
}

impl Wide256 {
    pub open spec fn value(&self) -> nat {
        limbs_value(self.limbs@)
    }
}

/// A 512-bit unsigned amount (the limbs of a `U512`).
#[derive(Clone, Copy, Debug, PartialEq, Eq)]
pub struct Wide512 {
    pub limbs: [u64; 8],
}

impl Wide512 {
    pub open spec fn value(&self) -> nat {
        limbs_value(self.limbs@)
    }
}

impl Wide256 {
    pub proof fn lemma_bound(&self)
        ensures
            self.value() < pow64(4),
    {
        lemma_limbs_bound(self.limbs@);
    }
}

/// `U256::from_dec_str`: reads the digits left to right and fails at the
/// first character that is not an ASCII digit or at the first digit that
/// takes the value to 2^256; the empty text reads as 0. The kind of
/// failure is not kept here.
#[verifier::external_body]
pub(crate) fn u256_from_dec_str(s: &str) -> (r: Option<Wide256>)
    ensures
        match dec_scan(s@, pow64(4)) {
            Ok(v) => r is Some && r->0.value() == v,
            Err(_) => r is None,
        },
{
    match U256::from_dec_str(s) {
        Ok(v) => Some(Wide256 { limbs: v.0 }),
        Err(_) => None,
    }
}

/// `U512::from_dec_str`, as `u256_from_dec_str` with the limit 2^512.
#[verifier::external_body]
pub(crate) fn u512_from_dec_str(s: &str) -> (r: Option<Wide512>)
    ensures
        match dec_scan(s@, pow64(8)) {
            Ok(v) => r is Some && r->0.value() == v,
            Err(_) => r is None,
        },
{
    match U512::from_dec_str(s) {
        Ok(v) => Some(Wide512 { limbs: v.0 }),
        Err(_) => None,
    }
}

/// `U256`'s `Display` (through `to_string`): the decimal digits, without
/// leading zeros, "0" for zero.
#[verifier::external_body]
pub(crate) fn u256_to_decimal(w: &Wide256) -> (r: String)
    ensures
        r@ == decimal_digits(w.value()),
{
    U256(w.limbs).to_string()
}

/// `U512::from(u64)`.
#[verifier::external_body]
pub(crate) fn u512_from_u64(x: u64) -> (r: Wide512)
    ensures
        r.value() == x,
{
    Wide512 { limbs: U512::from(x).0 }
}

/// `U512 * u64`, which panics when the product does not fit.
#[verifier::external_body]
pub(crate) fn u512_mul_u64(a: &Wide512, k: u64) -> (r: Wide512)
    requires
        a.value() * k < pow64(8),
    ensures
        r.value() == a.value() * k,
{
    Wide512 { limbs: (U512(a.limbs) * k).0 }
}

/// `U512 * U512`, which panics when the product does not fit.
#[verifier::external_body]
pub(crate) fn u512_mul(a: &Wide512, b: &Wide512) -> (r: Wide512)
    requires
        a.value() * b.value() < pow64(8),
    ensures
        r.value() == a.value() * b.value(),
{
    Wide512 { limbs: (U512(a.limbs) * U512(b.limbs)).0 }
}

/// `U512 - U512`, which panics when `b > a`.
#[verifier::external_body]
pub(crate) fn u512_sub(a: &Wide512, b: &Wide512) -> (r: Wide512)
    requires
        a.value() >= b.value(),
    ensures
        r.value() == a.value() - b.value(),
{
    Wide512 { limbs: (U512(a.limbs) - U512(b.limbs)).0 }
}

/// `U512 / U512` (rounding down), which panics on a zero divisor.
#[verifier::external_body]
pub(crate) fn u512_div(a: &Wide512, b: &Wide512) -> (r: Wide512)
    requires
        b.value() > 0,
    ensures
        r.value() == a.value() / b.value(),
{
    Wide512 { limbs: (U512(a.limbs) / U512(b.limbs)).0 }
}

/// `U512 < U512`.
#[verifier::external_body]
pub(crate) fn u512_lt(a: &Wide512, b: &Wide512) -> (r: bool)
    ensures
        r == (a.value() < b.value()),
{
    U512(a.limbs) < U512(b.limbs)
}

} // verus!
