//! Arbitrary-precision integers held as plain values: a sign and the base 2^32
//! magnitude digits, least significant first (the layout that
//! `num_bigint::BigInt::to_u32_digits` hands out).  The arithmetic itself is
//! done by `num_bigint`, behind the trusted wrappers at the end of this file.
use num_bigint::{BigInt, Sign};
use vstd::prelude::*;

verus! {

/// The sign of a [`BigNum`], with the same three cases as `num_bigint::Sign`.
#[derive(Clone, Copy, Debug, PartialEq, Eq, Structural)]
pub enum BigSign {
    Minus,
    NoSign,
    Plus,
}

/// An integer of any size: `sign` applied to the magnitude whose base 2^32
/// digits are `digits`, least significant first.
#[derive(Debug)]
pub struct BigNum {
    pub sign: BigSign,
    pub digits: Vec<u32>,
}

/// The number that base 2^32 digits (least significant first) stand for.
pub open spec fn digits_value(d: Seq<u32>) -> nat
    decreases d.len(),
{
    if d.len() == 0 {
        0
    } else {
        (d[0] as nat) + 4294967296 * digits_value(d.drop_first())
    }
}

/// The remainder of Rust's truncating division: it takes the sign of `a`.
pub open spec fn trunc_rem(a: int, b: int) -> int {
    let m = if b < 0 { -b } else { b };
    if a >= 0 { a % m } else { -((-a) % m) }
}

impl BigNum {
    /// The integer this value stands for.
    pub open spec fn value(&self) -> int {
        match self.sign {
            BigSign::Minus => -digits_value(self.digits@),
            BigSign::NoSign => 0,
            BigSign::Plus => digits_value(self.digits@) as int,
        }
    }

    /// A small non-negative number.
    pub fn small(v: u32) -> (r: BigNum)
        ensures
            r.value() == v,
    {
        let mut digits: Vec<u32> = Vec::new();
        digits.push(v);
        proof {
            assert(digits@.drop_first() =~= Seq::<u32>::empty());
            assert(digits_value(digits@.drop_first()) == 0);
            assert(digits_value(digits@) == v as nat);
        }
        BigNum { sign: if v == 0 { BigSign::NoSign } else { BigSign::Plus }, digits }
    }
}

/// `&a + &b` on `num_bigint::BigInt`: the exact sum.
#[verifier::external_body]
pub(crate) fn big_add(a: &BigNum, b: &BigNum) -> (r: BigNum)
    ensures
        r.value() == a.value() + b.value(),
{
    let x = BigInt::from_slice(match a.sign { BigSign::Minus => Sign::Minus, BigSign::NoSign => Sign::NoSign, BigSign::Plus => Sign::Plus }, &a.digits);
    let y = BigInt::from_slice(match b.sign { BigSign::Minus => Sign::Minus, BigSign::NoSign => Sign::NoSign, BigSign::Plus => Sign::Plus }, &b.digits);
    let (s, d) = (&x + &y).to_u32_digits();
    BigNum { sign: match s { Sign::Minus => BigSign::Minus, Sign::NoSign => BigSign::NoSign, Sign::Plus => BigSign::Plus }, digits: d }
}

/// `&a % &b` on `num_bigint::BigInt`: the remainder of truncating division,
/// which panics on a zero divisor.
#[verifier::external_body]
pub(crate) fn big_rem(a: &BigNum, b: &BigNum) -> (r: BigNum)
    requires
        b.value() != 0,
    ensures
        r.value() == trunc_rem(a.value(), b.value()),
{
    let x = BigInt::from_slice(match a.sign { BigSign::Minus => Sign::Minus, BigSign::NoSign => Sign::NoSign, BigSign::Plus => Sign::Plus }, &a.digits);
    let y = BigInt::from_slice(match b.sign { BigSign::Minus => Sign::Minus, BigSign::NoSign => Sign::NoSign, BigSign::Plus => Sign::Plus }, &b.digits);
    let (s, d) = (&x % &y).to_u32_digits();
    BigNum { sign: match s { Sign::Minus => BigSign::Minus, Sign::NoSign => BigSign::NoSign, Sign::Plus => BigSign::Plus }, digits: d }
}

/// `BigInt::sqrt`: the truncated square root, `r` with `r*r <= a < (r+1)*(r+1)`;
/// it panics on a negative argument.
#[verifier::external_body]
pub(crate) fn big_sqrt(a: &BigNum) -> (r: BigNum)
    requires
        a.value() >= 0,
    ensures
        r.value() >= 0,
        r.value() * r.value() <= a.value() < (r.value() + 1) * (r.value() + 1),
{
    let x = BigInt::from_slice(match a.sign { BigSign::Minus => Sign::Minus, BigSign::NoSign => Sign::NoSign, BigSign::Plus => Sign::Plus }, &a.digits);
    let (s, d) = x.sqrt().to_u32_digits();
    BigNum { sign: match s { Sign::Minus => BigSign::Minus, Sign::NoSign => BigSign::NoSign, Sign::Plus => BigSign::Plus }, digits: d }
}

/// `a == b` on `num_bigint::BigInt`: equality of the numbers.
#[verifier::external_body]
pub(crate) fn big_eq(a: &BigNum, b: &BigNum) -> (r: bool)
    ensures
        r == (a.value() == b.value()),
{
    let x = BigInt::from_slice(match a.sign { BigSign::Minus => Sign::Minus, BigSign::NoSign => Sign::NoSign, BigSign::Plus => Sign::Plus }, &a.digits);
    let y = BigInt::from_slice(match b.sign { BigSign::Minus => Sign::Minus, BigSign::NoSign => Sign::NoSign, BigSign::Plus => Sign::Plus }, &b.digits);
    x == y
}

/// `a <= b` on `num_bigint::BigInt`: the order of the numbers.
#[verifier::external_body]
pub(crate) fn big_le(a: &BigNum, b: &BigNum) -> (r: bool)
    ensures
        r == (a.value() <= b.value()),
{
    let x = BigInt::from_slice(match a.sign { BigSign::Minus => Sign::Minus, BigSign::NoSign => Sign::NoSign, BigSign::Plus => Sign::Plus }, &a.digits);
    let y = BigInt::from_slice(match b.sign { BigSign::Minus => Sign::Minus, BigSign::NoSign => Sign::NoSign, BigSign::Plus => Sign::Plus }, &b.digits);
    x <= y
}

/// `BigInt::from(i64)`: the same number.
#[verifier::external_body]
pub(crate) fn big_from_i64(v: i64) -> (r: BigNum)
    ensures
        r.value() == v,
{
    let (s, d) = BigInt::from(v).to_u32_digits();
    BigNum { sign: match s { Sign::Minus => BigSign::Minus, Sign::NoSign => BigSign::NoSign, Sign::Plus => BigSign::Plus }, digits: d }
}

} // verus!
