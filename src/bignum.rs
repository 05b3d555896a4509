//! Arbitrary-precision integers held as base 2^32 digits, with the arithmetic
//! done by `num-bigint`.

use vstd::prelude::*;
use vstd::arithmetic::power::pow;
use vstd::arithmetic::power2::pow2;
use num_bigint::{BigInt, BigUint, RandBigInt, Sign};
use crate::euclid::gcd_int;

verus! {

/// The number written by base 2^32 digits, least significant digit first.
pub open spec fn digits_value(s: Seq<u32>) -> nat
    decreases s.len(),
{
    if s.len() == 0 {
        0
    } else {
        s[0] as nat + 0x1_0000_0000 * digits_value(s.drop_first())
    }
}

/// The number written by bytes in big-endian order.
pub open spec fn be_value(s: Seq<u8>) -> nat
    decreases s.len(),
{
    if s.len() == 0 {
        0
    } else {
        be_value(s.drop_last()) * 256 + s.last() as nat
    }
}

/// Bit `i` of `v`.
pub open spec fn bit_of(v: nat, i: nat) -> bool {
    (v / pow2(i)) % 2 == 1
}

/// Rounds towards negative infinity.
pub open spec fn floor_div(a: int, b: int) -> int {
    if b > 0 {
        a / b
    } else if b < 0 {
        (-a) / (-b)
    } else {
        0
    }
}

/// The remainder of `floor_div`: it has the sign of the divisor.
pub open spec fn floor_mod(a: int, b: int) -> int {
    a - b * floor_div(a, b)
}

/// A non-negative integer of any size.
pub struct Natural {
    digits: Vec<u32>,
}

/// A signed integer of any size: a sign and a magnitude.
pub struct Integer {
    negative: bool,
    magnitude: Natural,
}

impl View for Natural {
    type V = nat;

    closed spec fn view(&self) -> nat {
        digits_value(self.digits@)
    }
}

impl View for Integer {
    type V = int;

    closed spec fn view(&self) -> int {
        if self.negative {
            -(self.magnitude@ as int)
        } else {
            self.magnitude@ as int
        }
    }
}

impl Natural {
    pub fn from_u32(x: u32) -> (r: Natural)
        ensures
            r@ == x as nat,
    {
        let r = Natural { digits: vec![x] };
        assert(r.digits@.drop_first() =~= Seq::<u32>::empty());
        assert(digits_value(r.digits@.drop_first()) == 0);
        r
    }

    pub fn zero() -> (r: Natural)
        ensures
            r@ == 0,
    {
        let r = Natural { digits: Vec::new() };
        assert(r.digits@.len() == 0);
        r
    }

    pub fn copy(&self) -> (r: Natural)
        ensures
            r@ == self@,
    {
        let d = self.digits.clone();
        assert(d@ =~= self.digits@);
        Natural { digits: d }
    }

    /// Reads `bytes` as a big-endian unsigned number.
    pub fn from_bytes_be(bytes: &[u8]) -> (r: Natural)
        ensures
            r@ == be_value(bytes@),
    {
        nat_from_bytes_be(bytes)
    }

    /// The big-endian bytes of the number, without leading zeros; zero is one zero byte.
    pub fn to_bytes_be(&self) -> (r: Vec<u8>)
        ensures
            be_value(r@) == self@,
            r@.len() >= 1,
            r@[0] != 0 || r@.len() == 1,
    {
        nat_to_bytes_be(self)
    }

    /// Whether the two numbers are equal.
    pub fn equals(&self, other: &Natural) -> (r: bool)
        ensures
            r == (self@ == other@),
    {
        nat_eq(self, other)
    }

    pub fn to_integer(&self) -> (r: Integer)
        ensures
            r@ == self@ as int,
    {
        Integer { negative: false, magnitude: self.copy() }
    }
}

impl Integer {
    pub fn from_natural(negative: bool, magnitude: Natural) -> (r: Integer)
        ensures
            r@ == (if negative { -(magnitude@ as int) } else { magnitude@ as int }),
    {
        Integer { negative, magnitude }
    }

    pub fn copy(&self) -> (r: Integer)
        ensures
            r@ == self@,
    {
        Integer { negative: self.negative, magnitude: self.magnitude.copy() }
    }

    pub fn is_negative(&self) -> (r: bool)
        ensures
            r == (self@ < 0),
    {
        self.negative && !nat_eq(&self.magnitude, &Natural::zero())
    }

    /// The magnitude `|self|`.
    pub fn magnitude(&self) -> (r: Natural)
        ensures
            r@ as int == (if self@ < 0 { -self@ } else { self@ }),
    {
        self.magnitude.copy()
    }
}

/// Relies on `BigUint::from_bytes_be`: the big-endian value of the bytes.
#[verifier::external_body]
fn nat_from_bytes_be(bytes: &[u8]) -> (r: Natural)
    ensures
        r@ == be_value(bytes@),
{
    Natural { digits: BigUint::from_bytes_be(bytes).to_u32_digits() }
}

/// Relies on `BigUint::to_bytes_be`: big-endian bytes with no leading zero,
/// and `[0]` for zero.
#[verifier::external_body]
fn nat_to_bytes_be(a: &Natural) -> (r: Vec<u8>)
    ensures
        be_value(r@) == a@,
        r@.len() >= 1,
        r@[0] != 0 || r@.len() == 1,
{
    BigUint::new(a.digits.clone()).to_bytes_be()
}

/// Relies on `BigUint`'s `==`: equality of the values.
#[verifier::external_body]
fn nat_eq(a: &Natural, b: &Natural) -> (r: bool)
    ensures
        r == (a@ == b@),
{
    BigUint::new(a.digits.clone()) == BigUint::new(b.digits.clone())
}

/// Relies on `BigUint`'s `<`: the order of the values.
#[verifier::external_body]
pub(crate) fn nat_lt(a: &Natural, b: &Natural) -> (r: bool)
    ensures
        r == (a@ < b@),
{
    BigUint::new(a.digits.clone()) < BigUint::new(b.digits.clone())
}

/// Relies on `BigUint`'s `*`: the product.
#[verifier::external_body]
pub(crate) fn nat_mul(a: &Natural, b: &Natural) -> (r: Natural)
    ensures
        r@ == a@ * b@,
{
    Natural { digits: (BigUint::new(a.digits.clone()) * BigUint::new(b.digits.clone())).to_u32_digits() }
}

/// Relies on `BigUint`'s `+`: the sum.
#[verifier::external_body]
pub(crate) fn nat_add(a: &Natural, b: &Natural) -> (r: Natural)
    ensures
        r@ == a@ + b@,
{
    Natural { digits: (BigUint::new(a.digits.clone()) + BigUint::new(b.digits.clone())).to_u32_digits() }
}

/// Relies on `BigUint`'s `-`, which panics below zero: the difference.
#[verifier::external_body]
pub(crate) fn nat_sub(a: &Natural, b: &Natural) -> (r: Natural)
    requires
        a@ >= b@,
    ensures
        r@ == a@ - b@,
{
    Natural { digits: (BigUint::new(a.digits.clone()) - BigUint::new(b.digits.clone())).to_u32_digits() }
}

/// Relies on `num_integer::Integer::div_rem` for `BigUint`, which panics on a
/// zero divisor: quotient and remainder.
#[verifier::external_body]
pub(crate) fn nat_div_rem(a: &Natural, b: &Natural) -> (r: (Natural, Natural))
    requires
        b@ > 0,
    ensures
        r.0@ == a@ / b@,
        r.1@ == a@ % b@,
{
    let (q, m) = num_integer::Integer::div_rem(&BigUint::new(a.digits.clone()), &BigUint::new(b.digits.clone()));
    (Natural { digits: q.to_u32_digits() }, Natural { digits: m.to_u32_digits() })
}

/// Relies on `BigUint::modpow`, which panics on a zero modulus:
/// `base^exponent mod modulus`.
#[verifier::external_body]
pub(crate) fn nat_modpow(base: &Natural, exponent: &Natural, modulus: &Natural) -> (r: Natural)
    requires
        modulus@ > 0,
    ensures
        r@ == pow(base@ as int, exponent@) % (modulus@ as int),
{
    let m = BigUint::new(base.digits.clone()).modpow(&BigUint::new(exponent.digits.clone()), &BigUint::new(modulus.digits.clone()));
    Natural { digits: m.to_u32_digits() }
}

/// Relies on `BigUint::set_bit` with `true`: sets bit `bit` and keeps the others.
#[verifier::external_body]
pub(crate) fn nat_set_bit(a: &mut Natural, bit: u64)
    ensures
        final(a)@ == (if bit_of(old(a)@, bit as nat) { old(a)@ } else { old(a)@ + pow2(bit as nat) }),
{
    let mut v = BigUint::new(a.digits.clone());
    v.set_bit(bit, true);
    a.digits = v.to_u32_digits();
}

/// Relies on `num_integer::Integer::gcd` for `BigUint`: the greatest common divisor,
/// which for non-negative arguments is what Euclid's algorithm gives.
#[verifier::external_body]
pub(crate) fn nat_gcd(a: &Natural, b: &Natural) -> (r: Natural)
    ensures
        r@ as int == gcd_int(a@ as int, b@ as int),
{
    let g = num_integer::Integer::gcd(&BigUint::new(a.digits.clone()), &BigUint::new(b.digits.clone()));
    Natural { digits: g.to_u32_digits() }
}

/// Relies on `RandBigInt::gen_biguint` on the thread-local generator: a random
/// number below `2^bits`.
#[verifier::external_body]
pub(crate) fn random_bits(bits: u64) -> (r: Natural)
    ensures
        r@ < pow2(bits as nat),
{
    Natural { digits: rand::thread_rng().gen_biguint(bits).to_u32_digits() }
}

/// Relies on `RandBigInt::gen_biguint_range` on the thread-local generator, which
/// panics on an empty range: a random number in `[low, high)`.
#[verifier::external_body]
pub(crate) fn random_range(low: &Natural, high: &Natural) -> (r: Natural)
    requires
        low@ < high@,
    ensures
        low@ <= r@ < high@,
{
    let v = rand::thread_rng().gen_biguint_range(&BigUint::new(low.digits.clone()), &BigUint::new(high.digits.clone()));
    Natural { digits: v.to_u32_digits() }
}

/// Relies on `num_integer::Integer::div_mod_floor` for `BigInt`, which panics
/// on a zero divisor: the quotient rounded down and its remainder.
#[verifier::external_body]
pub(crate) fn int_div_mod_floor(a: &Integer, b: &Integer) -> (r: (Integer, Integer))
    requires
        b@ != 0,
    ensures
        r.0@ == floor_div(a@, b@),
        r.1@ == floor_mod(a@, b@),
{
    let x = BigInt::from_biguint(if a.negative { Sign::Minus } else { Sign::Plus }, BigUint::new(a.magnitude.digits.clone()));
    let y = BigInt::from_biguint(if b.negative { Sign::Minus } else { Sign::Plus }, BigUint::new(b.magnitude.digits.clone()));
    let (q, m) = num_integer::Integer::div_mod_floor(&x, &y);
    let (qs, qd) = q.to_u32_digits();
    let (ms, md) = m.to_u32_digits();
    (Integer { negative: qs == Sign::Minus, magnitude: Natural { digits: qd } },
     Integer { negative: ms == Sign::Minus, magnitude: Natural { digits: md } })
}

/// Relies on `BigInt`'s `*`: the product.
#[verifier::external_body]
pub(crate) fn int_mul(a: &Integer, b: &Integer) -> (r: Integer)
    ensures
        r@ == a@ * b@,
{
    let x = BigInt::from_biguint(if a.negative { Sign::Minus } else { Sign::Plus }, BigUint::new(a.magnitude.digits.clone()));
    let y = BigInt::from_biguint(if b.negative { Sign::Minus } else { Sign::Plus }, BigUint::new(b.magnitude.digits.clone()));
    let (s, d) = (x * y).to_u32_digits();
    Integer { negative: s == Sign::Minus, magnitude: Natural { digits: d } }
}

/// Relies on `BigInt`'s `-`: the difference.
#[verifier::external_body]
pub(crate) fn int_sub(a: &Integer, b: &Integer) -> (r: Integer)
    ensures
        r@ == a@ - b@,
{
    let x = BigInt::from_biguint(if a.negative { Sign::Minus } else { Sign::Plus }, BigUint::new(a.magnitude.digits.clone()));
    let y = BigInt::from_biguint(if b.negative { Sign::Minus } else { Sign::Plus }, BigUint::new(b.magnitude.digits.clone()));
    let (s, d) = (x - y).to_u32_digits();
    Integer { negative: s == Sign::Minus, magnitude: Natural { digits: d } }
}

/// Relies on `BigInt`'s `+`: the sum.
#[verifier::external_body]
pub(crate) fn int_add(a: &Integer, b: &Integer) -> (r: Integer)
    ensures
        r@ == a@ + b@,
{
    let x = BigInt::from_biguint(if a.negative { Sign::Minus } else { Sign::Plus }, BigUint::new(a.magnitude.digits.clone()));
    let y = BigInt::from_biguint(if b.negative { Sign::Minus } else { Sign::Plus }, BigUint::new(b.magnitude.digits.clone()));
    let (s, d) = (x + y).to_u32_digits();
    Integer { negative: s == Sign::Minus, magnitude: Natural { digits: d } }
}

} // verus!
