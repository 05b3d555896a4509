//! The Miller-Rabin probable-prime test and random prime generation.

use vstd::prelude::*;
use vstd::arithmetic::power::pow;
use vstd::arithmetic::power2::pow2;
use crate::bignum::{bit_of, nat_add, nat_div_rem, nat_modpow, nat_set_bit, nat_sub, random_bits, random_range, Natural};
use crate::error::RsaError;

verus! {

/// Miller-Rabin rounds run on each candidate prime.
pub const PRIME_TEST_ROUNDS: u32 = 16;

/// The number of times 2 divides `m` (zero for `m == 0`).
pub open spec fn twos(m: nat) -> nat
    decreases m,
{
    if m > 0 && m % 2 == 0 {
        1 + twos(m / 2)
    } else {
        0
    }
}

/// `m` with every factor 2 divided out (zero for `m == 0`).
pub open spec fn odd_part(m: nat) -> nat
    decreases m,
{
    if m > 0 && m % 2 == 0 {
        odd_part(m / 2)
    } else {
        m
    }
}

/// `x0` squared `i` times modulo `n`.
pub open spec fn square_chain(x0: nat, n: nat, i: nat) -> nat
    decreases i,
{
    if i == 0 {
        x0
    } else {
        (pow(square_chain(x0, n, (i - 1) as nat) as int, 2) % (n as int)) as nat
    }
}

/// One Miller-Rabin round with witness `a`, where `n - 1 == d * 2^s`: it passes
/// when `a^d mod n` is one, or when one of its first `s` repeated squares
/// (itself included) is `n - 1`.
pub open spec fn round_passes(n: nat, d: nat, s: nat, a: nat) -> bool {
    let x0 = (pow(a as int, d) % (n as int)) as nat;
    x0 == 1 || exists|i: nat| i < s && #[trigger] square_chain(x0, n, i) == n - 1
}

/// The Miller-Rabin round for `n` with witness `a`.
pub open spec fn mr_passes(n: nat, a: nat) -> bool {
    round_passes(n, odd_part((n - 1) as nat), twos((n - 1) as nat), a)
}

/// Setting bit `i` of `v`.
pub open spec fn with_bit(v: nat, i: nat) -> nat {
    if bit_of(v, i) { v } else { v + pow2(i) }
}

/// Runs one Miller-Rabin round for `n` with witness `a`, where `n - 1 == d * 2^s`.
pub fn witness_passes(n: &Natural, d: &Natural, s: &Natural, a: &Natural) -> (r: bool)
    requires
        n@ > 1,
        s@ >= 1,
    ensures
        r == round_passes(n@, d@, s@, a@),
{
    let one = Natural::from_u32(1);
    let two = Natural::from_u32(2);
    let n_minus_one = nat_sub(n, &one);
    let mut x = nat_modpow(a, d, n);
    let ghost x0 = x@;
    assert(square_chain(x0, n@, 0) == x0);
    if x.equals(&one) || x.equals(&n_minus_one) {
        return true;
    }
    let mut remaining = nat_sub(s, &one);
    let ghost mut i: nat = 0;
    while !remaining.equals(&Natural::zero())
        invariant
            n@ > 1,
            n_minus_one@ == n@ - 1,
            one@ == 1,
            two@ == 2,
            x0 != 1,
            x0 == (pow(a@ as int, d@) % (n@ as int)) as nat,
            i + 1 + remaining@ == s@,
            x@ == square_chain(x0, n@, i),
            forall|j: nat| j <= i ==> #[trigger] square_chain(x0, n@, j) != n@ - 1,
        decreases remaining@,
    {
        x = nat_modpow(&x, &two, n);
        proof {
            i = i + 1;
            assert(x@ == square_chain(x0, n@, i));
        }
        if x.equals(&n_minus_one) {
            assert(i < s@ && square_chain(x0, n@, i) == n@ - 1);
            return true;
        }
        remaining = nat_sub(&remaining, &one);
    }
    assert forall|j: nat| j < s@ implies #[trigger] square_chain(x0, n@, j) != n@ - 1 by {
        assert(j <= i);
    }
    false
}

/// Setting the top bit of a `b`-bit number gives a number of exactly `b` bits.
proof fn lemma_set_top_bit(v: nat, b: nat)
    requires
        b >= 1,
        v < pow2(b),
    ensures
        pow2((b - 1) as nat) <= with_bit(v, (b - 1) as nat) < pow2(b),
{
    let h = pow2((b - 1) as nat);
    vstd::arithmetic::power2::lemma_pow2_unfold(b);
    vstd::arithmetic::power2::lemma_pow2_pos((b - 1) as nat);
    vstd::arithmetic::div_mod::lemma_fundamental_div_mod(v as int, h as int);
    vstd::arithmetic::div_mod::lemma_mod_bound(v as int, h as int);
    let q = v / h;
    assert(q < 2) by (nonlinear_arith)
        requires
            v == h * q + v % h,
            v < 2 * h,
            0 <= v % h,
            h > 0,
    ;
    assert(bit_of(v, (b - 1) as nat) == (q % 2 == 1));
    if q == 1 {
        assert(q % 2 == 1);
        assert(h * q == h) by (nonlinear_arith)
            requires
                q == 1,
        ;
        assert(with_bit(v, (b - 1) as nat) == v);
    } else {
        assert(q == 0);
        assert(q % 2 == 0);
        assert(h * q == 0) by (nonlinear_arith)
            requires
                q == 0,
        ;
        assert(with_bit(v, (b - 1) as nat) == v + h);
    }
}

/// Setting bit zero of a `b`-bit number gives an odd number of exactly `b` bits.
proof fn lemma_set_low_bit(v: nat, b: nat)
    requires
        b >= 1,
        pow2((b - 1) as nat) <= v < pow2(b),
    ensures
        pow2((b - 1) as nat) <= with_bit(v, 0) < pow2(b),
        with_bit(v, 0) % 2 == 1,
{
    vstd::arithmetic::power2::lemma2_to64();
    vstd::arithmetic::power2::lemma_pow2_unfold(b);
    assert(v / 1 == v);
}

/// Forces bit `bits - 1` (so the number has exactly `bits` bits) and bit zero (so
/// it is odd) in a random number below `2^bits`.
pub fn make_candidate(raw: Natural, bits: u64) -> (r: Natural)
    requires
        bits >= 1,
        raw@ < pow2(bits as nat),
    ensures
        r@ == with_bit(with_bit(raw@, (bits - 1) as nat), 0),
        pow2((bits - 1) as nat) <= r@ < pow2(bits as nat),
        r@ % 2 == 1,
{
    let mut candidate = raw;
    nat_set_bit(&mut candidate, bits - 1);
    proof {
        lemma_set_top_bit(raw@, bits as nat);
    }
    let ghost top = candidate@;
    nat_set_bit(&mut candidate, 0);
    proof {
        lemma_set_low_bit(top, bits as nat);
    }
    candidate
}

/// The Miller-Rabin test with `k` random witnesses. A `false` answer is certain:
/// a witness of compositeness was found. A `true` answer is probable only.
pub fn is_probable_prime(n: &Natural, k: u32) -> (r: bool)
    ensures
        n@ < 2 ==> !r,
        n@ == 2 || n@ == 3 ==> r,
        n@ > 3 && n@ % 2 == 0 ==> !r,
        n@ > 3 && n@ % 2 == 1 && !r ==> exists|a: nat| 2 <= a < n@ - 2 && !mr_passes(n@, a),
        n@ > 3 && n@ % 2 == 1 && k >= 1 && r ==> exists|a: nat| 2 <= a < n@ - 2 && mr_passes(n@, a),
        n@ > 3 && n@ % 2 == 1 && k >= 1 && (forall|a: nat| 2 <= a < n@ - 2 ==> !mr_passes(n@, a)) ==> !r,
        n@ > 3 && n@ % 2 == 1 && k == 0 ==> r,
{
    let zero = Natural::zero();
    let one = Natural::from_u32(1);
    let two = Natural::from_u32(2);
    let three = Natural::from_u32(3);
    if crate::bignum::nat_lt(n, &two) {
        return false;
    }
    if n.equals(&two) || n.equals(&three) {
        return true;
    }
    let (_, parity) = nat_div_rem(n, &two);
    if parity.equals(&zero) {
        return false;
    }
    // n - 1 == d * 2^s with d odd
    let n_minus_one = nat_sub(n, &one);
    let mut d = n_minus_one.copy();
    let mut s = Natural::zero();
    let (mut half, mut rem) = nat_div_rem(&d, &two);
    while rem.equals(&zero)
        invariant
            zero@ == 0,
            one@ == 1,
            two@ == 2,
            d@ > 0,
            half@ == d@ / 2,
            rem@ == d@ % 2,
            odd_part(d@) == odd_part(n_minus_one@),
            twos(d@) + s@ == twos(n_minus_one@),
        decreases d@,
    {
        d = half;
        s = nat_add(&s, &one);
        let (h, m) = nat_div_rem(&d, &two);
        half = h;
        rem = m;
    }
    assert(n_minus_one@ > 0 && n_minus_one@ % 2 == 0);
    assert(twos(n_minus_one@) >= 1);
    let n_minus_two = nat_sub(n, &two);
    let mut i: u32 = 0;
    while i < k
        invariant
            n@ > 3,
            two@ == 2,
            n_minus_two@ == n@ - 2,
            d@ == odd_part((n@ - 1) as nat),
            s@ == twos((n@ - 1) as nat),
            s@ >= 1,
            i > 0 ==> exists|a: nat| 2 <= a < n@ - 2 && mr_passes(n@, a),
        decreases k - i,
    {
        let a = random_range(&two, &n_minus_two);
        if !witness_passes(n, &d, &s, &a) {
            assert(!mr_passes(n@, a@));
            return false;
        }
        assert(mr_passes(n@, a@));
        i = i + 1;
    }
    true
}

/// Draws random odd numbers of exactly `bits` bits until one passes the
/// Miller-Rabin test, giving up after `max_attempts` candidates.
pub fn generate_prime(bits: u64, max_attempts: u64) -> (r: Result<Natural, RsaError>)
    requires
        bits >= 1,
    ensures
        r matches Ok(p) ==> pow2((bits - 1) as nat) <= p@ < pow2(bits as nat) && p@ % 2 == 1,
        r matches Ok(p) ==> p@ == 3 || exists|a: nat| 2 <= a < p@ - 2 && mr_passes(p@, a),
        r matches Err(e) ==> e == RsaError::GenerationExhausted,
        max_attempts == 0 ==> (r matches Err(e) && e == RsaError::GenerationExhausted),
        bits == 2 && max_attempts >= 1 ==> (r matches Ok(p) && p@ == 3),
{
    let mut attempt: u64 = 0;
    while attempt < max_attempts
        invariant
            bits >= 1,
            bits == 2 ==> attempt == 0,
        decreases max_attempts - attempt,
    {
        let raw = random_bits(bits);
        let candidate = make_candidate(raw, bits);
        proof {
            if bits == 2 {
                vstd::arithmetic::power2::lemma2_to64();
                assert(candidate@ == 3);
            }
        }
        if is_probable_prime(&candidate, PRIME_TEST_ROUNDS) {
            return Ok(candidate);
        }
        attempt = attempt + 1;
    }
    Err(RsaError::GenerationExhausted)
}

} // verus!
