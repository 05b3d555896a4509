//! RSA key pairs, and raw encryption and decryption by modular exponentiation.

use vstd::prelude::*;
use vstd::arithmetic::power::pow;
use vstd::arithmetic::power2::pow2;
use crate::bignum::{be_value, nat_gcd, nat_lt, nat_modpow, nat_mul, nat_sub, Natural};
use crate::error::RsaError;
use crate::euclid::{gcd_int, modinv};
use crate::prime::{generate_prime, mr_passes};

verus! {

/// Candidates drawn for a prime before the search gives up.
pub const MAX_PRIME_ATTEMPTS: u64 = 100000;

/// Times the second prime is drawn again while it equals the first.
pub const MAX_DISTINCT_ATTEMPTS: u64 = 64;

pub struct PublicKey {
    pub n: Natural,
    pub e: Natural,
}

pub struct PrivateKey {
    pub n: Natural,
    pub d: Natural,
}

pub struct KeyPair {
    pub public: PublicKey,
    pub private: PrivateKey,
}

/// The totient `(p - 1) * (q - 1)` of `n = p * q`.
pub open spec fn totient(p: nat, q: nat) -> nat {
    ((p - 1) * (q - 1)) as nat
}

/// The first of 65537, 3 and 17 that is coprime to `phi`.
pub open spec fn exponent_for(phi: nat) -> Option<nat> {
    if gcd_int(65537, phi as int) == 1 {
        Some(65537)
    } else if gcd_int(3, phi as int) == 1 {
        Some(3)
    } else if gcd_int(17, phi as int) == 1 {
        Some(17)
    } else {
        None
    }
}

/// `kp` is the key pair that the primes `p` and `q` determine.
pub open spec fn is_key_pair_of(kp: KeyPair, p: nat, q: nat) -> bool {
    let phi = totient(p, q);
    &&& kp.public.n@ == p * q
    &&& kp.private.n@ == p * q
    &&& exponent_for(phi) == Some(kp.public.e@)
    &&& kp.private.d@ < phi
    &&& (kp.public.e@ * kp.private.d@) % phi == 1
}

/// A probable prime of exactly `bits` bits, as the prime generator hands it out.
pub open spec fn is_prime_candidate(p: nat, bits: nat) -> bool {
    &&& pow2((bits - 1) as nat) <= p < pow2(bits)
    &&& p % 2 == 1
    &&& (p == 3 || exists|a: nat| 2 <= a < p - 2 && mr_passes(p, a))
}

/// The first public exponent of 65537, 3 and 17, in that order, that is
/// coprime to `phi`.
pub fn choose_exponent(phi: &Natural) -> (r: Option<Natural>)
    ensures
        r matches Some(e) ==> exponent_for(phi@) == Some(e@),
        r is None ==> exponent_for(phi@) is None,
{
    let candidates: [u32; 3] = [65537, 3, 17];
    let one = Natural::from_u32(1);
    let mut i: usize = 0;
    while i < 3
        invariant
            one@ == 1,
            candidates@ == seq![65537u32, 3, 17],
            i <= 3,
            forall|j: int| 0 <= j < i ==> gcd_int(#[trigger] candidates@[j] as int, phi@ as int) != 1,
        decreases 3 - i,
    {
        let e = Natural::from_u32(candidates[i]);
        if nat_gcd(&e, phi).equals(&one) {
            proof {
                if i > 0 {
                    assert(gcd_int(candidates@[0] as int, phi@ as int) != 1);
                }
                if i > 1 {
                    assert(gcd_int(candidates@[1] as int, phi@ as int) != 1);
                }
            }
            return Some(e);
        }
        i = i + 1;
    }
    assert(gcd_int(candidates@[0] as int, phi@ as int) != 1);
    assert(gcd_int(candidates@[1] as int, phi@ as int) != 1);
    assert(gcd_int(candidates@[2] as int, phi@ as int) != 1);
    None
}

/// Derives the key pair of two distinct primes: `n = p * q`, the first of the
/// exponents 65537, 3, 17 coprime to the totient, and its inverse modulo the totient.
pub fn key_pair_from_primes(p: &Natural, q: &Natural) -> (r: Result<KeyPair, RsaError>)
    requires
        p@ >= 2,
        q@ >= 2,
        p@ != q@,
    ensures
        r is Ok <==> exponent_for(totient(p@, q@)) is Some,
        r matches Ok(kp) ==> is_key_pair_of(kp, p@, q@),
        r matches Err(e) ==> e == RsaError::NoCoprimeExponent,
{
    let one = Natural::from_u32(1);
    let n = nat_mul(p, q);
    let phi = nat_mul(&nat_sub(p, &one), &nat_sub(q, &one));
    assert(phi@ >= 2) by (nonlinear_arith)
        requires
            phi@ == (p@ - 1) * (q@ - 1),
            p@ >= 2,
            q@ >= 2,
            p@ != q@,
    ;
    let e = match choose_exponent(&phi) {
        Some(e) => e,
        None => return Err(RsaError::NoCoprimeExponent),
    };
    let d = match modinv(&e.to_integer(), &phi.to_integer()) {
        Some(d) => d,
        None => return Err(RsaError::InvalidModulus),
    };
    let d = d.magnitude();
    Ok(KeyPair { public: PublicKey { n: n.copy(), e }, private: PrivateKey { n, d } })
}

/// Generates a key pair whose modulus is the product of two distinct probable
/// primes of `bits / 2` bits each.
pub fn generate_keys(bits: u64) -> (r: Result<KeyPair, RsaError>)
    requires
        bits >= 4,
    ensures
        r matches Ok(kp) ==> exists|p: nat, q: nat|
            p != q && is_prime_candidate(p, (bits / 2) as nat) && is_prime_candidate(q, (bits / 2) as nat)
                && #[trigger] is_key_pair_of(kp, p, q),
        r matches Err(e) ==> e == RsaError::GenerationExhausted || e == RsaError::NoCoprimeExponent,
{
    let half = bits / 2;
    let p = match generate_prime(half, MAX_PRIME_ATTEMPTS) {
        Ok(v) => v,
        Err(e) => return Err(e),
    };
    let mut q = match generate_prime(half, MAX_PRIME_ATTEMPTS) {
        Ok(v) => v,
        Err(e) => return Err(e),
    };
    let mut tries: u64 = 0;
    while q.equals(&p)
        invariant
            half >= 2,
            is_prime_candidate(p@, half as nat),
            is_prime_candidate(q@, half as nat),
            tries <= MAX_DISTINCT_ATTEMPTS,
        decreases MAX_DISTINCT_ATTEMPTS - tries,
    {
        if tries >= MAX_DISTINCT_ATTEMPTS {
            return Err(RsaError::GenerationExhausted);
        }
        q = match generate_prime(half, MAX_PRIME_ATTEMPTS) {
            Ok(v) => v,
            Err(e) => return Err(e),
        };
        tries = tries + 1;
    }
    proof {
        vstd::arithmetic::power2::lemma_pow2_unfold((half - 1) as nat);
        vstd::arithmetic::power2::lemma_pow2_pos((half - 2) as nat);
    }
    key_pair_from_primes(&p, &q)
}

/// Decrypting what encryption gave, with exponents `e` and `d` and modulus `n`,
/// yields `m^(e*d) mod n`: the round trip returns `m` exactly where that power
/// does, which number theory gives for a product of two distinct primes.
pub proof fn lemma_round_trip_exponent(m: nat, e: nat, d: nat, n: nat)
    requires
        n > 0,
    ensures
        pow(pow(m as int, e) % (n as int), d) % (n as int) == pow(m as int, e * d) % (n as int),
{
    vstd::arithmetic::power::lemma_pow_mod_noop(pow(m as int, e), d, n as int);
    vstd::arithmetic::power::lemma_pow_multiplies(m as int, e, d);
}

/// Reads `message` as a big-endian number `m` and returns `m^e mod n`; a
/// message not below the modulus is refused.
pub fn encrypt(message: &[u8], pk: &PublicKey) -> (r: Result<Natural, RsaError>)
    ensures
        r is Ok <==> be_value(message@) < pk.n@,
        r matches Ok(c) ==> c@ == pow(be_value(message@) as int, pk.e@) % (pk.n@ as int),
        r matches Err(e) ==> e == RsaError::OversizedMessage,
{
    let m = Natural::from_bytes_be(message);
    if !nat_lt(&m, &pk.n) {
        return Err(RsaError::OversizedMessage);
    }
    Ok(nat_modpow(&m, &pk.e, &pk.n))
}

/// The big-endian bytes of `cipher^d mod n`, without leading zeros.
pub fn decrypt(cipher: &Natural, sk: &PrivateKey) -> (r: Vec<u8>)
    requires
        sk.n@ > 0,
    ensures
        be_value(r@) == pow(cipher@ as int, sk.d@) % (sk.n@ as int),
        r@.len() >= 1,
        r@[0] != 0 || r@.len() == 1,
{
    nat_modpow(cipher, &sk.d, &sk.n).to_bytes_be()
}

} // verus!
