use rsa_core::bignum::{Integer, Natural};
use rsa_core::error::RsaError;
use rsa_core::euclid::{egcd, modinv};
use rsa_core::prime::{generate_prime, is_probable_prime, make_candidate, witness_passes};
use rsa_core::rsa::{
    choose_exponent, decrypt, encrypt, generate_keys, key_pair_from_primes, MAX_PRIME_ATTEMPTS,
};

fn natural(x: u64) -> Natural {
    Natural::from_bytes_be(&x.to_be_bytes())
}

fn value(n: &Natural) -> u128 {
    n.to_bytes_be().iter().fold(0u128, |acc, b| acc * 256 + *b as u128)
}

fn integer(x: i64) -> Integer {
    Integer::from_natural(x < 0, natural(x.unsigned_abs()))
}

fn int_value(x: &Integer) -> i128 {
    let m = value(&x.magnitude()) as i128;
    if x.is_negative() {
        -m
    } else {
        m
    }
}

fn is_prime_by_division(n: u64) -> bool {
    if n < 2 {
        return false;
    }
    let mut f = 2;
    while f * f <= n {
        if n % f == 0 {
            return false;
        }
        f += 1;
    }
    true
}

#[test]
fn natural_byte_round_trip() {
    assert_eq!(value(&Natural::from_bytes_be(&[1, 0])), 256);
    assert_eq!(Natural::zero().to_bytes_be(), vec![0]);
    assert_eq!(Natural::from_bytes_be(&[0, 0, 7, 1]).to_bytes_be(), vec![7, 1]);
    assert!(natural(1125).equals(&Natural::from_u32(1125)));
    assert!(!natural(1125).equals(&Natural::from_u32(1126)));
}

#[test]
fn egcd_gives_bezout_coefficients() {
    let (g, x, y) = egcd(integer(240), integer(46));
    assert_eq!(int_value(&g), 2);
    assert_eq!(240 * int_value(&x) + 46 * int_value(&y), 2);
    let (g, x, y) = egcd(integer(-7), integer(3));
    assert_eq!(-7 * int_value(&x) + 3 * int_value(&y), int_value(&g));
}

#[test]
fn egcd_gives_the_recursion_coefficients() {
    let (g, x, y) = egcd(integer(240), integer(46));
    assert_eq!((int_value(&g), int_value(&x), int_value(&y)), (2, -9, 47));
    let (g, x, y) = egcd(integer(5), integer(0));
    assert_eq!((int_value(&g), int_value(&x), int_value(&y)), (5, 1, 0));
}

#[test]
fn two_bit_prime_search_gives_three() {
    assert_eq!(value(&generate_prime(2, 1).unwrap()), 3);
}

#[test]
fn modinv_small_values() {
    assert_eq!(int_value(&modinv(&integer(3), &integer(11)).unwrap()), 4);
    assert_eq!(int_value(&modinv(&integer(17), &integer(3120)).unwrap()), 2753);
    assert_eq!(int_value(&modinv(&integer(-3), &integer(11)).unwrap()), 7);
}

#[test]
fn modinv_times_value_is_one() {
    for (e, phi) in [(65537i64, 3120i64), (3, 65537), (7, 40), (5, 96)] {
        let d = int_value(&modinv(&integer(e), &integer(phi)).unwrap());
        assert!(0 <= d && d < phi as i128);
        assert_eq!((e as i128 * d) % phi as i128, 1);
    }
}

#[test]
fn modinv_none_without_coprimality() {
    assert!(modinv(&integer(4), &integer(8)).is_none());
    assert!(modinv(&integer(6), &integer(9)).is_none());
    assert!(modinv(&integer(0), &integer(5)).is_none());
}

#[test]
fn primality_edge_cases() {
    assert!(!is_probable_prime(&natural(0), 8));
    assert!(!is_probable_prime(&natural(1), 8));
    assert!(is_probable_prime(&natural(2), 8));
    assert!(is_probable_prime(&natural(3), 8));
    assert!(!is_probable_prime(&natural(4), 8));
    assert!(!is_probable_prime(&natural(1000), 8));
    assert!(is_probable_prime(&natural(9), 0));
}

#[test]
fn primality_agrees_with_trial_division() {
    for n in 0u64..3000 {
        assert_eq!(is_probable_prime(&natural(n), 16), is_prime_by_division(n), "n = {}", n);
    }
    for n in [999_983u64, 999_979, 104_729, 65_537] {
        assert!(is_probable_prime(&natural(n), 16));
    }
    for n in [999_981u64, 1_000_001, 104_731, 999_997] {
        assert_eq!(is_probable_prime(&natural(n), 16), is_prime_by_division(n));
    }
}

#[test]
fn composites_with_only_failing_witnesses_are_rejected() {
    for n in [9u64, 15, 21, 25, 27, 33, 35] {
        assert!(!is_probable_prime(&natural(n), 1), "n = {}", n);
    }
}

#[test]
fn single_witness_rounds() {
    // 12 == 3 * 2^2; 2^3 = 8, 8^2 = 64 = 12 (mod 13)
    assert!(witness_passes(&natural(13), &natural(3), &natural(2), &natural(2)));
    // 8 == 1 * 2^3; 2, 4, 7 are never 8 (mod 9)
    assert!(!witness_passes(&natural(9), &natural(1), &natural(3), &natural(2)));
    // 2^5 = 32 = 1 (mod 31), 30 == 15 * 2
    assert!(witness_passes(&natural(31), &natural(15), &natural(1), &natural(2)));
}

#[test]
fn candidates_have_top_and_low_bit() {
    assert_eq!(value(&make_candidate(natural(0), 8)), 129);
    assert_eq!(value(&make_candidate(natural(200), 8)), 201);
    assert_eq!(value(&make_candidate(natural(255), 8)), 255);
    assert_eq!(value(&make_candidate(natural(0), 1)), 1);
}

#[test]
fn generated_primes_have_exact_bit_length() {
    for bits in [2u64, 5, 16, 31] {
        let p = value(&generate_prime(bits, MAX_PRIME_ATTEMPTS).unwrap());
        assert!(p >= 1u128 << (bits - 1) && p < 1u128 << bits);
        assert_eq!(p % 2, 1);
        assert!(is_prime_by_division(p as u64));
    }
    let p = generate_prime(128, MAX_PRIME_ATTEMPTS).unwrap();
    assert_eq!(p.to_bytes_be().len(), 16);
    assert!(p.to_bytes_be()[0] >= 0x80);
}

#[test]
fn prime_search_can_give_up() {
    assert_eq!(generate_prime(16, 0).err(), Some(RsaError::GenerationExhausted));
    assert_eq!(generate_prime(1, 10).err(), Some(RsaError::GenerationExhausted));
}

#[test]
fn exponent_choice_order() {
    assert_eq!(value(&choose_exponent(&natural(3120)).unwrap()), 65537);
    assert_eq!(value(&choose_exponent(&natural(65537)).unwrap()), 3);
    assert_eq!(value(&choose_exponent(&natural(196611)).unwrap()), 17);
    assert!(choose_exponent(&natural(3342387)).is_none());
}

#[test]
fn key_pair_from_known_primes() {
    let kp = key_pair_from_primes(&natural(61), &natural(53)).unwrap();
    assert_eq!(value(&kp.public.n), 3233);
    assert_eq!(value(&kp.private.n), 3233);
    assert_eq!(value(&kp.public.e), 65537);
    assert_eq!(value(&kp.private.d), 2753);
    let c = encrypt(&[65], &kp.public).unwrap();
    assert_eq!(value(&c), 2790);
    assert_eq!(decrypt(&c, &kp.private), vec![65]);
}

#[test]
fn key_pair_with_second_exponent() {
    let kp = key_pair_from_primes(&natural(2), &natural(65538)).unwrap();
    assert_eq!(value(&kp.public.e), 3);
    assert_eq!(value(&kp.private.d), 21846);
}

#[test]
fn key_pair_without_coprime_exponent() {
    let r = key_pair_from_primes(&natural(2), &natural(3342388));
    assert_eq!(r.err(), Some(RsaError::NoCoprimeExponent));
}

#[test]
fn message_equal_to_modulus_is_oversized() {
    let kp = key_pair_from_primes(&natural(61), &natural(53)).unwrap();
    assert_eq!(encrypt(&[0x0c, 0xa1], &kp.public).err(), Some(RsaError::OversizedMessage));
    assert_eq!(encrypt(&[0x0c, 0xa2], &kp.public).err(), Some(RsaError::OversizedMessage));
    assert!(encrypt(&[0x0c, 0xa0], &kp.public).is_ok());
    let kp = generate_keys(64).unwrap();
    let n_bytes = kp.public.n.to_bytes_be();
    assert_eq!(encrypt(&n_bytes, &kp.public).err(), Some(RsaError::OversizedMessage));
}

#[test]
fn decrypt_of_zero_is_one_zero_byte() {
    let kp = key_pair_from_primes(&natural(61), &natural(53)).unwrap();
    assert_eq!(decrypt(&Natural::zero(), &kp.private), vec![0]);
}

#[test]
fn round_trip_with_small_keys() {
    for _ in 0..5 {
        let kp = generate_keys(64).unwrap();
        assert_eq!(kp.public.n.to_bytes_be().len(), 8);
        for m in [1u64, 2, 65, 0xdead_beef, 0x7fff_ffff_ffff] {
            let bytes = natural(m).to_bytes_be();
            let c = encrypt(&bytes, &kp.public).unwrap();
            assert_eq!(decrypt(&c, &kp.private), bytes);
        }
    }
}

#[test]
fn round_trip_of_text_with_512_bit_keys() {
    let kp = generate_keys(512).unwrap();
    let message = "BERNARDO CRUZEIRO".as_bytes();
    let c = encrypt(message, &kp.public).unwrap();
    assert_eq!(decrypt(&c, &kp.private), message.to_vec());
}
