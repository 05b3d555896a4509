//! Textbook RSA over arbitrary-precision integers: Miller-Rabin primality
//! testing, random prime generation, modular inverses by the extended
//! Euclidean algorithm, key-pair derivation, and raw encryption/decryption.

pub mod bignum;
pub mod error;
pub mod euclid;
pub mod prime;
pub mod rsa;
