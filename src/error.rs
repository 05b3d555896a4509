//! The ways an RSA operation can fail.

use vstd::prelude::*;

verus! {

#[derive(Debug, Clone, Copy, PartialEq, Eq, Structural)]
pub enum RsaError {
    /// A modular inverse was asked for where none exists.
    InvalidModulus,
    /// No candidate public exponent is coprime to the totient.
    NoCoprimeExponent,
    /// The message, read as a number, is not below the modulus.
    OversizedMessage,
    /// The prime search used up its attempts.
    GenerationExhausted,
}

} // verus!
