//! Generation of public inputs and private witnesses for zero-knowledge
//! proofs that an encrypted vote is a correct encryption of a single bit
//! under a given public key, using an RLWE-style additively homomorphic
//! scheme over a residue-number-system modulus chain.

pub mod arith;
pub mod codec;
pub mod encrypt;
pub mod errors;
pub mod generator;
pub mod jsonout;
pub mod keys;
pub mod params;
pub mod poly;
pub mod sampling;
pub mod vote;

pub use encrypt::{Ciphertext, EncryptionRandomness};
pub use errors::ZkError;
pub use generator::ZKInputsGenerator;
pub use keys::PublicKey;
pub use params::ParameterSet;
