//! The public face of the library: the three generation operations.
//!
//! A generator is stateless across calls: it holds only the immutable
//! parameter set, and every call is a fresh cryptographic event.  Secret
//! material (the secret key, the encryption randomness) lives only inside a
//! single call and is never retained.

use vstd::prelude::*;
use crate::codec::{decode_pk_spec, decode_public_key, encode_public_key, pk_chars};
use crate::encrypt::{encrypt, ciphertext_matches, Ciphertext, EncryptionRandomness};
use crate::errors::ZkError;
use crate::jsonout::{assemble_inputs, assemble_witness, json_of_inputs, json_of_witness};
use crate::keys::{generate_key, keygen_relation, PublicKey};
use crate::params::{default_parameter_set, ParameterSet};
use crate::vote::{encode_vote, spec_encode_vote};
use vstd::string::StringExecFns;

verus! {

/// Generator of the public inputs and the private witness for proving that
/// an encrypted vote encrypts a valid single-bit choice.
pub struct ZKInputsGenerator {
    /// The immutable parameter set, fixed at construction.
    pub params: ParameterSet,
}

impl ZKInputsGenerator {
    /// Creates a generator over the library's default parameter set.
    pub fn new() -> (r: ZKInputsGenerator)
        ensures
            r.params.wf(),
            r.params.degree == 64,
            r.params.moduli@ == seq![193u64, 257u64],
            r.params.plaintext_modulus == 17,
    {
        ZKInputsGenerator { params: default_parameter_set() }
    }

    /// Samples a fresh key pair, discards the secret key, and returns the
    /// public key in its canonical string encoding.  Never fails: the
    /// `SamplingError` arm of the result is reserved for randomness sources
    /// that can be exhausted.
    pub fn generate_public_key(&self) -> (r: Result<String, ZkError>)
        requires
            self.params.wf(),
        ensures
            r is Ok,
            r matches Ok(s) ==> exists|pk: PublicKey, sk: Seq<u64>, errs: Seq<Seq<u64>>|
                {
                    &&& pk.wf(self.params)
                    &&& #[trigger] keygen_relation(pk, self.params, sk, errs)
                    &&& s@ == pk_chars(pk.pk0s(), pk.pk1s())
                },
    {
        let pk = generate_key(&self.params);
        let s = encode_public_key(&pk, &self.params);
        proof {
            let (sk, errs) = choose|sk: Seq<u64>, errs: Seq<Seq<u64>>|
                keygen_relation(pk, self.params, sk, errs);
            assert(pk.wf(self.params) && keygen_relation(pk, self.params, sk, errs) && s@
                == pk_chars(pk.pk0s(), pk.pk1s()));
        }
        Ok(s)
    }

    /// Generates the public-inputs bundle for one fresh encryption of
    /// `vote` under the supplied encoded public key.  Succeeds exactly when
    /// the vote is a bit and the key decodes; the result then renders the
    /// parameters, the decoded key, and a ciphertext that some well-formed
    /// fresh randomness explains.
    pub fn generate_inputs(&self, public_key: &str, vote: u8) -> (r: Result<String, ZkError>)
        requires
            self.params.wf(),
        ensures
            r is Ok <==> vote <= 1 && decode_pk_spec(public_key@, self.params) is Some,
            r matches Ok(s) ==> exists|pk: PublicKey, ct: Ciphertext, rnd: EncryptionRandomness|
                {
                    &&& pk.wf(self.params)
                    &&& decode_pk_spec(public_key@, self.params) == Some((pk.pk0s(), pk.pk1s()))
                    &&& rnd.wf(self.params)
                    &&& #[trigger] ciphertext_matches(
                        ct,
                        self.params,
                        pk,
                        spec_encode_vote(vote, self.params.degree as nat),
                        rnd,
                    )
                    &&& s@ == json_of_inputs(self.params, pk, ct)
                },
            r matches Err(e) ==> e == (if vote > 1 {
                ZkError::InvalidVote
            } else {
                ZkError::InvalidPublicKey
            }),
    {
        let pt = match encode_vote(vote, &self.params) {
            Ok(p) => p,
            Err(e) => {
                return Err(e);
            },
        };
        let pk = match decode_public_key(public_key, &self.params) {
            Ok(pk) => pk,
            Err(e) => {
                return Err(e);
            },
        };
        let (ct, rnd) = encrypt(&self.params, &pk, &pt);
        let s = assemble_inputs(&self.params, &pk, &ct);
        proof {
            assert(pk.wf(self.params) && decode_pk_spec(public_key@, self.params) == Some(
                (pk.pk0s(), pk.pk1s()),
            ) && rnd.wf(self.params) && ciphertext_matches(
                ct,
                self.params,
                pk,
                spec_encode_vote(vote, self.params.degree as nat),
                rnd,
            ) && s@ == json_of_inputs(self.params, pk, ct));
        }
        Ok(s)
    }

    /// Generates the private-witness bundle for one fresh encryption of
    /// `vote` under the supplied encoded public key.  Succeeds exactly when
    /// the vote is a bit and the key decodes; the result then renders the
    /// parameters, the decoded key, the fresh randomness, and the vote, and
    /// that randomness explains a well-formed ciphertext for the same vote.
    pub fn generate_witness(&self, public_key: &str, vote: u8) -> (r: Result<String, ZkError>)
        requires
            self.params.wf(),
        ensures
            r is Ok <==> vote <= 1 && decode_pk_spec(public_key@, self.params) is Some,
            r matches Ok(s) ==> exists|pk: PublicKey, ct: Ciphertext, rnd: EncryptionRandomness|
                {
                    &&& pk.wf(self.params)
                    &&& decode_pk_spec(public_key@, self.params) == Some((pk.pk0s(), pk.pk1s()))
                    &&& rnd.wf(self.params)
                    &&& #[trigger] ciphertext_matches(
                        ct,
                        self.params,
                        pk,
                        spec_encode_vote(vote, self.params.degree as nat),
                        rnd,
                    )
                    &&& s@ == json_of_witness(self.params, pk, rnd, vote)
                },
            r matches Err(e) ==> e == (if vote > 1 {
                ZkError::InvalidVote
            } else {
                ZkError::InvalidPublicKey
            }),
    {
        let pt = match encode_vote(vote, &self.params) {
            Ok(p) => p,
            Err(e) => {
                return Err(e);
            },
        };
        let pk = match decode_public_key(public_key, &self.params) {
            Ok(pk) => pk,
            Err(e) => {
                return Err(e);
            },
        };
        let (ct, rnd) = encrypt(&self.params, &pk, &pt);
        let s = assemble_witness(&self.params, &pk, &rnd, vote);
        proof {
            assert(pk.wf(self.params) && decode_pk_spec(public_key@, self.params) == Some(
                (pk.pk0s(), pk.pk1s()),
            ) && rnd.wf(self.params) && ciphertext_matches(
                ct,
                self.params,
                pk,
                spec_encode_vote(vote, self.params.degree as nat),
                rnd,
            ) && s@ == json_of_witness(self.params, pk, rnd, vote));
        }
        Ok(s)
    }

    /// The version of the library.
    pub fn version() -> (r: String)
        ensures
            r@ == "0.1.0"@,
    {
        String::from_str("0.1.0")
    }
}

} // verus!
