//! RLWE key generation across the modulus chain.
//!
//! A secret key is sampled, used to derive the public key, and discarded: no
//! function here retains or returns secret material.  The contract exposes
//! the construction through an existential witness: some ternary secret and
//! small error draws explain every returned key.

use vstd::prelude::*;
use crate::params::ParameterSet;
use crate::poly::{
    poly_add, poly_mul, poly_neg, poly_wf, reduce_centered, spec_poly_add, spec_poly_mul,
    spec_poly_neg, spec_reduce_centered,
};
use crate::sampling::{sample_offset_poly, sample_uniform_poly};

verus! {

/// An RLWE public key: two ordered sequences of polynomials, one entry per
/// modulus in the chain.
pub struct PublicKey {
    /// First components: `pk0_i = -(pk1_i * s + e_i) mod q_i`.
    pub pk0is: Vec<Vec<u64>>,
    /// Second components: uniform random polynomials.
    pub pk1is: Vec<Vec<u64>>,
}

impl PublicKey {
    /// The first components as mathematical sequences.
    pub open spec fn pk0s(self) -> Seq<Seq<u64>> {
        self.pk0is.deep_view()
    }

    /// The second components as mathematical sequences.
    pub open spec fn pk1s(self) -> Seq<Seq<u64>> {
        self.pk1is.deep_view()
    }

    /// Shape well-formedness: one polynomial pair per chain modulus, each
    /// a well-formed polynomial for its modulus.
    pub open spec fn wf(self, ps: ParameterSet) -> bool {
        &&& self.pk0s().len() == ps.moduli@.len()
        &&& self.pk1s().len() == ps.moduli@.len()
        &&& forall|i: int|
            0 <= i < ps.moduli@.len() ==> poly_wf(
                #[trigger] self.pk0s()[i],
                ps.moduli@[i],
                ps.degree as nat,
            )
        &&& forall|i: int|
            0 <= i < ps.moduli@.len() ==> poly_wf(
                #[trigger] self.pk1s()[i],
                ps.moduli@[i],
                ps.degree as nat,
            )
    }
}

/// The first public-key component determined by the second, the secret key
/// and the error term: `pk0 = -(pk1 * s + e)` in `Z_q[X]/(X^n + 1)`.
pub open spec fn spec_pk0(pk1: Seq<u64>, s: Seq<u64>, e: Seq<u64>, q: u64) -> Seq<u64> {
    spec_poly_neg(spec_poly_add(spec_poly_mul(pk1, s, q), e, q), q)
}

/// A sequence of offset-encoded signed draws with bias 1: ternary values.
pub open spec fn ternary_wf(s: Seq<u64>, n: nat) -> bool {
    s.len() == n && forall|i: int| 0 <= i < s.len() ==> s[i] <= 2
}

/// The RLWE construction relation: the ternary secret `sk` and the per-modulus
/// ternary errors `errs` explain every component pair of `pk`.
pub open spec fn keygen_relation(
    pk: PublicKey,
    ps: ParameterSet,
    sk: Seq<u64>,
    errs: Seq<Seq<u64>>,
) -> bool {
    &&& ternary_wf(sk, ps.degree as nat)
    &&& errs.len() == ps.moduli@.len()
    &&& forall|i: int| 0 <= i < errs.len() ==> ternary_wf(#[trigger] errs[i], ps.degree as nat)
    &&& forall|i: int|
        0 <= i < ps.moduli@.len() ==> #[trigger] pk.pk0s()[i] == spec_pk0(
            pk.pk1s()[i],
            spec_reduce_centered(sk, 1, ps.moduli@[i]),
            spec_reduce_centered(errs[i], 1, ps.moduli@[i]),
            ps.moduli@[i],
        )
}

/// Samples a fresh ternary secret key, derives one public-key pair per chain
/// modulus, and discards the secret.  Every returned key is well formed and
/// is explained by some secret and error draws.
pub fn generate_key(ps: &ParameterSet) -> (pk: PublicKey)
    requires
        ps.wf(),
    ensures
        pk.wf(*ps),
        exists|sk: Seq<u64>, errs: Seq<Seq<u64>>| keygen_relation(pk, *ps, sk, errs),
{
    let n_mod = ps.moduli.len();
    let degree = ps.degree;
    let sk = sample_offset_poly(degree, 1);
    let ghost gsk = sk@;
    let mut pk0is: Vec<Vec<u64>> = Vec::new();
    let mut pk1is: Vec<Vec<u64>> = Vec::new();
    let ghost mut gerrs: Seq<Seq<u64>> = Seq::empty();
    for i in 0..n_mod
        invariant
            ps.wf(),
            n_mod == ps.moduli@.len(),
            degree == ps.degree,
            ternary_wf(gsk, degree as nat),
            gsk == sk@,
            pk0is.deep_view().len() == i,
            pk1is.deep_view().len() == i,
            gerrs.len() == i,
            forall|j: int| 0 <= j < i ==> ternary_wf(#[trigger] gerrs[j], degree as nat),
            forall|j: int|
                0 <= j < i ==> poly_wf(
                    #[trigger] pk0is.deep_view()[j],
                    ps.moduli@[j],
                    degree as nat,
                ),
            forall|j: int|
                0 <= j < i ==> poly_wf(
                    #[trigger] pk1is.deep_view()[j],
                    ps.moduli@[j],
                    degree as nat,
                ),
            forall|j: int|
                0 <= j < i ==> #[trigger] pk0is.deep_view()[j] == spec_pk0(
                    pk1is.deep_view()[j],
                    spec_reduce_centered(gsk, 1, ps.moduli@[j]),
                    spec_reduce_centered(gerrs[j], 1, ps.moduli@[j]),
                    ps.moduli@[j],
                ),
    {
        let q = ps.moduli[i];
        proof {
            assert(q > ps.plaintext_modulus >= 2);
        }
        let s_i = reduce_centered(&sk, 1, q);
        let pk1 = sample_uniform_poly(degree, q);
        let e = sample_offset_poly(degree, 1);
        let e_i = reduce_centered(&e, 1, q);
        let prod = poly_mul(&pk1, &s_i, q);
        let sum = poly_add(&prod, &e_i, q);
        let pk0 = poly_neg(&sum, q);
        let ghost d0 = pk0is.deep_view();
        let ghost d1 = pk1is.deep_view();
        pk0is.push(pk0);
        pk1is.push(pk1);
        proof {
            assert(pk0.deep_view() =~= pk0@);
            assert(pk1.deep_view() =~= pk1@);
            assert(pk0is.deep_view() =~= d0.push(pk0@));
            assert(pk1is.deep_view() =~= d1.push(pk1@));
            gerrs = gerrs.push(e@);
        }
    }
    let pk = PublicKey { pk0is, pk1is };
    proof {
        assert(keygen_relation(pk, *ps, gsk, gerrs));
    }
    pk
}

/// One public-key component pair exists per chain modulus: in particular
/// the `pk0` components of a well-formed key number exactly the moduli, so
/// both output bundles render one `pk0` polynomial per modulus.
pub proof fn lemma_pk0is_per_modulus(pk: PublicKey, ps: ParameterSet)
    requires
        pk.wf(ps),
    ensures
        pk.pk0s().len() == ps.moduli@.len(),
{
}

} // verus!
