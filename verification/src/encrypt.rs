//! Randomized encryption of a plaintext polynomial under a public key.
//!
//! The ciphertext equations are stated exactly: the pair returned by
//! `encrypt` satisfies, for every chain modulus, the relation determined by
//! the also-returned randomness, so the public ciphertext and the private
//! witness describe the same encryption event.

use vstd::prelude::*;
use crate::keys::{ternary_wf, PublicKey};
use crate::params::ParameterSet;
use crate::poly::{
    poly_add, poly_mul, poly_scale, poly_wf, reduce_centered, spec_poly_add, spec_poly_mul,
    spec_poly_scale, spec_reduce_centered,
};
use crate::sampling::sample_offset_poly;

verus! {

/// An encryption of a plaintext: one polynomial pair per chain modulus.
pub struct Ciphertext {
    /// First components: `c0_i = pk0_i * u + e0 + delta_i * m mod q_i`.
    pub c0is: Vec<Vec<u64>>,
    /// Second components: `c1_i = pk1_i * u + e1 mod q_i`.
    pub c1is: Vec<Vec<u64>>,
}

impl Ciphertext {
    /// The first components as mathematical sequences.
    pub open spec fn c0s(self) -> Seq<Seq<u64>> {
        self.c0is.deep_view()
    }

    /// The second components as mathematical sequences.
    pub open spec fn c1s(self) -> Seq<Seq<u64>> {
        self.c1is.deep_view()
    }

    /// Shape well-formedness: one pair per chain modulus.
    pub open spec fn wf(self, ps: ParameterSet) -> bool {
        &&& self.c0s().len() == ps.moduli@.len()
        &&& self.c1s().len() == ps.moduli@.len()
        &&& forall|i: int|
            0 <= i < ps.moduli@.len() ==> poly_wf(
                #[trigger] self.c0s()[i],
                ps.moduli@[i],
                ps.degree as nat,
            )
        &&& forall|i: int|
            0 <= i < ps.moduli@.len() ==> poly_wf(
                #[trigger] self.c1s()[i],
                ps.moduli@[i],
                ps.degree as nat,
            )
    }
}

/// The randomness of one encryption event: a ternary blinding polynomial and
/// two ternary noise polynomials, offset-encoded with bias 1.
pub struct EncryptionRandomness {
    /// The blinding polynomial `u`.
    pub u: Vec<u64>,
    /// The noise added to the first ciphertext component.
    pub e0: Vec<u64>,
    /// The noise added to the second ciphertext component.
    pub e1: Vec<u64>,
}

impl EncryptionRandomness {
    /// All three draws have the ring degree and ternary offsets.
    pub open spec fn wf(self, ps: ParameterSet) -> bool {
        &&& ternary_wf(self.u@, ps.degree as nat)
        &&& ternary_wf(self.e0@, ps.degree as nat)
        &&& ternary_wf(self.e1@, ps.degree as nat)
    }
}

/// The first ciphertext component for chain modulus `i`:
/// `pk0_i * u + e0 + delta_i * m`, reduced mod `q_i`.
pub open spec fn spec_c0(
    ps: ParameterSet,
    pk: PublicKey,
    pt: Seq<u64>,
    rnd: EncryptionRandomness,
    i: int,
) -> Seq<u64> {
    let q = ps.moduli@[i];
    let u = spec_reduce_centered(rnd.u@, 1, q);
    let e0 = spec_reduce_centered(rnd.e0@, 1, q);
    let delta = (q as int / ps.plaintext_modulus as int) as u64;
    let scaled = spec_poly_scale(delta, pt, q);
    spec_poly_add(spec_poly_add(spec_poly_mul(pk.pk0s()[i], u, q), e0, q), scaled, q)
}

/// The second ciphertext component for chain modulus `i`:
/// `pk1_i * u + e1`, reduced mod `q_i`.
pub open spec fn spec_c1(
    ps: ParameterSet,
    pk: PublicKey,
    rnd: EncryptionRandomness,
    i: int,
) -> Seq<u64> {
    let q = ps.moduli@[i];
    let u = spec_reduce_centered(rnd.u@, 1, q);
    let e1 = spec_reduce_centered(rnd.e1@, 1, q);
    spec_poly_add(spec_poly_mul(pk.pk1s()[i], u, q), e1, q)
}

/// `ct` is exactly the encryption of `pt` under `pk` with randomness `rnd`.
pub open spec fn ciphertext_matches(
    ct: Ciphertext,
    ps: ParameterSet,
    pk: PublicKey,
    pt: Seq<u64>,
    rnd: EncryptionRandomness,
) -> bool {
    &&& ct.c0s().len() == ps.moduli@.len()
    &&& ct.c1s().len() == ps.moduli@.len()
    &&& forall|i: int|
        0 <= i < ps.moduli@.len() ==> #[trigger] ct.c0s()[i] == spec_c0(ps, pk, pt, rnd, i)
    &&& forall|i: int|
        0 <= i < ps.moduli@.len() ==> #[trigger] ct.c1s()[i] == spec_c1(ps, pk, rnd, i)
}

/// Samples fresh encryption randomness for one encryption event.
pub fn sample_randomness(ps: &ParameterSet) -> (rnd: EncryptionRandomness)
    requires
        ps.wf(),
    ensures
        rnd.wf(*ps),
{
    let u = sample_offset_poly(ps.degree, 1);
    let e0 = sample_offset_poly(ps.degree, 1);
    let e1 = sample_offset_poly(ps.degree, 1);
    EncryptionRandomness { u, e0, e1 }
}

/// Combines the plaintext, public key and given randomness into the
/// ciphertext the equations dictate; deterministic in its arguments.
pub fn encrypt_with_randomness(
    ps: &ParameterSet,
    pk: &PublicKey,
    pt: &Vec<u64>,
    rnd: &EncryptionRandomness,
) -> (ct: Ciphertext)
    requires
        ps.wf(),
        pk.wf(*ps),
        poly_wf(pt@, ps.plaintext_modulus, ps.degree as nat),
        rnd.wf(*ps),
    ensures
        ciphertext_matches(ct, *ps, *pk, pt@, *rnd),
        ct.wf(*ps),
{
    let n_mod = ps.moduli.len();
    let mut c0is: Vec<Vec<u64>> = Vec::new();
    let mut c1is: Vec<Vec<u64>> = Vec::new();
    for i in 0..n_mod
        invariant
            ps.wf(),
            pk.wf(*ps),
            poly_wf(pt@, ps.plaintext_modulus, ps.degree as nat),
            rnd.wf(*ps),
            n_mod == ps.moduli@.len(),
            c0is.deep_view().len() == i,
            c1is.deep_view().len() == i,
            forall|j: int|
                0 <= j < i ==> #[trigger] c0is.deep_view()[j] == spec_c0(*ps, *pk, pt@, *rnd, j),
            forall|j: int|
                0 <= j < i ==> #[trigger] c1is.deep_view()[j] == spec_c1(*ps, *pk, *rnd, j),
            forall|j: int|
                0 <= j < i ==> poly_wf(
                    #[trigger] c0is.deep_view()[j],
                    ps.moduli@[j],
                    ps.degree as nat,
                ),
            forall|j: int|
                0 <= j < i ==> poly_wf(
                    #[trigger] c1is.deep_view()[j],
                    ps.moduli@[j],
                    ps.degree as nat,
                ),
    {
        let q = ps.moduli[i];
        proof {
            assert(q > ps.plaintext_modulus >= 2);
            assert(poly_wf(pk.pk0s()[i as int], q, ps.degree as nat));
            assert(poly_wf(pk.pk1s()[i as int], q, ps.degree as nat));
            assert(pk.pk0is@[i as int].deep_view() =~= pk.pk0is@[i as int]@);
            assert(pk.pk1is@[i as int].deep_view() =~= pk.pk1is@[i as int]@);
            assert(pk.pk0s()[i as int] == pk.pk0is@[i as int]@);
            assert(pk.pk1s()[i as int] == pk.pk1is@[i as int]@);
            assert(forall|k: int|
                0 <= k < pt@.len() ==> #[trigger] pt@[k] < q) by {
                assert(forall|k: int|
                    0 <= k < pt@.len() ==> #[trigger] pt@[k] < ps.plaintext_modulus);
            }
        }
        let u_i = reduce_centered(&rnd.u, 1, q);
        let e0_i = reduce_centered(&rnd.e0, 1, q);
        let e1_i = reduce_centered(&rnd.e1, 1, q);
        let delta = ps.delta(i);
        let scaled = poly_scale(delta, pt, q);
        let pk0_i = &pk.pk0is[i];
        let pk1_i = &pk.pk1is[i];
        let m0 = poly_mul(pk0_i, &u_i, q);
        let s0 = poly_add(&m0, &e0_i, q);
        let c0 = poly_add(&s0, &scaled, q);
        let m1 = poly_mul(pk1_i, &u_i, q);
        let c1 = poly_add(&m1, &e1_i, q);
        let ghost d0 = c0is.deep_view();
        let ghost d1 = c1is.deep_view();
        c0is.push(c0);
        c1is.push(c1);
        proof {
            assert(c0.deep_view() =~= c0@);
            assert(c1.deep_view() =~= c1@);
            assert(c0is.deep_view() =~= d0.push(c0@));
            assert(c1is.deep_view() =~= d1.push(c1@));
        }
    }
    Ciphertext { c0is, c1is }
}

/// One full encryption event: samples fresh randomness and returns both the
/// ciphertext and the randomness that explains it.  The two components of
/// the result are consistent: the ciphertext is exactly the encryption of
/// `pt` with the returned randomness.
pub fn encrypt(ps: &ParameterSet, pk: &PublicKey, pt: &Vec<u64>) -> (r: (
    Ciphertext,
    EncryptionRandomness,
))
    requires
        ps.wf(),
        pk.wf(*ps),
        poly_wf(pt@, ps.plaintext_modulus, ps.degree as nat),
    ensures
        r.1.wf(*ps),
        ciphertext_matches(r.0, *ps, *pk, pt@, r.1),
        r.0.wf(*ps),
{
    let rnd = sample_randomness(ps);
    let ct = encrypt_with_randomness(ps, pk, pt, &rnd);
    (ct, rnd)
}

} // verus!
