//! Exact modular arithmetic on `u64` residues.
//!
//! Every operation states its result as the mathematical remainder of the
//! corresponding integer operation, so downstream polynomial contracts can
//! speak in plain `int` arithmetic modulo a chain modulus.

use vstd::prelude::*;
use vstd::arithmetic::div_mod::{
    lemma_mod_add_multiples_vanish, lemma_mod_self_0, lemma_small_mod,
};

verus! {

/// Residue addition: `(a + b) mod q`, exact for every `u64` modulus.
pub fn mod_add(a: u64, b: u64, q: u64) -> (r: u64)
    requires
        q > 0,
    ensures
        r == (a + b) % (q as int),
        r < q,
{
    let s: u128 = a as u128 + b as u128;
    (s % (q as u128)) as u64
}

/// Residue multiplication: `(a * b) mod q`, computed without overflow in a
/// 128-bit intermediate.
pub fn mod_mul(a: u64, b: u64, q: u64) -> (r: u64)
    requires
        q > 0,
    ensures
        r == (a as int * b as int) % (q as int),
        r < q,
{
    proof {
        assert((a as u128) * (b as u128) == a as int * b as int && a as int * b as int
            <= 0xffff_ffff_ffff_ffffu64 as int * 0xffff_ffff_ffff_ffffu64 as int)
            by (nonlinear_arith)
            requires
                a <= 0xffff_ffff_ffff_ffffu64,
                b <= 0xffff_ffff_ffff_ffffu64,
        ;
    }
    let p: u128 = (a as u128) * (b as u128);
    (p % (q as u128)) as u64
}

/// Residue negation: `(-a) mod q` for a residue `a < q`.
pub fn mod_neg(a: u64, q: u64) -> (r: u64)
    requires
        q > 0,
        a < q,
    ensures
        r == (-(a as int)) % (q as int),
        r < q,
{
    proof {
        lemma_neg_mod(a as int, q as int);
        if a == 0 {
            lemma_mod_self_0(q as int);
        } else {
            lemma_small_mod((q - a) as nat, q as nat);
        }
    }
    if a == 0 {
        0
    } else {
        q - a
    }
}

/// For a residue `0 <= a < q`, the negation `(-a) mod q` is `(q - a) mod q`.
pub proof fn lemma_neg_mod(a: int, q: int)
    requires
        q > 0,
        0 <= a < q,
    ensures
        (-a) % q == (q - a) % q,
{
    lemma_mod_add_multiples_vanish(-a, q);
}

} // verus!
