//! Polynomials over `Z_q[X] / (X^n + 1)`.
//!
//! A polynomial is a vector of `n` residues below the modulus `q`.  The
//! product contract is stated through the signed negacyclic convolution: the
//! coefficient of `X^k` in `a * b` collects `a_i * b_j` with `i + j == k`
//! positively and `i + j == k + n` negatively, because `X^n == -1` in the
//! quotient ring.

use vstd::prelude::*;
use vstd::arithmetic::div_mod::{
    lemma_add_mod_noop, lemma_fundamental_div_mod, lemma_mod_add_multiples_vanish,
    lemma_mod_bound, lemma_mod_multiples_vanish, lemma_small_mod,
};
use crate::arith::{lemma_neg_mod, mod_add, mod_mul, mod_neg};

verus! {

/// A well-formed polynomial for modulus `q` and ring degree `n`.
pub open spec fn poly_wf(p: Seq<u64>, q: u64, n: nat) -> bool {
    &&& p.len() == n
    &&& forall|i: int| 0 <= i < p.len() ==> p[i] < q
}

/// The signed term `i` of coefficient `k` of the negacyclic convolution.
pub open spec fn conv_term(a: Seq<u64>, b: Seq<u64>, k: int, i: int) -> int {
    if i <= k {
        (a[i] as int) * (b[k - i] as int)
    } else {
        -((a[i] as int) * (b[k - i + a.len()] as int))
    }
}

/// The sum of the first `i` signed terms of coefficient `k`.
pub open spec fn conv_psum(a: Seq<u64>, b: Seq<u64>, k: int, i: int) -> int
    decreases i,
{
    if i <= 0 {
        0
    } else {
        conv_psum(a, b, k, i - 1) + conv_term(a, b, k, i - 1)
    }
}

/// Coefficient `k` of `a * b` in `Z_q[X] / (X^n + 1)`.
pub open spec fn conv_coeff(a: Seq<u64>, b: Seq<u64>, q: u64, k: int) -> int {
    conv_psum(a, b, k, a.len() as int) % (q as int)
}

/// The full negacyclic product of `a` and `b` modulo `q`.
pub open spec fn spec_poly_mul(a: Seq<u64>, b: Seq<u64>, q: u64) -> Seq<u64> {
    Seq::new(a.len(), |k: int| conv_coeff(a, b, q, k) as u64)
}

/// Coefficient-wise sum of `a` and `b` modulo `q`.
pub open spec fn spec_poly_add(a: Seq<u64>, b: Seq<u64>, q: u64) -> Seq<u64> {
    Seq::new(a.len(), |k: int| (((a[k] + b[k]) % (q as int)) as u64))
}

/// Coefficient-wise negation of `a` modulo `q`.
pub open spec fn spec_poly_neg(a: Seq<u64>, q: u64) -> Seq<u64> {
    Seq::new(a.len(), |k: int| (((-(a[k] as int)) % (q as int)) as u64))
}

/// Coefficient-wise scaling of `a` by the constant `c` modulo `q`.
pub open spec fn spec_poly_scale(c: u64, a: Seq<u64>, q: u64) -> Seq<u64> {
    Seq::new(a.len(), |k: int| (((c as int * a[k] as int) % (q as int)) as u64))
}

/// Negacyclic polynomial product.
pub fn poly_mul(a: &Vec<u64>, b: &Vec<u64>, q: u64) -> (r: Vec<u64>)
    requires
        q > 0,
        a@.len() == b@.len(),
        poly_wf(a@, q, a@.len()),
        poly_wf(b@, q, b@.len()),
    ensures
        r@ == spec_poly_mul(a@, b@, q),
        poly_wf(r@, q, a@.len()),
{
    let n = a.len();
    let mut r: Vec<u64> = Vec::new();
    for k in 0..n
        invariant
            n == a@.len(),
            a@.len() == b@.len(),
            q > 0,
            poly_wf(a@, q, a@.len()),
            poly_wf(b@, q, b@.len()),
            r@.len() == k,
            forall|j: int| 0 <= j < k ==> r@[j] == conv_coeff(a@, b@, q, j) as u64,
    {
        let mut acc: u64 = 0;
        proof {
            lemma_mod_bound(0, q as int);
            lemma_small_mod(0, q as nat);
        }
        for i in 0..n
            invariant
                n == a@.len(),
                a@.len() == b@.len(),
                q > 0,
                k < n,
                poly_wf(a@, q, a@.len()),
                poly_wf(b@, q, b@.len()),
                acc < q,
                acc as int == conv_psum(a@, b@, k as int, i as int) % (q as int),
        {
            let j: usize = if i <= k {
                k - i
            } else {
                n - (i - k)
            };
            let t = mod_mul(a[i], b[j], q);
            let ghost psum = conv_psum(a@, b@, k as int, i as int);
            let ghost term = conv_term(a@, b@, k as int, i as int);
            if i <= k {
                proof {
                    assert(term == (a@[i as int] as int) * (b@[j as int] as int));
                    lemma_add_mod_noop(psum, term, q as int);
                    lemma_mod_bound(psum + term, q as int);
                }
                acc = mod_add(acc, t, q);
            } else {
                let neg_t = mod_neg(t, q);
                proof {
                    let p = (a@[i as int] as int) * (b@[j as int] as int);
                    assert(term == -p);
                    // (-p) mod q equals (-(p mod q)) mod q.
                    lemma_fundamental_div_mod(p, q as int);
                    let d = p / (q as int);
                    lemma_mod_multiples_vanish(-d, -(t as int), q as int);
                    assert((q as int) * (-d) + -(t as int) == -p) by {
                        assert(p == (q as int) * d + t);
                        assert((q as int) * (-d) == -((q as int) * d)) by (nonlinear_arith);
                    }
                    assert((-p) % (q as int) == (-(t as int)) % (q as int));
                    lemma_neg_mod(t as int, q as int);
                    lemma_add_mod_noop(psum, -p, q as int);
                    lemma_mod_bound(psum + -p, q as int);
                }
                acc = mod_add(acc, neg_t, q);
            }
            proof {
                assert(conv_psum(a@, b@, k as int, i as int + 1) == psum + term);
            }
        }
        r.push(acc);
    }
    proof {
        assert(r@ =~= spec_poly_mul(a@, b@, q));
        assert forall|j: int| 0 <= j < r@.len() implies r@[j] < q by {
            lemma_mod_bound(conv_psum(a@, b@, j, a@.len() as int), q as int);
        }
    }
    r
}

/// Coefficient-wise polynomial addition.
pub fn poly_add(a: &Vec<u64>, b: &Vec<u64>, q: u64) -> (r: Vec<u64>)
    requires
        q > 0,
        a@.len() == b@.len(),
        poly_wf(a@, q, a@.len()),
        poly_wf(b@, q, b@.len()),
    ensures
        r@ == spec_poly_add(a@, b@, q),
        poly_wf(r@, q, a@.len()),
{
    let n = a.len();
    let mut r: Vec<u64> = Vec::new();
    for k in 0..n
        invariant
            n == a@.len(),
            a@.len() == b@.len(),
            q > 0,
            r@.len() == k,
            forall|j: int| 0 <= j < k ==> r@[j] == (((a@[j] + b@[j]) % (q as int)) as u64),
            forall|j: int| 0 <= j < k ==> r@[j] < q,
    {
        let c = mod_add(a[k], b[k], q);
        r.push(c);
    }
    proof {
        assert(r@ =~= spec_poly_add(a@, b@, q));
    }
    r
}

/// Coefficient-wise polynomial negation.
pub fn poly_neg(a: &Vec<u64>, q: u64) -> (r: Vec<u64>)
    requires
        q > 0,
        poly_wf(a@, q, a@.len()),
    ensures
        r@ == spec_poly_neg(a@, q),
        poly_wf(r@, q, a@.len()),
{
    let n = a.len();
    let mut r: Vec<u64> = Vec::new();
    for k in 0..n
        invariant
            n == a@.len(),
            q > 0,
            poly_wf(a@, q, a@.len()),
            r@.len() == k,
            forall|j: int| 0 <= j < k ==> r@[j] == (((-(a@[j] as int)) % (q as int)) as u64),
            forall|j: int| 0 <= j < k ==> r@[j] < q,
    {
        let c = mod_neg(a[k], q);
        r.push(c);
    }
    proof {
        assert(r@ =~= spec_poly_neg(a@, q));
    }
    r
}

/// Coefficient-wise scaling by a constant.
pub fn poly_scale(c: u64, a: &Vec<u64>, q: u64) -> (r: Vec<u64>)
    requires
        q > 0,
        poly_wf(a@, q, a@.len()),
    ensures
        r@ == spec_poly_scale(c, a@, q),
        poly_wf(r@, q, a@.len()),
{
    let n = a.len();
    let mut r: Vec<u64> = Vec::new();
    for k in 0..n
        invariant
            n == a@.len(),
            q > 0,
            poly_wf(a@, q, a@.len()),
            r@.len() == k,
            forall|j: int| 0 <= j < k ==> r@[j] == (((c as int * a@[j] as int) % (q as int)) as u64),
            forall|j: int| 0 <= j < k ==> r@[j] < q,
    {
        let x = mod_mul(c, a[k], q);
        r.push(x);
    }
    proof {
        assert(r@ =~= spec_poly_scale(c, a@, q));
    }
    r
}

/// Centered reduction: interprets `p[k]` as the small signed value
/// `p[k] - bias` and returns its residue modulo `q`.
pub open spec fn spec_reduce_centered(p: Seq<u64>, bias: u64, q: u64) -> Seq<u64> {
    Seq::new(p.len(), |k: int| (((p[k] - bias) % (q as int)) as u64))
}

/// Maps a polynomial of small offset-encoded signed coefficients (each in
/// `0 ..= 2 * bias`, standing for `-bias ..= bias`) to its residues mod `q`.
pub fn reduce_centered(p: &Vec<u64>, bias: u64, q: u64) -> (r: Vec<u64>)
    requires
        q > 2 * bias,
        forall|i: int| 0 <= i < p@.len() ==> p@[i] <= 2 * bias,
    ensures
        r@ == spec_reduce_centered(p@, bias, q),
        poly_wf(r@, q, p@.len()),
{
    let n = p.len();
    let mut r: Vec<u64> = Vec::new();
    for k in 0..n
        invariant
            n == p@.len(),
            q > 2 * bias,
            forall|i: int| 0 <= i < p@.len() ==> p@[i] <= 2 * bias,
            r@.len() == k,
            forall|j: int| 0 <= j < k ==> r@[j] == (((p@[j] - bias) % (q as int)) as u64),
            forall|j: int| 0 <= j < k ==> r@[j] < q,
    {
        let x = p[k];
        let c: u64 = if x >= bias {
            proof {
                lemma_small_mod((x - bias) as nat, q as nat);
            }
            x - bias
        } else {
            proof {
                let v = x as int - bias as int;
                lemma_mod_add_multiples_vanish(v, q as int);
                lemma_small_mod((v + q) as nat, q as nat);
            }
            q - (bias - x)
        };
        r.push(c);
    }
    proof {
        assert(r@ =~= spec_reduce_centered(p@, bias, q));
    }
    r
}

} // verus!
