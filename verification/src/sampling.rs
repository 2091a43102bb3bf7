//! Randomness sampling for keys and encryption.
//!
//! The only trusted item is the draw of one machine word.  Nothing is
//! promised of a random value; every function that consumes one states what
//! holds of every possible outcome, so all downstream reasoning is valid for
//! whatever the generator returns.

use vstd::prelude::*;
use crate::poly::poly_wf;

verus! {

/// Relies on rand::random: one fresh word from the thread-local generator.
/// Nothing is promised of the value.
#[verifier::external_body]
fn random_u64() -> u64 {
    rand::random::<u64>()
}

/// A fresh draw reduced below `q`.  Only the range is stated: the value is
/// random and two calls may differ.
pub fn sample_below(q: u64) -> (r: u64)
    requires
        q > 0,
    ensures
        r < q,
{
    let x = random_u64();
    x % q
}

/// A fresh polynomial of `n` coefficients drawn below `q`.
pub fn sample_uniform_poly(n: usize, q: u64) -> (r: Vec<u64>)
    requires
        q > 0,
    ensures
        poly_wf(r@, q, n as nat),
{
    let mut r: Vec<u64> = Vec::new();
    for k in 0..n
        invariant
            q > 0,
            r@.len() == k,
            forall|i: int| 0 <= i < k ==> r@[i] < q,
    {
        let x = sample_below(q);
        r.push(x);
    }
    r
}

/// A fresh polynomial of `n` small offset-encoded signed coefficients: each
/// value lies in `0 ..= 2 * bias` and stands for a signed coefficient in
/// `-bias ..= bias`.
pub fn sample_offset_poly(n: usize, bias: u64) -> (r: Vec<u64>)
    requires
        bias < 1000,
    ensures
        r@.len() == n,
        forall|i: int| 0 <= i < r@.len() ==> r@[i] <= 2 * bias,
{
    let mut r: Vec<u64> = Vec::new();
    for k in 0..n
        invariant
            bias < 1000,
            r@.len() == k,
            forall|i: int| 0 <= i < k ==> r@[i] <= 2 * bias,
    {
        let x = sample_below(2 * bias + 1);
        r.push(x);
    }
    r
}

} // verus!
