//! The immutable description of the scheme: ring degree, RNS modulus chain,
//! and plaintext modulus.

use vstd::prelude::*;
use vstd::arithmetic::div_mod::{lemma_fundamental_div_mod, lemma_mod_multiples_basic};

verus! {

/// `n` has no divisor `d` with `2 <= d <= bound`.
pub open spec fn divides_none_upto(n: nat, bound: nat) -> bool
    decreases bound,
{
    if bound < 2 {
        true
    } else {
        n % bound != 0 && divides_none_upto(n, (bound - 1) as nat)
    }
}

/// Primality by trial division: `n >= 2` and nothing below `n` divides it.
pub open spec fn is_prime(n: nat) -> bool {
    n >= 2 && divides_none_upto(n, (n - 1) as nat)
}

/// `n` is a positive power of two.
pub open spec fn is_power_of_two(n: nat) -> bool
    decreases n,
{
    if n == 0 {
        false
    } else if n == 1 {
        true
    } else {
        n % 2 == 0 && is_power_of_two(n / 2)
    }
}

proof fn lemma_divides_none_upto_at(n: nat, bound: nat, d: nat)
    requires
        divides_none_upto(n, bound),
        2 <= d <= bound,
    ensures
        n % d != 0,
    decreases bound,
{
    if d < bound {
        lemma_divides_none_upto_at(n, (bound - 1) as nat, d);
    }
}

proof fn lemma_no_divisor_upto(n: nat, bound: nat)
    requires
        forall|d: nat| 2 <= d <= bound ==> #[trigger] (n % d) != 0,
    ensures
        divides_none_upto(n, bound),
    decreases bound,
{
    if bound >= 2 {
        assert(n % bound != 0);
        lemma_no_divisor_upto(n, (bound - 1) as nat);
    }
}

/// Trial division up to the square root suffices: a composite number has a
/// nontrivial divisor no larger than its square root.
pub proof fn lemma_prime_by_sqrt_bound(n: nat, s: nat)
    requires
        n >= 2,
        divides_none_upto(n, s),
        (s + 1) * (s + 1) > n,
    ensures
        is_prime(n),
{
    assert forall|d: nat| 2 <= d <= n - 1 implies #[trigger] (n % d) != 0 by {
        if n % d == 0 {
            lemma_fundamental_div_mod(n as int, d as int);
            let e = n / d;
            assert(n == d * e);
            assert(e != 0) by {
                if e == 0 {
                    assert(d * 0 == 0) by (nonlinear_arith);
                }
            }
            assert(e != 1) by {
                if e == 1 {
                    assert(d * 1 == d) by (nonlinear_arith);
                }
            }
            if d <= s {
                lemma_divides_none_upto_at(n, s, d);
            } else if e <= s {
                lemma_divides_none_upto_at(n, s, e);
                assert(n % e == 0) by {
                    lemma_mod_multiples_basic(d as int, e as int);
                    assert(d * e == e * d) by (nonlinear_arith);
                }
            } else {
                assert(d * e >= (s + 1) * (s + 1)) by (nonlinear_arith)
                    requires
                        d >= s + 1,
                        e >= s + 1,
                ;
            }
        }
    }
    lemma_no_divisor_upto(n, (n - 1) as nat);
}

/// Trial-division primality test.
pub fn check_prime(n: u64) -> (b: bool)
    ensures
        b == is_prime(n as nat),
{
    if n < 2 {
        return false;
    }
    let mut d: u64 = 2;
    while d < n
        invariant
            2 <= d <= n,
            divides_none_upto(n as nat, (d - 1) as nat),
        decreases n - d,
    {
        if n % d == 0 {
            proof {
                if is_prime(n as nat) {
                    lemma_divides_none_upto_at(n as nat, (n - 1) as nat, d as nat);
                }
            }
            return false;
        }
        d = d + 1;
    }
    true
}

/// Whether `n` is a positive power of two, by repeated halving.
pub fn check_power_of_two(n: usize) -> (b: bool)
    ensures
        b == is_power_of_two(n as nat),
{
    if n == 0 {
        return false;
    }
    let mut m: usize = n;
    while m > 1
        invariant
            m >= 1,
            is_power_of_two(n as nat) == is_power_of_two(m as nat),
        decreases m,
    {
        if m % 2 != 0 {
            return false;
        }
        m = m / 2;
    }
    true
}

/// Largest ring degree this library accepts; keeps every size computation
/// (coefficient counts, encoded lengths) far below `usize` and `u64` limits.
pub const MAX_DEGREE: usize = 65536;

/// Largest modulus-chain length this library accepts.
pub const MAX_MODULI: usize = 1024;

/// Immutable description of the encryption scheme's ring degree and RNS
/// modulus chain.  Constructed once and read-only thereafter.
pub struct ParameterSet {
    /// Ring degree: the number of coefficients of every polynomial.
    pub degree: usize,
    /// The ordered chain of prime moduli.
    pub moduli: Vec<u64>,
    /// The plaintext modulus; every chain modulus exceeds it.
    pub plaintext_modulus: u64,
}

/// The arithmetic invariant a parameter set must satisfy: a power-of-two
/// degree, a nonempty chain of pairwise distinct primes, each exceeding the
/// plaintext modulus, and bounds that machine arithmetic forces.
pub open spec fn params_valid(degree: nat, moduli: Seq<u64>, plaintext_modulus: u64) -> bool {
    &&& is_power_of_two(degree)
    &&& degree <= MAX_DEGREE as nat
    &&& 1 <= moduli.len() <= MAX_MODULI as nat
    &&& plaintext_modulus >= 2
    &&& forall|i: int| 0 <= i < moduli.len() ==> is_prime(#[trigger] moduli[i] as nat)
    &&& forall|i: int| 0 <= i < moduli.len() ==> #[trigger] moduli[i] > plaintext_modulus
    &&& forall|i: int, j: int|
        0 <= i < moduli.len() && 0 <= j < moduli.len() && i != j ==> moduli[i] != moduli[j]
}

impl ParameterSet {
    /// The invariant of a constructed parameter set.
    pub open spec fn wf(self) -> bool {
        params_valid(self.degree as nat, self.moduli@, self.plaintext_modulus)
    }

    /// Validates and constructs a parameter set.  Fails with
    /// `InvalidParameters` exactly when the proposed values break the
    /// arithmetic invariant.
    pub fn new(degree: usize, moduli: Vec<u64>, plaintext_modulus: u64) -> (r: Result<
        ParameterSet,
        crate::errors::ZkError,
    >)
        ensures
            r matches Ok(p) ==> p.degree == degree && p.moduli@ == moduli@
                && p.plaintext_modulus == plaintext_modulus && p.wf(),
            r is Ok <==> params_valid(degree as nat, moduli@, plaintext_modulus),
            r matches Err(e) ==> e == crate::errors::ZkError::InvalidParameters,
    {
        if !check_power_of_two(degree) || degree > MAX_DEGREE {
            return Err(crate::errors::ZkError::InvalidParameters);
        }
        if moduli.len() < 1 || moduli.len() > MAX_MODULI {
            return Err(crate::errors::ZkError::InvalidParameters);
        }
        if plaintext_modulus < 2 {
            return Err(crate::errors::ZkError::InvalidParameters);
        }
        let n = moduli.len();
        for i in 0..n
            invariant
                n == moduli@.len(),
                forall|k: int| 0 <= k < i ==> is_prime(#[trigger] moduli@[k] as nat),
                forall|k: int| 0 <= k < i ==> #[trigger] moduli@[k] > plaintext_modulus,
        {
            if !check_prime(moduli[i]) || moduli[i] <= plaintext_modulus {
                return Err(crate::errors::ZkError::InvalidParameters);
            }
        }
        for i in 0..n
            invariant
                n == moduli@.len(),
                forall|k: int, l: int|
                    0 <= k < i && 0 <= l < n && k != l ==> moduli@[k] != moduli@[l],
        {
            for j in 0..n
                invariant
                    n == moduli@.len(),
                    i < n,
                    forall|k: int, l: int|
                        0 <= k < i && 0 <= l < n && k != l ==> moduli@[k] != moduli@[l],
                    forall|l: int| 0 <= l < j && l != i ==> moduli@[i as int] != moduli@[l],
            {
                if j != i && moduli[j] == moduli[i] {
                    return Err(crate::errors::ZkError::InvalidParameters);
                }
            }
        }
        Ok(ParameterSet { degree, moduli, plaintext_modulus })
    }

    /// The per-modulus plaintext scaling factor `q_i / t`, the usual
    /// encoding gap between message space and ciphertext space.
    pub fn delta(&self, i: usize) -> (r: u64)
        requires
            self.wf(),
            i < self.moduli@.len(),
        ensures
            r == self.moduli@[i as int] as int / self.plaintext_modulus as int,
            r >= 1,
    {
        proof {
            assert(self.moduli@[i as int] as int / self.plaintext_modulus as int >= 1) by {
                vstd::arithmetic::div_mod::lemma_div_is_ordered(
                    self.plaintext_modulus as int,
                    self.moduli@[i as int] as int,
                    self.plaintext_modulus as int,
                );
                vstd::arithmetic::div_mod::lemma_div_by_self(self.plaintext_modulus as int);
            }
        }
        proof {
            assert(self.moduli@[i as int] as int / self.plaintext_modulus as int >= 1) by {
                vstd::arithmetic::div_mod::lemma_div_is_ordered(
                    self.plaintext_modulus as int,
                    self.moduli@[i as int] as int,
                    self.plaintext_modulus as int,
                );
                vstd::arithmetic::div_mod::lemma_div_by_self(self.plaintext_modulus as int);
            }
        }
        self.moduli[i] / self.plaintext_modulus
    }
}

/// The library's default parameter set: ring degree 64 over the prime chain
/// `[193, 257]` with plaintext modulus 17.  The sizes are demonstration
/// scale; `ParameterSet::new` accepts any chain that meets the invariant.
#[verifier::rlimit(100)]
pub fn default_parameter_set() -> (r: ParameterSet)
    ensures
        r.wf(),
        r.degree == 64,
        r.moduli@ == seq![193u64, 257u64],
        r.plaintext_modulus == 17,
{
    let mut moduli: Vec<u64> = Vec::new();
    moduli.push(193);
    moduli.push(257);
    proof {
        assert(moduli@ =~= seq![193u64, 257u64]);
        assert(is_power_of_two(64)) by {
            reveal_with_fuel(is_power_of_two, 8);
        }
        assert(is_prime(193)) by {
            assert(divides_none_upto(193, 13)) by {
                reveal_with_fuel(divides_none_upto, 16);
            }
            assert((13 + 1) * (13 + 1) > 193) by (nonlinear_arith);
            lemma_prime_by_sqrt_bound(193, 13);
        }
        assert(is_prime(257)) by {
            assert(divides_none_upto(257, 16)) by {
                reveal_with_fuel(divides_none_upto, 18);
            }
            assert((16 + 1) * (16 + 1) > 257) by (nonlinear_arith);
            lemma_prime_by_sqrt_bound(257, 16);
        }
    }
    ParameterSet { degree: 64, moduli, plaintext_modulus: 17 }
}

} // verus!
