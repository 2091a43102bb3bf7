//! Assembly of the public-inputs and private-witness bundles as JSON text.
//!
//! The output format is a fixed schema: the parameter set under `params`,
//! the public-key components under `pk0is` and `pk1is`, the ciphertext
//! under `c0is` and `c1is`, and, for the witness, the centered randomness
//! under `u`, `e0`, `e1` and the vote bit under `vote`.  Each renderer's
//! contract gives the exact character sequence produced.

use vstd::prelude::*;
use crate::codec::{hex_digit, hex_digit_str};
use crate::encrypt::{Ciphertext, EncryptionRandomness};
use crate::keys::PublicKey;
use crate::params::ParameterSet;
use vstd::string::StringExecFns;

verus! {

/// The decimal rendering of a natural number, no leading zeros.
pub open spec fn dec_str(n: nat) -> Seq<char>
    decreases n,
{
    if n < 10 {
        seq![hex_digit(n)]
    } else {
        dec_str(n / 10).push(hex_digit(n % 10))
    }
}

/// The decimal rendering of the signed value that offset `x` with `bias`
/// stands for: `x - bias`, with a leading minus sign when negative.
pub open spec fn centered_dec_str(x: u64, bias: u64) -> Seq<char> {
    if x >= bias {
        dec_str((x - bias) as nat)
    } else {
        seq!['-'] + dec_str((bias - x) as nat)
    }
}

/// A comma-separated list of decimal numbers.
pub open spec fn dec_list(v: Seq<u64>) -> Seq<char>
    decreases v.len(),
{
    if v.len() == 0 {
        Seq::empty()
    } else if v.len() == 1 {
        dec_str(v[0] as nat)
    } else {
        dec_list(v.drop_last()) + seq![','] + dec_str(v.last() as nat)
    }
}

/// A bracketed comma-separated list of decimal numbers.
pub open spec fn dec_array(v: Seq<u64>) -> Seq<char> {
    seq!['['] + dec_list(v) + seq![']']
}

/// A comma-separated list of centered signed numbers.
pub open spec fn centered_list(v: Seq<u64>, bias: u64) -> Seq<char>
    decreases v.len(),
{
    if v.len() == 0 {
        Seq::empty()
    } else if v.len() == 1 {
        centered_dec_str(v[0], bias)
    } else {
        centered_list(v.drop_last(), bias) + seq![','] + centered_dec_str(v.last(), bias)
    }
}

/// A bracketed comma-separated list of centered signed numbers.
pub open spec fn centered_array(v: Seq<u64>, bias: u64) -> Seq<char> {
    seq!['['] + centered_list(v, bias) + seq![']']
}

/// A comma-separated list of bracketed polynomials.
pub open spec fn polys_list(ps: Seq<Seq<u64>>) -> Seq<char>
    decreases ps.len(),
{
    if ps.len() == 0 {
        Seq::empty()
    } else if ps.len() == 1 {
        dec_array(ps[0])
    } else {
        polys_list(ps.drop_last()) + seq![','] + dec_array(ps.last())
    }
}

/// A bracketed array of bracketed polynomials.
pub open spec fn polys_array(ps: Seq<Seq<u64>>) -> Seq<char> {
    seq!['['] + polys_list(ps) + seq![']']
}

/// The JSON object describing a parameter set.
pub open spec fn json_of_params(ps: ParameterSet) -> Seq<char> {
    "{\"degree\":"@ + dec_str(ps.degree as nat) + ",\"plaintext_modulus\":"@ + dec_str(
        ps.plaintext_modulus as nat,
    ) + ",\"moduli\":"@ + dec_array(ps.moduli@) + "}"@
}

/// The public-inputs bundle: parameters, public key and ciphertext.
pub open spec fn json_of_inputs(ps: ParameterSet, pk: PublicKey, ct: Ciphertext) -> Seq<char> {
    "{\"params\":"@ + json_of_params(ps) + ",\"pk0is\":"@ + polys_array(pk.pk0s())
        + ",\"pk1is\":"@ + polys_array(pk.pk1s()) + ",\"c0is\":"@ + polys_array(ct.c0s())
        + ",\"c1is\":"@ + polys_array(ct.c1s()) + "}"@
}

/// The private-witness bundle: parameters, public key, centered encryption
/// randomness, and the vote bit.
pub open spec fn json_of_witness(
    ps: ParameterSet,
    pk: PublicKey,
    rnd: EncryptionRandomness,
    vote: u8,
) -> Seq<char> {
    "{\"params\":"@ + json_of_params(ps) + ",\"pk0is\":"@ + polys_array(pk.pk0s())
        + ",\"pk1is\":"@ + polys_array(pk.pk1s()) + ",\"u\":"@ + centered_array(rnd.u@, 1)
        + ",\"e0\":"@ + centered_array(rnd.e0@, 1) + ",\"e1\":"@ + centered_array(rnd.e1@, 1)
        + ",\"vote\":"@ + dec_str(vote as nat) + "}"@
}

/// Appends the decimal rendering of `x`.
fn append_dec(out: &mut String, x: u64)
    ensures
        final(out)@ == old(out)@ + dec_str(x as nat),
    decreases x,
{
    if x < 10 {
        out.append(hex_digit_str(x));
        proof {
            assert(out@ =~= old(out)@ + dec_str(x as nat));
        }
    } else {
        append_dec(out, x / 10);
        out.append(hex_digit_str(x % 10));
        proof {
            assert(out@ =~= old(out)@ + dec_str(x as nat));
        }
    }
}

/// Appends the decimal rendering of the centered value of `x` with `bias`.
fn append_centered_dec(out: &mut String, x: u64, bias: u64)
    ensures
        final(out)@ == old(out)@ + centered_dec_str(x, bias),
{
    if x >= bias {
        append_dec(out, x - bias);
        proof {
            assert(out@ =~= old(out)@ + centered_dec_str(x, bias));
        }
    } else {
        out.append("-");
        append_dec(out, bias - x);
        proof {
            reveal_strlit("-");
            assert("-"@ =~= seq!['-']);
            assert(out@ =~= old(out)@ + centered_dec_str(x, bias));
        }
    }
}

/// Appends a bracketed decimal list of the coefficients of `v`.
fn append_dec_array(out: &mut String, v: &Vec<u64>)
    ensures
        final(out)@ == old(out)@ + dec_array(v@),
{
    out.append("[");
    proof {
        reveal_strlit("[");
        assert("["@ =~= seq!['[']);
    }
    let ghost entry = out@;
    let n = v.len();
    for k in 0..n
        invariant
            n == v@.len(),
            out@ == entry + dec_list(v@.take(k as int)),
    {
        if k > 0 {
            out.append(",");
            proof {
                reveal_strlit(",");
                assert(","@ =~= seq![',']);
            }
        }
        append_dec(out, v[k]);
        proof {
            assert(v@.take(k as int + 1).drop_last() =~= v@.take(k as int));
            assert(v@.take(k as int + 1).last() == v@[k as int]);
            if k == 0 {
                assert(dec_list(v@.take(1)) == dec_str(v@[0] as nat));
            }
            assert(out@ =~= entry + dec_list(v@.take(k as int + 1)));
        }
    }
    out.append("]");
    proof {
        reveal_strlit("]");
        assert("]"@ =~= seq![']']);
        assert(v@.take(n as int) =~= v@);
        assert(out@ =~= old(out)@ + dec_array(v@));
    }
}

/// Appends a bracketed centered list of the coefficients of `v`.
fn append_centered_array(out: &mut String, v: &Vec<u64>, bias: u64)
    ensures
        final(out)@ == old(out)@ + centered_array(v@, bias),
{
    out.append("[");
    proof {
        reveal_strlit("[");
        assert("["@ =~= seq!['[']);
    }
    let ghost entry = out@;
    let n = v.len();
    for k in 0..n
        invariant
            n == v@.len(),
            out@ == entry + centered_list(v@.take(k as int), bias),
    {
        if k > 0 {
            out.append(",");
            proof {
                reveal_strlit(",");
                assert(","@ =~= seq![',']);
            }
        }
        append_centered_dec(out, v[k], bias);
        proof {
            assert(v@.take(k as int + 1).drop_last() =~= v@.take(k as int));
            assert(v@.take(k as int + 1).last() == v@[k as int]);
            if k == 0 {
                assert(centered_list(v@.take(1), bias) == centered_dec_str(v@[0], bias));
            }
            assert(out@ =~= entry + centered_list(v@.take(k as int + 1), bias));
        }
    }
    out.append("]");
    proof {
        reveal_strlit("]");
        assert("]"@ =~= seq![']']);
        assert(v@.take(n as int) =~= v@);
        assert(out@ =~= old(out)@ + centered_array(v@, bias));
    }
}

/// Appends a bracketed array of bracketed polynomials.
fn append_polys_array(out: &mut String, polys: &Vec<Vec<u64>>)
    ensures
        final(out)@ == old(out)@ + polys_array(polys.deep_view()),
{
    out.append("[");
    proof {
        reveal_strlit("[");
        assert("["@ =~= seq!['[']);
    }
    let ghost entry = out@;
    let n = polys.len();
    for i in 0..n
        invariant
            n == polys@.len(),
            out@ == entry + polys_list(polys.deep_view().take(i as int)),
    {
        if i > 0 {
            out.append(",");
            proof {
                reveal_strlit(",");
                assert(","@ =~= seq![',']);
            }
        }
        append_dec_array(out, &polys[i]);
        proof {
            let dv = polys.deep_view();
            assert(dv[i as int] =~= polys@[i as int]@);
            assert(dv.take(i as int + 1).drop_last() =~= dv.take(i as int));
            assert(dv.take(i as int + 1).last() == dv[i as int]);
            if i == 0 {
                assert(polys_list(dv.take(1)) == dec_array(dv[0]));
            }
            assert(out@ =~= entry + polys_list(dv.take(i as int + 1)));
        }
    }
    out.append("]");
    proof {
        reveal_strlit("]");
        assert("]"@ =~= seq![']']);
        assert(polys.deep_view().take(n as int) =~= polys.deep_view());
        assert(out@ =~= old(out)@ + polys_array(polys.deep_view()));
    }
}

/// Appends the JSON object describing the parameter set.
fn append_params(out: &mut String, ps: &ParameterSet)
    ensures
        final(out)@ == old(out)@ + json_of_params(*ps),
{
    out.append("{\"degree\":");
    append_dec(out, ps.degree as u64);
    out.append(",\"plaintext_modulus\":");
    append_dec(out, ps.plaintext_modulus);
    out.append(",\"moduli\":");
    append_dec_array(out, &ps.moduli);
    out.append("}");
    proof {
        assert(out@ =~= old(out)@ + json_of_params(*ps));
    }
}

/// Packages parameters, public key and ciphertext into the public-inputs
/// bundle: a pure data transformation with no failure modes.
pub fn assemble_inputs(ps: &ParameterSet, pk: &PublicKey, ct: &Ciphertext) -> (r: String)
    ensures
        r@ == json_of_inputs(*ps, *pk, *ct),
{
    let mut out = String::new();
    out.append("{\"params\":");
    append_params(&mut out, ps);
    out.append(",\"pk0is\":");
    append_polys_array(&mut out, &pk.pk0is);
    out.append(",\"pk1is\":");
    append_polys_array(&mut out, &pk.pk1is);
    out.append(",\"c0is\":");
    append_polys_array(&mut out, &ct.c0is);
    out.append(",\"c1is\":");
    append_polys_array(&mut out, &ct.c1is);
    out.append("}");
    proof {
        assert(out@ =~= json_of_inputs(*ps, *pk, *ct));
    }
    out
}

/// Packages parameters, public key, encryption randomness and the vote into
/// the private-witness bundle: a pure data transformation with no failure
/// modes.
pub fn assemble_witness(
    ps: &ParameterSet,
    pk: &PublicKey,
    rnd: &EncryptionRandomness,
    vote: u8,
) -> (r: String)
    ensures
        r@ == json_of_witness(*ps, *pk, *rnd, vote),
{
    let mut out = String::new();
    out.append("{\"params\":");
    append_params(&mut out, ps);
    out.append(",\"pk0is\":");
    append_polys_array(&mut out, &pk.pk0is);
    out.append(",\"pk1is\":");
    append_polys_array(&mut out, &pk.pk1is);
    out.append(",\"u\":");
    append_centered_array(&mut out, &rnd.u, 1);
    out.append(",\"e0\":");
    append_centered_array(&mut out, &rnd.e0, 1);
    out.append(",\"e1\":");
    append_centered_array(&mut out, &rnd.e1, 1);
    out.append(",\"vote\":");
    append_dec(&mut out, vote as u64);
    out.append("}");
    proof {
        assert(out@ =~= json_of_witness(*ps, *pk, *rnd, vote));
    }
    out
}

/// The two bundles embed the same parameter description: the object under
/// the `params` key of the inputs output equals, character for character,
/// the one under the `params` key of the witness output for the same
/// parameter set, whatever the other components are.
pub proof fn lemma_outputs_share_params(
    ps: ParameterSet,
    pk1: PublicKey,
    ct: Ciphertext,
    pk2: PublicKey,
    rnd: EncryptionRandomness,
    vote: u8,
)
    ensures
        json_of_inputs(ps, pk1, ct).subrange(10, 10 + json_of_params(ps).len() as int)
            == json_of_witness(ps, pk2, rnd, vote).subrange(
            10,
            10 + json_of_params(ps).len() as int,
        ),
        json_of_inputs(ps, pk1, ct).subrange(10, 10 + json_of_params(ps).len() as int)
            == json_of_params(ps),
{
    reveal_strlit("{\"params\":");
    assert("{\"params\":"@.len() == 10);
    assert(json_of_inputs(ps, pk1, ct).subrange(10, 10 + json_of_params(ps).len() as int)
        =~= json_of_params(ps));
    assert(json_of_witness(ps, pk2, rnd, vote).subrange(10, 10 + json_of_params(ps).len() as int)
        =~= json_of_params(ps));
}

} // verus!
