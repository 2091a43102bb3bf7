//! The string encoding of a public key.
//!
//! Every coefficient is written as exactly 16 hexadecimal digits, most
//! significant first: first all `pk0` polynomials in chain order, then all
//! `pk1` polynomials.  The decoder is specified as a total spec-level parser
//! so that failure is characterized exactly, and decoding is proved to
//! invert encoding.

use vstd::prelude::*;
use vstd::arithmetic::div_mod::lemma_fundamental_div_mod;
use crate::errors::ZkError;
use crate::keys::PublicKey;
use crate::params::ParameterSet;
use crate::poly::poly_wf;
use vstd::string::StrSliceExecFns;
use vstd::string::StringExecFns;

verus! {

/// The hexadecimal digit character of a value below 16.
pub open spec fn hex_digit(d: nat) -> char {
    if d == 0 {
        '0'
    } else if d == 1 {
        '1'
    } else if d == 2 {
        '2'
    } else if d == 3 {
        '3'
    } else if d == 4 {
        '4'
    } else if d == 5 {
        '5'
    } else if d == 6 {
        '6'
    } else if d == 7 {
        '7'
    } else if d == 8 {
        '8'
    } else if d == 9 {
        '9'
    } else if d == 10 {
        'a'
    } else if d == 11 {
        'b'
    } else if d == 12 {
        'c'
    } else if d == 13 {
        'd'
    } else if d == 14 {
        'e'
    } else {
        'f'
    }
}

/// The value of a hexadecimal digit character, or -1 for any other one.
pub open spec fn hex_val(c: char) -> int {
    if c == '0' {
        0
    } else if c == '1' {
        1
    } else if c == '2' {
        2
    } else if c == '3' {
        3
    } else if c == '4' {
        4
    } else if c == '5' {
        5
    } else if c == '6' {
        6
    } else if c == '7' {
        7
    } else if c == '8' {
        8
    } else if c == '9' {
        9
    } else if c == 'a' {
        10
    } else if c == 'b' {
        11
    } else if c == 'c' {
        12
    } else if c == 'd' {
        13
    } else if c == 'e' {
        14
    } else if c == 'f' {
        15
    } else {
        -1
    }
}

/// Fixed-width hexadecimal: `len` digits of `x`, most significant first.
pub open spec fn hex_rec(x: nat, len: nat) -> Seq<char>
    decreases len,
{
    if len == 0 {
        Seq::empty()
    } else {
        hex_rec(x / 16, (len - 1) as nat).push(hex_digit(x % 16))
    }
}

/// A 64-bit word as exactly 16 hexadecimal digits.
pub open spec fn hex16(x: u64) -> Seq<char> {
    hex_rec(x as nat, 16)
}

/// Sixteen to the power `len`.
pub open spec fn pow16(len: nat) -> nat
    decreases len,
{
    if len == 0 {
        1
    } else {
        16 * pow16((len - 1) as nat)
    }
}

/// Parses a block of hexadecimal digits, most significant first; any
/// non-digit character makes the whole block unparseable.
pub open spec fn parse_hex_block(b: Seq<char>) -> Option<nat>
    decreases b.len(),
{
    if b.len() == 0 {
        Some(0)
    } else if hex_val(b.last()) >= 0 {
        match parse_hex_block(b.drop_last()) {
            Some(h) => Some((h * 16 + hex_val(b.last())) as nat),
            None => None,
        }
    } else {
        None
    }
}

/// A word sequence rendered as contiguous 16-digit blocks.
pub open spec fn chars_of_words(w: Seq<u64>) -> Seq<char>
    decreases w.len(),
{
    if w.len() == 0 {
        Seq::empty()
    } else {
        hex16(w[0]) + chars_of_words(w.skip(1))
    }
}

/// Parses a character sequence as contiguous 16-digit blocks.
pub open spec fn parse_words(s: Seq<char>) -> Option<Seq<u64>>
    decreases s.len(),
{
    if s.len() == 0 {
        Some(Seq::empty())
    } else if s.len() < 16 {
        None
    } else {
        match parse_hex_block(s.take(16)) {
            Some(v) => match parse_words(s.skip(16)) {
                Some(rest) => Some(seq![(v % pow16(16)) as u64].add(rest)),
                None => None,
            },
            None => None,
        }
    }
}

/// The words of a polynomial sequence, flattened in order.
pub open spec fn words_of_polys(ps: Seq<Seq<u64>>) -> Seq<u64>
    decreases ps.len(),
{
    if ps.len() == 0 {
        Seq::empty()
    } else {
        ps[0] + words_of_polys(ps.skip(1))
    }
}

/// A polynomial sequence rendered as contiguous 16-digit blocks.
pub open spec fn chars_of_polys(ps: Seq<Seq<u64>>) -> Seq<char>
    decreases ps.len(),
{
    if ps.len() == 0 {
        Seq::empty()
    } else {
        chars_of_words(ps[0]) + chars_of_polys(ps.skip(1))
    }
}

/// The canonical string encoding of a public key: the `pk0` polynomials in
/// chain order, then the `pk1` polynomials.
pub open spec fn pk_chars(pk0s: Seq<Seq<u64>>, pk1s: Seq<Seq<u64>>) -> Seq<char> {
    chars_of_polys(pk0s) + chars_of_polys(pk1s)
}

/// The spec-level decoder: the string must parse as exactly `2 * n * d`
/// words whose per-modulus coefficients lie below their modulus.
pub open spec fn decode_pk_spec(s: Seq<char>, ps: ParameterSet) -> Option<
    (Seq<Seq<u64>>, Seq<Seq<u64>>),
> {
    let n = ps.moduli@.len() as int;
    let d = ps.degree as int;
    match parse_words(s) {
        Some(w) => {
            let pk0s = Seq::new(n as nat, |i: int| w.subrange(i * d, (i + 1) * d));
            let pk1s = Seq::new(n as nat, |i: int| w.subrange((n + i) * d, (n + i + 1) * d));
            if w.len() == 2 * n * d && (forall|i: int|
                0 <= i < n ==> poly_wf(#[trigger] pk0s[i], ps.moduli@[i], ps.degree as nat))
                && (forall|i: int|
                0 <= i < n ==> poly_wf(#[trigger] pk1s[i], ps.moduli@[i], ps.degree as nat)) {
                Some((pk0s, pk1s))
            } else {
                None
            }
        },
        None => None,
    }
}

proof fn lemma_hex_digit_val(d: nat)
    requires
        d < 16,
    ensures
        hex_val(hex_digit(d)) == d,
{
}

proof fn lemma_hex_rec_len(x: nat, len: nat)
    ensures
        hex_rec(x, len).len() == len,
    decreases len,
{
    if len > 0 {
        lemma_hex_rec_len(x / 16, (len - 1) as nat);
    }
}

proof fn lemma_pow16_positive(len: nat)
    ensures
        pow16(len) >= 1,
    decreases len,
{
    if len > 0 {
        lemma_pow16_positive((len - 1) as nat);
    }
}

/// Parsing inverts fixed-width rendering.
proof fn lemma_parse_hex_rec(x: nat, len: nat)
    requires
        x < pow16(len),
    ensures
        parse_hex_block(hex_rec(x, len)) == Some(x),
    decreases len,
{
    if len == 0 {
        assert(x == 0);
        assert(hex_rec(x, len) =~= Seq::<char>::empty());
    } else {
        let s = hex_rec(x, len);
        lemma_hex_rec_len(x / 16, (len - 1) as nat);
        assert(s.last() == hex_digit(x % 16));
        assert(s.drop_last() =~= hex_rec(x / 16, (len - 1) as nat));
        lemma_hex_digit_val(x % 16);
        assert(x / 16 < pow16((len - 1) as nat)) by {
            lemma_pow16_positive((len - 1) as nat);
            let p = pow16((len - 1) as nat);
            if x / 16 >= p {
                lemma_fundamental_div_mod(x as int, 16);
                assert(16 * (x as int / 16) >= 16 * p) by (nonlinear_arith)
                    requires
                        x as int / 16 >= p,
                        p >= 0,
                ;
            }
        }
        lemma_parse_hex_rec(x / 16, (len - 1) as nat);
        lemma_fundamental_div_mod(x as int, 16);
    }
}

/// A parsed block is bounded by 16 to the block width.
proof fn lemma_parse_block_bound(b: Seq<char>)
    ensures
        parse_hex_block(b) matches Some(v) ==> v < pow16(b.len()),
    decreases b.len(),
{
    if b.len() > 0 && parse_hex_block(b) is Some {
        lemma_parse_block_bound(b.drop_last());
        let h = parse_hex_block(b.drop_last()).unwrap();
        let p = pow16((b.len() - 1) as nat);
        assert(h * 16 + 15 < 16 * p) by (nonlinear_arith)
            requires
                h < p,
        ;
    }
}

/// A non-digit character anywhere makes a block unparseable.
proof fn lemma_parse_block_bad_char(b: Seq<char>, t: int)
    requires
        0 <= t < b.len(),
        hex_val(b[t]) < 0,
    ensures
        parse_hex_block(b) is None,
    decreases b.len(),
{
    if t == b.len() - 1 {
    } else {
        lemma_parse_block_bad_char(b.drop_last(), t);
    }
}

/// Rendering distributes over word concatenation.
proof fn lemma_chars_of_words_concat(w1: Seq<u64>, w2: Seq<u64>)
    ensures
        chars_of_words(w1 + w2) == chars_of_words(w1) + chars_of_words(w2),
    decreases w1.len(),
{
    if w1.len() == 0 {
        assert(w1 + w2 =~= w2);
        assert(chars_of_words(w1) + chars_of_words(w2) =~= chars_of_words(w2));
    } else {
        assert((w1 + w2).skip(1) =~= w1.skip(1) + w2);
        lemma_chars_of_words_concat(w1.skip(1), w2);
        assert(chars_of_words(w1 + w2) =~= chars_of_words(w1) + chars_of_words(w2));
    }
}

/// Appending one word appends its block.
proof fn lemma_chars_of_words_push(w: Seq<u64>, x: u64)
    ensures
        chars_of_words(w.push(x)) == chars_of_words(w) + hex16(x),
{
    assert(w.push(x) =~= w + seq![x]);
    lemma_chars_of_words_concat(w, seq![x]);
    assert(seq![x].skip(1) =~= Seq::<u64>::empty());
    assert(chars_of_words(seq![x]) == hex16(seq![x][0]) + chars_of_words(seq![x].skip(1)));
    assert(seq![x][0] == x);
    assert(chars_of_words(seq![x].skip(1)) == Seq::<char>::empty());
    assert(hex16(x) + Seq::<char>::empty() =~= hex16(x));
    assert(chars_of_words(w.push(x)) =~= chars_of_words(w) + hex16(x));
}

/// The rendering of a word sequence has 16 characters per word.
proof fn lemma_chars_of_words_len(w: Seq<u64>)
    ensures
        chars_of_words(w).len() == 16 * w.len(),
    decreases w.len(),
{
    if w.len() > 0 {
        lemma_hex_rec_len(w[0] as nat, 16);
        lemma_chars_of_words_len(w.skip(1));
    }
}

/// Parsing inverts rendering for whole word sequences.
proof fn lemma_parse_words_round_trip(w: Seq<u64>)
    ensures
        parse_words(chars_of_words(w)) == Some(w),
    decreases w.len(),
{
    if w.len() == 0 {
        assert(chars_of_words(w).len() == 0);
        assert(parse_words(chars_of_words(w)) == Some(Seq::<u64>::empty()));
        assert(Seq::<u64>::empty() =~= w);
    } else {
        let s = chars_of_words(w);
        lemma_hex_rec_len(w[0] as nat, 16);
        lemma_chars_of_words_len(w.skip(1));
        assert(s.take(16) =~= hex16(w[0]));
        assert(s.skip(16) =~= chars_of_words(w.skip(1)));
        assert((w[0] as nat) < pow16(16)) by {
            lemma_pow16_16();
        }
        lemma_parse_hex_rec(w[0] as nat, 16);
        lemma_parse_words_round_trip(w.skip(1));
        vstd::arithmetic::div_mod::lemma_small_mod(w[0] as nat, pow16(16));
        assert(seq![((w[0] as nat) % pow16(16)) as u64].add(w.skip(1)) =~= w);
    }
}

/// 16 to the 16th is 2 to the 64th.
proof fn lemma_pow16_16()
    ensures
        pow16(16) == 0x1_0000_0000_0000_0000,
{
    assert(pow16(16) == 0x1_0000_0000_0000_0000) by {
        reveal_with_fuel(pow16, 18);
    }
}

/// Rendering a polynomial sequence renders its flattened words.
proof fn lemma_chars_of_polys_words(ps: Seq<Seq<u64>>)
    ensures
        chars_of_polys(ps) == chars_of_words(words_of_polys(ps)),
    decreases ps.len(),
{
    if ps.len() == 0 {
        assert(chars_of_polys(ps) =~= chars_of_words(words_of_polys(ps)));
    } else {
        lemma_chars_of_polys_words(ps.skip(1));
        lemma_chars_of_words_concat(ps[0], words_of_polys(ps.skip(1)));
        assert(chars_of_polys(ps) =~= chars_of_words(words_of_polys(ps)));
    }
}

/// Flattened length of a uniform-degree polynomial sequence.
proof fn lemma_words_of_polys_len(ps: Seq<Seq<u64>>, d: nat)
    requires
        forall|i: int| 0 <= i < ps.len() ==> (#[trigger] ps[i]).len() == d,
    ensures
        words_of_polys(ps).len() == ps.len() * d,
    decreases ps.len(),
{
    if ps.len() == 0 {
    } else {
        lemma_words_of_polys_len(ps.skip(1), d);
        assert(ps.len() * d == d + (ps.len() - 1) * d) by (nonlinear_arith);
    }
}

/// Extracting block `i` of the flattened words recovers polynomial `i`.
proof fn lemma_words_of_polys_index(ps: Seq<Seq<u64>>, d: nat, i: int)
    requires
        forall|j: int| 0 <= j < ps.len() ==> (#[trigger] ps[j]).len() == d,
        0 <= i < ps.len(),
    ensures
        words_of_polys(ps).subrange(i * (d as int), (i + 1) * (d as int)) == ps[i],
    decreases i,
{
    lemma_words_of_polys_len(ps, d);
    let w = words_of_polys(ps);
    let di = d as int;
    assert(0 <= i * di && (i + 1) * di <= w.len() as int) by (nonlinear_arith)
        requires
            0 <= i < ps.len(),
            w.len() == ps.len() * d,
            di == d,
    ;
    assert(ps[0].len() == d);
    if i == 0 {
        assert(di <= ps.len() * di) by (nonlinear_arith)
            requires
                ps.len() >= 1,
                di >= 0,
        ;
        assert(w.subrange(0, di) =~= ps[0]);
        assert(i * (d as int) == 0) by (nonlinear_arith)
            requires
                i == 0,
        ;
        assert((i + 1) * (d as int) == di) by (nonlinear_arith)
            requires
                i == 0,
                di == d as int,
        ;
        assert(words_of_polys(ps).subrange(0, di) == ps[0]);
        assert(words_of_polys(ps).subrange(i * (d as int), (i + 1) * (d as int)) == ps[i]);
    } else {
        lemma_words_of_polys_len(ps.skip(1), d);
        lemma_words_of_polys_index(ps.skip(1), d, i - 1);
        assert(ps.skip(1)[i - 1] == ps[i]);
        assert((i - 1) * di == i * di - di) by (nonlinear_arith);
        assert(i * di == (i - 1) * di + di) by (nonlinear_arith);
        assert((i + 1) * di == i * di + di) by (nonlinear_arith);
        assert(i * di >= di) by (nonlinear_arith)
            requires
                i >= 1,
                di >= 0,
        ;
        assert(i * di <= (ps.len() - 1) * di) by (nonlinear_arith)
            requires
                i <= ps.len() - 1,
                di >= 0,
        ;
        let rest = words_of_polys(ps.skip(1));
        assert(rest.len() == (ps.len() - 1) * di);
        assert forall|m: int| 0 <= m < di implies #[trigger] w[i * di + m] == rest[(i - 1) * di
            + m] by {
            assert(w[i * di + m] == rest[i * di + m - di]);
        }
        assert(w.subrange(i * di, (i + 1) * di) =~= rest.subrange((i - 1) * di, i * di));
        assert(rest.subrange((i - 1) * di, ((i - 1) + 1) * di) == ps.skip(1)[i - 1]);
        assert(rest.subrange((i - 1) * di, i * di) == rest.subrange((i - 1) * di, ((i - 1) + 1) * di));
        assert(words_of_polys(ps).subrange(i * (d as int), (i + 1) * (d as int)) == ps[i]);
    }
}

/// Decoding the canonical encoding of a well-formed public key yields
/// exactly its components: the structural round trip of the key codec.
pub proof fn lemma_pk_codec_round_trip(pk: PublicKey, ps: ParameterSet)
    requires
        ps.wf(),
        pk.wf(ps),
    ensures
        decode_pk_spec(pk_chars(pk.pk0s(), pk.pk1s()), ps) == Some((pk.pk0s(), pk.pk1s())),
{
    let n = ps.moduli@.len() as int;
    let d = ps.degree as int;
    let w0 = words_of_polys(pk.pk0s());
    let w1 = words_of_polys(pk.pk1s());
    let w = w0 + w1;
    let s = pk_chars(pk.pk0s(), pk.pk1s());
    assert forall|j: int| 0 <= j < pk.pk0s().len() implies (#[trigger] pk.pk0s()[j]).len()
        == ps.degree as nat by {
        assert(poly_wf(pk.pk0s()[j], ps.moduli@[j], ps.degree as nat));
    }
    assert forall|j: int| 0 <= j < pk.pk1s().len() implies (#[trigger] pk.pk1s()[j]).len()
        == ps.degree as nat by {
        assert(poly_wf(pk.pk1s()[j], ps.moduli@[j], ps.degree as nat));
    }
    lemma_chars_of_polys_words(pk.pk0s());
    lemma_chars_of_polys_words(pk.pk1s());
    lemma_chars_of_words_concat(w0, w1);
    assert(s == chars_of_words(w));
    lemma_parse_words_round_trip(w);
    lemma_words_of_polys_len(pk.pk0s(), ps.degree as nat);
    lemma_words_of_polys_len(pk.pk1s(), ps.degree as nat);
    assert(w.len() == 2 * n * d) by (nonlinear_arith)
        requires
            w.len() == w0.len() + w1.len(),
            w0.len() == n * d,
            w1.len() == n * d,
    ;
    let pk0s = Seq::new(n as nat, |i: int| w.subrange(i * d, (i + 1) * d));
    let pk1s = Seq::new(n as nat, |i: int| w.subrange((n + i) * d, (n + i + 1) * d));
    assert forall|i: int| 0 <= i < n implies pk0s[i] == pk.pk0s()[i] by {
        lemma_words_of_polys_index(pk.pk0s(), ps.degree as nat, i);
        assert(0 <= i * d && (i + 1) * d <= n * d && n * d <= 2 * n * d && (i + 1) * d == i * d
            + d) by (nonlinear_arith)
            requires
                0 <= i < n,
                d >= 0,
        ;
        assert(w.subrange(i * d, (i + 1) * d) =~= w0.subrange(i * d, (i + 1) * d));
    }
    assert forall|i: int| 0 <= i < n implies pk1s[i] == pk.pk1s()[i] by {
        lemma_words_of_polys_index(pk.pk1s(), ps.degree as nat, i);
        assert((n + i) * d == n * d + i * d && (n + i + 1) * d == n * d + (i + 1) * d && 0 <= i
            * d && (i + 1) * d <= n * d && n * d <= 2 * n * d && (i + 1) * d == i * d + d)
            by (nonlinear_arith)
            requires
                0 <= i < n,
                d >= 0,
        ;
        assert(w.subrange((n + i) * d, (n + i + 1) * d) =~= w1.subrange(i * d, (i + 1) * d));
    }
    assert(pk0s =~= pk.pk0s());
    assert(pk1s =~= pk.pk1s());
}

/// One hexadecimal digit as a string slice.
pub(crate) fn hex_digit_str(d: u64) -> (r: &'static str)
    requires
        d < 16,
    ensures
        r@ == seq![hex_digit(d as nat)],
{
    let r = match d {
        0 => "0",
        1 => "1",
        2 => "2",
        3 => "3",
        4 => "4",
        5 => "5",
        6 => "6",
        7 => "7",
        8 => "8",
        9 => "9",
        10 => "a",
        11 => "b",
        12 => "c",
        13 => "d",
        14 => "e",
        _ => "f",
    };
    proof {
        reveal_strlit("0");
        reveal_strlit("1");
        reveal_strlit("2");
        reveal_strlit("3");
        reveal_strlit("4");
        reveal_strlit("5");
        reveal_strlit("6");
        reveal_strlit("7");
        reveal_strlit("8");
        reveal_strlit("9");
        reveal_strlit("a");
        reveal_strlit("b");
        reveal_strlit("c");
        reveal_strlit("d");
        reveal_strlit("e");
        reveal_strlit("f");
        assert(r@ =~= seq![hex_digit(d as nat)]);
    }
    r
}

/// Appends the fixed-width rendering of the low `len` digits of `x`.
fn append_hex_rec(out: &mut String, x: u64, len: usize)
    requires
        len <= 16,
    ensures
        final(out)@ == old(out)@ + hex_rec(x as nat, len as nat),
    decreases len,
{
    if len == 0 {
        proof {
            assert(out@ =~= old(out)@ + hex_rec(x as nat, 0));
        }
    } else {
        append_hex_rec(out, x / 16, len - 1);
        let d = x % 16;
        out.append(hex_digit_str(d));
        proof {
            assert(out@ =~= old(out)@ + hex_rec(x as nat, len as nat));
        }
    }
}

/// Appends the blocks of every coefficient of every polynomial.
fn append_polys(out: &mut String, polys: &Vec<Vec<u64>>)
    ensures
        final(out)@ == old(out)@ + chars_of_polys(polys.deep_view()),
{
    let n = polys.len();
    for i in 0..n
        invariant
            n == polys@.len(),
            out@ == old(out)@ + chars_of_polys(polys.deep_view().take(i as int)),
    {
        let p = &polys[i];
        let m = p.len();
        let ghost entry = out@;
        for k in 0..m
            invariant
                m == p@.len(),
                p == &polys@[i as int],
                out@ == entry + chars_of_words(p@.take(k as int)),
        {
            let ghost before = out@;
            append_hex_rec(out, p[k], 16);
            proof {
                assert(p@.take(k as int + 1).drop_last() =~= p@.take(k as int));
                assert(p@.take(k as int + 1) =~= p@.take(k as int).push(p@[k as int]));
                lemma_chars_of_words_push(p@.take(k as int), p@[k as int]);
                assert(out@ =~= entry + chars_of_words(p@.take(k as int + 1)));
            }
        }
        proof {
            assert(p@.take(m as int) =~= p@);
            let dv = polys.deep_view();
            assert(dv[i as int] =~= polys@[i as int]@);
            assert(dv.take(i as int + 1) =~= dv.take(i as int).push(dv[i as int]));
            lemma_chars_of_polys_push(dv.take(i as int), dv[i as int]);
            assert(out@ =~= old(out)@ + chars_of_polys(dv.take(i as int + 1)));
        }
    }
    proof {
        assert(polys.deep_view().take(n as int) =~= polys.deep_view());
    }
}

/// Appending one polynomial appends its rendering.
proof fn lemma_chars_of_polys_push(ps: Seq<Seq<u64>>, p: Seq<u64>)
    ensures
        chars_of_polys(ps.push(p)) == chars_of_polys(ps) + chars_of_words(p),
    decreases ps.len(),
{
    if ps.len() == 0 {
        assert(ps.push(p).skip(1) =~= Seq::<Seq<u64>>::empty());
        assert(ps.push(p)[0] =~= p);
        assert(chars_of_polys(ps.push(p)) == chars_of_words(ps.push(p)[0]) + chars_of_polys(
            ps.push(p).skip(1),
        ));
        assert(chars_of_polys(ps.push(p).skip(1)) == Seq::<char>::empty());
        assert(chars_of_words(p) + Seq::<char>::empty() =~= chars_of_words(p));
        assert(chars_of_polys(ps) == Seq::<char>::empty());
        assert(Seq::<char>::empty() + chars_of_words(p) =~= chars_of_words(p));
        assert(chars_of_polys(ps.push(p)) =~= chars_of_polys(ps) + chars_of_words(p));
    } else {
        assert(ps.push(p).skip(1) =~= ps.skip(1).push(p));
        lemma_chars_of_polys_push(ps.skip(1), p);
        assert(ps.push(p)[0] =~= ps[0]);
        assert(chars_of_polys(ps.push(p)) =~= chars_of_polys(ps) + chars_of_words(p));
    }
}

/// Encodes a public key as its canonical hexadecimal string.
pub fn encode_public_key(pk: &PublicKey, ps: &ParameterSet) -> (r: String)
    requires
        ps.wf(),
        pk.wf(*ps),
    ensures
        r@ == pk_chars(pk.pk0s(), pk.pk1s()),
{
    let mut out = String::new();
    append_polys(&mut out, &pk.pk0is);
    append_polys(&mut out, &pk.pk1is);
    proof {
        assert(out@ =~= pk_chars(pk.pk0s(), pk.pk1s()));
    }
    out
}

/// The value of one hexadecimal digit character, if it is one.
fn hex_val_exec(c: char) -> (r: Option<u64>)
    ensures
        r matches Some(v) ==> v < 16 && hex_val(c) == v,
        r is None ==> hex_val(c) < 0,
{
    match c {
        '0' => Some(0),
        '1' => Some(1),
        '2' => Some(2),
        '3' => Some(3),
        '4' => Some(4),
        '5' => Some(5),
        '6' => Some(6),
        '7' => Some(7),
        '8' => Some(8),
        '9' => Some(9),
        'a' => Some(10),
        'b' => Some(11),
        'c' => Some(12),
        'd' => Some(13),
        'e' => Some(14),
        'f' => Some(15),
        _ => None,
    }
}

/// Decodes a public-key string against a parameter set.  Succeeds exactly
/// when the spec-level decoder does, and then returns its value.
pub fn decode_public_key(s: &str, ps: &ParameterSet) -> (r: Result<PublicKey, ZkError>)
    requires
        ps.wf(),
    ensures
        r matches Ok(pk) ==> decode_pk_spec(s@, *ps) == Some((pk.pk0s(), pk.pk1s())) && pk.wf(
            *ps,
        ),
        r is Ok <==> decode_pk_spec(s@, *ps) is Some,
        r matches Err(e) ==> e == ZkError::InvalidPublicKey,
{
    let n_mod = ps.moduli.len();
    let degree = ps.degree;
    let total_chars = s.unicode_len();
    proof {
        assert((n_mod as u64) <= 1024 && (degree as u64) <= 65536);
        assert(2 * (n_mod as u64) * (degree as u64) <= 2 * 1024 * 65536) by (nonlinear_arith)
            requires
                (n_mod as u64) <= 1024,
                (degree as u64) <= 65536,
        ;
    }
    let n_words_u64: u64 = 2 * (n_mod as u64) * (degree as u64);
    if (total_chars as u64) != 16 * n_words_u64 {
        proof {
            lemma_decode_len_mismatch(s@, *ps);
        }
        return Err(ZkError::InvalidPublicKey);
    }
    proof {
        assert((2 * n_mod) * degree <= 2 * 1024 * 65536) by (nonlinear_arith)
            requires
                n_mod <= 1024,
                degree <= 65536,
        ;
    }
    let n_words: usize = (2 * n_mod) * degree;
    let mut words: Vec<u64> = Vec::new();
    proof {
        assert(s@.skip(0) =~= s@);
        let r0 = parse_words(s@);
        if r0 is Some {
            assert(Seq::<u64>::empty() + r0->Some_0 =~= r0->Some_0);
        }
    }
    for b in 0..n_words
        invariant
            ps.wf(),
            n_mod == ps.moduli@.len(),
            degree == ps.degree,
            n_words == 2 * n_mod * degree,
            n_words <= 0x8000000,
            s@.len() == 16 * n_words,
            words@.len() == b,
            parse_words(s@.skip(16 * b as int)) matches Some(rest) ==> parse_words(s@)
                == Some(words@ + rest),
            parse_words(s@.skip(16 * b as int)) is None ==> parse_words(s@) is None,
    {
        let ghost tail = s@.skip(16 * b as int);
        proof {
            assert(tail.len() == 16 * n_words - 16 * b >= 16);
        }
        let mut v: u64 = 0;
        let mut bad: bool = false;
        for t in 0..16
            invariant
                s@.len() == 16 * n_words,
                b < n_words,
                n_words <= 0x8000000,
                tail == s@.skip(16 * b as int),
                !bad ==> parse_hex_block(tail.take(16).take(t as int)) == Some(v as nat),
                !bad ==> (v as nat) < pow16(t as nat),
                bad ==> parse_hex_block(tail.take(16)) is None,
        {
            if !bad {
                let idx: usize = 16 * b + t;
                let c = s.get_char(idx);
                proof {
                    assert(tail.take(16)[t as int] == s@[idx as int]);
                }
                match hex_val_exec(c) {
                    Some(d) => {
                        proof {
                            lemma_pow16_16();
                            lemma_pow16_monotone(t as nat, 15);
                            assert((v as nat) < pow16(15));
                            assert(16 * (v as nat) + 15 < 16 * pow16(15)) by (nonlinear_arith)
                                requires
                                    (v as nat) < pow16(15),
                            ;
                            let blk = tail.take(16);
                            assert(blk.take(t as int + 1).drop_last() =~= blk.take(t as int));
                            assert(blk.take(t as int + 1).last() == c);
                        }
                        v = 16 * v + d;
                    },
                    None => {
                        proof {
                            lemma_parse_block_bad_char(tail.take(16), t as int);
                        }
                        bad = true;
                    },
                }
            }
        }
        if bad {
            proof {
                assert(parse_words(tail) is None);
            }
            return Err(ZkError::InvalidPublicKey);
        }
        let ghost words_before = words@;
        words.push(v);
        proof {
            assert(tail.take(16).take(16) =~= tail.take(16));
            assert(parse_hex_block(tail.take(16)) == Some(v as nat));
            lemma_pow16_16();
            vstd::arithmetic::div_mod::lemma_small_mod(v as nat, pow16(16));
            assert(s@.skip(16 * (b + 1) as int) =~= tail.skip(16));
            if parse_words(tail.skip(16)) is Some {
                let rest = parse_words(tail.skip(16)).unwrap();
                assert(parse_words(tail) == Some(seq![v].add(rest)));
                assert(words_before + seq![v].add(rest) =~= words_before.push(v) + rest);
            }
        }
    }
    proof {
        assert(s@.skip(16 * n_words as int) =~= Seq::<char>::empty());
        assert(parse_words(Seq::<char>::empty()) == Some(Seq::<u64>::empty()));
        assert(words@ + Seq::<u64>::empty() =~= words@);
        assert(parse_words(s@) == Some(words@));
    }
    let mut pk0is: Vec<Vec<u64>> = Vec::new();
    let mut pk1is: Vec<Vec<u64>> = Vec::new();
    let ghost w = words@;
    let ghost n = n_mod as int;
    let ghost d = degree as int;
    for i in 0..n_mod
        invariant
            ps.wf(),
            n_mod == ps.moduli@.len(),
            degree == ps.degree,
            n == n_mod as int,
            d == degree as int,
            w == words@,
            parse_words(s@) == Some(w),
            words@.len() == 2 * n_mod * degree,
            words@.len() <= 0x8000000,
            pk0is.deep_view().len() == i,
            forall|j: int|
                0 <= j < i ==> #[trigger] pk0is.deep_view()[j] =~= w.subrange(j * d, (j + 1) * d),
            forall|j: int|
                0 <= j < i ==> poly_wf(
                    #[trigger] pk0is.deep_view()[j],
                    ps.moduli@[j],
                    degree as nat,
                ),
    {
        let q = ps.moduli[i];
        let mut p: Vec<u64> = Vec::new();
        proof {
            assert(0 <= i as int * (degree as int) && i as int * (degree as int) + (degree as int) <= 2 * (n_mod as int) * (degree as int) && 2 * (n_mod as int) * (degree as int) <= 2 * 1024 * 65536) by (nonlinear_arith)
                requires
                    0 <= (i as int) && (i as int) < (n_mod as int),
                    0 <= (degree as int) && (degree as int) <= 65536,
                    (n_mod as int) <= 1024,
            ;
            assert(n == n_mod as int && d == degree as int);
        }
        let base: usize = i * degree;
        for k in 0..degree
            invariant
                degree == ps.degree,
                w == words@,
                parse_words(s@) == Some(w),
                words@.len() == 2 * n_mod * degree,
                words@.len() <= 0x8000000,
                n_mod == ps.moduli@.len(),
                i < n_mod,
                n == n_mod as int,
                d == degree as int,
                base == i * degree,
                base + degree <= words@.len(),
                q == ps.moduli@[i as int],
                p@.len() == k,
                forall|j: int| 0 <= j < k ==> p@[j] == w[base as int + j],
                forall|j: int| 0 <= j < k ==> p@[j] < q,
        {
            let x = words[base + k];
            if x >= q {
                proof {
                    lemma_decode_bad_coeff(s@, *ps, w, i as int, k as int, true);
                }
                return Err(ZkError::InvalidPublicKey);
            }
            p.push(x);
        }
        let ghost dv = pk0is.deep_view();
        pk0is.push(p);
        proof {
            assert(p.deep_view() =~= p@);
            assert(pk0is.deep_view() =~= dv.push(p@));
            assert((i as int + 1) * d == i as int * d + d) by (nonlinear_arith);
            assert(p@ =~= w.subrange(i as int * d, (i as int + 1) * d));
        }
    }
    for i in 0..n_mod
        invariant
            ps.wf(),
            n_mod == ps.moduli@.len(),
            degree == ps.degree,
            n == n_mod as int,
            d == degree as int,
            w == words@,
            parse_words(s@) == Some(w),
            words@.len() == 2 * n_mod * degree,
            words@.len() <= 0x8000000,
            pk1is.deep_view().len() == i,
            forall|j: int|
                0 <= j < i ==> #[trigger] pk1is.deep_view()[j] =~= w.subrange(
                    (n + j) * d,
                    (n + j + 1) * d,
                ),
            forall|j: int|
                0 <= j < i ==> poly_wf(
                    #[trigger] pk1is.deep_view()[j],
                    ps.moduli@[j],
                    degree as nat,
                ),
    {
        let q = ps.moduli[i];
        let mut p: Vec<u64> = Vec::new();
        proof {
            assert(0 <= ((n_mod as int) + i as int) * (degree as int) && ((n_mod as int) + i as int) * (degree as int) + (degree as int) <= 2 * (n_mod as int) * (degree as int) && 2 * (n_mod as int) * (degree as int) <= 2 * 1024 * 65536) by (nonlinear_arith)
                requires
                    0 <= (i as int) && (i as int) < (n_mod as int),
                    0 <= (degree as int) && (degree as int) <= 65536,
                    (n_mod as int) <= 1024,
            ;
            assert(n == n_mod as int && d == degree as int);
        }
        let base: usize = (n_mod + i) * degree;
        for k in 0..degree
            invariant
                degree == ps.degree,
                w == words@,
                parse_words(s@) == Some(w),
                words@.len() == 2 * n_mod * degree,
                words@.len() <= 0x8000000,
                n_mod == ps.moduli@.len(),
                i < n_mod,
                n == n_mod as int,
                d == degree as int,
                base == (n_mod + i) * degree,
                base + degree <= words@.len(),
                q == ps.moduli@[i as int],
                p@.len() == k,
                forall|j: int| 0 <= j < k ==> p@[j] == w[base as int + j],
                forall|j: int| 0 <= j < k ==> p@[j] < q,
        {
            let x = words[base + k];
            if x >= q {
                proof {
                    lemma_decode_bad_coeff(s@, *ps, w, i as int, k as int, false);
                }
                return Err(ZkError::InvalidPublicKey);
            }
            p.push(x);
        }
        let ghost dv = pk1is.deep_view();
        pk1is.push(p);
        proof {
            assert(p.deep_view() =~= p@);
            assert(pk1is.deep_view() =~= dv.push(p@));
            assert((n + i as int + 1) * d == (n + i as int) * d + d) by (nonlinear_arith);
            assert(p@ =~= w.subrange((n + i as int) * d, (n + i as int + 1) * d));
        }
    }
    let pk = PublicKey { pk0is, pk1is };
    proof {
        assert(w.len() == 2 * n * d) by (nonlinear_arith)
            requires
                w.len() == 2 * (n_mod as int) * (degree as int),
                n == n_mod as int,
                d == degree as int,
        ;
        let pk0s = Seq::new(n as nat, |i: int| w.subrange(i * d, (i + 1) * d));
        let pk1s = Seq::new(n as nat, |i: int| w.subrange((n + i) * d, (n + i + 1) * d));
        assert(pk.pk0s() =~= pk0s);
        assert(pk.pk1s() =~= pk1s);
        assert(decode_pk_spec(s@, *ps) == Some((pk0s, pk1s)));
    }
    Ok(pk)
}

/// A string of the wrong total length decodes to nothing.
proof fn lemma_decode_len_mismatch(s: Seq<char>, ps: ParameterSet)
    requires
        s.len() != 16 * (2 * ps.moduli@.len() * ps.degree as nat),
    ensures
        decode_pk_spec(s, ps) is None,
{
    if parse_words(s) is Some {
        let word_count = parse_words(s).unwrap();
        lemma_parse_words_len(s);
    }
}

/// A successful word parse consumes exactly 16 characters per word.
proof fn lemma_parse_words_len(s: Seq<char>)
    ensures
        parse_words(s) matches Some(w) ==> s.len() == 16 * w.len(),
    decreases s.len(),
{
    if s.len() >= 16 && parse_words(s) is Some {
        lemma_parse_words_len(s.skip(16));
    }
}

/// A coefficient at or above its modulus fails the spec decoder's range
/// check.
proof fn lemma_decode_bad_coeff(
    s: Seq<char>,
    ps: ParameterSet,
    w: Seq<u64>,
    i: int,
    k: int,
    first: bool,
)
    requires
        parse_words(s) == Some(w),
        w.len() == 2 * ps.moduli@.len() * ps.degree as nat,
        0 <= i < ps.moduli@.len(),
        0 <= k < ps.degree as int,
        first ==> w[i * (ps.degree as int) + k] >= ps.moduli@[i],
        !first ==> w[(ps.moduli@.len() + i) * (ps.degree as int) + k] >= ps.moduli@[i],
    ensures
        decode_pk_spec(s, ps) is None,
{
    let n = ps.moduli@.len() as int;
    let d = ps.degree as int;
    assert(0 <= i * d && (i + 1) * d <= n * d && 0 <= (n + i) * d && (n + i + 1) * d <= 2 * n * d
        && (i + 1) * d == i * d + d && (n + i + 1) * d == (n + i) * d + d && n * d <= 2 * n * d)
        by (nonlinear_arith)
        requires
            0 <= i < n,
            d >= 1,
    ;
    let pk0s = Seq::new(n as nat, |j: int| w.subrange(j * d, (j + 1) * d));
    let pk1s = Seq::new(n as nat, |j: int| w.subrange((n + j) * d, (n + j + 1) * d));
    if first {
        assert(pk0s[i][k] == w[i * d + k]);
        assert(!poly_wf(pk0s[i], ps.moduli@[i], ps.degree as nat));
    } else {
        assert(pk1s[i][k] == w[(n + i) * d + k]);
        assert(!poly_wf(pk1s[i], ps.moduli@[i], ps.degree as nat));
    }
}

/// Any power of 16 divides a later one's bound: monotonicity of `pow16`.
proof fn lemma_pow16_monotone(a: nat, b: nat)
    requires
        a <= b,
    ensures
        pow16(a) <= pow16(b),
    decreases b,
{
    if a < b {
        lemma_pow16_monotone(a, (b - 1) as nat);
        lemma_pow16_positive((b - 1) as nat);
    }
}

} // verus!
