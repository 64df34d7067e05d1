//! Arithmetic in GF(2^8) with the reduction polynomial x^8+x^4+x^3+x+1
//! (0x11b), as used by the threshold secret-sharing scheme.
//!
//! Addition is XOR; multiplication is carry-less polynomial multiplication
//! followed by reduction, specified by eight shift-and-add rounds.

use vstd::prelude::*;

verus! {

/// Multiplication by x in GF(2^8): shift left and reduce.
pub open spec fn gf_xtime(a: u8) -> u8 {
    if a >= 128 {
        (a << 1u8) ^ 0x1b
    } else {
        a << 1u8
    }
}

/// Shift-and-add multiplication, `rounds` bits of `b` left to consume.
pub open spec fn gf_mul_aux(a: u8, b: u8, rounds: nat) -> u8
    decreases rounds,
{
    if rounds == 0 {
        0
    } else {
        (if b & 1 == 1 {
            a
        } else {
            0
        }) ^ gf_mul_aux(gf_xtime(a), b >> 1u8, (rounds - 1) as nat)
    }
}

/// The product of two field elements.
pub open spec fn gf_mul(a: u8, b: u8) -> u8 {
    gf_mul_aux(a, b, 8)
}

/// The `e`-th power of a field element.
pub open spec fn gf_pow(a: u8, e: nat) -> u8
    decreases e,
{
    if e == 0 {
        1
    } else {
        gf_mul(a, gf_pow(a, (e - 1) as nat))
    }
}

/// The multiplicative inverse of a nonzero field element, as a^254.
pub open spec fn gf_inv(a: u8) -> u8 {
    gf_pow(a, 254)
}

/// Evaluation of a polynomial given by its coefficients, constant term
/// first, at a point.
pub open spec fn gf_poly_eval(coeffs: Seq<u8>, x: u8) -> u8
    decreases coeffs.len(),
{
    if coeffs.len() == 0 {
        0
    } else {
        coeffs[0] ^ gf_mul(x, gf_poly_eval(coeffs.skip(1), x))
    }
}

/// The product of the points `xs[j]` for `j >= from`, skipping index `skip`.
pub open spec fn lag_num(xs: Seq<u8>, skip: int, from: int) -> u8
    decreases xs.len() - from,
{
    if from >= xs.len() || from < 0 {
        1
    } else if from == skip {
        lag_num(xs, skip, from + 1)
    } else {
        gf_mul(xs[from], lag_num(xs, skip, from + 1))
    }
}

/// The product of the differences `xs[j] - xs[skip]` (XOR in GF(2^8)) for
/// `j >= from`, skipping index `skip`.
pub open spec fn lag_den(xs: Seq<u8>, skip: int, from: int) -> u8
    decreases xs.len() - from,
{
    if from >= xs.len() || from < 0 {
        1
    } else if from == skip {
        lag_den(xs, skip, from + 1)
    } else {
        gf_mul(xs[from] ^ xs[skip], lag_den(xs, skip, from + 1))
    }
}

/// The Lagrange interpolation at zero of the points `(xs[i], ys[i])` for
/// `i >= from`: the sum of `ys[i] * num_i / den_i`.
pub open spec fn lagrange_interp_zero(xs: Seq<u8>, ys: Seq<u8>, from: int) -> u8
    decreases xs.len() - from,
{
    if from >= xs.len() || from < 0 {
        0
    } else {
        gf_mul(ys[from], gf_mul(lag_num(xs, from, 0), gf_inv(lag_den(xs, from, 0))))
            ^ lagrange_interp_zero(xs, ys, from + 1)
    }
}

// ---------------------------------------------------------------------------
// Field algebra
// ---------------------------------------------------------------------------

/// Multiplication is commutative.
#[verifier::rlimit(100)]
#[verifier::spinoff_prover]
pub proof fn lemma_mul_comm(a: u8, b: u8)
    ensures
        gf_mul(a, b) == gf_mul(b, a),
{
    assert(gf_mul(a, b) == gf_mul(b, a)) by (bit_vector);
}

/// Multiplying by x commutes with multiplication.
#[verifier::rlimit(100)]
#[verifier::spinoff_prover]
proof fn lemma_xtime_swap(a: u8, b: u8)
    ensures
        gf_xtime(gf_mul(a, b)) == gf_mul(a, gf_xtime(b)),
{
    let u = gf_mul(a, b);
    let w = gf_xtime(b);
    assert(gf_xtime(u) == gf_mul(a, w)) by (bit_vector)
        requires
            u == gf_mul(a, b),
            w == gf_xtime(b),
    ;
}

/// The shift-and-add recursion pulls a left factor out.
proof fn lemma_assoc_aux(a: u8, b: u8, c: u8, r: nat)
    ensures
        gf_mul_aux(gf_mul(a, b), c, r) == gf_mul(a, gf_mul_aux(b, c, r)),
    decreases r,
{
    if r == 0 {
        lemma_mul_units(a);
    } else {
        lemma_xtime_swap(a, b);
        lemma_assoc_aux(a, gf_xtime(b), c >> 1u8, (r - 1) as nat);
        let t: u8 = if c & 1 == 1 {
            b
        } else {
            0
        };
        lemma_mul_dist(a, t, gf_mul_aux(gf_xtime(b), c >> 1u8, (r - 1) as nat));
        lemma_mul_units(a);
        assert(gf_mul_aux(gf_mul(a, b), c, r) == (if c & 1 == 1 {
            gf_mul(a, b)
        } else {
            0
        }) ^ gf_mul_aux(gf_xtime(gf_mul(a, b)), c >> 1u8, (r - 1) as nat));
        assert(gf_mul_aux(b, c, r) == t ^ gf_mul_aux(gf_xtime(b), c >> 1u8, (r - 1) as nat));
    }
}

/// Multiplication is associative.
pub proof fn lemma_mul_assoc(a: u8, b: u8, c: u8)
    ensures
        gf_mul(gf_mul(a, b), c) == gf_mul(a, gf_mul(b, c)),
{
    lemma_assoc_aux(a, b, c, 8);
}

/// Multiplication distributes over addition (XOR).
#[verifier::rlimit(100)]
#[verifier::spinoff_prover]
pub proof fn lemma_mul_dist(a: u8, b: u8, c: u8)
    ensures
        gf_mul(a, b ^ c) == gf_mul(a, b) ^ gf_mul(a, c),
{
    assert(gf_mul(a, b ^ c) == gf_mul(a, b) ^ gf_mul(a, c)) by (bit_vector);
}

/// Zero and one are the usual units.
pub proof fn lemma_mul_units(a: u8)
    ensures
        gf_mul(a, 0) == 0,
        gf_mul(0, a) == 0,
        gf_mul(a, 1) == a,
        gf_mul(1, a) == a,
{
    assert(gf_mul(a, 0) == 0 && gf_mul(0, a) == 0 && gf_mul(a, 1) == a && gf_mul(1, a) == a)
        by (bit_vector);
}

/// The field has no zero divisors.
#[verifier::rlimit(100)]
#[verifier::spinoff_prover]
pub proof fn lemma_mul_nonzero(a: u8, b: u8)
    requires
        a != 0,
        b != 0,
    ensures
        gf_mul(a, b) != 0,
{
    assert(a != 0 && b != 0 ==> gf_mul(a, b) != 0) by (bit_vector);
}

/// Exponents add under multiplication.
proof fn lemma_pow_add(a: u8, m: nat, n: nat)
    ensures
        gf_pow(a, m + n) == gf_mul(gf_pow(a, m), gf_pow(a, n)),
    decreases n,
{
    if n == 0 {
        lemma_mul_units(gf_pow(a, m));
    } else {
        lemma_pow_add(a, m, (n - 1) as nat);
        lemma_mul_assoc(a, gf_pow(a, m), gf_pow(a, (n - 1) as nat));
        lemma_mul_comm(a, gf_pow(a, m));
        lemma_mul_assoc(gf_pow(a, m), a, gf_pow(a, (n - 1) as nat));
        assert(gf_pow(a, m + n) == gf_mul(a, gf_pow(a, (m + n - 1) as nat)));
        assert((m + n - 1) as nat == m + ((n - 1) as nat));
    }
}

/// Every nonzero element has a working inverse: by the Frobenius identity
/// a^256 == a (squaring is linear), exponent arithmetic and cancellation.
#[verifier::spinoff_prover]
pub proof fn lemma_inv(a: u8)
    requires
        a != 0,
    ensures
        gf_mul(a, gf_inv(a)) == 1,
{
    lemma_mul_units(a);
    assert(gf_pow(a, 0) == 1);
    assert(gf_pow(a, 1) == gf_mul(a, 1));
    let s2 = gf_mul(a, a);
    lemma_pow_add(a, 1, 1);
    assert(gf_pow(a, 2) == s2);
    let s4 = gf_mul(s2, s2);
    lemma_pow_add(a, 2, 2);
    assert(gf_pow(a, 4) == s4);
    let s8 = gf_mul(s4, s4);
    lemma_pow_add(a, 4, 4);
    assert(gf_pow(a, 8) == s8);
    let s16 = gf_mul(s8, s8);
    lemma_pow_add(a, 8, 8);
    assert(gf_pow(a, 16) == s16);
    let s32 = gf_mul(s16, s16);
    lemma_pow_add(a, 16, 16);
    assert(gf_pow(a, 32) == s32);
    let s64 = gf_mul(s32, s32);
    lemma_pow_add(a, 32, 32);
    assert(gf_pow(a, 64) == s64);
    let s128 = gf_mul(s64, s64);
    lemma_pow_add(a, 64, 64);
    assert(gf_pow(a, 128) == s128);
    let s256 = gf_mul(s128, s128);
    lemma_pow_add(a, 128, 128);
    assert(gf_pow(a, 256) == s256);
    // Frobenius: eight squarings return to the element itself.
    assert(s256 == a) by (bit_vector)
        requires
            s2 == gf_mul(a, a),
            s4 == gf_mul(s2, s2),
            s8 == gf_mul(s4, s4),
            s16 == gf_mul(s8, s8),
            s32 == gf_mul(s16, s16),
            s64 == gf_mul(s32, s32),
            s128 == gf_mul(s64, s64),
            s256 == gf_mul(s128, s128),
    ;
    // a^256 == a * a^255 and a == a * 1; cancel a.
    assert(gf_pow(a, 256) == gf_mul(a, gf_pow(a, 255)));
    lemma_mul_cancel(a, gf_pow(a, 255), 1);
    // a^255 == a * a^254.
    assert(gf_pow(a, 255) == gf_mul(a, gf_pow(a, 254)));
}

/// Cancellation: no zero divisors, so equal products under a nonzero
/// factor have equal cofactors.
pub proof fn lemma_mul_cancel(a: u8, u: u8, v: u8)
    requires
        a != 0,
        gf_mul(a, u) == gf_mul(a, v),
    ensures
        u == v,
{
    lemma_mul_dist(a, u, v);
    if u != v {
        assert(u ^ v != 0) by (bit_vector)
            requires
                u != v,
        ;
        lemma_mul_nonzero(a, u ^ v);
        assert(gf_mul(a, u) ^ gf_mul(a, v) == 0) by (bit_vector)
            requires
                gf_mul(a, u) == gf_mul(a, v),
        ;
    }
}

// ---------------------------------------------------------------------------
// Lagrange interpolation recovers the constant term
// ---------------------------------------------------------------------------

/// Powers of one are one; in particular one is its own inverse.
proof fn lemma_inv_one()
    ensures
        gf_inv(1) == 1,
{
    assert forall|e: nat| e <= 254 implies gf_pow(1, e) == 1 by {
        lemma_pow_one(e);
    }
}

/// Powers of one are one.
proof fn lemma_pow_one(e: nat)
    ensures
        gf_pow(1, e) == 1,
    decreases e,
{
    if e > 0 {
        lemma_pow_one((e - 1) as nat);
        lemma_mul_units(1);
    }
}

/// Multiplication distributes over addition on the left as well.
proof fn lemma_mul_dist_left(a: u8, b: u8, c: u8)
    ensures
        gf_mul(a ^ b, c) == gf_mul(a, c) ^ gf_mul(b, c),
{
    lemma_mul_comm(a ^ b, c);
    lemma_mul_dist(c, a, b);
    lemma_mul_comm(c, a);
    lemma_mul_comm(c, b);
}

/// The inverse of a product is the product of the inverses.
proof fn lemma_inv_mul(x: u8, y: u8)
    requires
        x != 0,
        y != 0,
    ensures
        gf_inv(gf_mul(x, y)) == gf_mul(gf_inv(x), gf_inv(y)),
{
    let p = gf_mul(x, y);
    lemma_mul_nonzero(x, y);
    lemma_inv(p);
    lemma_inv(x);
    lemma_inv(y);
    // p * (x^-1 * y^-1) == 1 by rearrangement.
    lemma_mul_assoc(x, y, gf_mul(gf_inv(x), gf_inv(y)));
    lemma_mul_comm(gf_inv(x), gf_inv(y));
    lemma_mul_assoc(y, gf_inv(y), gf_inv(x));
    assert(gf_mul(y, gf_mul(gf_inv(y), gf_inv(x))) == gf_mul(gf_mul(y, gf_inv(y)), gf_inv(x)));
    lemma_mul_units(gf_inv(x));
    assert(gf_mul(p, gf_mul(gf_inv(x), gf_inv(y))) == gf_mul(x, gf_inv(x)));
    // cancel p against both candidate inverses.
    lemma_mul_cancel(p, gf_inv(p), gf_mul(gf_inv(x), gf_inv(y)));
}

/// All points are pairwise different.
pub open spec fn distinct_points(xs: Seq<u8>) -> bool {
    forall|i: int, j: int| 0 <= i < j < xs.len() ==> xs[i] != xs[j]
}

/// No point is zero.
pub open spec fn nonzero_points(xs: Seq<u8>) -> bool {
    forall|i: int| 0 <= i < xs.len() ==> xs[i] != 0
}

/// The Lagrange basis value at zero for point `i`.
pub open spec fn gf_basis(xs: Seq<u8>, i: int) -> u8 {
    gf_mul(lag_num(xs, i, 0), gf_inv(lag_den(xs, i, 0)))
}

/// One summand of the interpolation.
pub open spec fn gf_term(xs: Seq<u8>, ys: Seq<u8>, i: int) -> u8 {
    gf_mul(ys[i], gf_basis(xs, i))
}

/// The all-ones weight vector.
pub open spec fn ones(n: int) -> Seq<u8> {
    Seq::new(n as nat, |i: int| 1u8)
}

/// The evaluations of a polynomial at every point.
pub open spec fn evals_at(c: Seq<u8>, xs: Seq<u8>) -> Seq<u8> {
    Seq::new(xs.len(), |i: int| gf_poly_eval(c, xs[i]))
}

/// A `lag_num` whose skip index lies outside `[from, len)` is the plain
/// product; any two such skip indices give the same value.
proof fn lemma_num_no_skip(s: Seq<u8>, k1: int, k2: int, from: int)
    requires
        !(from <= k1 < s.len()),
        !(from <= k2 < s.len()),
    ensures
        lag_num(s, k1, from) == lag_num(s, k2, from),
    decreases s.len() - from,
{
    if 0 <= from < s.len() {
        lemma_num_no_skip(s, k1, k2, from + 1);
    }
}

/// Factor one point out of the full product.
proof fn lemma_num_factor(s: Seq<u8>, i: int, from: int)
    requires
        0 <= from <= i < s.len(),
    ensures
        lag_num(s, s.len() as int, from) == gf_mul(s[i], lag_num(s, i, from)),
    decreases i - from,
{
    if from == i {
        lemma_num_no_skip(s, s.len() as int, i, from + 1);
    } else {
        lemma_num_factor(s, i, from + 1);
        lemma_mul_assoc(s[from], s[i], lag_num(s, i, from + 1));
        lemma_mul_comm(s[from], s[i]);
        lemma_mul_assoc(s[i], s[from], lag_num(s, i, from + 1));
    }
}

/// Dropping the last point divides the numerator product by it.
proof fn lemma_num_prefix(xs: Seq<u8>, i: int, from: int)
    requires
        xs.len() >= 2,
        0 <= i < xs.len() - 1,
        0 <= from <= xs.len() - 1,
    ensures
        lag_num(xs, i, from) == gf_mul(xs[xs.len() - 1], lag_num(xs.take(xs.len() - 1), i, from)),
    decreases xs.len() - from,
{
    let m = xs.len() - 1;
    let prefix = xs.take(m);
    if from == m {
        assert(lag_num(xs, i, m + 1) == 1);
        assert(lag_num(prefix, i, from) == 1);
        lemma_mul_units(xs[m]);
    } else {
        lemma_num_prefix(xs, i, from + 1);
        assert(prefix[from] == xs[from]);
        if from != i {
            lemma_mul_assoc(xs[from], xs[m], lag_num(prefix, i, from + 1));
            lemma_mul_comm(xs[from], xs[m]);
            lemma_mul_assoc(xs[m], xs[from], lag_num(prefix, i, from + 1));
        }
    }
}

/// Dropping the last point divides the denominator product by the
/// difference against it.
proof fn lemma_den_prefix(xs: Seq<u8>, i: int, from: int)
    requires
        xs.len() >= 2,
        0 <= i < xs.len() - 1,
        0 <= from <= xs.len() - 1,
    ensures
        lag_den(xs, i, from) == gf_mul(
            xs[xs.len() - 1] ^ xs[i],
            lag_den(xs.take(xs.len() - 1), i, from),
        ),
    decreases xs.len() - from,
{
    let m = xs.len() - 1;
    let prefix = xs.take(m);
    if from == m {
        assert(lag_den(xs, i, m + 1) == 1);
        assert(lag_den(prefix, i, from) == 1);
        lemma_mul_units(xs[m] ^ xs[i]);
    } else {
        lemma_den_prefix(xs, i, from + 1);
        assert(prefix[from] == xs[from] && prefix[i] == xs[i]);
        if from != i {
            lemma_mul_assoc(xs[from] ^ xs[i], xs[m] ^ xs[i], lag_den(prefix, i, from + 1));
            lemma_mul_comm(xs[from] ^ xs[i], xs[m] ^ xs[i]);
            lemma_mul_assoc(xs[m] ^ xs[i], xs[from] ^ xs[i], lag_den(prefix, i, from + 1));
        }
    }
}

/// The last point's numerator ignores the last position.
proof fn lemma_num_last(xs: Seq<u8>, from: int)
    requires
        xs.len() >= 1,
        0 <= from <= xs.len() - 1,
    ensures
        lag_num(xs, xs.len() - 1, from) == lag_num(
            xs.take(xs.len() - 1),
            xs.len() - 1,
            from,
        ),
    decreases xs.len() - from,
{
    let m = xs.len() - 1;
    let prefix = xs.take(m);
    if from < m {
        lemma_num_last(xs, from + 1);
        assert(prefix[from] == xs[from]);
    } else {
        assert(lag_num(xs, m, m + 1) == 1);
        assert(lag_num(prefix, m, from) == 1);
    }
}

/// The last point's denominator is the plain product of the shifted points
/// `xs[j] ^ xs[last]`.
proof fn lemma_den_last(xs: Seq<u8>, zs: Seq<u8>, from: int)
    requires
        xs.len() >= 1,
        zs.len() == xs.len() - 1,
        forall|j: int| 0 <= j < zs.len() ==> zs[j] == xs[j] ^ xs[xs.len() - 1],
        0 <= from <= xs.len() - 1,
    ensures
        lag_den(xs, xs.len() - 1, from) == lag_num(zs, zs.len() as int, from),
    decreases xs.len() - from,
{
    let m = xs.len() - 1;
    if from < m {
        lemma_den_last(xs, zs, from + 1);
        assert(zs[from] == xs[from] ^ xs[m]);
    } else {
        assert(lag_den(xs, m, m + 1) == 1);
        assert(lag_num(zs, zs.len() as int, from) == 1);
    }
}

/// The denominators over the prefix equal the denominators over the
/// shifted points.
proof fn lemma_den_shift(prefix: Seq<u8>, zs: Seq<u8>, t: u8, i: int, from: int)
    requires
        zs.len() == prefix.len(),
        forall|j: int| 0 <= j < zs.len() ==> zs[j] == prefix[j] ^ t,
        0 <= i < prefix.len(),
        0 <= from,
    ensures
        lag_den(prefix, i, from) == lag_den(zs, i, from),
    decreases prefix.len() - from,
{
    if from < prefix.len() {
        lemma_den_shift(prefix, zs, t, i, from + 1);
        if from != i {
            let p = prefix[from];
            let q = prefix[i];
            assert((p ^ t) ^ (q ^ t) == p ^ q) by (bit_vector);
        }
    }
}

/// Numerator products of nonzero points are nonzero.
proof fn lemma_num_nonzero(s: Seq<u8>, skip: int, from: int)
    requires
        nonzero_points(s),
        0 <= from,
    ensures
        lag_num(s, skip, from) != 0,
    decreases s.len() - from,
{
    if from < s.len() {
        lemma_num_nonzero(s, skip, from + 1);
        if from != skip {
            lemma_mul_nonzero(s[from], lag_num(s, skip, from + 1));
        }
    }
}

/// Denominator products over distinct points are nonzero.
proof fn lemma_den_nonzero(s: Seq<u8>, i: int, from: int)
    requires
        distinct_points(s),
        0 <= i < s.len(),
        0 <= from,
    ensures
        lag_den(s, i, from) != 0,
    decreases s.len() - from,
{
    if from < s.len() {
        lemma_den_nonzero(s, i, from + 1);
        if from != i {
            let p = s[from];
            let q = s[i];
            assert(p != q ==> p ^ q != 0) by (bit_vector);
            lemma_mul_nonzero(s[from] ^ s[i], lag_den(s, i, from + 1));
        }
    }
}

/// The quotient of synthetic division of a polynomial by `(x - t)`.
pub open spec fn synth_div(c: Seq<u8>, t: u8) -> Seq<u8>
    decreases c.len(),
{
    if c.len() <= 1 {
        Seq::empty()
    } else {
        seq![gf_poly_eval(c.skip(1), t)] + synth_div(c.skip(1), t)
    }
}

/// The quotient is one coefficient shorter.
proof fn lemma_synth_div_len(c: Seq<u8>, t: u8)
    ensures
        c.len() == 0 ==> synth_div(c, t).len() == 0,
        c.len() >= 1 ==> synth_div(c, t).len() == c.len() - 1,
    decreases c.len(),
{
    if c.len() > 1 {
        lemma_synth_div_len(c.skip(1), t);
    }
}

/// The division identity: P(x) == (x - t) * Q(x) + P(t).
proof fn lemma_synth_div(c: Seq<u8>, t: u8, x: u8)
    ensures
        gf_poly_eval(c, x) == gf_mul(x ^ t, gf_poly_eval(synth_div(c, t), x)) ^ gf_poly_eval(c, t),
    decreases c.len(),
{
    let q = synth_div(c, t);
    if c.len() == 0 {
        assert(gf_poly_eval(c, x) == 0);
        assert(gf_poly_eval(c, t) == 0);
        assert(gf_poly_eval(q, x) == 0);
        lemma_mul_units(x ^ t);
        assert(0u8 ^ 0u8 == 0u8) by (bit_vector);
    } else if c.len() == 1 {
        let c0 = c[0];
        assert(c.skip(1).len() == 0);
        assert(gf_poly_eval(c.skip(1), x) == 0);
        assert(gf_poly_eval(c.skip(1), t) == 0);
        lemma_mul_units(x);
        lemma_mul_units(t);
        lemma_mul_units(x ^ t);
        assert(gf_poly_eval(c, x) == c0 ^ gf_mul(x, 0));
        assert(gf_poly_eval(c, t) == c0 ^ gf_mul(t, 0));
        assert(q.len() == 0);
        assert(gf_poly_eval(q, x) == 0);
        assert(c0 ^ 0 == c0 && 0 ^ c0 == c0) by (bit_vector);
    } else {
        let d = c.skip(1);
        let qd = synth_div(d, t);
        let rd = gf_poly_eval(d, t);
        let eq = gf_poly_eval(qd, x);
        let c0 = c[0];
        let a1 = gf_mul(x, gf_mul(x ^ t, eq));
        let a2 = gf_mul(x, rd);
        let a3 = gf_mul(t, rd);
        lemma_synth_div(d, t, x);
        // Left side: eval(c, x) == c0 ^ (a1 ^ a2).
        assert(gf_poly_eval(c, x) == c0 ^ gf_mul(x, gf_mul(x ^ t, eq) ^ rd));
        lemma_mul_dist(x, gf_mul(x ^ t, eq), rd);
        // Right side: the quotient is [rd] + qd.
        assert(q[0] == rd);
        assert(q.skip(1) =~= qd);
        assert(gf_poly_eval(q, x) == rd ^ gf_mul(x, eq));
        lemma_mul_dist(x ^ t, rd, gf_mul(x, eq));
        lemma_mul_dist_left(x, t, rd);
        lemma_mul_assoc(x ^ t, x, eq);
        lemma_mul_comm(x ^ t, x);
        lemma_mul_assoc(x, x ^ t, eq);
        assert(gf_mul(x ^ t, gf_mul(x, eq)) == a1);
        assert(gf_mul(x ^ t, gf_poly_eval(q, x)) == (a2 ^ a3) ^ a1);
        // eval(c, t) is definitional.
        assert(gf_poly_eval(c, t) == c0 ^ a3);
        assert(c0 ^ (a1 ^ a2) == ((a2 ^ a3) ^ a1) ^ (c0 ^ a3)) by (bit_vector);
    }
}

/// Rearrangement: a * (b * c) == b * (a * c).
proof fn lemma_mul_swap(a: u8, b: u8, c: u8)
    ensures
        gf_mul(a, gf_mul(b, c)) == gf_mul(b, gf_mul(a, c)),
{
    lemma_mul_assoc(a, b, c);
    lemma_mul_comm(a, b);
    lemma_mul_assoc(b, a, c);
}

/// Dropping the last point scales a basis value by `t / (x_i - t)`.
proof fn lemma_basis_extend(xs: Seq<u8>, i: int)
    requires
        distinct_points(xs),
        xs.len() >= 2,
        0 <= i < xs.len() - 1,
    ensures
        gf_basis(xs, i) == gf_mul(
            xs[xs.len() - 1],
            gf_mul(gf_inv(xs[i] ^ xs[xs.len() - 1]), gf_basis(xs.take(xs.len() - 1), i)),
        ),
{
    let m = xs.len() - 1;
    let t = xs[m];
    let prefix = xs.take(m);
    let di = xs[i] ^ t;
    let num_pre = lag_num(prefix, i, 0);
    let den_pre = lag_den(prefix, i, 0);
    let xi = xs[i];
    lemma_num_prefix(xs, i, 0);
    lemma_den_prefix(xs, i, 0);
    assert(t ^ xi == di) by (bit_vector)
        requires
            di == (xi ^ t),
    ;
    assert(distinct_points(prefix)) by {
        assert(forall|u: int, v: int|
            0 <= u < v < prefix.len() ==> prefix[u] == xs[u] && prefix[v] == xs[v]);
    }
    lemma_den_nonzero(prefix, i, 0);
    assert(xi != t);
    assert(xi != t ==> di != 0) by (bit_vector)
        requires
            di == (xi ^ t),
    ;
    lemma_inv_mul(di, den_pre);
    lemma_inv(di);
    // basis(xs, i) == (t * num_pre) * ((1/di) * (1/den_pre))
    assert(gf_basis(xs, i) == gf_mul(gf_mul(t, num_pre), gf_mul(gf_inv(di), gf_inv(den_pre))));
    lemma_mul_assoc(t, num_pre, gf_mul(gf_inv(di), gf_inv(den_pre)));
    lemma_mul_swap(num_pre, gf_inv(di), gf_inv(den_pre));
    lemma_mul_assoc(num_pre, gf_inv(di), gf_inv(den_pre));
    assert(gf_mul(num_pre, gf_mul(gf_inv(di), gf_inv(den_pre))) == gf_mul(
        gf_inv(di),
        gf_mul(num_pre, gf_inv(den_pre)),
    ));
}

/// The last point's basis value, written over the prefix product and the
/// product of the shifted points.
proof fn lemma_basis_last(xs: Seq<u8>, zs: Seq<u8>)
    requires
        xs.len() >= 2,
        zs.len() == xs.len() - 1,
        forall|j: int| 0 <= j < zs.len() ==> zs[j] == xs[j] ^ xs[xs.len() - 1],
    ensures
        gf_basis(xs, xs.len() - 1) == gf_mul(
            lag_num(xs.take(xs.len() - 1), xs.len() - 1, 0),
            gf_inv(lag_num(zs, zs.len() as int, 0)),
        ),
{
    lemma_num_last(xs, 0);
    lemma_den_last(xs, zs, 0);
}

/// Splitting an interpolation after synthetic division: the sum over all
/// points equals `t` times the quotient's interpolation over the prefix,
/// plus `P(t)` times the basis sum.
proof fn lemma_interp_split(xs: Seq<u8>, c: Seq<u8>, from: int)
    requires
        distinct_points(xs),
        xs.len() >= 2,
        0 <= from <= xs.len(),
    ensures
        lagrange_interp_zero(xs, evals_at(c, xs), from) == gf_mul(
            xs[xs.len() - 1],
            lagrange_interp_zero(
                xs.take(xs.len() - 1),
                evals_at(synth_div(c, xs[xs.len() - 1]), xs.take(xs.len() - 1)),
                from,
            ),
        ) ^ gf_mul(
            gf_poly_eval(c, xs[xs.len() - 1]),
            lagrange_interp_zero(xs, ones(xs.len() as int), from),
        ),
    decreases xs.len() - from,
{
    let m = xs.len() - 1;
    let t = xs[m];
    let prefix = xs.take(m);
    let q = synth_div(c, t);
    let ys = evals_at(c, xs);
    let qe = evals_at(q, prefix);
    let os = ones(xs.len() as int);
    let r0 = gf_poly_eval(c, t);
    if from == xs.len() {
        lemma_mul_units(t);
        lemma_mul_units(r0);
        assert(0u8 ^ 0u8 == 0u8) by (bit_vector);
    } else if from == m {
        // Only the last point remains.
        assert(lagrange_interp_zero(xs, ys, m + 1) == 0);
        assert(lagrange_interp_zero(xs, os, m + 1) == 0);
        assert(lagrange_interp_zero(prefix, qe, m) == 0);
        assert(ys[m] == r0);
        assert(os[m] == 1);
        let b = gf_basis(xs, m);
        lemma_mul_units(b);
        lemma_mul_units(t);
        assert(lagrange_interp_zero(xs, ys, m) == gf_mul(r0, b) ^ 0);
        assert(lagrange_interp_zero(xs, os, m) == gf_mul(1, b) ^ 0);
        assert(b ^ 0 == b) by (bit_vector);
        assert(lagrange_interp_zero(xs, os, m) == b);
        let rb = gf_mul(r0, b);
        assert(rb ^ 0 == 0 ^ rb) by (bit_vector);
    } else {
        lemma_interp_split(xs, c, from + 1);
        // Pointwise transformation of the head term.
        let dfi = xs[from] ^ t;
        let bp = gf_basis(prefix, from);
        let qv = gf_poly_eval(q, xs[from]);
        lemma_synth_div(c, t, xs[from]);
        assert(ys[from] == gf_mul(dfi, qv) ^ r0);
        assert(prefix[from] == xs[from]);
        assert(qe[from] == qv);
        lemma_basis_extend(xs, from);
        let bx = gf_basis(xs, from);
        assert(bx == gf_mul(t, gf_mul(gf_inv(dfi), bp)));
        // (dfi * qv ^ r0) * bx == t * (qv * bp) ^ r0 * bx
        lemma_mul_dist_left(gf_mul(dfi, qv), r0, bx);
        let xf = xs[from];
        assert(xf != t);
        assert(xf != t ==> dfi != 0) by (bit_vector)
            requires
                dfi == (xf ^ t),
        ;
        lemma_inv(dfi);
        // (dfi * qv) * (t * (1/dfi * bp)) == t * (qv * bp)
        lemma_mul_swap(gf_mul(dfi, qv), t, gf_mul(gf_inv(dfi), bp));
        lemma_mul_assoc(dfi, qv, gf_mul(gf_inv(dfi), bp));
        lemma_mul_swap(qv, gf_inv(dfi), bp);
        lemma_mul_assoc(dfi, gf_inv(dfi), gf_mul(qv, bp));
        lemma_mul_units(gf_mul(qv, bp));
        assert(gf_mul(gf_mul(dfi, qv), gf_mul(gf_inv(dfi), bp)) == gf_mul(qv, bp));
        assert(gf_mul(gf_mul(dfi, qv), bx) == gf_mul(t, gf_mul(qv, bp)));
        lemma_mul_units(bx);
        assert(os[from] == 1);
        // Assemble with the tail.
        let tp = gf_mul(qv, bp);
        let lp1 = lagrange_interp_zero(prefix, qe, from + 1);
        let lo1 = lagrange_interp_zero(xs, os, from + 1);
        lemma_mul_dist(t, tp, lp1);
        lemma_mul_dist(r0, bx, lo1);
        assert(lagrange_interp_zero(xs, ys, from) == gf_mul(ys[from], bx)
            ^ lagrange_interp_zero(xs, ys, from + 1));
        assert(gf_mul(ys[from], bx) == gf_mul(t, tp) ^ gf_mul(r0, bx));
        assert(lagrange_interp_zero(prefix, qe, from) == gf_mul(qv, bp) ^ lp1);
        assert(lagrange_interp_zero(xs, os, from) == gf_mul(1, bx) ^ lo1);
        lemma_mul_units(bx);
        let e1 = gf_mul(t, tp);
        let e2 = gf_mul(r0, bx);
        let e3 = gf_mul(t, lp1);
        let e4 = gf_mul(r0, lo1);
        assert((e1 ^ e2) ^ (e3 ^ e4) == (e1 ^ e3) ^ (e2 ^ e4)) by (bit_vector);
    }
}

/// Splitting the basis sum over the last point: partial fractions turn the
/// extended basis values into prefix basis values plus weighted ones.
proof fn lemma_ones_split(xs: Seq<u8>, w: Seq<u8>, from: int)
    requires
        distinct_points(xs),
        xs.len() >= 2,
        w.len() == xs.len() - 1,
        forall|i: int|
            0 <= i < w.len() ==> w[i] == gf_mul(xs[i], gf_inv(xs[i] ^ xs[xs.len() - 1])),
        0 <= from <= xs.len() - 1,
    ensures
        lagrange_interp_zero(xs, ones(xs.len() as int), from) == lagrange_interp_zero(
            xs.take(xs.len() - 1),
            ones(xs.len() - 1),
            from,
        ) ^ (lagrange_interp_zero(xs.take(xs.len() - 1), w, from) ^ gf_basis(xs, xs.len() - 1)),
    decreases xs.len() - from,
{
    let m = xs.len() - 1;
    let t = xs[m];
    let prefix = xs.take(m);
    let os = ones(xs.len() as int);
    let om = ones(m);
    if from == m {
        assert(lagrange_interp_zero(xs, os, m + 1) == 0);
        assert(lagrange_interp_zero(prefix, om, m) == 0);
        assert(lagrange_interp_zero(prefix, w, m) == 0);
        let b = gf_basis(xs, m);
        assert(os[m] == 1);
        lemma_mul_units(b);
        assert(lagrange_interp_zero(xs, os, m) == gf_mul(1, b) ^ 0);
        assert(b ^ 0 == 0 ^ (0 ^ b)) by (bit_vector);
    } else {
        lemma_ones_split(xs, w, from + 1);
        let dfi = xs[from] ^ t;
        let bp = gf_basis(prefix, from);
        lemma_basis_extend(xs, from);
        let bx = gf_basis(xs, from);
        let xf = xs[from];
        assert(xf != t);
        assert(xf != t ==> dfi != 0) by (bit_vector)
            requires
                dfi == (xf ^ t),
        ;
        lemma_inv(dfi);
        // t * (1/dfi) == 1 ^ x_from * (1/dfi)
        assert(t == dfi ^ xf) by (bit_vector)
            requires
                dfi == (xf ^ t),
        ;
        lemma_mul_dist_left(dfi, xf, gf_inv(dfi));
        let wf = gf_mul(xf, gf_inv(dfi));
        assert(gf_mul(t, gf_inv(dfi)) == 1 ^ wf);
        lemma_mul_assoc(t, gf_inv(dfi), bp);
        assert(bx == gf_mul(1 ^ wf, bp));
        lemma_mul_dist_left(1, wf, bp);
        lemma_mul_units(bp);
        assert(bx == bp ^ gf_mul(wf, bp));
        assert(w[from] == wf);
        assert(os[from] == 1 && om[from] == 1);
        lemma_mul_units(bx);
        lemma_mul_units(bp);
        // Assemble with the tail.
        let lo1 = lagrange_interp_zero(xs, os, from + 1);
        let lm1 = lagrange_interp_zero(prefix, om, from + 1);
        let lw1 = lagrange_interp_zero(prefix, w, from + 1);
        let bm = gf_basis(xs, m);
        assert(lagrange_interp_zero(xs, os, from) == bx ^ lo1);
        assert(lagrange_interp_zero(prefix, om, from) == bp ^ lm1);
        assert(lagrange_interp_zero(prefix, w, from) == gf_mul(wf, bp) ^ lw1);
        let wb = gf_mul(wf, bp);
        assert((bp ^ wb) ^ (lm1 ^ (lw1 ^ bm)) == (bp ^ lm1) ^ ((wb ^ lw1) ^ bm)) by (bit_vector);
    }
}

/// Scaled pointwise equality of terms carries over to the sums.
proof fn lemma_scaled_sums(
    s1: Seq<u8>,
    u: Seq<u8>,
    s2: Seq<u8>,
    v: Seq<u8>,
    k1: u8,
    k2: u8,
    from: int,
)
    requires
        s1.len() == s2.len(),
        forall|i: int|
            from <= i < s1.len() ==> gf_mul(k1, #[trigger] gf_term(s1, u, i)) == gf_mul(
                k2,
                gf_term(s2, v, i),
            ),
        0 <= from,
    ensures
        gf_mul(k1, lagrange_interp_zero(s1, u, from)) == gf_mul(
            k2,
            lagrange_interp_zero(s2, v, from),
        ),
    decreases s1.len() - from,
{
    if from >= s1.len() {
        lemma_mul_units(k1);
        lemma_mul_units(k2);
    } else {
        lemma_scaled_sums(s1, u, s2, v, k1, k2, from + 1);
        lemma_mul_dist(k1, gf_term(s1, u, from), lagrange_interp_zero(s1, u, from + 1));
        lemma_mul_dist(k2, gf_term(s2, v, from), lagrange_interp_zero(s2, v, from + 1));
        assert(lagrange_interp_zero(s1, u, from) == gf_term(s1, u, from)
            ^ lagrange_interp_zero(s1, u, from + 1));
        assert(lagrange_interp_zero(s2, v, from) == gf_term(s2, v, from)
            ^ lagrange_interp_zero(s2, v, from + 1));
    }
}

/// The weighted prefix sum equals the last point's basis value: the core of
/// the partial-fraction argument, by comparison with the shifted points.
proof fn lemma_w_sum(xs: Seq<u8>, zs: Seq<u8>, w: Seq<u8>)
    requires
        distinct_points(xs),
        nonzero_points(xs),
        xs.len() >= 2,
        zs.len() == xs.len() - 1,
        forall|j: int| 0 <= j < zs.len() ==> zs[j] == xs[j] ^ xs[xs.len() - 1],
        w.len() == xs.len() - 1,
        forall|i: int|
            0 <= i < w.len() ==> w[i] == gf_mul(xs[i], gf_inv(xs[i] ^ xs[xs.len() - 1])),
        lagrange_interp_zero(zs, ones(zs.len() as int), 0) == 1,
    ensures
        lagrange_interp_zero(xs.take(xs.len() - 1), w, 0) == gf_basis(xs, xs.len() - 1),
{
    let m = xs.len() - 1;
    let t = xs[m];
    let prefix = xs.take(m);
    let pz = lag_num(zs, zs.len() as int, 0);
    let px = lag_num(prefix, prefix.len() as int, 0);
    assert(nonzero_points(zs)) by {
        assert forall|j: int| 0 <= j < zs.len() implies zs[j] != 0 by {
            let p = xs[j];
            assert(p != t ==> (p ^ t) != 0) by (bit_vector);
        }
    }
    lemma_num_nonzero(zs, zs.len() as int, 0);
    assert(distinct_points(prefix) && nonzero_points(prefix)) by {
        assert(forall|u: int| 0 <= u < prefix.len() ==> prefix[u] == xs[u]);
    }
    // Pointwise: pz * (w_i * basis_pre_i) == px * (1 * basis_zs_i).
    assert forall|i: int| 0 <= i < prefix.len() implies gf_mul(pz, #[trigger] gf_term(prefix, w, i))
        == gf_mul(px, gf_term(zs, ones(zs.len() as int), i)) by {
        let num_p = lag_num(prefix, i, 0);
        let num_z = lag_num(zs, i, 0);
        let den_p = lag_den(prefix, i, 0);
        lemma_den_shift(prefix, zs, t, i, 0);
        assert(lag_den(zs, i, 0) == den_p);
        lemma_num_factor(zs, i, 0);
        lemma_num_factor(prefix, i, 0);
        assert(pz == gf_mul(zs[i], num_z));
        assert(px == gf_mul(prefix[i], num_p));
        assert(zs[i] == xs[i] ^ t);
        assert(w[i] == gf_mul(xs[i], gf_inv(zs[i])));
        assert(zs[i] != 0);
        lemma_inv(zs[i]);
        let d = gf_inv(den_p);
        let iz = gf_inv(zs[i]);
        // LHS: (zs_i * num_z) * ((x_i * iz) * (num_p * d))
        lemma_mul_units(gf_term(zs, ones(zs.len() as int), i));
        assert(ones(zs.len() as int)[i] == 1);
        lemma_mul_units(gf_mul(num_z, d));
        assert(gf_term(zs, ones(zs.len() as int), i) == gf_mul(1, gf_mul(num_z, d)));
        // Normalize both sides to x_i * (num_p * (num_z * d)).
        lemma_mul_assoc(zs[i], num_z, gf_mul(gf_mul(xs[i], iz), gf_mul(num_p, d)));
        lemma_mul_swap(num_z, gf_mul(xs[i], iz), gf_mul(num_p, d));
        lemma_mul_assoc(xs[i], iz, gf_mul(num_p, d));
        lemma_mul_swap(iz, num_p, d);
        // zs_i * ((x_i * iz) * Y) where Y = num_p * d ... step by step below.
        lemma_mul_swap(zs[i], gf_mul(xs[i], iz), gf_mul(num_z, gf_mul(num_p, d)));
        lemma_mul_assoc(gf_mul(xs[i], iz), zs[i], gf_mul(num_z, gf_mul(num_p, d)));
        lemma_mul_swap(zs[i], num_z, gf_mul(num_p, d));
        lemma_mul_assoc(xs[i], iz, gf_mul(zs[i], gf_mul(num_z, gf_mul(num_p, d))));
        lemma_mul_swap(iz, zs[i], gf_mul(num_z, gf_mul(num_p, d)));
        lemma_mul_assoc(zs[i], iz, gf_mul(num_z, gf_mul(num_p, d)));
        lemma_mul_units(gf_mul(num_z, gf_mul(num_p, d)));
        // Now LHS == x_i * (num_z * (num_p * d)) and RHS likewise.
        assert(gf_mul(pz, gf_term(prefix, w, i)) == gf_mul(
            gf_mul(zs[i], num_z),
            gf_mul(gf_mul(xs[i], iz), gf_mul(num_p, d)),
        ));
        lemma_mul_assoc(gf_mul(xs[i], iz), num_z, gf_mul(num_p, d));
        lemma_mul_assoc(xs[i], iz, num_z);
        // Right side: px * (num_z * d) == (x_i * num_p) * (num_z * d).
        lemma_mul_assoc(xs[i], num_p, gf_mul(num_z, d));
        lemma_mul_swap(num_p, num_z, d);
        lemma_mul_assoc(xs[i], num_z, gf_mul(num_p, d));
        // Left side final reduction: zs_i * iz == 1.
        lemma_mul_swap(iz, num_z, gf_mul(num_p, d));
        lemma_mul_swap(zs[i], num_z, gf_mul(iz, gf_mul(num_p, d)));
        lemma_mul_swap(zs[i], iz, gf_mul(num_p, d));
        lemma_mul_assoc(num_z, zs[i], gf_mul(iz, gf_mul(num_p, d)));
        lemma_mul_assoc(num_z, gf_mul(zs[i], iz), gf_mul(num_p, d));
        lemma_mul_assoc(zs[i], iz, gf_mul(num_p, d));
        lemma_mul_units(gf_mul(num_p, d));
        assert(gf_mul(gf_mul(zs[i], iz), gf_mul(num_p, d)) == gf_mul(num_p, d));
    }
    lemma_scaled_sums(prefix, w, zs, ones(zs.len() as int), pz, px, 0);
    assert(gf_mul(pz, lagrange_interp_zero(prefix, w, 0)) == gf_mul(px, 1)) by {
        assert(lagrange_interp_zero(zs, ones(zs.len() as int), 0) == 1);
    }
    lemma_mul_units(px);
    // pz * basis(xs, m) == px as well.
    lemma_basis_last(xs, zs);
    assert(gf_basis(xs, m) == gf_mul(px, gf_inv(pz)));
    lemma_mul_swap(pz, px, gf_inv(pz));
    lemma_mul_assoc(px, pz, gf_inv(pz));
    lemma_inv(pz);
    lemma_mul_units(px);
    assert(gf_mul(pz, gf_basis(xs, m)) == px);
    lemma_mul_cancel(pz, lagrange_interp_zero(prefix, w, 0), gf_basis(xs, m));
}

/// The Lagrange basis values at zero over distinct nonzero points sum to
/// one.
proof fn lemma_basis_sum(xs: Seq<u8>)
    requires
        distinct_points(xs),
        nonzero_points(xs),
        xs.len() >= 1,
    ensures
        lagrange_interp_zero(xs, ones(xs.len() as int), 0) == 1,
    decreases xs.len(),
{
    let os = ones(xs.len() as int);
    if xs.len() == 1 {
        assert(lag_num(xs, 0, 1) == 1);
        assert(lag_num(xs, 0, 0) == 1);
        assert(lag_den(xs, 0, 1) == 1);
        assert(lag_den(xs, 0, 0) == 1);
        lemma_inv_one();
        lemma_mul_units(1);
        assert(gf_basis(xs, 0) == 1);
        assert(os[0] == 1);
        assert(lagrange_interp_zero(xs, os, 1) == 0);
        assert(lagrange_interp_zero(xs, os, 0) == gf_mul(1, 1) ^ 0);
        assert(1u8 ^ 0u8 == 1u8) by (bit_vector);
    } else {
        let m = xs.len() - 1;
        let t = xs[m];
        let prefix = xs.take(m);
        let zs = Seq::new(m as nat, |j: int| xs[j] ^ t);
        let w = Seq::new(m as nat, |i: int| gf_mul(xs[i], gf_inv(xs[i] ^ t)));
        assert(distinct_points(prefix) && nonzero_points(prefix)) by {
            assert(forall|u: int| 0 <= u < prefix.len() ==> prefix[u] == xs[u]);
        }
        assert(distinct_points(zs) && nonzero_points(zs)) by {
            assert forall|u: int, v: int| 0 <= u < v < zs.len() implies zs[u] != zs[v] by {
                let p = xs[u];
                let q = xs[v];
                assert(p != q ==> (p ^ t) != (q ^ t)) by (bit_vector);
            }
            assert forall|u: int| 0 <= u < zs.len() implies zs[u] != 0 by {
                let p = xs[u];
                assert(p != t ==> (p ^ t) != 0) by (bit_vector);
            }
        }
        lemma_basis_sum(prefix);
        lemma_basis_sum(zs);
        lemma_ones_split(xs, w, 0);
        lemma_w_sum(xs, zs, w);
        let x = gf_basis(xs, m);
        assert(lagrange_interp_zero(xs, os, 0) == 1 ^ (x ^ x));
        assert(1u8 ^ (x ^ x) == 1u8) by (bit_vector);
    }
}

/// Lagrange interpolation at zero over at least as many distinct nonzero
/// points as the polynomial has coefficients recovers the constant term.
pub proof fn lemma_lagrange_interpolates(xs: Seq<u8>, c: Seq<u8>)
    requires
        distinct_points(xs),
        nonzero_points(xs),
        xs.len() >= 1,
        c.len() <= xs.len(),
    ensures
        lagrange_interp_zero(xs, evals_at(c, xs), 0) == gf_poly_eval(c, 0),
    decreases xs.len(),
{
    let ys = evals_at(c, xs);
    if xs.len() == 1 {
        assert(lag_num(xs, 0, 1) == 1);
        assert(lag_num(xs, 0, 0) == 1);
        assert(lag_den(xs, 0, 1) == 1);
        assert(lag_den(xs, 0, 0) == 1);
        lemma_inv_one();
        lemma_mul_units(1);
        assert(gf_basis(xs, 0) == 1);
        lemma_mul_units(ys[0]);
        assert(lagrange_interp_zero(xs, ys, 1) == 0);
        assert(lagrange_interp_zero(xs, ys, 0) == gf_mul(ys[0], 1) ^ 0);
        let y0 = ys[0];
        assert(y0 ^ 0 == y0) by (bit_vector);
        if c.len() == 0 {
            assert(gf_poly_eval(c, xs[0]) == 0);
            assert(gf_poly_eval(c, 0) == 0);
        } else {
            assert(c.skip(1).len() == 0);
            assert(gf_poly_eval(c.skip(1), xs[0]) == 0);
            assert(gf_poly_eval(c.skip(1), 0) == 0);
            lemma_mul_units(xs[0]);
            lemma_mul_units(0);
            assert(gf_poly_eval(c, xs[0]) == c[0] ^ gf_mul(xs[0], 0));
            assert(gf_poly_eval(c, 0) == c[0] ^ gf_mul(0, 0));
            let c0 = c[0];
            assert(c0 ^ 0 == c0) by (bit_vector);
        }
    } else {
        let m = xs.len() - 1;
        let t = xs[m];
        let prefix = xs.take(m);
        let q = synth_div(c, t);
        let r0 = gf_poly_eval(c, t);
        assert(distinct_points(prefix) && nonzero_points(prefix)) by {
            assert(forall|u: int| 0 <= u < prefix.len() ==> prefix[u] == xs[u]);
        }
        lemma_synth_div_len(c, t);
        lemma_interp_split(xs, c, 0);
        lemma_lagrange_interpolates(prefix, q);
        lemma_basis_sum(xs);
        lemma_mul_units(r0);
        // P(0) == t * Q(0) ^ P(t).
        lemma_synth_div(c, t, 0);
        assert(0u8 ^ t == t) by (bit_vector);
        assert(gf_poly_eval(c, 0) == gf_mul(t, gf_poly_eval(q, 0)) ^ r0);
    }
}

/// The product of two field elements.
pub fn gf256_mul(a: u8, b: u8) -> (r: u8)
    ensures
        r == gf_mul(a, b),
{
    let mut x = a;
    let mut y = b;
    let mut acc: u8 = 0;
    let mut round: usize = 0;
    proof {
        let m = gf_mul_aux(a, b, 8);
        assert(0u8 ^ m == m) by (bit_vector);
    }
    while round < 8
        invariant
            round <= 8,
            gf_mul(a, b) == acc ^ gf_mul_aux(x, y, (8 - round) as nat),
        decreases 8 - round,
    {
        proof {
            let t: u8 = if y & 1 == 1 {
                x
            } else {
                0
            };
            let rest = gf_mul_aux(gf_xtime(x), y >> 1u8, (7 - round) as nat);
            assert(gf_mul_aux(x, y, (8 - round) as nat) == t ^ rest);
            assert(acc ^ (t ^ rest) == (acc ^ t) ^ rest) by (bit_vector);
            assert(acc ^ 0u8 == acc) by (bit_vector);
        }
        if y & 1 == 1 {
            acc = acc ^ x;
        }
        x = if x >= 128 {
            (x << 1u8) ^ 0x1b
        } else {
            x << 1u8
        };
        y = y >> 1u8;
        round += 1;
    }
    proof {
        assert(acc ^ gf_mul_aux(x, y, 0) == acc ^ 0u8);
        assert(acc ^ 0u8 == acc) by (bit_vector);
    }
    acc
}

/// The `e`-th power of a field element.
pub fn gf256_pow(a: u8, e: u8) -> (r: u8)
    ensures
        r == gf_pow(a, e as nat),
{
    let mut r: u8 = 1;
    let mut k: u8 = 0;
    while k < e
        invariant
            k <= e,
            r == gf_pow(a, k as nat),
        decreases e - k,
    {
        r = gf256_mul(a, r);
        k += 1;
    }
    r
}

/// The multiplicative inverse of a nonzero field element.
pub fn gf256_inv(a: u8) -> (r: u8)
    ensures
        r == gf_inv(a),
{
    gf256_pow(a, 254)
}

/// Evaluate a polynomial, constant term first, at a point (Horner form,
/// highest coefficient first).
pub fn gf256_poly_eval(coeffs: &Vec<u8>, x: u8) -> (r: u8)
    ensures
        r == gf_poly_eval(coeffs@, x),
{
    let mut acc: u8 = 0;
    let mut t = coeffs.len();
    while t > 0
        invariant
            t <= coeffs@.len(),
            acc == gf_poly_eval(coeffs@.skip(t as int), x),
        decreases t,
    {
        t -= 1;
        let prev = acc;
        acc = coeffs[t] ^ gf256_mul(x, prev);
        proof {
            let tail = coeffs@.skip(t as int);
            assert(tail[0] == coeffs@[t as int]);
            assert(tail.skip(1) =~= coeffs@.skip(t + 1));
        }
    }
    proof {
        assert(coeffs@.skip(0) =~= coeffs@);
    }
    acc
}

/// Lagrange interpolation at zero of the points `(xs[i], ys[i])`.
pub fn gf256_lagrange_zero(xs: &Vec<u8>, ys: &Vec<u8>) -> (r: u8)
    requires
        xs@.len() == ys@.len(),
    ensures
        r == lagrange_interp_zero(xs@, ys@, 0),
{
    let n = xs.len();
    let mut acc: u8 = 0;
    let mut i = n;
    while i > 0
        invariant
            i <= n,
            n == xs@.len() == ys@.len(),
            acc == lagrange_interp_zero(xs@, ys@, i as int),
        decreases i,
    {
        i -= 1;
        let mut num: u8 = 1;
        let mut den: u8 = 1;
        let mut j = n;
        while j > 0
            invariant
                j <= n,
                n == xs@.len() == ys@.len(),
                i < n,
                num == lag_num(xs@, i as int, j as int),
                den == lag_den(xs@, i as int, j as int),
            decreases j,
        {
            j -= 1;
            if j != i {
                num = gf256_mul(xs[j], num);
                den = gf256_mul(xs[j] ^ xs[i], den);
            }
        }
        let term = gf256_mul(ys[i], gf256_mul(num, gf256_inv(den)));
        acc = term ^ acc;
    }
    acc
}

} // verus!
