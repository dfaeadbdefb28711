//! The mathematical model of the library's numbers: exact fractions of
//! unbounded integers, with the arithmetic that the contracts speak of.

use vstd::arithmetic::div_mod::{
    lemma_div_multiples_vanish, lemma_div_of0, lemma_fundamental_div_mod, lemma_mod_bound,
    lemma_mod_multiples_basic, lemma_mod_self_0,
};
use vstd::prelude::*;

verus! {

/// A fraction of unbounded integers; the model of an executable rational.
pub ghost struct Frac {
    /// Numerator.
    pub n: int,
    /// Denominator; well-formed fractions keep it positive.
    pub d: int,
}

/// A well-formed fraction keeps its denominator positive.
pub open spec fn frac_wf(f: Frac) -> bool {
    f.d > 0
}

/// The fraction of an integer.
pub open spec fn int_frac(n: int) -> Frac {
    Frac { n: n, d: 1 }
}

/// The magnitude of an integer.
pub open spec fn abs_int(v: int) -> int {
    if v < 0 {
        -v
    } else {
        v
    }
}

/// The greatest common divisor, by Euclid's algorithm.
pub open spec fn gcd_nat(a: nat, b: nat) -> nat
    decreases b,
{
    if b == 0 {
        a
    } else {
        gcd_nat(b, a % b)
    }
}

/// A fraction in lowest terms: numerator and denominator divided by their
/// greatest common divisor.  A fraction without a positive denominator is
/// left alone.
pub open spec fn frac_norm(f: Frac) -> Frac {
    if f.d > 0 {
        let g = gcd_nat(abs_int(f.n) as nat, f.d as nat) as int;
        if g >= 1 {
            Frac { n: f.n / g, d: f.d / g }
        } else {
            f
        }
    } else {
        f
    }
}

/// Exact sum, in lowest terms.
pub open spec fn frac_add(a: Frac, b: Frac) -> Frac {
    frac_norm(Frac { n: a.n * b.d + b.n * a.d, d: a.d * b.d })
}

/// Exact difference, in lowest terms.
pub open spec fn frac_sub(a: Frac, b: Frac) -> Frac {
    frac_norm(Frac { n: a.n * b.d - b.n * a.d, d: a.d * b.d })
}

/// Exact product, in lowest terms.
pub open spec fn frac_mul(a: Frac, b: Frac) -> Frac {
    frac_norm(Frac { n: a.n * b.n, d: a.d * b.d })
}

/// Exact quotient, in lowest terms: multiplication by the flipped divisor,
/// the sign moved into the numerator so that a positive denominator stays
/// positive.
pub open spec fn frac_div(a: Frac, b: Frac) -> Frac {
    if b.n >= 0 {
        frac_norm(Frac { n: a.n * b.d, d: a.d * b.n })
    } else {
        frac_norm(Frac { n: -(a.n * b.d), d: -(a.d * b.n) })
    }
}

/// Euclid's algorithm lands on a divisor of both arguments.
pub proof fn lemma_gcd_divides(a: nat, b: nat)
    requires
        b > 0,
    ensures
        gcd_nat(a, b) >= 1,
        a % gcd_nat(a, b) == 0,
        b % gcd_nat(a, b) == 0,
    decreases b,
{
    let g = gcd_nat(a, b);
    let r = a % b;
    if r == 0 {
        assert(gcd_nat(b, 0) == b);
        assert(g == b);
        lemma_mod_self_0(b as int);
    } else {
        lemma_mod_bound(a as int, b as int);
        lemma_gcd_divides(b, r);
        assert(g == gcd_nat(b, r));
        lemma_fundamental_div_mod(a as int, b as int);
        lemma_fundamental_div_mod(b as int, g as int);
        lemma_fundamental_div_mod(r as int, g as int);
        let q = (a as int / b as int) * (b as int / g as int) + (r as int / g as int);
        assert(a as int == q * (g as int)) by (nonlinear_arith)
            requires
                a as int == (b as int) * (a as int / b as int) + (r as int),
                b as int == (g as int) * (b as int / g as int),
                r as int == (g as int) * (r as int / g as int),
                q == (a as int / b as int) * (b as int / g as int) + (r as int / g as int),
        ;
        lemma_mod_multiples_basic(q, g as int);
    }
}

/// Reducing to lowest terms changes no value: the reduced fraction stands
/// for the same rational number as the one it came from, and its
/// denominator stays positive.  This is why the arithmetic above may
/// normalize freely.
pub proof fn lemma_frac_norm_preserves_value(f: Frac)
    requires
        f.d > 0,
    ensures
        frac_eq(frac_norm(f), f),
        frac_norm(f).d > 0,
{
    let g = gcd_nat(abs_int(f.n) as nat, f.d as nat) as int;
    lemma_gcd_divides(abs_int(f.n) as nat, f.d as nat);
    lemma_fundamental_div_mod(f.d, g);
    lemma_fundamental_div_mod(abs_int(f.n), g);
    if f.n < 0 {
        assert(f.n == g * (-(abs_int(f.n) / g))) by (nonlinear_arith)
            requires
                abs_int(f.n) == g * (abs_int(f.n) / g),
                f.n == -abs_int(f.n),
        ;
        lemma_div_multiples_vanish(-(abs_int(f.n) / g), g);
        assert(f.n / g == -(abs_int(f.n) / g));
    }
    assert(f.n == g * (f.n / g));
    assert((f.n / g) * f.d == f.n * (f.d / g)) by (nonlinear_arith)
        requires
            f.n == g * (f.n / g),
            f.d == g * (f.d / g),
    ;
    assert(f.d / g >= 1) by (nonlinear_arith)
        requires
            f.d == g * (f.d / g),
            f.d > 0,
            g >= 1,
    ;
}

/// Normalizing keeps a zero numerator zero.
pub proof fn lemma_frac_norm_zero(f: Frac)
    requires
        f.n == 0,
    ensures
        frac_norm(f).n == 0,
{
    if f.d > 0 {
        let g = gcd_nat(abs_int(f.n) as nat, f.d as nat) as int;
        if g >= 1 {
            lemma_div_of0(g);
        }
    }
}

/// Two fractions stand for the same rational number.
pub open spec fn frac_eq(a: Frac, b: Frac) -> bool {
    a.n * b.d == b.n * a.d
}

/// How many pairwise-distinct rational values a sequence of fractions
/// holds: a fraction counts only when no earlier one stands for the same
/// number.
pub open spec fn distinct_count(s: Seq<Frac>) -> nat
    decreases s.len(),
{
    if s.len() == 0 {
        0
    } else if exists|j: int| 0 <= j < s.len() - 1 && frac_eq(s[j], s.last()) {
        distinct_count(s.drop_last())
    } else {
        distinct_count(s.drop_last()) + 1
    }
}

/// A well-formed fraction stands for zero exactly when its numerator is zero.
pub open spec fn frac_is_zero(f: Frac) -> bool {
    f.n == 0
}

/// Left-to-right sum of a sequence of fractions, starting from zero.
pub open spec fn frac_sum(s: Seq<Frac>) -> Frac
    decreases s.len(),
{
    if s.len() == 0 {
        int_frac(0)
    } else {
        frac_add(frac_sum(s.drop_last()), s.last())
    }
}

/// The power of a fraction, built by repeated multiplication from the left,
/// the same way the feature expansion builds it.
pub open spec fn frac_pow(f: Frac, e: nat) -> Frac
    decreases e,
{
    if e == 0 {
        int_frac(1)
    } else {
        frac_mul(frac_pow(f, (e - 1) as nat), f)
    }
}

/// The value of the polynomial `intercept + sum of coeffs[i] * x^(i+1)`
/// over the first `k` coefficients, accumulated left to right.
pub open spec fn eval_upto(coeffs: Seq<Frac>, intercept: Frac, x: Frac, k: nat) -> Frac
    decreases k,
{
    if k == 0 {
        intercept
    } else {
        frac_add(
            eval_upto(coeffs, intercept, x, (k - 1) as nat),
            frac_mul(coeffs[k - 1], frac_pow(x, k)),
        )
    }
}

/// The value of the full polynomial at `x`.
pub open spec fn eval_frac(coeffs: Seq<Frac>, intercept: Frac, x: Frac) -> Frac {
    eval_upto(coeffs, intercept, x, coeffs.len())
}

/// What the fitted polynomial misses at one data point.
pub open spec fn residual_frac(coeffs: Seq<Frac>, intercept: Frac, x: Frac, y: Frac) -> Frac {
    frac_sub(eval_frac(coeffs, intercept, x), y)
}

/// Column `j` of the augmented design matrix at sample `x`: the feature
/// `x^(j+1)` for the first `degree` columns, and the constant one for the
/// intercept column.
pub open spec fn col_term(x: Frac, j: int, degree: int) -> Frac {
    if j < degree {
        frac_pow(x, (j + 1) as nat)
    } else {
        int_frac(1)
    }
}

/// The residuals weighted by column `j` of the augmented design matrix,
/// one term per data point.
pub open spec fn weighted_residuals(
    xs: Seq<Frac>,
    ys: Seq<Frac>,
    coeffs: Seq<Frac>,
    intercept: Frac,
    j: int,
    degree: int,
) -> Seq<Frac> {
    Seq::new(
        xs.len(),
        |i: int| frac_mul(col_term(xs[i], j, degree), residual_frac(coeffs, intercept, xs[i], ys[i])),
    )
}

/// The normal equations of the least-squares problem: the residual vector
/// is orthogonal to every column of the augmented design matrix.  A full
/// set of coefficients together with an intercept satisfies them exactly
/// when it minimizes the summed squared residuals.
pub open spec fn normal_eq_holds(
    xs: Seq<Frac>,
    ys: Seq<Frac>,
    coeffs: Seq<Frac>,
    intercept: Frac,
    degree: int,
) -> bool {
    &&& coeffs.len() == degree
    &&& forall|j: int|
        0 <= j <= degree ==> frac_is_zero(
            frac_sum(#[trigger] weighted_residuals(xs, ys, coeffs, intercept, j, degree)),
        )
}

/// Summing one more element extends a prefix sum.
pub proof fn lemma_frac_sum_take_push(s: Seq<Frac>, i: int)
    requires
        0 <= i < s.len(),
    ensures
        frac_sum(s.take(i + 1)) == frac_add(frac_sum(s.take(i)), s[i]),
{
    assert(s.take(i + 1).drop_last() =~= s.take(i));
    assert(s.take(i + 1).last() == s[i]);
}

/// The prefix of full length is the sequence itself.
pub proof fn lemma_frac_sum_take_all(s: Seq<Frac>)
    ensures
        frac_sum(s.take(s.len() as int)) == frac_sum(s),
{
    assert(s.take(s.len() as int) =~= s);
}

/// A sum of fractions that all stand for zero stands for zero.
pub proof fn lemma_frac_sum_zero(s: Seq<Frac>)
    requires
        forall|i: int| 0 <= i < s.len() ==> frac_is_zero(#[trigger] s[i]),
    ensures
        frac_is_zero(frac_sum(s)),
    decreases s.len(),
{
    if s.len() > 0 {
        lemma_frac_sum_zero(s.drop_last());
        let a = frac_sum(s.drop_last());
        let b = s.last();
        assert(a.n * b.d + b.n * a.d == 0) by (nonlinear_arith)
            requires
                a.n == 0,
                b.n == 0,
        ;
        lemma_frac_norm_zero(Frac { n: a.n * b.d + b.n * a.d, d: a.d * b.d });
    }
}

} // verus!
