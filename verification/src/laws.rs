//! Guarantees that relate several functions of the library, stated and
//! proved once so that a reader sees them rather than derives them.

use crate::fracs::{
    col_term, eval_frac, frac_eq, frac_is_zero, frac_mul, frac_sum, lemma_frac_norm_zero,
    lemma_frac_sum_zero, normal_eq_holds, residual_frac, weighted_residuals, Frac,
};
use crate::rational::Rat;
use crate::regression::{eval_series_ok, Polynomial};
use vstd::prelude::*;

verus! {

/// Evaluating a model over a range is deterministic: any two series that
/// satisfy the evaluation contract for the same model and the same
/// inclusive range are identical, point for point.
pub proof fn lemma_polyval_deterministic(
    m: Polynomial,
    lo: int,
    hi: int,
    v1: Seq<(Rat, Rat)>,
    v2: Seq<(Rat, Rat)>,
)
    requires
        eval_series_ok(m, lo, hi, v1),
        eval_series_ok(m, lo, hi, v2),
    ensures
        v1 == v2,
{
    assert(v1.len() == v2.len());
    assert forall|k: int| 0 <= k < v1.len() implies v1[k] == v2[k] by {
        assert(v1[k].0@ == v2[k].0@);
        assert(v1[k].1@ == v2[k].1@);
        assert(v1[k].0.num == v2[k].0.num && v1[k].0.den == v2[k].0.den);
        assert(v1[k].1.num == v2[k].1.num && v1[k].1.den == v2[k].1.den);
    };
    assert(v1 =~= v2);
}

/// Data that lies exactly on a polynomial satisfies that polynomial's
/// normal equations: every residual is zero, so the residual vector is
/// orthogonal to every column of the augmented design matrix.  This is
/// the exact half of the solver's round-trip guarantee: the generating
/// coefficients are always among the least-squares optima of noise-free
/// data.
pub proof fn lemma_exact_fit_satisfies_normal_equations(
    xs: Seq<Frac>,
    ys: Seq<Frac>,
    coeffs: Seq<Frac>,
    intercept: Frac,
    degree: int,
)
    requires
        xs.len() == ys.len(),
        coeffs.len() == degree,
        forall|i: int|
            0 <= i < xs.len() ==> frac_eq(ys[i], #[trigger] eval_frac(coeffs, intercept, xs[i])),
    ensures
        normal_eq_holds(xs, ys, coeffs, intercept, degree),
{
    assert forall|j: int|
        0 <= j <= degree implies frac_is_zero(
        frac_sum(#[trigger] weighted_residuals(xs, ys, coeffs, intercept, j, degree)),
    ) by {
        let terms = weighted_residuals(xs, ys, coeffs, intercept, j, degree);
        assert forall|i: int| 0 <= i < terms.len() implies frac_is_zero(#[trigger] terms[i]) by {
            let ev = eval_frac(coeffs, intercept, xs[i]);
            assert(frac_eq(ys[i], ev));
            let raw = Frac { n: ev.n * ys[i].d - ys[i].n * ev.d, d: ev.d * ys[i].d };
            assert(raw.n == 0);
            lemma_frac_norm_zero(raw);
            let r = residual_frac(coeffs, intercept, xs[i], ys[i]);
            assert(r.n == 0);
            let c = col_term(xs[i], j, degree);
            let raw2 = Frac { n: c.n * r.n, d: c.d * r.d };
            assert(c.n * 0 == 0) by (nonlinear_arith);
            assert(raw2.n == 0);
            lemma_frac_norm_zero(raw2);
            assert(terms[i] == frac_mul(c, r));
            assert(terms[i].n == 0);
        };
        lemma_frac_sum_zero(terms);
    };
}

} // verus!
