//! The least-squares machinery: polynomial evaluation, Gaussian
//! elimination over exact rationals, and the verified check that a
//! candidate solution satisfies the normal equations.
//!
//! The elimination itself promises only shape and well-formedness; the
//! checker re-derives the normal equations exactly, so everything a
//! caller learns about a solution comes from a verified recomputation.

use crate::error::FitError;
use crate::fracs::{
    col_term, distinct_count, eval_frac, eval_upto, frac_add, frac_eq, frac_is_zero, frac_mul,
    frac_pow, frac_sum, int_frac, lemma_frac_sum_take_all, lemma_frac_sum_take_push,
    normal_eq_holds, residual_frac, weighted_residuals, Frac,
};
use crate::rational::{frac_fits, Rat};
use vstd::prelude::*;

verus! {

/// Every rational of a sequence is well-formed.
pub open spec fn rats_wf(s: Seq<Rat>) -> bool {
    forall|i: int| 0 <= i < s.len() ==> (#[trigger] s[i]).wf()
}

/// The fractions that a sequence of rationals stands for.
pub open spec fn fracs_of(s: Seq<Rat>) -> Seq<Frac> {
    s.map_values(|r: Rat| r@)
}

/// `x` raised to the positive power `e`, by repeated multiplication.
pub(crate) fn rat_pow(x: Rat, e: usize) -> (r: Option<Rat>)
    requires
        x.wf(),
        e >= 1,
    ensures
        r matches Some(p) ==> p.wf() && p@ == frac_pow(x@, e as nat),
{
    let mut p = match Rat::from_int(1).checked_mul(x) {
        Some(v) => v,
        None => {
            return None;
        },
    };
    let mut i: usize = 1;
    proof {
        assert(frac_pow(x@, 0) == int_frac(1));
        assert(frac_pow(x@, 1) == frac_mul(int_frac(1), x@));
        assert(frac_pow(x@, 1) == p@);
    }
    while i < e
        invariant
            1 <= i <= e,
            x.wf(),
            p.wf(),
            p@ == frac_pow(x@, i as nat),
        decreases e - i,
    {
        let next = match p.checked_mul(x) {
            Some(v) => v,
            None => {
                return None;
            },
        };
        p = next;
        i = i + 1;
        proof {
            assert(frac_pow(x@, i as nat) == p@);
        }
    }
    Some(p)
}

/// Every intermediate of evaluating the polynomial at `x` fits the
/// machine range: each power of `x`, each coefficient-times-power term,
/// and each partial value of the accumulation.
pub open spec fn eval_fits(coeffs: Seq<Frac>, intercept: Frac, x: Frac) -> bool {
    forall|e: nat| #![trigger frac_pow(x, e)]
        1 <= e <= coeffs.len() ==> frac_fits(frac_pow(x, e)) && frac_fits(
            frac_mul(coeffs[e - 1], frac_pow(x, e)),
        ) && frac_fits(eval_upto(coeffs, intercept, x, e))
}

/// The fitted polynomial's value at `x`: the intercept plus each
/// coefficient times the matching power of `x`, accumulated left to right.
/// Succeeds exactly when every intermediate fits the machine range.
pub(crate) fn predict_one(coeffs: &Vec<Rat>, intercept: Rat, x: Rat) -> (r: Option<Rat>)
    requires
        rats_wf(coeffs@),
        intercept.wf(),
        x.wf(),
    ensures
        r matches Some(y) ==> y.wf() && y@ == eval_frac(fracs_of(coeffs@), intercept@, x@),
        r is Some <==> eval_fits(fracs_of(coeffs@), intercept@, x@),
{
    let ghost cf = fracs_of(coeffs@);
    let n = coeffs.len();
    let mut acc = intercept;
    let mut pw = Rat::from_int(1);
    proof {
        assert(cf.len() == coeffs@.len());
        assert(pw@ == frac_pow(x@, 0));
    }
    for i in 0..n
        invariant
            n == coeffs@.len(),
            rats_wf(coeffs@),
            x.wf(),
            acc.wf(),
            pw.wf(),
            cf == fracs_of(coeffs@),
            cf.len() == n,
            pw@ == frac_pow(x@, i as nat),
            acc@ == eval_upto(cf, intercept@, x@, i as nat),
            forall|e: nat| #![trigger frac_pow(x@, e)]
                1 <= e <= i ==> frac_fits(frac_pow(x@, e)) && frac_fits(
                    frac_mul(cf[e - 1], frac_pow(x@, e)),
                ) && frac_fits(eval_upto(cf, intercept@, x@, e)),
    {
        proof {
            assert(frac_pow(x@, (i + 1) as nat) == frac_mul(frac_pow(x@, i as nat), x@));
            assert(fracs_of(coeffs@)[i as int] == coeffs@[i as int]@);
        }
        let next_pw = match pw.checked_mul(x) {
            Some(v) => v,
            None => {
                proof {
                    let en: nat = (i + 1) as nat;
                    assert(!frac_fits(frac_pow(x@, en)));
                    assert(!eval_fits(cf, intercept@, x@));
                }
                return None;
            },
        };
        let term = match coeffs[i].checked_mul(next_pw) {
            Some(v) => v,
            None => {
                proof {
                    let en: nat = (i + 1) as nat;
                    assert(!frac_fits(frac_mul(cf[en - 1], frac_pow(x@, en))));
                    assert(!eval_fits(cf, intercept@, x@));
                }
                return None;
            },
        };
        let next_acc = match acc.checked_add(term) {
            Some(v) => v,
            None => {
                proof {
                    let en: nat = (i + 1) as nat;
                    assert(eval_upto(cf, intercept@, x@, en) == frac_add(
                        eval_upto(cf, intercept@, x@, i as nat),
                        frac_mul(cf[i as int], frac_pow(x@, en)),
                    ));
                    assert(!frac_fits(eval_upto(cf, intercept@, x@, en)));
                    assert(!eval_fits(cf, intercept@, x@));
                }
                return None;
            },
        };
        proof {
            assert(next_pw@ == frac_pow(x@, (i + 1) as nat));
            assert(next_acc@ == eval_upto(cf, intercept@, x@, (i + 1) as nat));
            assert(frac_fits(frac_pow(x@, (i + 1) as nat)));
            assert(frac_fits(frac_mul(cf[i as int], frac_pow(x@, (i + 1) as nat))));
            assert(frac_fits(eval_upto(cf, intercept@, x@, (i + 1) as nat)));
        }
        pw = next_pw;
        acc = next_acc;
    }
    Some(acc)
}

/// Counts the pairwise-distinct rational values of a column by exact
/// comparison, the way [`distinct_count`] counts them.
pub(crate) fn count_distinct(xs: &Vec<Rat>) -> (c: usize)
    ensures
        c == distinct_count(fracs_of(xs@)),
{
    let ghost xf = fracs_of(xs@);
    let n = xs.len();
    let mut c: usize = 0;
    proof {
        assert(xf.take(0) =~= Seq::<Frac>::empty());
    }
    for i in 0..n
        invariant
            n == xs@.len(),
            xf == fracs_of(xs@),
            c <= i,
            c == distinct_count(xf.take(i as int)),
    {
        let mut seen = false;
        for j in 0..i
            invariant
                i < n,
                n == xs@.len(),
                xf == fracs_of(xs@),
                seen <==> (exists|q: int| 0 <= q < j && frac_eq(#[trigger] xf[q], xf[i as int])),
        {
            proof {
                assert(xf[j as int] == xs@[j as int]@);
                assert(xf[i as int] == xs@[i as int]@);
            }
            if xs[j].same_value(xs[i]) {
                seen = true;
            }
        }
        proof {
            let pre = xf.take(i + 1);
            assert(pre.drop_last() =~= xf.take(i as int));
            assert(pre.last() == xf[i as int]);
            assert(forall|q: int| 0 <= q < i ==> #[trigger] pre[q] == xf[q]);
            if seen {
                let q = choose|q: int| 0 <= q < i && frac_eq(#[trigger] xf[q], xf[i as int]);
                assert(frac_eq(pre[q], pre.last()));
                assert(exists|j: int| 0 <= j < pre.len() - 1 && frac_eq(#[trigger] pre[j], pre.last()));
                assert(distinct_count(pre) == distinct_count(xf.take(i as int)));
            } else {
                assert(!(exists|j: int| 0 <= j < pre.len() - 1 && frac_eq(#[trigger] pre[j], pre.last())));
                assert(distinct_count(pre) == distinct_count(xf.take(i as int)) + 1);
            }
        }
        if !seen {
            c = c + 1;
        }
    }
    proof {
        assert(xf.take(n as int) =~= xf);
    }
    c
}

/// Decides exactly whether the candidate `coeffs` and `intercept` satisfy
/// the normal equations of the dataset; `None` when a recomputed value
/// leaves the machine range.
pub(crate) fn check_normal_equations(
    xs: &Vec<Rat>,
    ys: &Vec<Rat>,
    coeffs: &Vec<Rat>,
    intercept: Rat,
    degree: usize,
) -> (r: Option<bool>)
    requires
        rats_wf(xs@),
        rats_wf(ys@),
        rats_wf(coeffs@),
        intercept.wf(),
        xs@.len() == ys@.len(),
        coeffs@.len() == degree,
        degree < usize::MAX,
    ensures
        r matches Some(b) ==> b == normal_eq_holds(
            fracs_of(xs@),
            fracs_of(ys@),
            fracs_of(coeffs@),
            intercept@,
            degree as int,
        ),
{
    let n = xs.len();
    let ghost cf = fracs_of(coeffs@);
    let ghost xf = fracs_of(xs@);
    let ghost yf = fracs_of(ys@);
    let mut residuals: Vec<Rat> = Vec::new();
    for i in 0..n
        invariant
            n == xs@.len(),
            rats_wf(xs@),
            rats_wf(ys@),
            rats_wf(coeffs@),
            intercept.wf(),
            xs@.len() == ys@.len(),
            cf == fracs_of(coeffs@),
            xf == fracs_of(xs@),
            yf == fracs_of(ys@),
            residuals@.len() == i,
            forall|k: int|
                0 <= k < i ==> (#[trigger] residuals@[k]).wf() && residuals@[k]@ == residual_frac(
                    cf,
                    intercept@,
                    xf[k],
                    yf[k],
                ),
    {
        let p = match predict_one(coeffs, intercept, xs[i]) {
            Some(v) => v,
            None => {
                return None;
            },
        };
        let r = match p.checked_sub(ys[i]) {
            Some(v) => v,
            None => {
                return None;
            },
        };
        proof {
            assert(xf[i as int] == xs@[i as int]@);
            assert(yf[i as int] == ys@[i as int]@);
        }
        residuals.push(r);
    }
    let mut j: usize = 0;
    while j <= degree
        invariant
            n == xs@.len(),
            rats_wf(xs@),
            rats_wf(ys@),
            rats_wf(coeffs@),
            intercept.wf(),
            xs@.len() == ys@.len(),
            coeffs@.len() == degree,
            degree < usize::MAX,
            j <= degree + 1,
            cf == fracs_of(coeffs@),
            xf == fracs_of(xs@),
            yf == fracs_of(ys@),
            residuals@.len() == n,
            forall|k: int|
                0 <= k < n ==> (#[trigger] residuals@[k]).wf() && residuals@[k]@ == residual_frac(
                    cf,
                    intercept@,
                    xf[k],
                    yf[k],
                ),
            forall|jp: int|
                0 <= jp < j ==> frac_is_zero(
                    frac_sum(#[trigger] weighted_residuals(xf, yf, cf, intercept@, jp, degree as int)),
                ),
        decreases degree + 1 - j,
    {
        let ghost ws = weighted_residuals(xf, yf, cf, intercept@, j as int, degree as int);
        let mut sum = Rat::from_int(0);
        proof {
            assert(ws.take(0) =~= Seq::<Frac>::empty());
            assert(frac_sum(ws.take(0)) == int_frac(0));
        }
        for i in 0..n
            invariant
                n == xs@.len(),
                rats_wf(xs@),
                rats_wf(ys@),
                rats_wf(coeffs@),
                intercept.wf(),
                xs@.len() == ys@.len(),
                coeffs@.len() == degree,
                j <= degree,
                cf == fracs_of(coeffs@),
                xf == fracs_of(xs@),
                yf == fracs_of(ys@),
                ws == weighted_residuals(xf, yf, cf, intercept@, j as int, degree as int),
                residuals@.len() == n,
                forall|k: int|
                    0 <= k < n ==> (#[trigger] residuals@[k]).wf() && residuals@[k]@
                        == residual_frac(cf, intercept@, xf[k], yf[k]),
                sum.wf(),
                sum@ == frac_sum(ws.take(i as int)),
        {
            let col: Rat = if j < degree {
                match rat_pow(xs[i], j + 1) {
                    Some(v) => v,
                    None => {
                        return None;
                    },
                }
            } else {
                Rat::from_int(1)
            };
            proof {
                assert(xf[i as int] == xs@[i as int]@);
                assert(col@ == col_term(xf[i as int], j as int, degree as int));
            }
            let term = match col.checked_mul(residuals[i]) {
                Some(v) => v,
                None => {
                    return None;
                },
            };
            let next_sum = match sum.checked_add(term) {
                Some(v) => v,
                None => {
                    return None;
                },
            };
            proof {
                assert(ws[i as int] == term@);
                lemma_frac_sum_take_push(ws, i as int);
            }
            sum = next_sum;
        }
        proof {
            assert(ws.len() == n);
            lemma_frac_sum_take_all(ws);
        }
        if sum.num != 0 {
            proof {
                assert(!frac_is_zero(frac_sum(ws)));
            }
            return Some(false);
        }
        j = j + 1;
    }
    Some(true)
}

/// The shape of an augmented system: `m` rows of `m + 1` well-formed
/// rationals each.
pub open spec fn mat_wf(mat: Seq<Vec<Rat>>, m: int) -> bool {
    &&& mat.len() == m
    &&& forall|i: int| 0 <= i < m ==> (#[trigger] mat[i])@.len() == m + 1 && rats_wf(mat[i]@)
}

/// Solves the augmented `m` by `m + 1` system by Gaussian elimination with
/// row pivoting and back substitution.  The caller learns only the shape of
/// the solution; whether it solves anything is decided afterwards by
/// [`check_normal_equations`].
pub(crate) fn gauss_solve(m: usize, mat: Vec<Vec<Rat>>) -> (r: Result<Vec<Rat>, FitError>)
    requires
        1 <= m < usize::MAX,
        mat_wf(mat@, m as int),
    ensures
        r matches Ok(beta) ==> beta@.len() == m && rats_wf(beta@),
        r matches Err(e) ==> e == FitError::SingularSystem || e == FitError::NumericOverflow,
{
    let mut mat = mat;
    for k in 0..m
        invariant
            m < usize::MAX,
            mat_wf(mat@, m as int),
    {
        let mut piv: usize = k;
        while piv < m && mat[piv][k].num == 0
            invariant
                k <= piv <= m,
                k < m,
                m < usize::MAX,
                mat_wf(mat@, m as int),
            decreases m - piv,
        {
            piv = piv + 1;
        }
        if piv == m {
            return Err(FitError::SingularSystem);
        }
        if piv != k {
            for c in 0..(m + 1)
                invariant
                    k < m,
                    piv < m,
                    m < usize::MAX,
                    mat_wf(mat@, m as int),
            {
                let a = mat[k][c];
                let b = mat[piv][c];
                mat[k][c] = b;
                mat[piv][c] = a;
            }
        }
        if mat[k][k].num == 0 {
            return Err(FitError::SingularSystem);
        }
        let pivot = mat[k][k];
        let mut r: usize = k + 1;
        while r < m
            invariant
                k < m,
                k < r <= m,
                m < usize::MAX,
                pivot.wf(),
                mat_wf(mat@, m as int),
            decreases m - r,
        {
            let factor = match mat[r][k].checked_div(pivot) {
                Some(f) => f,
                None => {
                    return Err(FitError::NumericOverflow);
                },
            };
            for c in 0..(m + 1)
                invariant
                    k < m,
                    r < m,
                    m < usize::MAX,
                    factor.wf(),
                    mat_wf(mat@, m as int),
            {
                let t = match factor.checked_mul(mat[k][c]) {
                    Some(v) => v,
                    None => {
                        return Err(FitError::NumericOverflow);
                    },
                };
                let nv = match mat[r][c].checked_sub(t) {
                    Some(v) => v,
                    None => {
                        return Err(FitError::NumericOverflow);
                    },
                };
                mat[r][c] = nv;
            }
            r = r + 1;
        }
    }
    let mut beta: Vec<Rat> = Vec::new();
    for idx in 0..m
        invariant
            beta@.len() == idx,
            rats_wf(beta@),
    {
        beta.push(Rat::from_int(0));
    }
    let mut k: usize = m;
    while k > 0
        invariant
            k <= m,
            m < usize::MAX,
            mat_wf(mat@, m as int),
            beta@.len() == m,
            rats_wf(beta@),
        decreases k,
    {
        k = k - 1;
        let mut acc = mat[k][m];
        let mut c: usize = k + 1;
        while c < m
            invariant
                k < m,
                k < c <= m,
                m < usize::MAX,
                acc.wf(),
                mat_wf(mat@, m as int),
                beta@.len() == m,
                rats_wf(beta@),
            decreases m - c,
        {
            let t = match mat[k][c].checked_mul(beta[c]) {
                Some(v) => v,
                None => {
                    return Err(FitError::NumericOverflow);
                },
            };
            acc = match acc.checked_sub(t) {
                Some(v) => v,
                None => {
                    return Err(FitError::NumericOverflow);
                },
            };
            c = c + 1;
        }
        if mat[k][k].num == 0 {
            return Err(FitError::SingularSystem);
        }
        let b = match acc.checked_div(mat[k][k]) {
            Some(v) => v,
            None => {
                return Err(FitError::NumericOverflow);
            },
        };
        beta[k] = b;
    }
    Ok(beta)
}

} // verus!
