//! Fitting polynomial models to two-dimensional datasets.
//!
//! Two paths produce a model: the closed-form slope and intercept of a
//! degree-one fit, and the general least-squares solver for any degree.
//! Both work on exact rationals, and both say exactly what they return.

use crate::error::FitError;
use crate::fracs::{
    distinct_count, eval_frac, frac_div, frac_eq, frac_is_zero, frac_mul, frac_pow, frac_sub,
    frac_sum, int_frac, lemma_frac_sum_take_all, lemma_frac_sum_take_push, normal_eq_holds, Frac,
};
use crate::rational::{frac_fits, in_rat_range, prefix_sums_fit, Rat};
use crate::solve::{
    check_normal_equations, count_distinct, eval_fits, fracs_of, gauss_solve, predict_one, rats_wf,
};
use vstd::prelude::*;

verus! {

/// Both rationals of every pair are well-formed.
pub open spec fn pairs_wf(s: Seq<(Rat, Rat)>) -> bool {
    forall|i: int| 0 <= i < s.len() ==> (#[trigger] s[i]).0.wf() && s[i].1.wf()
}

/// The x column of a dataset, as fractions.
pub open spec fn xs_fracs(data: Seq<(Rat, Rat)>) -> Seq<Frac> {
    data.map_values(|p: (Rat, Rat)| p.0@)
}

/// The y column of a dataset, as fractions.
pub open spec fn ys_fracs(data: Seq<(Rat, Rat)>) -> Seq<Frac> {
    data.map_values(|p: (Rat, Rat)| p.1@)
}

/// The mean of the x column, as a population moment.
pub open spec fn mean_x_spec(data: Seq<(Rat, Rat)>) -> Frac {
    frac_div(frac_sum(xs_fracs(data)), int_frac(data.len() as int))
}

/// The mean of the y column, as a population moment.
pub open spec fn mean_y_spec(data: Seq<(Rat, Rat)>) -> Frac {
    frac_div(frac_sum(ys_fracs(data)), int_frac(data.len() as int))
}

/// How far point `i`'s x lies from the x mean.
pub open spec fn dev_x(data: Seq<(Rat, Rat)>, i: int) -> Frac {
    frac_sub(data[i].0@, mean_x_spec(data))
}

/// How far point `i`'s y lies from the y mean.
pub open spec fn dev_y(data: Seq<(Rat, Rat)>, i: int) -> Frac {
    frac_sub(data[i].1@, mean_y_spec(data))
}

/// The products of paired deviations from the two means, one per point.
pub open spec fn cov_terms(data: Seq<(Rat, Rat)>) -> Seq<Frac> {
    Seq::new(data.len(), |i: int| frac_mul(dev_x(data, i), dev_y(data, i)))
}

/// The squared deviations of the x column from its mean, one per point.
pub open spec fn var_terms(data: Seq<(Rat, Rat)>) -> Seq<Frac> {
    Seq::new(data.len(), |i: int| frac_mul(dev_x(data, i), dev_x(data, i)))
}

/// The population covariance of x and y.
pub open spec fn cov_xy_spec(data: Seq<(Rat, Rat)>) -> Frac {
    frac_div(frac_sum(cov_terms(data)), int_frac(data.len() as int))
}

/// The population variance of x.
pub open spec fn var_x_spec(data: Seq<(Rat, Rat)>) -> Frac {
    frac_div(frac_sum(var_terms(data)), int_frac(data.len() as int))
}

/// The closed-form slope: covariance over variance.
pub open spec fn slope_spec(data: Seq<(Rat, Rat)>) -> Frac {
    frac_div(cov_xy_spec(data), var_x_spec(data))
}

/// The closed-form intercept: the y mean, less the slope times the x mean.
pub open spec fn intercept_spec(data: Seq<(Rat, Rat)>) -> Frac {
    frac_sub(mean_y_spec(data), frac_mul(slope_spec(data), mean_x_spec(data)))
}

/// Every x of the dataset stands for the same number as the first: the
/// degenerate shape on which no slope exists.
pub open spec fn all_x_same(data: Seq<(Rat, Rat)>) -> bool {
    forall|i: int| 0 <= i < data.len() ==> frac_eq(#[trigger] data[i].0@, data[0].0@)
}

/// Every intermediate of the closed-form fit stays in the machine range
/// and the variance is not zero: the condition under which the fit must
/// succeed.
pub open spec fn lin_fit_ok(data: Seq<(Rat, Rat)>) -> bool {
    &&& prefix_sums_fit(xs_fracs(data))
    &&& prefix_sums_fit(ys_fracs(data))
    &&& frac_fits(mean_x_spec(data))
    &&& frac_fits(mean_y_spec(data))
    &&& forall|i: int|
        0 <= i < data.len() ==> frac_fits(#[trigger] dev_x(data, i)) && frac_fits(dev_y(data, i))
            && frac_fits(frac_mul(dev_x(data, i), dev_y(data, i))) && frac_fits(
            frac_mul(dev_x(data, i), dev_x(data, i)),
        )
    &&& prefix_sums_fit(cov_terms(data))
    &&& prefix_sums_fit(var_terms(data))
    &&& frac_fits(cov_xy_spec(data))
    &&& frac_fits(var_x_spec(data))
    &&& !frac_is_zero(var_x_spec(data))
    &&& frac_fits(slope_spec(data))
    &&& frac_fits(frac_mul(slope_spec(data), mean_x_spec(data)))
    &&& frac_fits(intercept_spec(data))
}

/// Every feature power of `x` up to `degree` fits the machine range.
pub open spec fn pows_fit(x: Frac, degree: int) -> bool {
    forall|e: nat| #![trigger frac_pow(x, e)]
        1 <= e <= degree ==> in_rat_range(frac_pow(x, e).n) && in_rat_range(frac_pow(x, e).d)
}

/// How many integers an inclusive range holds.
pub open spec fn range_count(lo: int, hi: int) -> int {
    if lo <= hi {
        hi - lo + 1
    } else {
        0
    }
}

/// Every sample of the inclusive range can be evaluated within the
/// machine range: the condition under which `polyval` must succeed.
pub open spec fn polyval_fits(m: Polynomial, lo: int, hi: int) -> bool {
    forall|x: int| #![trigger int_frac(x)]
        lo <= x <= hi ==> eval_fits(fracs_of(m.coefficients@), m.intercept@, int_frac(x))
}

/// What a successful evaluation over an inclusive range looks like: one
/// point per integer of the range, the x of each point that integer, the
/// y of each point the model's exact value there.
pub open spec fn eval_series_ok(m: Polynomial, lo: int, hi: int, v: Seq<(Rat, Rat)>) -> bool {
    &&& v.len() == range_count(lo, hi)
    &&& forall|k: int|
        0 <= k < v.len() ==> (#[trigger] v[k]).0.wf() && v[k].1.wf() && v[k].0@ == int_frac(lo + k)
            && v[k].1@ == eval_frac(fracs_of(m.coefficients@), m.intercept@, int_frac(lo + k))
}

/// The polynomial feature expansion of one sample: `[x, x^2, ..., x^degree]`,
/// built by repeated multiplication by `x`.
pub fn set_degree(x: Rat, degree: usize) -> (r: Result<Vec<Rat>, FitError>)
    requires
        x.wf(),
    ensures
        (r matches Err(e) && e == FitError::InvalidDegree) <==> degree == 0,
        degree >= 1 ==> ((r is Ok) <==> pows_fit(x@, degree as int)),
        r matches Ok(v) ==> v@.len() == degree && rats_wf(v@) && (forall|i: int|
            0 <= i < degree ==> (#[trigger] v@[i])@ == frac_pow(x@, (i + 1) as nat)),
        r matches Err(e) ==> e == FitError::InvalidDegree || e == FitError::NumericOverflow,
{
    if degree == 0 {
        return Err(FitError::InvalidDegree);
    }
    let mut v: Vec<Rat> = Vec::new();
    let mut p = Rat::from_int(1);
    proof {
        assert(p@ == frac_pow(x@, 0));
    }
    for i in 0..degree
        invariant
            degree >= 1,
            x.wf(),
            p.wf(),
            p@ == frac_pow(x@, i as nat),
            v@.len() == i,
            rats_wf(v@),
            forall|k: int| 0 <= k < i ==> (#[trigger] v@[k])@ == frac_pow(x@, (k + 1) as nat),
            forall|e: nat| #![trigger frac_pow(x@, e)]
                1 <= e <= i ==> in_rat_range(frac_pow(x@, e).n) && in_rat_range(frac_pow(x@, e).d),
    {
        let next = match p.checked_mul(x) {
            Some(q) => q,
            None => {
                proof {
                    let en: nat = (i + 1) as nat;
                    assert(frac_pow(x@, en) == frac_mul(frac_pow(x@, i as nat), x@));
                    assert(!in_rat_range(frac_pow(x@, en).n) || !in_rat_range(
                        frac_pow(x@, en).d,
                    ));
                    assert(1 <= en <= degree);
                    assert(!pows_fit(x@, degree as int));
                }
                return Err(FitError::NumericOverflow);
            },
        };
        proof {
            assert(next@ == frac_pow(x@, (i + 1) as nat));
            assert(in_rat_range(frac_pow(x@, (i + 1) as nat).n) && in_rat_range(
                frac_pow(x@, (i + 1) as nat).d,
            ));
        }
        p = next;
        v.push(p);
    }
    Ok(v)
}

/// The closed-form degree-one fit: the slope is the population covariance
/// of x and y over the population variance of x, and the intercept places
/// the line through the point of means.  Succeeds exactly when the dataset
/// is nonempty, the x values are not all one number, the length fits the
/// numerator range, and every intermediate of the exact computation stays
/// in the machine range.
pub fn slope_and_intercept(data: &Vec<(Rat, Rat)>) -> (r: Result<(Rat, Rat), FitError>)
    requires
        pairs_wf(data@),
    ensures
        (r matches Err(e) && e == FitError::InsufficientData) <==> data@.len() == 0,
        (r matches Err(e) && e == FitError::DegenerateInput) <==> (data@.len() > 0 && all_x_same(
            data@,
        )),
        (r is Ok) <==> (data@.len() > 0 && !all_x_same(data@) && data@.len() <= i64::MAX
            && lin_fit_ok(data@)),
        r matches Ok(si) ==> si.0.wf() && si.1.wf() && !frac_is_zero(var_x_spec(data@))
            && si.0@ == slope_spec(data@) && si.1@ == intercept_spec(data@),
        r matches Err(e) ==> e == FitError::InsufficientData || e == FitError::DegenerateInput
            || e == FitError::NumericOverflow,
{
    let n = data.len();
    if n == 0 {
        return Err(FitError::InsufficientData);
    }
    // Decide the degenerate shape by exact comparison before any
    // arithmetic, so it is reported even where a sum would overflow.
    let first = data[0].0;
    let mut same = true;
    for i in 0..n
        invariant
            n == data@.len(),
            n > 0,
            pairs_wf(data@),
            first == data@[0].0,
            same <==> (forall|j: int| 0 <= j < i ==> frac_eq(#[trigger] data@[j].0@, data@[0].0@)),
    {
        if !data[i].0.same_value(first) {
            same = false;
        }
    }
    if same {
        return Err(FitError::DegenerateInput);
    }
    let n64: u64 = n as u64;
    if n64 > i64::MAX as u64 {
        return Err(FitError::NumericOverflow);
    }
    let n_rat = Rat::from_int(n as i64);
    let ghost xf = xs_fracs(data@);
    let ghost yf = ys_fracs(data@);
    let mut sum_x = Rat::from_int(0);
    let mut sum_y = Rat::from_int(0);
    proof {
        assert(xf.take(0) =~= Seq::<Frac>::empty());
        assert(yf.take(0) =~= Seq::<Frac>::empty());
    }
    for i in 0..n
        invariant
            n == data@.len(),
            n <= i64::MAX,
            !all_x_same(data@),
            pairs_wf(data@),
            xf == xs_fracs(data@),
            yf == ys_fracs(data@),
            sum_x.wf(),
            sum_y.wf(),
            sum_x@ == frac_sum(xf.take(i as int)),
            sum_y@ == frac_sum(yf.take(i as int)),
            forall|q: int| 0 < q <= i ==> frac_fits(frac_sum(#[trigger] xf.take(q))),
            forall|q: int| 0 < q <= i ==> frac_fits(frac_sum(#[trigger] yf.take(q))),
    {
        proof {
            assert(xf[i as int] == data@[i as int].0@);
            assert(yf[i as int] == data@[i as int].1@);
            lemma_frac_sum_take_push(xf, i as int);
            lemma_frac_sum_take_push(yf, i as int);
        }
        sum_x = match sum_x.checked_add(data[i].0) {
            Some(v) => v,
            None => {
                proof {
                    assert(!frac_fits(frac_sum(xf.take(i + 1))));
                    assert(!prefix_sums_fit(xf));
                }
                return Err(FitError::NumericOverflow);
            },
        };
        sum_y = match sum_y.checked_add(data[i].1) {
            Some(v) => v,
            None => {
                proof {
                    assert(!frac_fits(frac_sum(yf.take(i + 1))));
                    assert(!prefix_sums_fit(yf));
                }
                return Err(FitError::NumericOverflow);
            },
        };
        proof {
            assert(frac_fits(frac_sum(xf.take(i + 1))));
            assert(frac_fits(frac_sum(yf.take(i + 1))));
        }
    }
    proof {
        lemma_frac_sum_take_all(xf);
        lemma_frac_sum_take_all(yf);
        assert(prefix_sums_fit(xf));
        assert(prefix_sums_fit(yf));
    }
    let mean_x = match sum_x.checked_div(n_rat) {
        Some(v) => v,
        None => {
            proof {
                assert(!frac_fits(mean_x_spec(data@)));
            }
            return Err(FitError::NumericOverflow);
        },
    };
    let mean_y = match sum_y.checked_div(n_rat) {
        Some(v) => v,
        None => {
            proof {
                assert(!frac_fits(mean_y_spec(data@)));
            }
            return Err(FitError::NumericOverflow);
        },
    };
    proof {
        assert(mean_x@ == mean_x_spec(data@));
        assert(mean_y@ == mean_y_spec(data@));
    }
    let ghost ct = cov_terms(data@);
    let ghost vt = var_terms(data@);
    let mut sum_cov = Rat::from_int(0);
    let mut sum_var = Rat::from_int(0);
    proof {
        assert(ct.take(0) =~= Seq::<Frac>::empty());
        assert(vt.take(0) =~= Seq::<Frac>::empty());
    }
    for i in 0..n
        invariant
            n == data@.len(),
            n <= i64::MAX,
            !all_x_same(data@),
            pairs_wf(data@),
            prefix_sums_fit(xs_fracs(data@)),
            prefix_sums_fit(ys_fracs(data@)),
            frac_fits(mean_x_spec(data@)),
            frac_fits(mean_y_spec(data@)),
            mean_x.wf(),
            mean_y.wf(),
            mean_x@ == mean_x_spec(data@),
            mean_y@ == mean_y_spec(data@),
            ct == cov_terms(data@),
            vt == var_terms(data@),
            sum_cov.wf(),
            sum_var.wf(),
            sum_cov@ == frac_sum(ct.take(i as int)),
            sum_var@ == frac_sum(vt.take(i as int)),
            forall|q: int|
                0 <= q < i ==> frac_fits(#[trigger] dev_x(data@, q)) && frac_fits(
                    dev_y(data@, q),
                ) && frac_fits(frac_mul(dev_x(data@, q), dev_y(data@, q))) && frac_fits(
                    frac_mul(dev_x(data@, q), dev_x(data@, q)),
                ),
            forall|q: int| 0 < q <= i ==> frac_fits(frac_sum(#[trigger] ct.take(q))),
            forall|q: int| 0 < q <= i ==> frac_fits(frac_sum(#[trigger] vt.take(q))),
    {
        let dx = match data[i].0.checked_sub(mean_x) {
            Some(v) => v,
            None => {
                proof {
                    assert(!frac_fits(dev_x(data@, i as int)));
                    assert(!lin_fit_ok(data@));
                }
                return Err(FitError::NumericOverflow);
            },
        };
        let dy = match data[i].1.checked_sub(mean_y) {
            Some(v) => v,
            None => {
                proof {
                    assert(frac_fits(dev_x(data@, i as int)));
                    assert(!frac_fits(dev_y(data@, i as int)));
                    assert(!lin_fit_ok(data@));
                }
                return Err(FitError::NumericOverflow);
            },
        };
        proof {
            assert(dx@ == dev_x(data@, i as int));
            assert(dy@ == dev_y(data@, i as int));
        }
        let tc = match dx.checked_mul(dy) {
            Some(v) => v,
            None => {
                proof {
                    assert(!frac_fits(frac_mul(dev_x(data@, i as int), dev_y(data@, i as int))));
                    assert(!lin_fit_ok(data@));
                }
                return Err(FitError::NumericOverflow);
            },
        };
        let tv = match dx.checked_mul(dx) {
            Some(v) => v,
            None => {
                proof {
                    assert(!frac_fits(frac_mul(dev_x(data@, i as int), dev_x(data@, i as int))));
                    assert(!lin_fit_ok(data@));
                }
                return Err(FitError::NumericOverflow);
            },
        };
        proof {
            assert(ct[i as int] == tc@);
            assert(vt[i as int] == tv@);
            lemma_frac_sum_take_push(ct, i as int);
            lemma_frac_sum_take_push(vt, i as int);
        }
        sum_cov = match sum_cov.checked_add(tc) {
            Some(v) => v,
            None => {
                proof {
                    assert(!frac_fits(frac_sum(ct.take(i + 1))));
                    assert(!prefix_sums_fit(ct));
                }
                return Err(FitError::NumericOverflow);
            },
        };
        sum_var = match sum_var.checked_add(tv) {
            Some(v) => v,
            None => {
                proof {
                    assert(!frac_fits(frac_sum(vt.take(i + 1))));
                    assert(!prefix_sums_fit(vt));
                }
                return Err(FitError::NumericOverflow);
            },
        };
        proof {
            assert(frac_fits(frac_sum(ct.take(i + 1))));
            assert(frac_fits(frac_sum(vt.take(i + 1))));
            assert(frac_fits(dev_x(data@, i as int)));
            assert(frac_fits(dev_y(data@, i as int)));
            assert(frac_fits(frac_mul(dev_x(data@, i as int), dev_y(data@, i as int))));
            assert(frac_fits(frac_mul(dev_x(data@, i as int), dev_x(data@, i as int))));
        }
    }
    proof {
        lemma_frac_sum_take_all(ct);
        lemma_frac_sum_take_all(vt);
        assert(prefix_sums_fit(ct));
        assert(prefix_sums_fit(vt));
    }
    let cov_xy = match sum_cov.checked_div(n_rat) {
        Some(v) => v,
        None => {
            proof {
                assert(!frac_fits(cov_xy_spec(data@)));
            }
            return Err(FitError::NumericOverflow);
        },
    };
    let var_x = match sum_var.checked_div(n_rat) {
        Some(v) => v,
        None => {
            proof {
                assert(!frac_fits(var_x_spec(data@)));
            }
            return Err(FitError::NumericOverflow);
        },
    };
    proof {
        assert(cov_xy@ == cov_xy_spec(data@));
        assert(var_x@ == var_x_spec(data@));
    }
    let slope = match cov_xy.checked_div(var_x) {
        Some(v) => v,
        None => {
            proof {
                assert(frac_is_zero(var_x_spec(data@)) || !frac_fits(slope_spec(data@)));
            }
            return Err(FitError::NumericOverflow);
        },
    };
    let t = match slope.checked_mul(mean_x) {
        Some(v) => v,
        None => {
            proof {
                assert(!frac_fits(frac_mul(slope_spec(data@), mean_x_spec(data@))));
            }
            return Err(FitError::NumericOverflow);
        },
    };
    let intercept = match mean_y.checked_sub(t) {
        Some(v) => v,
        None => {
            proof {
                assert(!frac_fits(intercept_spec(data@)));
            }
            return Err(FitError::NumericOverflow);
        },
    };
    proof {
        assert(lin_fit_ok(data@));
    }
    Ok((slope, intercept))
}

/// A fitted polynomial model: `y = intercept + sum of coefficients[i] * x^(i+1)`.
pub struct Polynomial {
    /// One coefficient per feature power, lowest power first.
    pub coefficients: Vec<Rat>,
    /// The constant term of the model.
    pub intercept: Rat,
    /// The highest power of the model; the number of coefficients.
    pub degree: usize,
}

impl Polynomial {
    /// The degree is positive, the coefficients match it, and every number
    /// is well-formed.
    pub open spec fn wf(self) -> bool {
        &&& self.degree >= 1
        &&& self.coefficients@.len() == self.degree
        &&& rats_wf(self.coefficients@)
        &&& self.intercept.wf()
    }

    /// Assembles a model from its parts, refusing a degree below one and a
    /// coefficient count that does not match it.
    pub fn new(coefficients: Vec<Rat>, intercept: Rat, degree: usize) -> (r: Result<
        Polynomial,
        FitError,
    >)
        requires
            rats_wf(coefficients@),
            intercept.wf(),
        ensures
            (r matches Err(e) && e == FitError::InvalidDegree) <==> degree == 0,
            degree >= 1 ==> ((r is Ok) <==> coefficients@.len() == degree),
            r matches Ok(m) ==> m.wf() && m.degree == degree && m.coefficients@ == coefficients@
                && m.intercept == intercept,
            r matches Err(e) ==> e == FitError::InvalidDegree || e == FitError::InsufficientData,
    {
        if degree == 0 {
            return Err(FitError::InvalidDegree);
        }
        if coefficients.len() != degree {
            return Err(FitError::InsufficientData);
        }
        Ok(Polynomial { coefficients, intercept, degree })
    }

    /// Fits the least-squares polynomial of the given degree: expands every
    /// sample into its feature powers, assembles the normal equations of the
    /// augmented design matrix, solves them by Gaussian elimination, and then
    /// proves the candidate back against the normal equations, exactly.
    /// A column with at most `degree` distinct x values is refused as
    /// singular before anything is assembled.
    pub fn polyfit(xs: &Vec<Rat>, ys: &Vec<Rat>, degree: usize) -> (r: Result<Polynomial, FitError>)
        requires
            rats_wf(xs@),
            rats_wf(ys@),
        ensures
            (r matches Err(e) && e == FitError::InvalidDegree) <==> degree == 0,
            degree >= 1 ==> ((r matches Err(e) && e == FitError::InsufficientData) <==> (xs@.len()
                != ys@.len() || xs@.len() < degree + 1)),
            r matches Ok(m) ==> m.wf() && m.degree == degree && normal_eq_holds(
                fracs_of(xs@),
                fracs_of(ys@),
                fracs_of(m.coefficients@),
                m.intercept@,
                degree as int,
            ),
            r matches Err(e) && e == FitError::SingularSystem ==> degree >= 1 && xs@.len()
                == ys@.len() && xs@.len() >= degree + 1,
            (degree >= 1 && xs@.len() == ys@.len() && xs@.len() >= degree + 1 && distinct_count(
                fracs_of(xs@),
            ) < degree + 1) ==> (r matches Err(e) && e == FitError::SingularSystem),
            !(r matches Err(e) && e == FitError::DegenerateInput),
    {
        if degree == 0 {
            return Err(FitError::InvalidDegree);
        }
        if xs.len() != ys.len() || xs.len() <= degree {
            return Err(FitError::InsufficientData);
        }
        // A column with at most `degree` distinct values cannot span the
        // feature space: the design matrix is rank deficient, so refuse it
        // here, exactly.
        let distinct = count_distinct(xs);
        if distinct <= degree {
            return Err(FitError::SingularSystem);
        }
        if degree > 0x3fff_ffff {
            return Err(FitError::NumericOverflow);
        }
        let n = xs.len();
        let mut design: Vec<Vec<Rat>> = Vec::new();
        for i in 0..n
            invariant
                n == xs@.len() == ys@.len(),
                degree < n,
                1 <= degree <= 0x3fff_ffff,
                distinct_count(fracs_of(xs@)) > degree,
                rats_wf(xs@),
                design@.len() == i,
                forall|k: int|
                    0 <= k < i ==> (#[trigger] design@[k])@.len() == degree && rats_wf(
                        design@[k]@,
                    ),
        {
            let row = match set_degree(xs[i], degree) {
                Ok(v) => v,
                Err(e) => {
                    return Err(e);
                },
            };
            design.push(row);
        }
        let m = degree + 1;
        let mut mat: Vec<Vec<Rat>> = Vec::new();
        for j in 0..m
            invariant
                n == xs@.len() == ys@.len(),
                degree < n,
                1 <= degree <= 0x3fff_ffff,
                distinct_count(fracs_of(xs@)) > degree,
                m == degree + 1,
                rats_wf(xs@),
                rats_wf(ys@),
                design@.len() == n,
                forall|k: int|
                    0 <= k < n ==> (#[trigger] design@[k])@.len() == degree && rats_wf(
                        design@[k]@,
                    ),
                mat@.len() == j,
                forall|r: int|
                    0 <= r < j ==> (#[trigger] mat@[r])@.len() == m + 1 && rats_wf(mat@[r]@),
        {
            let mut row: Vec<Rat> = Vec::new();
            for kk in 0..m
                invariant
                    n == xs@.len() == ys@.len(),
                    degree < n,
                    1 <= degree <= 0x3fff_ffff,
                    distinct_count(fracs_of(xs@)) > degree,
                    m == degree + 1,
                    j < m,
                    rats_wf(xs@),
                    rats_wf(ys@),
                    design@.len() == n,
                    forall|k: int|
                        0 <= k < n ==> (#[trigger] design@[k])@.len() == degree && rats_wf(
                            design@[k]@,
                        ),
                    row@.len() == kk,
                    rats_wf(row@),
            {
                let mut acc = Rat::from_int(0);
                for i in 0..n
                    invariant
                        n == xs@.len() == ys@.len(),
                        degree < n,
                        1 <= degree <= 0x3fff_ffff,
                        distinct_count(fracs_of(xs@)) > degree,
                        m == degree + 1,
                        j < m,
                        kk < m,
                        rats_wf(xs@),
                        rats_wf(ys@),
                        design@.len() == n,
                        forall|k: int|
                            0 <= k < n ==> (#[trigger] design@[k])@.len() == degree && rats_wf(
                                design@[k]@,
                            ),
                        acc.wf(),
                {
                    let cj = if j < degree {
                        design[i][j]
                    } else {
                        Rat::from_int(1)
                    };
                    let ck = if kk < degree {
                        design[i][kk]
                    } else {
                        Rat::from_int(1)
                    };
                    let t = match cj.checked_mul(ck) {
                        Some(v) => v,
                        None => {
                            return Err(FitError::NumericOverflow);
                        },
                    };
                    acc = match acc.checked_add(t) {
                        Some(v) => v,
                        None => {
                            return Err(FitError::NumericOverflow);
                        },
                    };
                }
                row.push(acc);
            }
            let mut rhs = Rat::from_int(0);
            for i in 0..n
                invariant
                    n == xs@.len() == ys@.len(),
                    degree < n,
                    1 <= degree <= 0x3fff_ffff,
                    distinct_count(fracs_of(xs@)) > degree,
                    m == degree + 1,
                    j < m,
                    rats_wf(xs@),
                    rats_wf(ys@),
                    design@.len() == n,
                    forall|k: int|
                        0 <= k < n ==> (#[trigger] design@[k])@.len() == degree && rats_wf(
                            design@[k]@,
                        ),
                    rhs.wf(),
            {
                let cj = if j < degree {
                    design[i][j]
                } else {
                    Rat::from_int(1)
                };
                let t = match cj.checked_mul(ys[i]) {
                    Some(v) => v,
                    None => {
                        return Err(FitError::NumericOverflow);
                    },
                };
                rhs = match rhs.checked_add(t) {
                    Some(v) => v,
                    None => {
                        return Err(FitError::NumericOverflow);
                    },
                };
            }
            row.push(rhs);
            mat.push(row);
        }
        let beta = match gauss_solve(m, mat) {
            Ok(b) => b,
            Err(e) => {
                return Err(e);
            },
        };
        let mut coeffs: Vec<Rat> = Vec::new();
        for i in 0..degree
            invariant
                degree < beta@.len(),
                rats_wf(beta@),
                coeffs@.len() == i,
                rats_wf(coeffs@),
        {
            coeffs.push(beta[i]);
        }
        let intercept = beta[degree];
        match check_normal_equations(xs, ys, &coeffs, intercept, degree) {
            Some(true) => Ok(Polynomial { coefficients: coeffs, intercept, degree }),
            Some(false) => Err(FitError::SingularSystem),
            None => Err(FitError::NumericOverflow),
        }
    }

    /// Evaluates the model at every integer of the inclusive range,
    /// producing one `(x, y)` point per integer step.
    pub fn polyval(&self, lo: i64, hi: i64) -> (r: Result<Vec<(Rat, Rat)>, FitError>)
        requires
            self.wf(),
        ensures
            r matches Ok(v) ==> eval_series_ok(*self, lo as int, hi as int, v@),
            r matches Err(e) ==> e == FitError::NumericOverflow,
            (r is Ok) <==> ((lo > hi) || (((hi as int - lo as int) < 0x7fff_ffff) && polyval_fits(
                *self,
                lo as int,
                hi as int,
            ))),
    {
        let mut v: Vec<(Rat, Rat)> = Vec::new();
        if lo > hi {
            return Ok(v);
        }
        let cnt_wide: i128 = hi as i128 - lo as i128 + 1;
        if cnt_wide > 0x7fff_ffff {
            return Err(FitError::NumericOverflow);
        }
        let cnt: usize = cnt_wide as usize;
        for k in 0..cnt
            invariant
                self.wf(),
                lo <= hi,
                cnt == range_count(lo as int, hi as int),
                cnt <= 0x7fff_ffff,
                v@.len() == k,
                forall|q: int|
                    0 <= q < k ==> (#[trigger] v@[q]).0.wf() && v@[q].1.wf() && v@[q].0@
                        == int_frac(lo + q) && v@[q].1@ == eval_frac(
                        fracs_of(self.coefficients@),
                        self.intercept@,
                        int_frac(lo + q),
                    ),
                forall|x: int| #![trigger int_frac(x)]
                    lo <= x < lo + k ==> eval_fits(
                        fracs_of(self.coefficients@),
                        self.intercept@,
                        int_frac(x),
                    ),
        {
            let x64: i64 = lo + (k as i64);
            let xr = Rat::from_int(x64);
            let y = match predict_one(&self.coefficients, self.intercept, xr) {
                Some(w) => w,
                None => {
                    proof {
                        assert(!eval_fits(
                            fracs_of(self.coefficients@),
                            self.intercept@,
                            int_frac(lo + k),
                        ));
                        assert(!polyval_fits(*self, lo as int, hi as int));
                    }
                    return Err(FitError::NumericOverflow);
                },
            };
            proof {
                assert(eval_fits(fracs_of(self.coefficients@), self.intercept@, int_frac(lo + k)));
            }
            v.push((xr, y));
        }
        proof {
            assert(polyval_fits(*self, lo as int, hi as int));
        }
        Ok(v)
    }
}

} // verus!
