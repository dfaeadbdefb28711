//! Exact rational numbers over 64-bit integers.
//!
//! Every operation is exact: it either returns the mathematical result of
//! [`crate::fracs`]'s fraction arithmetic in lowest terms, or reports that
//! this result does not fit the machine range.  Nothing is ever rounded.

use crate::fracs::{
    abs_int, frac_add, frac_div, frac_eq, frac_mul, frac_norm, frac_sub, frac_sum, frac_wf,
    gcd_nat, int_frac, lemma_gcd_divides, Frac,
};
use vstd::arithmetic::div_mod::{lemma_div_multiples_vanish, lemma_fundamental_div_mod};
use vstd::prelude::*;

verus! {

/// A value fits the symmetric machine range of a rational's fields.
pub open spec fn in_rat_range(v: int) -> bool {
    -(i64::MAX as int) <= v && v <= i64::MAX as int
}

/// Both parts of a fraction fit the machine range of a rational's fields.
pub open spec fn frac_fits(f: Frac) -> bool {
    in_rat_range(f.n) && in_rat_range(f.d)
}

/// Every nonempty prefix sum of a sequence of fractions fits the machine
/// range: the condition under which a running exact sum cannot fail.
pub open spec fn prefix_sums_fit(s: Seq<Frac>) -> bool {
    forall|i: int| 0 < i <= s.len() ==> frac_fits(frac_sum(#[trigger] s.take(i)))
}

/// An exact rational number: `num / den` with `den > 0`.
#[derive(Clone, Copy, Debug, PartialEq, Eq, Structural)]
pub struct Rat {
    /// Numerator, carrying the sign.
    pub num: i64,
    /// Denominator; well-formed rationals keep it positive.
    pub den: i64,
}

impl View for Rat {
    type V = Frac;

    open spec fn view(&self) -> Frac {
        Frac { n: self.num as int, d: self.den as int }
    }
}

/// The product of two integers in the 64-bit range stays far inside the
/// 128-bit range.
proof fn lemma_prod_bound(x: int, y: int)
    by (nonlinear_arith)
    requires
        -0x8000_0000_0000_0000 <= x <= 0x7fff_ffff_ffff_ffff,
        -0x8000_0000_0000_0000 <= y <= 0x7fff_ffff_ffff_ffff,
    ensures
        -0x4000_0000_0000_0000_0000_0000_0000_0000 <= x * y
            <= 0x4000_0000_0000_0000_0000_0000_0000_0000,
{
}

/// The product of an integer in the 64-bit range with a positive one leaves
/// room for one more such product to be added without overflowing 128 bits.
proof fn lemma_num_den_bound(x: int, y: int)
    by (nonlinear_arith)
    requires
        -0x8000_0000_0000_0000 <= x <= 0x7fff_ffff_ffff_ffff,
        1 <= y <= 0x7fff_ffff_ffff_ffff,
    ensures
        -0x3fff_ffff_ffff_ffff_8000_0000_0000_0000 <= x * y
            <= 0x3fff_ffff_ffff_ffff_8000_0000_0000_0000,
{
}

/// The product of two positive integers is positive.
proof fn lemma_pos_prod(x: int, y: int)
    by (nonlinear_arith)
    requires
        x > 0,
        y > 0,
    ensures
        x * y > 0,
{
}

/// Euclid's algorithm on machine words.
fn gcd_u128(a: u128, b: u128) -> (g: u128)
    ensures
        g as nat == gcd_nat(a as nat, b as nat),
    decreases b,
{
    if b == 0 {
        a
    } else {
        gcd_u128(b, a % b)
    }
}

/// Reduces the wide fraction `n / d` to lowest terms and narrows it;
/// `None` exactly when the reduced numerator or denominator still does
/// not fit the symmetric 64-bit range.
fn reduce_to_rat(n: i128, d: i128) -> (r: Option<Rat>)
    requires
        1 <= d <= 0x4000_0000_0000_0000_0000_0000_0000_0000,
        -0x7fff_ffff_ffff_ffff_0000_0000_0000_0000 <= n
            <= 0x7fff_ffff_ffff_ffff_0000_0000_0000_0000,
    ensures
        r matches Some(q) ==> q.wf() && q@ == frac_norm(Frac { n: n as int, d: d as int }),
        r is None <==> !(in_rat_range(frac_norm(Frac { n: n as int, d: d as int }).n)
            && in_rat_range(frac_norm(Frac { n: n as int, d: d as int }).d)),
{
    let ghost f = Frac { n: n as int, d: d as int };
    let neg = n < 0;
    let nm: u128 = if neg {
        (-n) as u128
    } else {
        n as u128
    };
    proof {
        assert(nm as int == abs_int(f.n));
    }
    let g: u128 = gcd_u128(nm, d as u128);
    proof {
        lemma_gcd_divides(nm as nat, d as nat);
        assert(g >= 1);
    }
    let nm_r: u128 = nm / g;
    let d_r: u128 = (d as u128) / g;
    proof {
        // The reduced denominator is exact and positive.
        lemma_fundamental_div_mod(d as int, g as int);
        assert(d_r as int == f.d / (g as int));
        assert(d_r >= 1) by (nonlinear_arith)
            requires
                d as int == (g as int) * (d_r as int),
                d as int >= 1,
                g as int >= 1,
        ;
        // The reduced magnitude is exact, so the signed quotient is too.
        lemma_fundamental_div_mod(nm as int, g as int);
        assert(nm as int == (g as int) * (nm_r as int));
        if neg {
            assert(f.n == (g as int) * (-(nm_r as int))) by (nonlinear_arith)
                requires
                    nm as int == (g as int) * (nm_r as int),
                    f.n == -(nm as int),
            ;
            lemma_div_multiples_vanish(-(nm_r as int), g as int);
            assert(f.n / (g as int) == -(nm_r as int));
        } else {
            assert(f.n / (g as int) == nm_r as int);
        }
        assert(frac_norm(f) == Frac { n: f.n / (g as int), d: f.d / (g as int) });
    }
    if nm_r > i64::MAX as u128 || d_r > i64::MAX as u128 {
        return None;
    }
    let num: i64 = if neg {
        -(nm_r as i64)
    } else {
        nm_r as i64
    };
    Some(Rat { num, den: d_r as i64 })
}

impl Rat {
    /// The denominator is positive.
    pub open spec fn wf(self) -> bool {
        frac_wf(self@)
    }

    /// The rational standing for an integer.
    pub fn from_int(n: i64) -> (r: Rat)
        ensures
            r.wf(),
            r@ == int_frac(n as int),
    {
        Rat { num: n, den: 1 }
    }

    /// Builds `num / den`, moving the denominator's sign into the numerator.
    /// Returns `None` for a zero denominator and for the one 64-bit value
    /// whose negation does not exist.  The fraction is kept as given, not
    /// reduced.
    pub fn new(num: i64, den: i64) -> (r: Option<Rat>)
        ensures
            r is Some <==> den != 0 && num != i64::MIN && den != i64::MIN,
            r matches Some(q) ==> q.wf() && q@ == (if den > 0 {
                Frac { n: num as int, d: den as int }
            } else {
                Frac { n: -(num as int), d: -(den as int) }
            }),
    {
        if den == 0 || num == i64::MIN || den == i64::MIN {
            None
        } else if den > 0 {
            Some(Rat { num, den })
        } else {
            Some(Rat { num: -num, den: -den })
        }
    }

    /// Whether the two rationals stand for the same number, decided by
    /// exact cross multiplication; no rounding and no overflow.
    pub fn same_value(self, other: Rat) -> (r: bool)
        ensures
            r == frac_eq(self@, other@),
    {
        proof {
            lemma_prod_bound(self.num as int, other.den as int);
            lemma_prod_bound(other.num as int, self.den as int);
        }
        (self.num as i128) * (other.den as i128) == (other.num as i128) * (self.den as i128)
    }

    /// Exact sum in lowest terms; `None` exactly when the reduced result
    /// leaves the machine range.
    pub fn checked_add(self, other: Rat) -> (r: Option<Rat>)
        requires
            self.wf(),
            other.wf(),
        ensures
            r matches Some(q) ==> q.wf() && q@ == frac_add(self@, other@),
            r is None <==> !(in_rat_range(frac_add(self@, other@).n) && in_rat_range(
                frac_add(self@, other@).d,
            )),
    {
        proof {
            lemma_num_den_bound(self.num as int, other.den as int);
            lemma_num_den_bound(other.num as int, self.den as int);
            lemma_num_den_bound(self.den as int, other.den as int);
            lemma_pos_prod(self.den as int, other.den as int);
        }
        let n: i128 = (self.num as i128) * (other.den as i128) + (other.num as i128) * (self.den
            as i128);
        let d: i128 = (self.den as i128) * (other.den as i128);
        reduce_to_rat(n, d)
    }

    /// Exact difference in lowest terms; `None` exactly when the reduced
    /// result leaves the machine range.
    pub fn checked_sub(self, other: Rat) -> (r: Option<Rat>)
        requires
            self.wf(),
            other.wf(),
        ensures
            r matches Some(q) ==> q.wf() && q@ == frac_sub(self@, other@),
            r is None <==> !(in_rat_range(frac_sub(self@, other@).n) && in_rat_range(
                frac_sub(self@, other@).d,
            )),
    {
        proof {
            lemma_num_den_bound(self.num as int, other.den as int);
            lemma_num_den_bound(other.num as int, self.den as int);
            lemma_num_den_bound(self.den as int, other.den as int);
            lemma_pos_prod(self.den as int, other.den as int);
        }
        let n: i128 = (self.num as i128) * (other.den as i128) - (other.num as i128) * (self.den
            as i128);
        let d: i128 = (self.den as i128) * (other.den as i128);
        reduce_to_rat(n, d)
    }

    /// Exact product in lowest terms; `None` exactly when the reduced
    /// result leaves the machine range.
    pub fn checked_mul(self, other: Rat) -> (r: Option<Rat>)
        requires
            self.wf(),
            other.wf(),
        ensures
            r matches Some(q) ==> q.wf() && q@ == frac_mul(self@, other@),
            r is None <==> !(in_rat_range(frac_mul(self@, other@).n) && in_rat_range(
                frac_mul(self@, other@).d,
            )),
    {
        proof {
            lemma_prod_bound(self.num as int, other.num as int);
            lemma_num_den_bound(self.den as int, other.den as int);
            lemma_pos_prod(self.den as int, other.den as int);
        }
        let n: i128 = (self.num as i128) * (other.num as i128);
        let d: i128 = (self.den as i128) * (other.den as i128);
        reduce_to_rat(n, d)
    }

    /// Exact quotient in lowest terms; `None` exactly when the divisor is
    /// zero or the reduced result leaves the machine range.
    pub fn checked_div(self, other: Rat) -> (r: Option<Rat>)
        requires
            self.wf(),
            other.wf(),
        ensures
            r matches Some(q) ==> q.wf() && q@ == frac_div(self@, other@),
            r is None <==> other@.n == 0 || !(in_rat_range(frac_div(self@, other@).n)
                && in_rat_range(frac_div(self@, other@).d)),
    {
        if other.num == 0 {
            return None;
        }
        proof {
            lemma_num_den_bound(self.num as int, other.den as int);
            lemma_prod_bound(self.den as int, other.num as int);
            if other.num > 0 {
                lemma_pos_prod(self.den as int, other.num as int);
            } else {
                lemma_pos_prod(self.den as int, -(other.num as int));
                assert((self.den as int) * (-(other.num as int)) == -((self.den as int) * (
                other.num as int))) by (nonlinear_arith);
            }
        }
        let n0: i128 = (self.num as i128) * (other.den as i128);
        let d0: i128 = (self.den as i128) * (other.num as i128);
        let (n, d): (i128, i128) = if d0 < 0 {
            (-n0, -d0)
        } else {
            (n0, d0)
        };
        reduce_to_rat(n, d)
    }
}

} // verus!
