//! Rendering a fitted model as a human-readable equation string.
//!
//! The legend prints the intercept as it is, then one term per
//! coefficient: a sign picked from the coefficient, its absolute value,
//! and the power it multiplies, as in `5 - 3x^1 + 2x^2`.

use crate::fracs::Frac;
use crate::rational::Rat;
use crate::regression::Polynomial;
use crate::solve::fracs_of;
use vstd::prelude::*;
use vstd::string::StringExecFns;

verus! {

/// The character of one decimal digit.
pub open spec fn digit_char(d: int) -> char {
    if d == 0 {
        '0'
    } else if d == 1 {
        '1'
    } else if d == 2 {
        '2'
    } else if d == 3 {
        '3'
    } else if d == 4 {
        '4'
    } else if d == 5 {
        '5'
    } else if d == 6 {
        '6'
    } else if d == 7 {
        '7'
    } else if d == 8 {
        '8'
    } else {
        '9'
    }
}

/// The decimal digits of a natural number, most significant first.
pub open spec fn dec_digits(n: nat) -> Seq<char>
    decreases n,
{
    if n < 10 {
        seq![digit_char(n as int)]
    } else {
        dec_digits(n / 10) + seq![digit_char((n % 10) as int)]
    }
}

/// A signed integer in decimal, a leading minus for a negative one.
pub open spec fn int_str(v: int) -> Seq<char> {
    if v < 0 {
        seq!['-'] + dec_digits((-v) as nat)
    } else {
        dec_digits(v as nat)
    }
}

/// A rational as text: the numerator alone when the denominator is one,
/// else numerator, slash, denominator.
pub open spec fn rat_str(f: Frac) -> Seq<char> {
    if f.d == 1 {
        int_str(f.n)
    } else {
        int_str(f.n) + seq!['/'] + dec_digits(f.d as nat)
    }
}

/// The absolute value of a rational as text, no sign ever.
pub open spec fn rat_abs_str(f: Frac) -> Seq<char> {
    if f.d == 1 {
        dec_digits((if f.n < 0 {
            -f.n
        } else {
            f.n
        }) as nat)
    } else {
        dec_digits((if f.n < 0 {
            -f.n
        } else {
            f.n
        }) as nat) + seq!['/'] + dec_digits(f.d as nat)
    }
}

/// The connective before one term: plus for a nonnegative coefficient,
/// minus for a negative one, spaced as the legend prints it.
pub open spec fn sign_str(f: Frac) -> Seq<char> {
    if f.n >= 0 {
        seq![' ', '+', ' ']
    } else {
        seq![' ', '-', ' ']
    }
}

/// The legend over the first `k` coefficients: the intercept, then one
/// signed term per coefficient.
pub open spec fn legend_upto(coeffs: Seq<Frac>, intercept: Frac, k: int) -> Seq<char>
    decreases k,
{
    if k <= 0 {
        rat_str(intercept)
    } else {
        legend_upto(coeffs, intercept, k - 1) + sign_str(coeffs[k - 1]) + rat_abs_str(
            coeffs[k - 1],
        ) + seq!['x', '^'] + dec_digits(k as nat)
    }
}

/// The full legend of a model.
pub open spec fn legend_spec(coeffs: Seq<Frac>, intercept: Frac, degree: int) -> Seq<char> {
    legend_upto(coeffs, intercept, degree)
}

/// The text of one decimal digit.
fn digit_to_str(d: u64) -> (s: &'static str)
    requires
        d < 10,
    ensures
        s@ == seq![digit_char(d as int)],
{
    if d == 0 {
        proof {
            reveal_strlit("0");
            assert("0"@ =~= seq![digit_char(0)]);
        }
        "0"
    } else if d == 1 {
        proof {
            reveal_strlit("1");
            assert("1"@ =~= seq![digit_char(1)]);
        }
        "1"
    } else if d == 2 {
        proof {
            reveal_strlit("2");
            assert("2"@ =~= seq![digit_char(2)]);
        }
        "2"
    } else if d == 3 {
        proof {
            reveal_strlit("3");
            assert("3"@ =~= seq![digit_char(3)]);
        }
        "3"
    } else if d == 4 {
        proof {
            reveal_strlit("4");
            assert("4"@ =~= seq![digit_char(4)]);
        }
        "4"
    } else if d == 5 {
        proof {
            reveal_strlit("5");
            assert("5"@ =~= seq![digit_char(5)]);
        }
        "5"
    } else if d == 6 {
        proof {
            reveal_strlit("6");
            assert("6"@ =~= seq![digit_char(6)]);
        }
        "6"
    } else if d == 7 {
        proof {
            reveal_strlit("7");
            assert("7"@ =~= seq![digit_char(7)]);
        }
        "7"
    } else if d == 8 {
        proof {
            reveal_strlit("8");
            assert("8"@ =~= seq![digit_char(8)]);
        }
        "8"
    } else {
        proof {
            reveal_strlit("9");
            assert("9"@ =~= seq![digit_char(9)]);
        }
        "9"
    }
}

/// Appends the decimal digits of `n`, most significant first.
fn push_dec(n: u64, s: &mut String)
    ensures
        final(s)@ == old(s)@ + dec_digits(n as nat),
    decreases n,
{
    if n < 10 {
        let d = digit_to_str(n);
        s.append(d);
        proof {
            assert(final(s)@ =~= old(s)@ + dec_digits(n as nat));
        }
    } else {
        push_dec(n / 10, s);
        let d = digit_to_str(n % 10);
        s.append(d);
        proof {
            assert(final(s)@ =~= old(s)@ + dec_digits(n as nat));
        }
    }
}

/// The magnitude of a numerator as an unsigned value.
fn abs_num(num: i64) -> (m: u64)
    ensures
        m == (if num < 0 {
            -(num as int)
        } else {
            num as int
        }),
{
    if num < 0 {
        (-(num as i128)) as u64
    } else {
        num as u64
    }
}

/// Appends the text of a rational: numerator, and the denominator after a
/// slash when it is not one.
fn push_rat(r: Rat, s: &mut String)
    requires
        r.wf(),
    ensures
        final(s)@ == old(s)@ + rat_str(r@),
{
    let ghost start = s@;
    if r.num < 0 {
        s.append("-");
        proof {
            reveal_strlit("-");
            assert("-"@ =~= seq!['-']);
        }
    }
    push_dec(abs_num(r.num), s);
    proof {
        assert(s@ =~= start + int_str(r@.n));
    }
    if r.den != 1 {
        s.append("/");
        proof {
            reveal_strlit("/");
            assert("/"@ =~= seq!['/']);
        }
        push_dec(r.den as u64, s);
        proof {
            assert(s@ =~= start + rat_str(r@));
        }
    }
    proof {
        assert(s@ =~= start + rat_str(r@));
    }
}

/// Appends the text of a rational's absolute value.
fn push_rat_abs(r: Rat, s: &mut String)
    requires
        r.wf(),
    ensures
        final(s)@ == old(s)@ + rat_abs_str(r@),
{
    let ghost start = s@;
    push_dec(abs_num(r.num), s);
    if r.den != 1 {
        s.append("/");
        proof {
            reveal_strlit("/");
            assert("/"@ =~= seq!['/']);
        }
        push_dec(r.den as u64, s);
    }
    proof {
        assert(s@ =~= start + rat_abs_str(r@));
    }
}

impl Polynomial {
    /// The model as an equation string: the intercept printed as it is,
    /// then each coefficient behind its own sign with the power it
    /// multiplies, as in `5 - 3x^1 + 2x^2`.
    pub fn format_legend(&self) -> (s: String)
        requires
            self.wf(),
        ensures
            s@ == legend_spec(fracs_of(self.coefficients@), self.intercept@, self.degree as int),
    {
        let ghost cf = fracs_of(self.coefficients@);
        let mut s = String::new();
        push_rat(self.intercept, &mut s);
        proof {
            assert(s@ =~= legend_upto(cf, self.intercept@, 0));
        }
        for i in 0..self.degree
            invariant
                self.wf(),
                cf == fracs_of(self.coefficients@),
                s@ == legend_upto(cf, self.intercept@, i as int),
        {
            let ghost before = s@;
            let c = self.coefficients[i];
            proof {
                assert(cf[i as int] == self.coefficients@[i as int]@);
            }
            if c.num >= 0 {
                s.append(" + ");
                proof {
                    reveal_strlit(" + ");
                    assert(" + "@ =~= seq![' ', '+', ' ']);
                }
            } else {
                s.append(" - ");
                proof {
                    reveal_strlit(" - ");
                    assert(" - "@ =~= seq![' ', '-', ' ']);
                }
            }
            push_rat_abs(c, &mut s);
            s.append("x^");
            proof {
                reveal_strlit("x^");
                assert("x^"@ =~= seq!['x', '^']);
            }
            push_dec((i + 1) as u64, &mut s);
            proof {
                assert(s@ =~= legend_upto(cf, self.intercept@, i + 1));
            }
        }
        s
    }
}

} // verus!
