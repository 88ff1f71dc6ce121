//! Exact numbers: every number of the language is a fraction of two
//! integers of any size, so arithmetic never rounds and never overflows.

pub mod digits;
pub mod text;

use vstd::prelude::*;
use crate::number::digits::{
    all_digits, difference, from_written, is_zero, lemma_pow10_positive, pow10, power_of_ten,
    product, quotient, sum, to_written, trim, value, written_value,
};
use crate::number::text::{number_text, push_fraction, push_natural};
use crate::strings::push_char;

verus! {

/// A magnitude with its sign.
pub open spec fn signed(negative: bool, magnitude: nat) -> int {
    if negative {
        -(magnitude as int)
    } else {
        magnitude as int
    }
}

/// The fraction `n / d` as a real number.
pub open spec fn ratio(n: int, d: int) -> real {
    n as real / d as real
}

/// The number written as the decimal digits of `n` with the last `places`
/// of them behind the decimal point.
pub open spec fn decimal(n: nat, places: nat) -> real {
    ratio(n as int, pow10(places) as int)
}

pub proof fn lemma_ratio_sum(a: int, b: int, c: int, d: int)
    requires
        b != 0,
        d != 0,
    ensures
        b * d != 0,
        ratio(a, b) + ratio(c, d) == ratio(a * d + c * b, b * d),
{
    assert(b * d != 0) by (nonlinear_arith)
        requires
            b != 0,
            d != 0,
    ;
    assert((a as real / b as real) + (c as real / d as real) == ((a * d + c * b) as real) / ((b
        * d) as real)) by (nonlinear_arith)
        requires
            b != 0,
            d != 0,
    ;
}

pub proof fn lemma_ratio_product(a: int, b: int, c: int, d: int)
    requires
        b != 0,
        d != 0,
    ensures
        b * d != 0,
        ratio(a, b) * ratio(c, d) == ratio(a * c, b * d),
{
    assert(b * d != 0) by (nonlinear_arith)
        requires
            b != 0,
            d != 0,
    ;
    assert((a as real / b as real) * (c as real / d as real) == ((a * c) as real) / ((b * d) as real))
        by (nonlinear_arith)
        requires
            b != 0,
            d != 0,
    ;
}

pub proof fn lemma_ratio_quotient(a: int, b: int, c: int, d: int)
    requires
        b != 0,
        c != 0,
        d != 0,
    ensures
        b * c != 0,
        ratio(a, b) / ratio(c, d) == ratio(a * d, b * c),
{
    assert(b * c != 0) by (nonlinear_arith)
        requires
            b != 0,
            c != 0,
    ;
    assert((a as real / b as real) / (c as real / d as real) == ((a * d) as real) / ((b * c) as real))
        by (nonlinear_arith)
        requires
            b != 0,
            c != 0,
            d != 0,
    ;
}

/// The sign of a fraction with a positive denominator is that of its
/// numerator.
pub proof fn lemma_ratio_sign(a: int, b: int)
    requires
        b > 0,
    ensures
        ratio(a, b) < 0real <==> a < 0,
        ratio(a, b) == 0real <==> a == 0,
{
    assert(((a as real / b as real) < 0real <==> a < 0) && ((a as real / b as real) == 0real <==> a
        == 0)) by (nonlinear_arith)
        requires
            b > 0,
    ;
}

/// Negating the numerator negates the fraction, and so does negating the
/// denominator.
pub proof fn lemma_ratio_negate(a: int, b: int)
    requires
        b != 0,
    ensures
        ratio(-a, b) == -ratio(a, b),
        ratio(a, -b) == -ratio(a, b),
{
    assert(((-a) as real / b as real) == -(a as real / b as real) && (a as real / (-b) as real)
        == -(a as real / b as real)) by (nonlinear_arith)
        requires
            b != 0,
    ;
}

/// A common factor of numerator and denominator cancels.
pub proof fn lemma_ratio_cancel(a: int, b: int, k: int)
    requires
        b != 0,
        k != 0,
    ensures
        k * b != 0,
        ratio(k * a, k * b) == ratio(a, b),
{
    assert(k * b != 0) by (nonlinear_arith)
        requires
            b != 0,
            k != 0,
    ;
    assert(((k * a) as real / (k * b) as real) == (a as real / b as real)) by (nonlinear_arith)
        requires
            b != 0,
            k != 0,
    ;
}

/// Division with remainder gives the whole part of a fraction and what is
/// left of it.
pub proof fn lemma_ratio_floor(n: int, d: int, q: int, r: int)
    requires
        d > 0,
        n == q * d + r,
        0 <= r < d,
    ensures
        ratio(n, d).floor() == q,
        ratio(n, d) - q as real == ratio(r, d),
{
    assert((q as real) <= (n as real) / (d as real) && (n as real) / (d as real) < ((q + 1) as real)
        && (n as real) / (d as real) - (q as real) == (r as real) / (d as real))
        by (nonlinear_arith)
        requires
            d > 0,
            n == q * d + r,
            0 <= r < d,
    ;
}

/// An exact rational number. Its view is the real number it denotes.
#[derive(Debug)]
pub struct Number {
    negative: bool,
    numer: Vec<u8>,
    denom: Vec<u8>,
}

impl View for Number {
    type V = real;

    closed spec fn view(&self) -> real {
        ratio(signed(self.negative, value(self.numer@)), value(self.denom@) as int)
    }
}

impl Clone for Number {
    fn clone(&self) -> (r: Self)
        ensures
            r@ == self@,
    {
        proof {
            use_type_invariant(self);
        }
        let numer = self.numer.clone();
        let denom = self.denom.clone();
        assert(numer@ =~= self.numer@);
        assert(denom@ =~= self.denom@);
        Number { negative: self.negative, numer, denom }
    }
}

impl Number {
    #[verifier::type_invariant]
    spec fn well_formed(self) -> bool {
        &&& all_digits(self.numer@)
        &&& all_digits(self.denom@)
        &&& value(self.denom@) > 0
    }

    /// The number with that sign, numerator and denominator, in a compact
    /// form: without the powers of ten that both share and without leading
    /// zeros.
    fn build(negative: bool, numer: Vec<u8>, denom: Vec<u8>) -> (r: Number)
        requires
            all_digits(numer@),
            all_digits(denom@),
            value(denom@) > 0,
        ensures
            r@ == ratio(signed(negative, value(numer@)), value(denom@) as int),
    {
        let mut n = numer;
        let mut d = denom;
        while n.len() > 0 && d.len() > 0 && n[0] == 0 && d[0] == 0
            invariant
                all_digits(n@),
                all_digits(d@),
                value(d@) > 0,
                ratio(signed(negative, value(n@)), value(d@) as int) == ratio(
                    signed(negative, value(numer@)),
                    value(denom@) as int,
                ),
            decreases n.len(),
        {
            proof {
                let a = signed(negative, value(n@.drop_first()));
                let b = value(d@.drop_first()) as int;
                assert(signed(negative, value(n@)) == 10 * a);
                assert(value(d@) == 10 * b);
                lemma_ratio_cancel(a, b, 10);
                assert(n@.remove(0) =~= n@.drop_first());
                assert(d@.remove(0) =~= d@.drop_first());
            }
            n.remove(0);
            d.remove(0);
        }
        trim(&mut n);
        trim(&mut d);
        Number { negative, numer: n, denom: d }
    }

    /// The number as a fraction: whether it is negative, and the decimal
    /// digits, as written, of a numerator and of a denominator above zero.
    pub fn parts(&self) -> (r: (bool, Vec<u8>, Vec<u8>))
        ensures
            all_digits(r.1@),
            all_digits(r.2@),
            written_value(r.2@) > 0,
            self@ == ratio(signed(r.0, written_value(r.1@)), written_value(r.2@) as int),
    {
        proof {
            use_type_invariant(self);
        }
        (self.negative, to_written(&self.numer), to_written(&self.denom))
    }

    /// The number whose decimal digits, as written, are `written`, the last
    /// `places` of them standing behind the decimal point.
    pub fn from_decimal(written: &Vec<u8>, places: usize) -> (r: Number)
        requires
            all_digits(written@),
        ensures
            r@ == decimal(written_value(written@), places as nat),
    {
        let numer = from_written(written);
        let denom = power_of_ten(places);
        proof {
            lemma_pow10_positive(places as nat);
        }
        Number::build(false, numer, denom)
    }

    /// Whether the number is below zero.
    pub fn is_negative(&self) -> (r: bool)
        ensures
            r <==> self@ < 0real,
    {
        proof {
            use_type_invariant(self);
            lemma_ratio_sign(
                signed(self.negative, value(self.numer@)),
                value(self.denom@) as int,
            );
        }
        self.negative && !is_zero(&self.numer)
    }

    /// Whether the number is zero.
    pub fn is_zero(&self) -> (r: bool)
        ensures
            r <==> self@ == 0real,
    {
        proof {
            use_type_invariant(self);
            lemma_ratio_sign(
                signed(self.negative, value(self.numer@)),
                value(self.denom@) as int,
            );
        }
        is_zero(&self.numer)
    }

    /// The number with its sign changed.
    pub fn negated(&self) -> (r: Number)
        ensures
            r@ == -self@,
    {
        proof {
            use_type_invariant(self);
            lemma_ratio_negate(
                signed(self.negative, value(self.numer@)),
                value(self.denom@) as int,
            );
        }
        let numer = self.numer.clone();
        let denom = self.denom.clone();
        assert(numer@ =~= self.numer@);
        assert(denom@ =~= self.denom@);
        Number { negative: !self.negative, numer, denom }
    }

    /// The sum of two numbers.
    pub fn plus(&self, other: &Number) -> (r: Number)
        ensures
            r@ == self@ + other@,
    {
        proof {
            use_type_invariant(self);
            use_type_invariant(other);
        }
        let x = product(&self.numer, &other.denom);
        let y = product(&other.numer, &self.denom);
        let denom = product(&self.denom, &other.denom);
        let ghost na = value(self.numer@) as int;
        let ghost nb = value(other.numer@) as int;
        let ghost da = value(self.denom@) as int;
        let ghost db = value(other.denom@) as int;
        let ghost sa = signed(self.negative, value(self.numer@));
        let ghost sb = signed(other.negative, value(other.numer@));
        proof {
            lemma_ratio_sum(sa, da, sb, db);
            assert((-na) * db == -(na * db)) by (nonlinear_arith);
            assert((-nb) * da == -(nb * da)) by (nonlinear_arith);
            assert(da * db > 0) by (nonlinear_arith)
                requires
                    da > 0,
                    db > 0,
            ;
        }
        if self.negative == other.negative {
            let numer = sum(&x, &y);
            Number::build(self.negative, numer, denom)
        } else {
            let (d, borrowed) = difference(&x, &y);
            if !borrowed {
                Number::build(self.negative, d, denom)
            } else {
                let (e, _) = difference(&y, &x);
                Number::build(other.negative, e, denom)
            }
        }
    }

    /// The difference of two numbers.
    pub fn minus(&self, other: &Number) -> (r: Number)
        ensures
            r@ == self@ - other@,
    {
        let opposite = other.negated();
        self.plus(&opposite)
    }

    /// The product of two numbers.
    pub fn times(&self, other: &Number) -> (r: Number)
        ensures
            r@ == self@ * other@,
    {
        proof {
            use_type_invariant(self);
            use_type_invariant(other);
        }
        let numer = product(&self.numer, &other.numer);
        let denom = product(&self.denom, &other.denom);
        let ghost na = value(self.numer@) as int;
        let ghost nb = value(other.numer@) as int;
        let ghost da = value(self.denom@) as int;
        let ghost db = value(other.denom@) as int;
        proof {
            lemma_ratio_product(
                signed(self.negative, value(self.numer@)),
                da,
                signed(other.negative, value(other.numer@)),
                db,
            );
            assert((-na) * nb == -(na * nb)) by (nonlinear_arith);
            assert(na * (-nb) == -(na * nb)) by (nonlinear_arith);
            assert((-na) * (-nb) == na * nb) by (nonlinear_arith);
            assert(da * db > 0) by (nonlinear_arith)
                requires
                    da > 0,
                    db > 0,
            ;
        }
        Number::build(self.negative != other.negative, numer, denom)
    }

    /// The quotient of two numbers, which exists unless the divisor is zero.
    pub fn divided_by(&self, other: &Number) -> (r: Option<Number>)
        ensures
            r is None <==> other@ == 0real,
            r is Some ==> r->0@ == self@ / other@,
    {
        proof {
            use_type_invariant(self);
            use_type_invariant(other);
        }
        if other.is_zero() {
            return None;
        }
        let numer = product(&self.numer, &other.denom);
        let denom = product(&self.denom, &other.numer);
        let ghost na = value(self.numer@) as int;
        let ghost nb = value(other.numer@) as int;
        let ghost da = value(self.denom@) as int;
        let ghost db = value(other.denom@) as int;
        let ghost sa = signed(self.negative, value(self.numer@));
        let ghost sb = signed(other.negative, value(other.numer@));
        proof {
            lemma_ratio_sign(sb, db);
            assert(da * nb > 0) by (nonlinear_arith)
                requires
                    da > 0,
                    nb > 0,
            ;
            lemma_ratio_quotient(sa, da, sb, db);
            lemma_ratio_negate(sa * db, da * nb);
            assert((-na) * db == -(na * db)) by (nonlinear_arith);
            assert(da * (-nb) == -(da * nb)) by (nonlinear_arith);
        }
        Some(Number::build(self.negative != other.negative, numer, denom))
    }

    /// The number in decimal digits: a whole number as it is, any other
    /// with up to sixteen digits behind the decimal point.
    pub fn to_text(&self) -> (r: String)
        ensures
            r@ == number_text(self@),
    {
        proof {
            use_type_invariant(self);
        }
        let mut out = String::new();
        let negative = self.is_negative();
        if negative {
            push_char(&mut out, '-');
        }
        let ghost sign = out@;
        let (whole, rest) = quotient(&self.numer, &self.denom);
        let ghost nv = value(self.numer@) as int;
        let ghost dv = value(self.denom@) as int;
        proof {
            lemma_ratio_floor(nv, dv, value(whole@) as int, value(rest@) as int);
            lemma_ratio_negate(nv, dv);
            lemma_ratio_sign(nv, dv);
            lemma_ratio_sign(value(rest@) as int, dv);
            assert(ratio(nv, dv) == if negative {
                -self@
            } else {
                self@
            });
        }
        push_natural(&whole, &mut out);
        if !is_zero(&rest) {
            push_char(&mut out, '.');
            let ghost before = out@;
            push_fraction(rest, &self.denom, &mut out);
            proof {
                let behind = crate::number::text::fraction_text(
                    ratio(nv, dv) - value(whole@) as real,
                    crate::number::text::FRACTION_PLACES as nat,
                );
                assert(behind.len() > 0);
                assert(out@ =~= sign + (crate::number::text::natural_text(value(whole@)) + seq![
                    '.',
                ] + behind));
            }
        } else {
            assert(out@ =~= sign + crate::number::text::natural_text(value(whole@)));
        }
        assert(sign + crate::number::text::magnitude_text(ratio(nv, dv)) =~= number_text(self@));
        out
    }

    /// Whether this number is smaller than the other.
    pub fn less_than(&self, other: &Number) -> (r: bool)
        ensures
            r <==> self@ < other@,
    {
        self.minus(other).is_negative()
    }

    /// Whether the two numbers are the same number.
    pub fn equals(&self, other: &Number) -> (r: bool)
        ensures
            r <==> self@ == other@,
    {
        self.minus(other).is_zero()
    }
}

} // verus!
