//! Numbers as text.

use vstd::prelude::*;
use crate::number::digits::{all_digits, digit_quotient, is_zero, trim, value};
use crate::number::{lemma_ratio_floor, lemma_ratio_sign, ratio};
use crate::strings::push_char;

verus! {

/// How many digits are written behind the decimal point at most.
pub const FRACTION_PLACES: usize = 16;

/// The character of a decimal digit.
pub open spec fn digit_char(d: int) -> char {
    ((d + 48) as u8) as char
}

/// A natural number in decimal digits, without leading zeros.
pub open spec fn natural_text(n: nat) -> Seq<char>
    decreases n,
{
    if n < 10 {
        seq![digit_char(n as int)]
    } else {
        natural_text(n / 10).push(digit_char((n % 10) as int))
    }
}

/// The first `places` decimal digits of a fraction below one, up to the
/// last that is not zero if the fraction ends before.
pub open spec fn fraction_text(f: real, places: nat) -> Seq<char>
    decreases places,
{
    if places == 0 || f == 0real {
        Seq::empty()
    } else {
        let d = (f * 10real).floor();
        seq![digit_char(d)] + fraction_text(f * 10real - d as real, (places - 1) as nat)
    }
}

/// A number that is not negative in decimal digits: the whole part, then,
/// unless the number is whole, a point and the digits behind it, cut off
/// after `FRACTION_PLACES` of them.
pub open spec fn magnitude_text(m: real) -> Seq<char> {
    let whole = m.floor();
    let behind = fraction_text(m - whole as real, FRACTION_PLACES as nat);
    if behind.len() == 0 {
        natural_text(whole as nat)
    } else {
        natural_text(whole as nat) + seq!['.'] + behind
    }
}

/// A number in decimal digits, with `-` before it if it is negative.
pub open spec fn number_text(x: real) -> Seq<char> {
    if x < 0real {
        seq!['-'] + magnitude_text(-x)
    } else {
        magnitude_text(x)
    }
}

fn digit_to_char(d: u8) -> (c: char)
    requires
        d < 10,
    ensures
        c == digit_char(d as int),
{
    (d + 48) as char
}

/// Appends a natural number, given by its digits least significant first.
pub fn push_natural(digits: &Vec<u8>, out: &mut String)
    requires
        all_digits(digits@),
    ensures
        final(out)@ == old(out)@ + natural_text(value(digits@)),
{
    let mut t = digits.clone();
    assert(t@ =~= digits@);
    trim(&mut t);
    if t.len() == 0 {
        push_char(out, '0');
        assert(out@ =~= old(out)@ + natural_text(0));
        return ;
    }
    let mut i: usize = t.len() - 1;
    push_char(out, digit_to_char(t[i]));
    proof {
        assert(t@.skip(i as int).drop_first() =~= Seq::<u8>::empty());
        assert(t@.skip(i as int)[0] == t@[i as int]);
        assert(t@[i as int] == t@.last());
        assert(value(Seq::<u8>::empty()) == 0);
        assert(value(t@.skip(i as int)) == t@[i as int]);
        assert(out@ =~= old(out)@ + natural_text(value(t@.skip(i as int))));
    }
    while i > 0
        invariant
            i < t.len(),
            all_digits(t@),
            value(t@.skip(i as int)) > 0,
            out@ == old(out)@ + natural_text(value(t@.skip(i as int))),
        decreases i,
    {
        let ghost above = value(t@.skip(i as int));
        i -= 1;
        push_char(out, digit_to_char(t[i]));
        proof {
            assert(t@.skip(i as int).drop_first() =~= t@.skip(i + 1));
            assert(t@.skip(i as int)[0] == t@[i as int]);
            let n = value(t@.skip(i as int));
            assert(n == t@[i as int] + 10 * above);
            assert(n / 10 == above && n % 10 == t@[i as int]);
            assert(out@ =~= old(out)@ + natural_text(n));
        }
    }
    assert(t@.skip(0) =~= t@);
}

/// Appends the digits behind the decimal point of the fraction `rest / d`,
/// which is below one.
#[verifier::loop_isolation(false)]
pub fn push_fraction(rest: Vec<u8>, d: &Vec<u8>, out: &mut String)
    requires
        all_digits(rest@),
        all_digits(d@),
        value(rest@) < value(d@),
    ensures
        final(out)@ == old(out)@ + fraction_text(
            ratio(value(rest@) as int, value(d@) as int),
            FRACTION_PLACES as nat,
        ),
{
    let ghost whole = fraction_text(
        ratio(value(rest@) as int, value(d@) as int),
        FRACTION_PLACES as nat,
    );
    let ghost dv = value(d@) as int;
    let mut left = rest;
    let mut k: usize = 0;
    loop
        invariant
            k <= FRACTION_PLACES,
            all_digits(left@),
            all_digits(d@),
            dv == value(d@),
            value(left@) < value(d@),
            out@ + fraction_text(ratio(value(left@) as int, dv), (FRACTION_PLACES - k) as nat)
                == old(out)@ + whole,
        decreases FRACTION_PLACES - k,
    {
        proof {
            lemma_ratio_sign(value(left@) as int, dv);
        }
        if k >= FRACTION_PLACES || is_zero(&left) {
            assert(fraction_text(
                ratio(value(left@) as int, dv),
                (FRACTION_PLACES - k) as nat,
            ) == Seq::<char>::empty());
            assert(out@ + Seq::<char>::empty() =~= out@);
            return ;
        }
        let ghost r0 = value(left@) as int;
        let ghost f = ratio(r0, dv);
        let ghost so_far = out@;
        let ghost before = left@;
        left.insert(0, 0);
        assert(left@.drop_first() =~= before);
        let (digit, next) = digit_quotient(left, d);
        push_char(out, digit_to_char(digit));
        proof {
            let r1 = value(next@) as int;
            lemma_ratio_floor(10 * r0, dv, digit as int, r1);
            assert(((10 * r0) as real) / (dv as real) == ((r0 as real) / (dv as real)) * 10real)
                by (nonlinear_arith)
                requires
                    dv > 0,
            ;
            let tail = fraction_text(ratio(r1, dv), (FRACTION_PLACES - k - 1) as nat);
            assert(fraction_text(f, (FRACTION_PLACES - k) as nat) == seq![
                digit_char(digit as int),
            ] + tail);
            assert(so_far.push(digit_char(digit as int)) + tail =~= so_far + (seq![
                digit_char(digit as int),
            ] + tail));
        }
        left = next;
        k += 1;
    }
}

} // verus!
