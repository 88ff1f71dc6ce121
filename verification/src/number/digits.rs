//! Arithmetic on natural numbers written as decimal digits, least
//! significant digit first. Leading zeros (at the high end) are allowed.

use vstd::prelude::*;

verus! {

/// Ten to the power `n`.
pub open spec fn pow10(n: nat) -> nat
    decreases n,
{
    if n == 0 {
        1
    } else {
        10 * pow10((n - 1) as nat)
    }
}

/// Every element is a decimal digit.
pub open spec fn all_digits(s: Seq<u8>) -> bool {
    forall|i: int| 0 <= i < s.len() ==> #[trigger] s[i] < 10
}

/// The natural number that the digits `s` denote, `s[0]` being the units.
pub open spec fn value(s: Seq<u8>) -> nat
    decreases s.len(),
{
    if s.len() == 0 {
        0
    } else {
        s[0] as nat + 10 * value(s.drop_first())
    }
}

pub proof fn lemma_pow10_positive(n: nat)
    ensures
        pow10(n) > 0,
    decreases n,
{
    if n > 0 {
        lemma_pow10_positive((n - 1) as nat);
    }
}

/// Appending a digit at the high end adds that digit times a power of ten.
pub proof fn lemma_value_push(s: Seq<u8>, d: u8)
    ensures
        value(s.push(d)) == value(s) + d * pow10(s.len()),
    decreases s.len(),
{
    let t = s.push(d);
    if s.len() == 0 {
        assert(t.drop_first() =~= Seq::<u8>::empty());
        assert(value(t.drop_first()) == 0);
        assert(t[0] == d);
        assert(value(t) == d as nat + 10 * value(t.drop_first()));
        assert(pow10(0) == 1);
        assert(d * pow10(0) == d) by (nonlinear_arith)
            requires
                pow10(0) == 1,
        ;
    } else {
        let rest = s.drop_first();
        assert(t.drop_first() =~= rest.push(d));
        lemma_value_push(rest, d);
        let p = pow10(rest.len());
        assert(pow10(s.len()) == 10 * p);
        assert(10 * (d * p) == d * (10 * p)) by (nonlinear_arith);
        assert(t[0] == s[0]);
        assert(value(t) == t[0] as nat + 10 * value(t.drop_first()));
        assert(value(s) == s[0] as nat + 10 * value(rest));
    }
}

/// A number of `n` digits is below ten to the `n`.
pub proof fn lemma_value_bound(s: Seq<u8>)
    requires
        all_digits(s),
    ensures
        value(s) < pow10(s.len()),
    decreases s.len(),
{
    if s.len() > 0 {
        let rest = s.drop_first();
        assert(all_digits(rest)) by {
            assert forall|i: int| 0 <= i < rest.len() implies #[trigger] rest[i] < 10 by {
                assert(rest[i] == s[i + 1]);
            }
        }
        lemma_value_bound(rest);
        assert(s[0] < 10);
    }
}

/// The digits of `v` followed by zeros up to length `n`.
pub fn padded(v: &Vec<u8>, n: usize) -> (r: Vec<u8>)
    requires
        all_digits(v@),
        v.len() <= n,
    ensures
        all_digits(r@),
        r.len() == n,
        value(r@) == value(v@),
{
    let mut r: Vec<u8> = Vec::new();
    let mut i: usize = 0;
    while i < v.len()
        invariant
            i <= v.len(),
            r@ == v@.take(i as int),
        decreases v.len() - i,
    {
        r.push(v[i]);
        assert(v@.take(i as int).push(v@[i as int]) =~= v@.take(i + 1));
        i += 1;
    }
    assert(v@.take(v.len() as int) =~= v@);
    while i < n
        invariant
            v.len() <= i <= n,
            r.len() == i,
            all_digits(r@),
            value(r@) == value(v@),
        decreases n - i,
    {
        proof {
            lemma_value_push(r@, 0);
        }
        r.push(0);
        i += 1;
    }
    r
}

/// The sum of two numbers.
pub fn sum(a: &Vec<u8>, b: &Vec<u8>) -> (r: Vec<u8>)
    requires
        all_digits(a@),
        all_digits(b@),
    ensures
        all_digits(r@),
        value(r@) == value(a@) + value(b@),
{
    let n: usize = if a.len() < b.len() { b.len() } else { a.len() };
    let x = padded(a, n);
    let y = padded(b, n);
    let mut r: Vec<u8> = Vec::new();
    let mut carry: u8 = 0;
    let mut i: usize = 0;
    assert(x@.take(0) =~= Seq::<u8>::empty());
    assert(y@.take(0) =~= Seq::<u8>::empty());
    while i < n
        invariant
            i <= n,
            x.len() == n,
            y.len() == n,
            all_digits(x@),
            all_digits(y@),
            all_digits(r@),
            r.len() == i,
            carry <= 1,
            value(r@) + carry * pow10(i as nat) == value(x@.take(i as int)) + value(y@.take(i as int)),
        decreases n - i,
    {
        let t: u8 = x[i] + y[i] + carry;
        let d: u8 = if t >= 10 { t - 10 } else { t };
        let c: u8 = if t >= 10 { 1 } else { 0 };
        proof {
            lemma_value_push(r@, d);
            lemma_value_push(x@.take(i as int), x@[i as int]);
            lemma_value_push(y@.take(i as int), y@[i as int]);
            assert(x@.take(i as int).push(x@[i as int]) =~= x@.take(i + 1));
            assert(y@.take(i as int).push(y@[i as int]) =~= y@.take(i + 1));
            let p = pow10(i as nat);
            assert(pow10((i + 1) as nat) == 10 * p);
            assert(d * p + c * (10 * p) == (x@[i as int] + y@[i as int] + carry) * p)
                by (nonlinear_arith)
                requires
                    d + 10 * c == x@[i as int] + y@[i as int] + carry,
            ;
            assert((x@[i as int] + y@[i as int] + carry) * p == x@[i as int] * p + y@[i as int] * p
                + carry * p) by (nonlinear_arith);
        }
        r.push(d);
        carry = c;
        i += 1;
    }
    proof {
        assert(x@.take(n as int) =~= x@);
        assert(y@.take(n as int) =~= y@);
        lemma_value_push(r@, carry);
    }
    r.push(carry);
    r
}

/// Subtracts `b` from `a` digit by digit. The flag tells whether a borrow
/// ran off the high end, which it does exactly when `a` is the smaller one;
/// without it the digits are those of the difference.
pub fn difference(a: &Vec<u8>, b: &Vec<u8>) -> (r: (Vec<u8>, bool))
    requires
        all_digits(a@),
        all_digits(b@),
    ensures
        all_digits(r.0@),
        r.1 <==> value(a@) < value(b@),
        !r.1 ==> value(r.0@) == value(a@) - value(b@),
{
    let n: usize = if a.len() < b.len() { b.len() } else { a.len() };
    let x = padded(a, n);
    let y = padded(b, n);
    let mut r: Vec<u8> = Vec::new();
    let mut borrow: u8 = 0;
    let mut i: usize = 0;
    assert(x@.take(0) =~= Seq::<u8>::empty());
    assert(y@.take(0) =~= Seq::<u8>::empty());
    while i < n
        invariant
            i <= n,
            x.len() == n,
            y.len() == n,
            all_digits(x@),
            all_digits(y@),
            all_digits(r@),
            r.len() == i,
            borrow <= 1,
            value(r@) - borrow * pow10(i as nat) == value(x@.take(i as int)) - value(
                y@.take(i as int),
            ),
        decreases n - i,
    {
        let low: u8 = y[i] + borrow;
        let d: u8 = if x[i] < low { x[i] + 10 - low } else { x[i] - low };
        let c: u8 = if x[i] < low { 1 } else { 0 };
        proof {
            lemma_value_push(r@, d);
            lemma_value_push(x@.take(i as int), x@[i as int]);
            lemma_value_push(y@.take(i as int), y@[i as int]);
            assert(x@.take(i as int).push(x@[i as int]) =~= x@.take(i + 1));
            assert(y@.take(i as int).push(y@[i as int]) =~= y@.take(i + 1));
            let p = pow10(i as nat);
            assert(pow10((i + 1) as nat) == 10 * p);
            assert(d * p - c * (10 * p) == (x@[i as int] - y@[i as int] - borrow) * p)
                by (nonlinear_arith)
                requires
                    d - 10 * c == x@[i as int] - y@[i as int] - borrow,
            ;
            assert((x@[i as int] - y@[i as int] - borrow) * p == x@[i as int] * p - y@[i as int] * p
                - borrow * p) by (nonlinear_arith);
        }
        r.push(d);
        borrow = c;
        i += 1;
    }
    proof {
        assert(x@.take(n as int) =~= x@);
        assert(y@.take(n as int) =~= y@);
        lemma_value_bound(r@);
        lemma_pow10_positive(n as nat);
        let p = pow10(n as nat);
        assert(borrow * p == if borrow == 1 { p } else { 0 }) by (nonlinear_arith)
            requires
                borrow <= 1,
        ;
    }
    (r, borrow == 1)
}

/// Whether the digits denote zero.
pub fn is_zero(a: &Vec<u8>) -> (r: bool)
    ensures
        r <==> value(a@) == 0,
{
    let mut i: usize = a.len();
    assert(a@.skip(i as int) =~= Seq::<u8>::empty());
    while i > 0
        invariant
            i <= a.len(),
            value(a@.skip(i as int)) == 0,
        decreases i,
    {
        i -= 1;
        assert(a@.skip(i as int).drop_first() =~= a@.skip(i + 1));
        if a[i] != 0 {
            proof {
                lemma_value_skip_positive(a@, i as int);
            }
            return false;
        }
    }
    assert(a@.skip(0) =~= a@);
    true
}

/// A nonzero digit makes the whole number nonzero.
pub proof fn lemma_value_skip_positive(s: Seq<u8>, i: int)
    requires
        0 <= i < s.len(),
        s[i] != 0,
    ensures
        value(s) > 0,
    decreases i,
{
    if i > 0 {
        lemma_value_skip_positive(s.drop_first(), i - 1);
    }
}

/// The product of a number and one digit.
pub fn scaled(a: &Vec<u8>, d: u8) -> (r: Vec<u8>)
    requires
        all_digits(a@),
        d < 10,
    ensures
        all_digits(r@),
        value(r@) == value(a@) * d,
{
    let n: usize = a.len();
    let mut r: Vec<u8> = Vec::new();
    let mut carry: u8 = 0;
    let mut i: usize = 0;
    assert(a@.take(0) =~= Seq::<u8>::empty());
    assert(0 * pow10(0) == 0 && 0 * d == 0) by (nonlinear_arith);
    while i < n
        invariant
            i <= n,
            n == a.len(),
            d < 10,
            all_digits(a@),
            all_digits(r@),
            r.len() == i,
            carry < 10,
            value(r@) + carry * pow10(i as nat) == value(a@.take(i as int)) * d,
        decreases n - i,
    {
        assert(a@[i as int] * d <= 81) by (nonlinear_arith)
            requires
                a@[i as int] < 10,
                d < 10,
        ;
        let t: u8 = a[i] * d + carry;
        let low: u8 = t % 10;
        let c: u8 = t / 10;
        proof {
            lemma_value_push(r@, low);
            lemma_value_push(a@.take(i as int), a@[i as int]);
            assert(a@.take(i as int).push(a@[i as int]) =~= a@.take(i + 1));
            let p = pow10(i as nat);
            let v = value(a@.take(i as int));
            assert(pow10((i + 1) as nat) == 10 * p);
            assert(low * p + c * (10 * p) == (a@[i as int] * d + carry) * p) by (nonlinear_arith)
                requires
                    low + 10 * c == a@[i as int] * d + carry,
            ;
            assert((a@[i as int] * d + carry) * p == a@[i as int] * p * d + carry * p)
                by (nonlinear_arith);
            assert((v + a@[i as int] * p) * d == v * d + a@[i as int] * p * d)
                by (nonlinear_arith);
        }
        r.push(low);
        carry = c;
        i += 1;
    }
    proof {
        assert(a@.take(n as int) =~= a@);
        lemma_value_push(r@, carry);
    }
    r.push(carry);
    r
}

/// The product of two numbers.
pub fn product(a: &Vec<u8>, b: &Vec<u8>) -> (r: Vec<u8>)
    requires
        all_digits(a@),
        all_digits(b@),
    ensures
        all_digits(r@),
        value(r@) == value(a@) * value(b@),
{
    let mut acc: Vec<u8> = Vec::new();
    let mut j: usize = b.len();
    assert(b@.skip(j as int) =~= Seq::<u8>::empty());
    assert(value(a@) * 0 == 0) by (nonlinear_arith);
    while j > 0
        invariant
            j <= b.len(),
            all_digits(a@),
            all_digits(b@),
            all_digits(acc@),
            value(acc@) == value(a@) * value(b@.skip(j as int)),
        decreases j,
    {
        j -= 1;
        let ghost before = acc@;
        acc.insert(0, 0);
        let part = scaled(a, b[j]);
        proof {
            assert(acc@.drop_first() =~= before);
            assert(acc@[0] == 0);
            assert(value(acc@) == 10 * value(before));
            assert(b@.skip(j as int).drop_first() =~= b@.skip(j + 1));
            assert(b@.skip(j as int)[0] == b@[j as int]);
            let va = value(a@);
            let vr = value(b@.skip(j + 1));
            assert(10 * (va * vr) + va * b@[j as int] == va * (b@[j as int] + 10 * vr))
                by (nonlinear_arith);
        }
        acc = sum(&acc, &part);
    }
    assert(b@.skip(0) =~= b@);
    acc
}

/// The digits of ten to the power `n`.
pub fn power_of_ten(n: usize) -> (r: Vec<u8>)
    ensures
        all_digits(r@),
        value(r@) == pow10(n as nat),
{
    let mut r: Vec<u8> = Vec::new();
    let mut i: usize = 0;
    while i < n
        invariant
            i <= n,
            r.len() == i,
            all_digits(r@),
            value(r@) == 0,
        decreases n - i,
    {
        proof {
            lemma_value_push(r@, 0);
        }
        r.push(0);
        i += 1;
    }
    proof {
        lemma_value_push(r@, 1);
        assert(1 * pow10(n as nat) == pow10(n as nat)) by (nonlinear_arith);
    }
    r.push(1);
    r
}

/// The number that decimal digits denote when read most significant digit
/// first, as they are written.
pub open spec fn written_value(s: Seq<u8>) -> nat
    decreases s.len(),
{
    if s.len() == 0 {
        0
    } else {
        10 * written_value(s.drop_last()) + s.last() as nat
    }
}

/// Turns digits as written into digits least significant first.
pub fn from_written(w: &Vec<u8>) -> (r: Vec<u8>)
    requires
        all_digits(w@),
    ensures
        all_digits(r@),
        value(r@) == written_value(w@),
{
    let mut r: Vec<u8> = Vec::new();
    let mut i: usize = 0;
    assert(w@.take(0) =~= Seq::<u8>::empty());
    while i < w.len()
        invariant
            i <= w.len(),
            all_digits(w@),
            all_digits(r@),
            value(r@) == written_value(w@.take(i as int)),
        decreases w.len() - i,
    {
        let ghost before = r@;
        r.insert(0, w[i]);
        proof {
            assert(r@.drop_first() =~= before);
            assert(w@.take(i + 1).drop_last() =~= w@.take(i as int));
            assert(w@.take(i + 1).last() == w@[i as int]);
        }
        i += 1;
    }
    assert(w@.take(w.len() as int) =~= w@);
    r
}

/// Removes the zeros at the high end, which add nothing.
pub fn trim(v: &mut Vec<u8>)
    requires
        all_digits(old(v)@),
    ensures
        all_digits(final(v)@),
        value(final(v)@) == value(old(v)@),
        final(v).len() <= old(v).len(),
        final(v).len() > 0 ==> final(v)@.last() != 0,
{
    while v.len() > 0 && v[v.len() - 1] == 0
        invariant
            all_digits(v@),
            value(v@) == value(old(v)@),
            v.len() <= old(v).len(),
        decreases v.len(),
    {
        proof {
            lemma_value_push(v@.drop_last(), 0);
            assert(v@.drop_last().push(0) =~= v@);
        }
        v.pop();
    }
}

/// Turns digits least significant first into digits as written.
pub fn to_written(v: &Vec<u8>) -> (r: Vec<u8>)
    requires
        all_digits(v@),
    ensures
        all_digits(r@),
        written_value(r@) == value(v@),
        r.len() == v.len(),
{
    let mut r: Vec<u8> = Vec::new();
    let mut i: usize = v.len();
    assert(v@.skip(i as int) =~= Seq::<u8>::empty());
    while i > 0
        invariant
            i <= v.len(),
            all_digits(v@),
            all_digits(r@),
            r.len() == v.len() - i,
            written_value(r@) == value(v@.skip(i as int)),
        decreases i,
    {
        i -= 1;
        let ghost before = r@;
        r.push(v[i]);
        proof {
            assert(r@.drop_last() =~= before);
            assert(v@.skip(i as int).drop_first() =~= v@.skip(i + 1));
            assert(v@.skip(i as int)[0] == v@[i as int]);
            lemma_written_prepend(before, v@[i as int], v@.skip(i + 1));
        }
    }
    assert(v@.skip(0) =~= v@);
    r
}

/// Digits as written, most significant first, denote what the same digits
/// denote when read from the other end.
pub proof fn lemma_written_prepend(w: Seq<u8>, d: u8, rest: Seq<u8>)
    requires
        written_value(w) == value(rest),
        w.len() == rest.len(),
    ensures
        written_value(w.push(d)) == d + 10 * value(rest),
{
    assert(w.push(d).drop_last() =~= w);
}

/// Divides a number that is below ten times the divisor: the quotient,
/// which is one digit, and the remainder.
pub fn digit_quotient(n: Vec<u8>, d: &Vec<u8>) -> (r: (u8, Vec<u8>))
    requires
        all_digits(n@),
        all_digits(d@),
        value(n@) < 10 * value(d@),
    ensures
        r.0 < 10,
        all_digits(r.1@),
        value(n@) == r.0 * value(d@) + value(r.1@),
        value(r.1@) < value(d@),
{
    let mut rest = n;
    let mut count: u8 = 0;
    assert(0 * value(d@) == 0) by (nonlinear_arith);
    loop
        invariant
            count < 10,
            all_digits(rest@),
            all_digits(d@),
            value(n@) < 10 * value(d@),
            value(n@) == count * value(d@) + value(rest@),
        decreases 10 - count,
    {
        let (less, borrowed) = difference(&rest, d);
        if borrowed {
            return (count, rest);
        }
        proof {
            let dv = value(d@) as int;
            let c = count as int;
            assert((c + 1) * dv == c * dv + dv) by (nonlinear_arith);
            assert(c + 1 < 10) by (nonlinear_arith)
                requires
                    (c + 1) * dv <= value(n@),
                    value(n@) < 10 * dv,
                    0 <= c,
            ;
        }
        rest = less;
        count += 1;
    }
}

/// Divides one number by another that is not zero: the quotient and the
/// remainder.
pub fn quotient(n: &Vec<u8>, d: &Vec<u8>) -> (r: (Vec<u8>, Vec<u8>))
    requires
        all_digits(n@),
        all_digits(d@),
        value(d@) > 0,
    ensures
        all_digits(r.0@),
        all_digits(r.1@),
        value(n@) == value(r.0@) * value(d@) + value(r.1@),
        value(r.1@) < value(d@),
{
    let mut q: Vec<u8> = Vec::new();
    let mut rest: Vec<u8> = Vec::new();
    let mut i: usize = n.len();
    assert(n@.skip(i as int) =~= Seq::<u8>::empty());
    assert(0 * value(d@) == 0) by (nonlinear_arith);
    while i > 0
        invariant
            i <= n.len(),
            all_digits(n@),
            all_digits(d@),
            all_digits(q@),
            all_digits(rest@),
            value(d@) > 0,
            value(rest@) < value(d@),
            value(n@.skip(i as int)) == value(q@) * value(d@) + value(rest@),
        decreases i,
    {
        i -= 1;
        let ghost before = rest@;
        let ghost above = q@;
        rest.insert(0, n[i]);
        proof {
            assert(rest@.drop_first() =~= before);
            assert(rest@[0] == n@[i as int]);
            assert(n@.skip(i as int).drop_first() =~= n@.skip(i + 1));
            assert(n@.skip(i as int)[0] == n@[i as int]);
        }
        let (digit, left) = digit_quotient(rest, d);
        q.insert(0, digit);
        proof {
            assert(q@.drop_first() =~= above);
            assert(q@[0] == digit);
            let dv = value(d@) as int;
            let qa = value(above) as int;
            assert((digit + 10 * qa) * dv == digit * dv + 10 * (qa * dv)) by (nonlinear_arith);
        }
        rest = left;
    }
    assert(n@.skip(0) =~= n@);
    (q, rest)
}

} // verus!
