//! Natural numbers of any size, held as decimal digits with the least
//! significant digit first.
//!
//! The functions here work on plain digit vectors; `decimal` builds signed
//! numbers with a decimal point on top of them.

use vstd::prelude::*;

verus! {

/// Ten to the power `n`.
pub open spec fn pow10(n: nat) -> nat
    decreases n,
{
    if n == 0 {
        1
    } else {
        10 * pow10((n - 1) as nat)
    }
}

/// Every element is a decimal digit.
pub open spec fn all_digits(d: Seq<u8>) -> bool {
    forall|i: int| 0 <= i < d.len() ==> #[trigger] d[i] <= 9
}

/// The number that the digits `d` stand for, least significant digit first.
pub open spec fn value(d: Seq<u8>) -> nat
    decreases d.len(),
{
    if d.len() == 0 {
        0
    } else {
        value(d.drop_last()) + d.last() as nat * pow10((d.len() - 1) as nat)
    }
}

/// The digit of `d` at place `i`, zero beyond its length.
pub open spec fn digit_at(d: Seq<u8>, i: int) -> nat {
    if 0 <= i < d.len() {
        d[i] as nat
    } else {
        0
    }
}

/// The number that the lowest `i` digits of `d` stand for.
pub open spec fn low(d: Seq<u8>, i: int) -> nat {
    if i >= d.len() {
        value(d)
    } else if i <= 0 {
        0
    } else {
        value(d.take(i))
    }
}

/// A power of ten is above zero.
pub(crate) proof fn lemma_pow10_positive(n: nat)
    ensures
        pow10(n) > 0,
    decreases n,
{
    if n > 0 {
        lemma_pow10_positive((n - 1) as nat);
    }
}

/// Powers of ten multiply as their exponents add.
pub(crate) proof fn lemma_pow10_adds(a: nat, b: nat)
    ensures
        pow10(a + b) == pow10(a) * pow10(b),
    decreases b,
{
    if b == 0 {
        assert(pow10(a) * 1 == pow10(a));
    } else {
        lemma_pow10_adds(a, (b - 1) as nat);
        assert(pow10(a + b) == 10 * pow10((a + b - 1) as nat));
        assert(10 * (pow10(a) * pow10((b - 1) as nat)) == pow10(a) * (10 * pow10((b - 1) as nat)))
            by (nonlinear_arith);
    }
}

/// Adding a digit at the top adds it at the weight of its place.
pub(crate) proof fn lemma_value_push(d: Seq<u8>, x: u8)
    ensures
        value(d.push(x)) == value(d) + x as nat * pow10(d.len()),
{
    assert(d.push(x).drop_last() =~= d);
}

/// One more digit of `d` taken into account.
pub(crate) proof fn lemma_low_step(d: Seq<u8>, i: int)
    requires
        0 <= i,
    ensures
        low(d, i + 1) == low(d, i) + digit_at(d, i) * pow10(i as nat),
{
    if i < d.len() {
        assert(d.take(i + 1) =~= d.take(i).push(d[i]));
        lemma_value_push(d.take(i), d[i]);
        assert(d.take(d.len() as int) =~= d);
        if i == 0 {
            assert(d.take(0).len() == 0);
        }
    }
}

/// A number of `n` digits is below ten to the `n`.
pub(crate) proof fn lemma_value_bound(d: Seq<u8>)
    requires
        all_digits(d),
    ensures
        value(d) < pow10(d.len()),
    decreases d.len(),
{
    if d.len() > 0 {
        lemma_value_bound(d.drop_last());
        let p = pow10((d.len() - 1) as nat);
        assert(d.last() <= 9);
        assert(d.last() as nat * p <= 9 * p) by (nonlinear_arith)
            requires
                d.last() <= 9,
                p >= 0,
        ;
    }
}

/// A higher power of ten is no smaller.
pub(crate) proof fn lemma_pow10_grows(a: nat, b: nat)
    requires
        a <= b,
    ensures
        pow10(a) <= pow10(b),
    decreases b,
{
    if a < b {
        lemma_pow10_grows(a, (b - 1) as nat);
    }
}

/// The lowest `i` digits stand for less than ten to the `i`.
pub(crate) proof fn lemma_low_bound(d: Seq<u8>, i: int)
    requires
        all_digits(d),
        0 <= i,
    ensures
        low(d, i) < pow10(i as nat),
    decreases i,
{
    if i >= d.len() {
        lemma_value_bound(d);
        lemma_pow10_grows(d.len(), i as nat);
    } else if i > 0 {
        lemma_value_bound(d.take(i));
    }
}

/// The digits of `a` followed by those of `b` weigh `b` by the length of `a`.
pub(crate) proof fn lemma_value_concat(a: Seq<u8>, b: Seq<u8>)
    ensures
        value(a + b) == value(a) + pow10(a.len()) * value(b),
    decreases b.len(),
{
    if b.len() == 0 {
        assert(a + b =~= a);
        assert(pow10(a.len()) * 0 == 0);
    } else {
        let b0 = b.drop_last();
        let x = b.last();
        assert((a + b).drop_last() =~= a + b0);
        lemma_value_concat(a, b0);
        lemma_pow10_adds(a.len(), b0.len());
        let pa = pow10(a.len());
        let pb = pow10(b0.len());
        let vb = value(b0);
        assert(pa * (vb + x as nat * pb) == pa * vb + x as nat * (pa * pb)) by (nonlinear_arith);
    }
}

/// Digits that are all zero stand for zero.
pub(crate) proof fn lemma_value_zeros(d: Seq<u8>)
    requires
        forall|i: int| 0 <= i < d.len() ==> #[trigger] d[i] == 0,
    ensures
        value(d) == 0,
    decreases d.len(),
{
    if d.len() > 0 {
        lemma_value_zeros(d.drop_last());
        assert(d.last() == 0);
        assert(0 * pow10((d.len() - 1) as nat) == 0);
    }
}

/// The lowest digits of a number stand for no more than the whole.
pub(crate) proof fn lemma_low_rest(d: Seq<u8>, i: int)
    ensures
        low(d, i) <= value(d),
{
    if 0 < i < d.len() {
        assert(d =~= d.take(i) + d.skip(i));
        lemma_value_concat(d.take(i), d.skip(i));
        lemma_pow10_positive(i as nat);
        assert(pow10(i as nat) * value(d.skip(i)) >= 0) by (nonlinear_arith)
            requires
                pow10(i as nat) > 0,
                value(d.skip(i)) >= 0,
        ;
    }
}

/// The sum of two numbers.
pub(crate) fn sum(a: &Vec<u8>, b: &Vec<u8>) -> (r: Vec<u8>)
    requires
        all_digits(a@),
        all_digits(b@),
    ensures
        all_digits(r@),
        value(r@) == value(a@) + value(b@),
        r@.len() > a@.len(),
        r@.len() > b@.len(),
{
    let n: usize = if a.len() >= b.len() {
        a.len()
    } else {
        b.len()
    };
    let mut out: Vec<u8> = Vec::new();
    let mut carry: u8 = 0;
    let mut i: usize = 0;
    while i < n
        invariant
            all_digits(a@),
            all_digits(b@),
            all_digits(out@),
            n >= a@.len(),
            n >= b@.len(),
            i <= n,
            out@.len() == i,
            carry <= 1,
            value(out@) + carry * pow10(i as nat) == low(a@, i as int) + low(b@, i as int),
        decreases n - i,
    {
        let x: u8 = if i < a.len() {
            a[i]
        } else {
            0
        };
        let y: u8 = if i < b.len() {
            b[i]
        } else {
            0
        };
        let t: u8 = x + y + carry;
        let digit: u8 = if t >= 10 {
            t - 10
        } else {
            t
        };
        let next: u8 = if t >= 10 {
            1
        } else {
            0
        };
        proof {
            lemma_low_step(a@, i as int);
            lemma_low_step(b@, i as int);
            lemma_value_push(out@, digit);
            let p = pow10(i as nat);
            assert(pow10((i + 1) as nat) == 10 * p);
            assert(x == digit_at(a@, i as int));
            assert(y == digit_at(b@, i as int));
            assert(digit * p + next * (10 * p) == (x + y + carry) * p) by (nonlinear_arith)
                requires
                    digit + 10 * next == x + y + carry,
            ;
            assert((x + y + carry) * p == x * p + y * p + carry * p) by (nonlinear_arith);
        }
        out.push(digit);
        carry = next;
        i += 1;
    }
    proof {
        lemma_value_push(out@, carry);
    }
    out.push(carry);
    out
}

/// The difference of two numbers, the second being no larger than the first.
pub(crate) fn difference(a: &Vec<u8>, b: &Vec<u8>) -> (r: Vec<u8>)
    requires
        all_digits(a@),
        all_digits(b@),
        value(a@) >= value(b@),
    ensures
        all_digits(r@),
        value(r@) == value(a@) - value(b@),
        r@.len() >= a@.len(),
        r@.len() >= b@.len(),
{
    let n: usize = if a.len() >= b.len() {
        a.len()
    } else {
        b.len()
    };
    let mut out: Vec<u8> = Vec::new();
    let mut borrow: u8 = 0;
    let mut i: usize = 0;
    while i < n
        invariant
            all_digits(a@),
            all_digits(b@),
            all_digits(out@),
            n >= a@.len(),
            n >= b@.len(),
            i <= n,
            out@.len() == i,
            borrow <= 1,
            value(out@) + low(b@, i as int) == low(a@, i as int) + borrow * pow10(i as nat),
        decreases n - i,
    {
        let x: u8 = if i < a.len() {
            a[i]
        } else {
            0
        };
        let y: u8 = if i < b.len() {
            b[i]
        } else {
            0
        };
        let short: bool = x < y + borrow;
        let digit: u8 = if short {
            x + 10 - y - borrow
        } else {
            x - y - borrow
        };
        let next: u8 = if short {
            1
        } else {
            0
        };
        proof {
            lemma_low_step(a@, i as int);
            lemma_low_step(b@, i as int);
            lemma_value_push(out@, digit);
            let p = pow10(i as nat);
            assert(pow10((i + 1) as nat) == 10 * p);
            assert(x == digit_at(a@, i as int));
            assert(y == digit_at(b@, i as int));
            assert(digit * p + y * p + borrow * p == x * p + next * (10 * p)) by (nonlinear_arith)
                requires
                    digit + y + borrow == x + 10 * next,
            ;
        }
        out.push(digit);
        borrow = next;
        i += 1;
    }
    proof {
        lemma_value_bound(out@);
        assert(borrow * pow10(n as nat) == if borrow == 1 {
            pow10(n as nat)
        } else {
            0
        }) by (nonlinear_arith)
            requires
                borrow <= 1,
        ;
    }
    out
}

/// Whether the first number is at least as large as the second.
pub(crate) fn at_least(a: &Vec<u8>, b: &Vec<u8>) -> (r: bool)
    requires
        all_digits(a@),
        all_digits(b@),
    ensures
        r == (value(a@) >= value(b@)),
{
    let n: usize = if a.len() >= b.len() {
        a.len()
    } else {
        b.len()
    };
    let mut holds: bool = true;
    let mut i: usize = 0;
    while i < n
        invariant
            all_digits(a@),
            all_digits(b@),
            n >= a@.len(),
            n >= b@.len(),
            i <= n,
            holds == (low(a@, i as int) >= low(b@, i as int)),
        decreases n - i,
    {
        let x: u8 = if i < a.len() {
            a[i]
        } else {
            0
        };
        let y: u8 = if i < b.len() {
            b[i]
        } else {
            0
        };
        proof {
            lemma_low_step(a@, i as int);
            lemma_low_step(b@, i as int);
            lemma_low_bound(a@, i as int);
            lemma_low_bound(b@, i as int);
            let p = pow10(i as nat);
            assert(x == digit_at(a@, i as int));
            assert(y == digit_at(b@, i as int));
            if x > y {
                assert(x * p >= y * p + p) by (nonlinear_arith)
                    requires
                        x >= y + 1,
                        p >= 0,
                ;
            } else if x < y {
                assert(y * p >= x * p + p) by (nonlinear_arith)
                    requires
                        y >= x + 1,
                        p >= 0,
                ;
            }
        }
        if x > y {
            holds = true;
        } else if x < y {
            holds = false;
        }
        i += 1;
    }
    holds
}

/// Whether the number is zero.
pub(crate) fn is_zero(a: &Vec<u8>) -> (r: bool)
    requires
        all_digits(a@),
    ensures
        r == (value(a@) == 0),
{
    let mut i: usize = 0;
    while i < a.len()
        invariant
            i <= a@.len(),
            low(a@, i as int) == 0,
        decreases a@.len() - i,
    {
        proof {
            lemma_low_step(a@, i as int);
            lemma_pow10_positive(i as nat);
        }
        if a[i] != 0 {
            proof {
                lemma_low_rest(a@, (i + 1) as int);
                assert(a@[i as int] * pow10(i as nat) > 0) by (nonlinear_arith)
                    requires
                        a@[i as int] > 0,
                        pow10(i as nat) > 0,
                ;
            }
            return false;
        }
        assert(digit_at(a@, i as int) * pow10(i as nat) == 0) by (nonlinear_arith)
            requires
                digit_at(a@, i as int) == 0,
        ;
        i += 1;
    }
    true
}

/// The number with `k` zero digits put below its own: ten to the `k` times as much.
pub(crate) fn shifted(a: &Vec<u8>, k: usize) -> (r: Vec<u8>)
    requires
        all_digits(a@),
    ensures
        all_digits(r@),
        value(r@) == value(a@) * pow10(k as nat),
        r@.len() == a@.len() + k,
{
    let mut out: Vec<u8> = Vec::new();
    let mut i: usize = 0;
    while i < k
        invariant
            i <= k,
            out@.len() == i,
            forall|j: int| 0 <= j < i ==> #[trigger] out@[j] == 0,
        decreases k - i,
    {
        out.push(0);
        i += 1;
    }
    let ghost zeros = out@;
    let mut j: usize = 0;
    while j < a.len()
        invariant
            j <= a@.len(),
            out@ =~= zeros + a@.take(j as int),
        decreases a@.len() - j,
    {
        out.push(a[j]);
        j += 1;
    }
    proof {
        assert(a@.take(a@.len() as int) =~= a@);
        lemma_value_zeros(zeros);
        lemma_value_concat(zeros, a@);
        assert(pow10(k as nat) * value(a@) == value(a@) * pow10(k as nat)) by (nonlinear_arith);
    }
    out
}

/// The same number written with at least `n` digits.
pub(crate) fn padded(a: Vec<u8>, n: usize) -> (r: Vec<u8>)
    requires
        all_digits(a@),
    ensures
        all_digits(r@),
        value(r@) == value(a@),
        r@.len() >= n,
        r@.len() >= a@.len(),
{
    let mut out: Vec<u8> = a;
    while out.len() < n
        invariant
            all_digits(out@),
            value(out@) == value(a@),
            out@.len() >= a@.len(),
        decreases n - out@.len(),
    {
        proof {
            lemma_value_push(out@, 0);
            assert(0 * pow10(out@.len()) == 0);
        }
        out.push(0);
    }
    out
}

/// The number times one digit.
pub(crate) fn scaled(a: &Vec<u8>, d: u8) -> (r: Vec<u8>)
    requires
        all_digits(a@),
        d <= 9,
    ensures
        all_digits(r@),
        value(r@) == value(a@) * d,
        r@.len() == a@.len() + 1,
{
    let mut out: Vec<u8> = Vec::new();
    let mut carry: u8 = 0;
    let mut i: usize = 0;
    assert(0 * pow10(0) == 0 && 0 * d == 0);
    while i < a.len()
        invariant
            all_digits(a@),
            all_digits(out@),
            d <= 9,
            i <= a@.len(),
            out@.len() == i,
            carry <= 8,
            value(out@) + carry * pow10(i as nat) == low(a@, i as int) * d,
        decreases a@.len() - i,
    {
        let x: u8 = a[i];
        assert(x * d <= 81) by (nonlinear_arith)
            requires
                x <= 9,
                d <= 9,
        ;
        let t: u8 = x * d + carry;
        let digit: u8 = t % 10;
        let next: u8 = t / 10;
        proof {
            lemma_low_step(a@, i as int);
            lemma_value_push(out@, digit);
            let p = pow10(i as nat);
            let l = low(a@, i as int);
            assert(pow10((i + 1) as nat) == 10 * p);
            assert(x == digit_at(a@, i as int));
            assert(digit * p + next * (10 * p) == (x * d) * p + carry * p) by (nonlinear_arith)
                requires
                    digit + 10 * next == x * d + carry,
            ;
            assert((l + x * p) * d == l * d + (x * d) * p) by (nonlinear_arith);
        }
        out.push(digit);
        carry = next;
        i += 1;
    }
    proof {
        lemma_value_push(out@, carry);
    }
    out.push(carry);
    out
}

/// The product of two numbers.
pub(crate) fn product(a: &Vec<u8>, b: &Vec<u8>) -> (r: Vec<u8>)
    requires
        all_digits(a@),
        all_digits(b@),
    ensures
        all_digits(r@),
        value(r@) == value(a@) * value(b@),
        r@.len() >= a@.len() + b@.len(),
{
    let mut acc: Vec<u8> = padded(Vec::new(), b.len());
    let mut i: usize = 0;
    proof {
        assert(value(Seq::<u8>::empty()) == 0);
        assert(0 * value(b@) == 0);
    }
    while i < a.len()
        invariant
            all_digits(a@),
            all_digits(b@),
            all_digits(acc@),
            i <= a@.len(),
            acc@.len() >= i + b@.len(),
            value(acc@) == low(a@, i as int) * value(b@),
        decreases a@.len() - i,
    {
        let part: Vec<u8> = scaled(b, a[i]);
        let placed: Vec<u8> = shifted(&part, i);
        proof {
            lemma_low_step(a@, i as int);
            let p = pow10(i as nat);
            let l = low(a@, i as int);
            let x = a@[i as int];
            let vb = value(b@);
            assert(x == digit_at(a@, i as int));
            assert(l * vb + (vb * x) * p == (l + x * p) * vb) by (nonlinear_arith);
        }
        acc = sum(&acc, &placed);
        i += 1;
    }
    acc
}

/// The number without its lowest `k` digits, rounded half up: the whole number
/// nearest to the number over ten to the `k`, the larger one where two are
/// equally near.
pub(crate) fn rounded(a: &Vec<u8>, k: usize) -> (r: Vec<u8>)
    requires
        all_digits(a@),
        k <= a@.len(),
    ensures
        all_digits(r@),
        value(r@) == (value(a@) + pow10(k as nat) / 2) / pow10(k as nat),
        r@.len() >= a@.len() - k,
{
    let mut out: Vec<u8> = Vec::new();
    let mut i: usize = k;
    while i < a.len()
        invariant
            k <= i <= a@.len(),
            out@ =~= a@.subrange(k as int, i as int),
        decreases a@.len() - i,
    {
        out.push(a[i]);
        i += 1;
    }
    let up: bool = k > 0 && a[k - 1] >= 5;
    proof {
        let p = pow10(k as nat);
        let lo = a@.take(k as int);
        let hi = a@.skip(k as int);
        assert(out@ =~= hi);
        assert(a@ =~= lo + hi);
        lemma_value_concat(lo, hi);
        lemma_value_bound(lo);
        lemma_pow10_positive(k as nat);
        let h = value(hi);
        let l = value(lo);
        if k == 0 {
            assert(p == 1);
            assert(l == 0);
            assert(value(a@) == h) by (nonlinear_arith)
                requires
                    value(a@) == l + p * h,
                    p == 1,
                    l == 0,
            ;
        } else {
            let q = pow10((k - 1) as nat);
            assert(p == 10 * q);
            assert(p / 2 == 5 * q);
            lemma_low_step(a@, k - 1);
            lemma_low_bound(a@, k - 1);
            let x = a@[k - 1];
            assert(low(a@, k as int) == l);
            assert(l == low(a@, k - 1) + x * q);
            if up {
                assert(x * q >= 5 * q) by (nonlinear_arith)
                    requires
                        x >= 5,
                        q >= 0,
                ;
                assert((l + p * h + 5 * q) / p == h + 1) by (nonlinear_arith)
                    requires
                        p == 10 * q,
                        q > 0,
                        5 * q <= l < p,
                ;
            } else {
                assert(x * q <= 4 * q) by (nonlinear_arith)
                    requires
                        x <= 4,
                        q >= 0,
                ;
                assert((l + p * h + 5 * q) / p == h) by (nonlinear_arith)
                    requires
                        p == 10 * q,
                        q > 0,
                        0 <= l < 5 * q,
                ;
            }
        }
    }
    if up {
        let mut one: Vec<u8> = Vec::new();
        one.push(1);
        proof {
            lemma_value_push(Seq::<u8>::empty(), 1);
            assert(value(Seq::<u8>::empty()) == 0);
            assert(one@ =~= Seq::<u8>::empty().push(1));
        }
        sum(&out, &one)
    } else {
        out
    }
}

} // verus!
