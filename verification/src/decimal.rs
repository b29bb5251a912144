//! Exact decimal numbers: prices, rates, amounts and money.
//!
//! A `Decimal` holds a sign, any number of digits and the position of the
//! decimal point. Products and sums are exact; the only operation that loses
//! anything is `round`, which rounds half away from zero.

use crate::digits::{
    all_digits, at_least, difference, is_zero, lemma_pow10_positive, lemma_value_bound,
    lemma_value_concat, lemma_value_push, lemma_value_zeros, padded, pow10, product, rounded,
    shifted, sum, value,
};
use crate::text::chars_of;
use vstd::prelude::*;

verus! {

/// A decimal number as mathematics sees it: `units` over ten to the `places`.
pub struct Quantity {
    pub units: int,
    pub places: nat,
}

/// The product of two quantities.
pub open spec fn times(a: Quantity, b: Quantity) -> Quantity {
    Quantity { units: a.units * b.units, places: a.places + b.places }
}

/// The sum of two quantities, written with the places of the finer one.
pub open spec fn plus(a: Quantity, b: Quantity) -> Quantity {
    if a.places >= b.places {
        Quantity {
            units: a.units + b.units * pow10((a.places - b.places) as nat),
            places: a.places,
        }
    } else {
        Quantity {
            units: a.units * pow10((b.places - a.places) as nat) + b.units,
            places: b.places,
        }
    }
}

/// The whole number nearest to `m` over ten to the `k`, for `m` at least
/// zero; of two that are equally near, the larger.
pub open spec fn half_up(m: int, k: nat) -> int {
    (m + pow10(k) / 2) / (pow10(k) as int)
}

/// The quantity written with exactly `places` places. Where that takes
/// places away, the result is the nearest such quantity, and of two that are
/// equally near the one further from zero.
pub open spec fn round_to(q: Quantity, places: nat) -> Quantity {
    if q.places <= places {
        Quantity { units: q.units * pow10((places - q.places) as nat), places }
    } else if q.units < 0 {
        Quantity { units: -half_up(-q.units, (q.places - places) as nat), places }
    } else {
        Quantity { units: half_up(q.units, (q.places - places) as nat), places }
    }
}

/// Whether the character is a decimal digit.
pub open spec fn is_digit(c: char) -> bool {
    '0' <= c && c <= '9'
}

/// The digit that a digit character stands for.
pub open spec fn digit_of(c: char) -> u8 {
    ((c as u8) - 48) as u8
}

/// How many digits stand in `s` from position `i` on without a break.
pub open spec fn digit_run(s: Seq<char>, i: int) -> nat
    decreases s.len() - i,
{
    if 0 <= i < s.len() && is_digit(s[i]) {
        1 + digit_run(s, i + 1)
    } else {
        0
    }
}

/// Whether a sign stands in `s` at position `i`.
pub open spec fn sign_at(s: Seq<char>, i: int) -> bool {
    0 <= i < s.len() && (s[i] == '+' || s[i] == '-')
}

/// The digits that the characters of `s` from `from` up to `to` stand for,
/// lowest place first.
pub open spec fn digits_between(s: Seq<char>, from: int, to: int) -> Seq<u8> {
    Seq::new((to - from) as nat, |k: int| digit_of(s[to - 1 - k]))
}

/// The largest power of ten that a numeral may name after `e`.
pub const MAX_POWER: usize = 999;

/// The parts of a numeral: an optional sign, digits, an optional point with
/// more digits, and an optional power of ten, written `e` or `E`, an
/// optional sign and digits. Each part is given by the positions where it
/// starts and ends.
pub struct Shape {
    pub negative: bool,
    pub whole: (int, int),
    pub part: (int, int),
    pub power: Option<(bool, int, int)>,
}

/// The parts of `s` where it is a numeral: at least one digit before or
/// after the point, nothing before the sign or after the last part, and at
/// least one digit in the power where there is one.
pub open spec fn shape_of(s: Seq<char>) -> Option<Shape> {
    let a = if sign_at(s, 0) {
        1int
    } else {
        0int
    };
    let b = a + digit_run(s, a);
    let c = if b < s.len() && s[b] == '.' {
        b + 1
    } else {
        b
    };
    let d = c + digit_run(s, c);
    let negative = sign_at(s, 0) && s[0] == '-';
    if (b - a) + (d - c) == 0 {
        None
    } else if d == s.len() {
        Some(Shape { negative, whole: (a, b), part: (c, d), power: None })
    } else if s[d] == 'e' || s[d] == 'E' {
        let e = if sign_at(s, d + 1) {
            d + 2
        } else {
            d + 1
        };
        let f = e + digit_run(s, e);
        if f > e && f == s.len() {
            Some(
                Shape {
                    negative,
                    whole: (a, b),
                    part: (c, d),
                    power: Some((sign_at(s, d + 1) && s[d + 1] == '-', e, f)),
                },
            )
        } else {
            None
        }
    } else {
        None
    }
}

/// The quantity that the numeral `s` names, if it is one. The digits before
/// and after the point give the units, the digits after it the places, and a
/// power of ten moves the point; a power beyond `MAX_POWER` names nothing.
pub open spec fn parsed(s: Seq<char>) -> Option<Quantity> {
    match shape_of(s) {
        None => None,
        Some(shape) => {
            let size = value(
                digits_between(s, shape.part.0, shape.part.1) + digits_between(
                    s,
                    shape.whole.0,
                    shape.whole.1,
                ),
            ) as int;
            let units = if shape.negative {
                -size
            } else {
                size
            };
            let places = (shape.part.1 - shape.part.0) as nat;
            match shape.power {
                None => Some(Quantity { units, places }),
                Some((down, from, to)) => {
                    let power = value(digits_between(s, from, to));
                    if power > MAX_POWER {
                        None
                    } else if down {
                        Some(Quantity { units, places: places + power })
                    } else if power <= places {
                        Some(Quantity { units, places: (places - power) as nat })
                    } else {
                        Some(Quantity { units: units * pow10((power - places) as nat), places: 0 })
                    }
                },
            }
        },
    }
}

/// The character that stands for a digit.
pub open spec fn digit_char(d: int) -> char {
    ((48 + d) as u8) as char
}

/// The decimal numeral of a whole number, with no zero in front.
pub open spec fn numeral(n: nat) -> Seq<char>
    decreases n,
{
    if n < 10 {
        seq![digit_char(n as int)]
    } else {
        numeral(n / 10).push(digit_char((n % 10) as int))
    }
}

/// The lowest `k` digits of the decimal numeral of `n`.
pub open spec fn last_digits(n: nat, k: nat) -> Seq<char>
    decreases k,
{
    if k == 0 {
        Seq::empty()
    } else {
        last_digits(n / 10, (k - 1) as nat).push(digit_char((n % 10) as int))
    }
}

/// The numeral of a quantity: a minus sign where it is below zero, the whole
/// part, and, where it has places, a point and one digit for each place.
pub open spec fn text_of(q: Quantity) -> Seq<char> {
    let size = if q.units < 0 {
        (-q.units) as nat
    } else {
        q.units as nat
    };
    let sign = if q.units < 0 {
        seq!['-']
    } else {
        Seq::<char>::empty()
    };
    let whole = numeral(size / pow10(q.places));
    if q.places == 0 {
        sign + whole
    } else {
        sign + whole + seq!['.'] + last_digits(size, q.places)
    }
}

/// An exact decimal number of any size.
#[derive(Debug)]
pub struct Decimal {
    negative: bool,
    digits: Vec<u8>,
    places: usize,
}

impl View for Decimal {
    type V = Quantity;

    closed spec fn view(&self) -> Quantity {
        Quantity {
            units: if self.negative {
                -(value(self.digits@) as int)
            } else {
                value(self.digits@) as int
            },
            places: self.places as nat,
        }
    }
}

impl Clone for Decimal {
    fn clone(&self) -> (r: Decimal)
        ensures
            r@ == self@,
    {
        self.copy()
    }
}

impl Decimal {
    #[verifier::type_invariant]
    spec fn well_formed(&self) -> bool {
        &&& all_digits(self.digits@)
        &&& self.places <= self.digits@.len()
    }

    /// The number zero.
    pub fn zero() -> (r: Decimal)
        ensures
            r@ == (Quantity { units: 0, places: 0 }),
    {
        Decimal { negative: false, digits: Vec::new(), places: 0 }
    }

    /// The number one.
    pub fn one() -> (r: Decimal)
        ensures
            r@ == (Quantity { units: 1, places: 0 }),
    {
        let mut digits: Vec<u8> = Vec::new();
        digits.push(1);
        proof {
            assert(digits@.drop_last() =~= Seq::<u8>::empty());
            assert(value(digits@.drop_last()) == 0);
            assert(pow10(0) == 1);
        }
        Decimal { negative: false, digits, places: 0 }
    }

    /// A whole number.
    pub fn whole(n: usize) -> (r: Decimal)
        ensures
            r@ == (Quantity { units: n as int, places: 0 }),
    {
        let mut digits: Vec<u8> = Vec::new();
        let mut rest: usize = n;
        assert(n * pow10(0) == n) by (nonlinear_arith)
            requires
                pow10(0) == 1,
        ;
        while rest > 0
            invariant
                all_digits(digits@),
                value(digits@) + rest * pow10(digits@.len()) == n,
            decreases rest,
        {
            let digit: u8 = (rest % 10) as u8;
            let above: usize = rest / 10;
            proof {
                lemma_value_push(digits@, digit);
                let p = pow10(digits@.len());
                assert(pow10(digits@.len() + 1) == 10 * p);
                assert(rest * p == digit * p + above * (10 * p)) by (nonlinear_arith)
                    requires
                        rest == 10 * above + digit,
                ;
            }
            digits.push(digit);
            rest = above;
        }
        assert(0 * pow10(digits@.len()) == 0);
        Decimal { negative: false, digits, places: 0 }
    }

    /// A copy of the number.
    pub fn copy(&self) -> (r: Decimal)
        ensures
            r@ == self@,
    {
        proof {
            use_type_invariant(self);
        }
        let digits: Vec<u8> = self.digits.clone();
        assert(digits@ =~= self.digits@);
        Decimal { negative: self.negative, digits, places: self.places }
    }

    /// Whether the number is above zero.
    pub fn is_positive(&self) -> (r: bool)
        ensures
            r == (self@.units > 0),
    {
        proof {
            use_type_invariant(self);
        }
        !self.negative && !is_zero(&self.digits)
    }

    /// The exact product of two numbers.
    pub fn times(&self, other: &Decimal) -> (r: Decimal)
        ensures
            r@ == times(self@, other@),
    {
        proof {
            use_type_invariant(self);
            use_type_invariant(other);
        }
        let digits: Vec<u8> = product(&self.digits, &other.digits);
        let negative: bool = self.negative != other.negative;
        // the places are no more than the digits, whose number fits in a `usize`
        let size: usize = digits.len();
        assert(self.places + other.places <= size);
        let places: usize = self.places + other.places;
        proof {
            let a = value(self.digits@) as int;
            let b = value(other.digits@) as int;
            assert((-a) * b == -(a * b)) by (nonlinear_arith);
            assert(a * (-b) == -(a * b)) by (nonlinear_arith);
            assert((-a) * (-b) == a * b) by (nonlinear_arith);
        }
        Decimal { negative, digits, places }
    }

    /// The exact sum of two numbers.
    pub fn plus(&self, other: &Decimal) -> (r: Decimal)
        ensures
            r@ == plus(self@, other@),
    {
        proof {
            use_type_invariant(self);
            use_type_invariant(other);
        }
        let places: usize = if self.places >= other.places {
            self.places
        } else {
            other.places
        };
        let a: Vec<u8> = shifted(&self.digits, places - self.places);
        let b: Vec<u8> = shifted(&other.digits, places - other.places);
        proof {
            assert(pow10(0) == 1);
            assert(value(self.digits@) * 1 == value(self.digits@));
            assert(value(other.digits@) * 1 == value(other.digits@));
            let va = value(self.digits@) as int;
            let vb = value(other.digits@) as int;
            let pa = pow10((places - self.places) as nat) as int;
            let pb = pow10((places - other.places) as nat) as int;
            assert((-va) * pa == -(va * pa)) by (nonlinear_arith);
            assert((-vb) * pb == -(vb * pb)) by (nonlinear_arith);
        }
        if self.negative == other.negative {
            Decimal { negative: self.negative, digits: sum(&a, &b), places }
        } else if at_least(&a, &b) {
            Decimal { negative: self.negative, digits: difference(&a, &b), places }
        } else {
            Decimal { negative: other.negative, digits: difference(&b, &a), places }
        }
    }

    /// The number written with exactly `places` places, rounded half away
    /// from zero where places are taken away.
    pub fn round(&self, places: usize) -> (r: Decimal)
        ensures
            r@ == round_to(self@, places as nat),
    {
        proof {
            use_type_invariant(self);
        }
        if self.places <= places {
            let digits: Vec<u8> = shifted(&self.digits, places - self.places);
            proof {
                let v = value(self.digits@) as int;
                let p = pow10((places - self.places) as nat) as int;
                assert((-v) * p == -(v * p)) by (nonlinear_arith);
            }
            Decimal { negative: self.negative, digits, places }
        } else {
            let digits: Vec<u8> = rounded(&self.digits, self.places - places);
            let digits: Vec<u8> = padded(digits, places);
            proof {
                let p = pow10((self.places - places) as nat) as int;
                lemma_pow10_positive((self.places - places) as nat);
                assert((0 + p / 2) / p == 0) by (nonlinear_arith)
                    requires
                        p > 0,
                ;
            }
            Decimal { negative: self.negative, digits, places }
        }
    }
}

/// The position where the digits that start at `i` end.
fn digits_end(s: &Vec<char>, i: usize) -> (j: usize)
    requires
        i <= s@.len(),
    ensures
        j == i + digit_run(s@, i as int),
        i <= j <= s@.len(),
{
    let mut j: usize = i;
    while j < s.len() && '0' <= s[j] && s[j] <= '9'
        invariant
            i <= j <= s@.len(),
            digit_run(s@, i as int) == (j - i) + digit_run(s@, j as int),
        decreases s@.len() - j,
    {
        j += 1;
    }
    j
}

/// Puts the digits of `s` from `from` up to `to` on top of `out`, the last
/// one first.
fn push_digits(out: &mut Vec<u8>, s: &Vec<char>, from: usize, to: usize)
    requires
        from <= to <= s@.len(),
        forall|k: int| from <= k < to ==> is_digit(#[trigger] s@[k]),
        all_digits(old(out)@),
    ensures
        final(out)@ == old(out)@ + digits_between(s@, from as int, to as int),
        all_digits(final(out)@),
{
    let mut i: usize = to;
    while i > from
        invariant
            from <= i <= to <= s@.len(),
            forall|k: int| from <= k < to ==> is_digit(#[trigger] s@[k]),
            out@ =~= old(out)@ + digits_between(s@, i as int, to as int),
            all_digits(out@),
        decreases i,
    {
        i -= 1;
        let c: char = s[i];
        assert(is_digit(s@[i as int]));
        let d: u8 = (c as u8) - 48;
        out.push(d);
    }
}

/// Every position within a run of digits holds a digit.
proof fn lemma_run_digits(s: Seq<char>, i: int, k: int)
    requires
        0 <= i <= k < i + digit_run(s, i),
    ensures
        k < s.len(),
        is_digit(s[k]),
    decreases k - i,
{
    if i < k {
        lemma_run_digits(s, i + 1, k);
    }
}

/// A digit put below the others counts once, and they count ten times.
proof fn lemma_value_front(x: u8, d: Seq<u8>)
    ensures
        value(seq![x] + d) == x + 10 * value(d),
{
    lemma_value_concat(seq![x], d);
    assert(seq![x].drop_last() =~= Seq::<u8>::empty());
    assert(value(seq![x].drop_last()) == 0);
    assert(pow10(0) == 1);
    assert(pow10(1) == 10 * pow10(0));
    assert(value(seq![x]) == x) by (nonlinear_arith)
        requires
            value(seq![x]) == 0 + x * 1,
    ;
}

/// The number that the digits of `s` from `from` up to `to` stand for, if it
/// is at most `MAX_POWER`.
fn small_number(s: &Vec<char>, from: usize, to: usize) -> (r: Option<usize>)
    requires
        from <= to <= s@.len(),
        forall|k: int| from <= k < to ==> is_digit(#[trigger] s@[k]),
    ensures
        match r {
            Some(n) => n == value(digits_between(s@, from as int, to as int)) && n <= MAX_POWER,
            None => value(digits_between(s@, from as int, to as int)) > MAX_POWER,
        },
{
    let mut n: usize = 0;
    let mut i: usize = from;
    assert(digits_between(s@, from as int, from as int) =~= Seq::<u8>::empty());
    while i < to
        invariant
            from <= i <= to <= s@.len(),
            forall|k: int| from <= k < to ==> is_digit(#[trigger] s@[k]),
            n == value(digits_between(s@, from as int, i as int)),
            n <= MAX_POWER,
        decreases to - i,
    {
        let c: char = s[i];
        assert(is_digit(s@[i as int]));
        let d: u8 = (c as u8) - 48;
        proof {
            let before = digits_between(s@, from as int, i as int);
            assert(digits_between(s@, from as int, i + 1) =~= seq![d] + before);
            lemma_value_front(d, before);
        }
        let next: usize = n * 10 + d as usize;
        i += 1;
        if next > MAX_POWER {
            proof {
                lemma_more_digits(s@, from as int, i as int, to as int);
            }
            return None;
        }
        n = next;
    }
    Some(n)
}

/// More digits never stand for less.
proof fn lemma_more_digits(s: Seq<char>, from: int, i: int, to: int)
    requires
        from <= i <= to,
    ensures
        value(digits_between(s, from, i)) <= value(digits_between(s, from, to)),
    decreases to - i,
{
    if i < to {
        lemma_more_digits(s, from, i + 1, to);
        let before = digits_between(s, from, i);
        assert(digits_between(s, from, i + 1) =~= seq![digit_of(s[i])] + before);
        lemma_value_front(digit_of(s[i]), before);
    }
}

/// The parts of a numeral as positions that fit in the machine.
struct Parts {
    negative: bool,
    whole: (usize, usize),
    part: (usize, usize),
    power: Option<(bool, usize, usize)>,
}

impl Parts {
    spec fn shape(&self) -> Shape {
        Shape {
            negative: self.negative,
            whole: (self.whole.0 as int, self.whole.1 as int),
            part: (self.part.0 as int, self.part.1 as int),
            power: match self.power {
                None => None,
                Some((down, from, to)) => Some((down, from as int, to as int)),
            },
        }
    }

    /// Every part lies within `s` and holds digits only.
    spec fn fits(&self, s: Seq<char>) -> bool {
        &&& self.whole.0 <= self.whole.1 <= s.len()
        &&& self.part.0 <= self.part.1 <= s.len()
        &&& forall|k: int| self.whole.0 <= k < self.whole.1 ==> is_digit(#[trigger] s[k])
        &&& forall|k: int| self.part.0 <= k < self.part.1 ==> is_digit(#[trigger] s[k])
        &&& match self.power {
            None => true,
            Some((_, from, to)) => from <= to <= s.len() && forall|k: int|
                from <= k < to ==> is_digit(#[trigger] s[k]),
        }
    }
}

/// Finds the parts of a numeral.
fn parts_of(s: &Vec<char>) -> (r: Option<Parts>)
    ensures
        match shape_of(s@) {
            Some(shape) => r is Some && r->Some_0.shape() == shape && r->Some_0.fits(s@),
            None => r is None,
        },
{
    let n: usize = s.len();
    let negative: bool = n > 0 && s[0] == '-';
    let a: usize = if n > 0 && (s[0] == '+' || s[0] == '-') {
        1
    } else {
        0
    };
    let b: usize = digits_end(s, a);
    let c: usize = if b < n && s[b] == '.' {
        b + 1
    } else {
        b
    };
    let d: usize = digits_end(s, c);
    if b - a + (d - c) == 0 {
        return None;
    }
    proof {
        assert forall|k: int| a <= k < b implies is_digit(#[trigger] s@[k]) by {
            lemma_run_digits(s@, a as int, k);
        }
        assert forall|k: int| c <= k < d implies is_digit(#[trigger] s@[k]) by {
            lemma_run_digits(s@, c as int, k);
        }
    }
    if d == n {
        return Some(Parts { negative, whole: (a, b), part: (c, d), power: None });
    }
    if s[d] != 'e' && s[d] != 'E' {
        return None;
    }
    let down: bool = d + 1 < n && s[d + 1] == '-';
    let e: usize = if d + 1 < n && (s[d + 1] == '+' || s[d + 1] == '-') {
        d + 2
    } else {
        d + 1
    };
    let f: usize = digits_end(s, e);
    if f == e || f != n {
        return None;
    }
    proof {
        assert forall|k: int| e <= k < f implies is_digit(#[trigger] s@[k]) by {
            lemma_run_digits(s@, e as int, k);
        }
    }
    Some(Parts { negative, whole: (a, b), part: (c, d), power: Some((down, e, f)) })
}

impl Decimal {
    /// Reads a numeral: an optional sign, digits with an optional point
    /// among them, and an optional power of ten after `e` or `E`.
    pub fn parse(text: &str) -> (r: Option<Decimal>)
        ensures
            match parsed(text@) {
                Some(q) => r is Some && r->Some_0@ == q,
                None => r is None,
            },
    {
        let s: Vec<char> = chars_of(text);
        let parts: Parts = match parts_of(&s) {
            None => {
                return None;
            },
            Some(parts) => parts,
        };
        let mut digits: Vec<u8> = Vec::new();
        push_digits(&mut digits, &s, parts.part.0, parts.part.1);
        push_digits(&mut digits, &s, parts.whole.0, parts.whole.1);
        assert(digits@ =~= digits_between(s@, parts.part.0 as int, parts.part.1 as int)
            + digits_between(s@, parts.whole.0 as int, parts.whole.1 as int));
        let places: usize = parts.part.1 - parts.part.0;
        let negative: bool = parts.negative;
        match parts.power {
            None => Some(Decimal { negative, digits, places }),
            Some((down, from, to)) => match small_number(&s, from, to) {
                None => None,
                Some(power) => Some(Decimal::scaled(negative, digits, places, down, power)),
            },
        }
    }

    /// The number of the given sign, digits and places with its point moved
    /// by `power` places: down, or else up.
    fn scaled(negative: bool, digits: Vec<u8>, places: usize, down: bool, power: usize) -> (r:
        Decimal)
        requires
            all_digits(digits@),
            places <= digits@.len(),
        ensures
            r@ == ({
                let units = if negative {
                    -(value(digits@) as int)
                } else {
                    value(digits@) as int
                };
                if down {
                    Quantity { units, places: (places + power) as nat }
                } else if power <= places {
                    Quantity { units, places: (places - power) as nat }
                } else {
                    Quantity { units: units * pow10((power - places) as nat), places: 0 }
                }
            }),
    {
        if down {
            Decimal::with_more_places(negative, digits, places, power)
        } else if power <= places {
            Decimal { negative, digits, places: places - power }
        } else {
            let shifted_digits: Vec<u8> = shifted(&digits, power - places);
            proof {
                let v = value(digits@) as int;
                let p = pow10((power - places) as nat) as int;
                assert((-v) * p == -(v * p)) by (nonlinear_arith);
            }
            Decimal { negative, digits: shifted_digits, places: 0 }
        }
    }

    /// The number of the given sign and digits with `more` places added to
    /// `places`.
    fn with_more_places(negative: bool, digits: Vec<u8>, places: usize, more: usize) -> (r:
        Decimal)
        requires
            all_digits(digits@),
            places <= digits@.len(),
        ensures
            r@ == (Quantity {
                units: if negative {
                    -(value(digits@) as int)
                } else {
                    value(digits@) as int
                },
                places: (places + more) as nat,
            }),
    {
        let mut out: Vec<u8> = digits;
        let mut count: usize = places;
        let mut i: usize = 0;
        while i < more
            invariant
                i <= more,
                all_digits(out@),
                value(out@) == value(digits@),
                count == places + i,
                count <= out@.len(),
            decreases more - i,
        {
            proof {
                lemma_value_push(out@, 0);
                assert(0 * pow10(out@.len()) == 0);
            }
            out.push(0);
            // the places stay below the number of digits, which fits in a `usize`
            let size: usize = out.len();
            assert(count < size);
            count += 1;
            i += 1;
        }
        Decimal { negative, digits: out, places: count }
    }
}

/// The characters of the digits of `d` from `from` up to `to`, highest first.
pub open spec fn chars_between(d: Seq<u8>, from: int, to: int) -> Seq<char> {
    Seq::new((to - from) as nat, |k: int| digit_char(d[to - 1 - k] as int))
}

/// The lowest digit of a number is what is left over ten, and the digits
/// above it stand for the tenth.
proof fn lemma_lowest_digit(d: Seq<u8>)
    requires
        d.len() > 0,
        all_digits(d),
    ensures
        value(d) % 10 == d[0],
        value(d) / 10 == value(d.skip(1)),
{
    assert(d =~= seq![d[0]] + d.skip(1));
    lemma_value_front(d[0], d.skip(1));
}

proof fn lemma_last_digits(d: Seq<u8>, k: nat)
    requires
        all_digits(d),
        k <= d.len(),
    ensures
        last_digits(value(d), k) =~= chars_between(d, 0, k as int),
    decreases k,
{
    if k > 0 {
        lemma_lowest_digit(d);
        lemma_last_digits(d.skip(1), (k - 1) as nat);
    }
}

/// A number with a digit other than zero is not zero.
proof fn lemma_value_positive(d: Seq<u8>, i: int)
    requires
        0 <= i < d.len(),
        d[i] != 0,
    ensures
        value(d) > 0,
    decreases d.len(),
{
    if i == d.len() - 1 {
        lemma_pow10_positive(i as nat);
        assert(d.last() * pow10(i as nat) > 0) by (nonlinear_arith)
            requires
                d.last() > 0,
                pow10(i as nat) > 0,
        ;
    } else {
        lemma_value_positive(d.drop_last(), i);
    }
}

/// The numeral of a number whose highest digit other than zero stands
/// just below `top`.
proof fn lemma_numeral(d: Seq<u8>, top: int)
    requires
        all_digits(d),
        0 < top <= d.len(),
        d[top - 1] != 0,
        forall|j: int| top <= j < d.len() ==> #[trigger] d[j] == 0,
    ensures
        numeral(value(d)) =~= chars_between(d, 0, top),
    decreases top,
{
    lemma_lowest_digit(d);
    let rest = d.skip(1);
    if top == 1 {
        lemma_value_zeros(rest);
    } else {
        lemma_value_positive(rest, top - 2);
        lemma_numeral(rest, top - 1);
    }
}

/// The digits from place `k` on stand for the number over ten to the `k`.
proof fn lemma_whole_part(d: Seq<u8>, k: int)
    requires
        all_digits(d),
        0 <= k <= d.len(),
    ensures
        value(d) / pow10(k as nat) == value(d.skip(k)),
{
    let lo = d.take(k);
    let hi = d.skip(k);
    assert(d =~= lo + hi);
    lemma_value_concat(lo, hi);
    lemma_value_bound(lo);
    let p = pow10(k as nat) as int;
    let l = value(lo) as int;
    let h = value(hi) as int;
    assert((l + p * h) / p == h) by (nonlinear_arith)
        requires
            0 <= l < p,
    ;
}

/// Puts the characters of the digits of `d` from `from` up to `to` at the
/// end of `out`, the highest first.
fn push_chars(out: &mut String, d: &Vec<u8>, from: usize, to: usize)
    requires
        from <= to <= d@.len(),
        all_digits(d@),
    ensures
        final(out)@ == old(out)@ + chars_between(d@, from as int, to as int),
{
    let mut i: usize = to;
    while i > from
        invariant
            from <= i <= to <= d@.len(),
            all_digits(d@),
            out@ =~= old(out)@ + chars_between(d@, i as int, to as int),
        decreases i,
    {
        i -= 1;
        let x: u8 = d[i];
        assert(d@[i as int] <= 9);
        out.push((48 + x) as char);
    }
}

impl Decimal {
    /// The numeral of the number.
    pub fn text(&self) -> (r: String)
        ensures
            r@ == text_of(self@),
    {
        proof {
            use_type_invariant(self);
        }
        let mut out: String = String::new();
        if self.negative && !is_zero(&self.digits) {
            out.push('-');
        }
        let ghost sign = out@;
        let mut top: usize = self.digits.len();
        while top > self.places && self.digits[top - 1] == 0
            invariant
                self.places <= top <= self.digits@.len(),
                forall|j: int| top <= j < self.digits@.len() ==> #[trigger] self.digits@[j] == 0,
            decreases top,
        {
            top -= 1;
        }
        let ghost high = self.digits@.skip(self.places as int);
        proof {
            lemma_whole_part(self.digits@, self.places as int);
            assert(all_digits(high));
        }
        if top == self.places {
            proof {
                lemma_value_zeros(high);
            }
            out.push('0');
        } else {
            proof {
                lemma_numeral(high, top - self.places);
                assert(chars_between(high, 0, top - self.places) =~= chars_between(
                    self.digits@,
                    self.places as int,
                    top as int,
                ));
            }
            push_chars(&mut out, &self.digits, self.places, top);
        }
        assert(out@ =~= sign + numeral(value(self.digits@) / pow10(self.places as nat)));
        if self.places > 0 {
            out.push('.');
            proof {
                lemma_last_digits(self.digits@, self.places as nat);
            }
            push_chars(&mut out, &self.digits, 0, self.places);
        }
        out
    }
}

/// Rounding places away gives the nearest number with the places that are
/// left: it is no further from the number than half a unit of the last place
/// kept, and where two are equally near it is the one further from zero.
/// Rounding to the places that a number has, or to more, changes nothing but
/// how it is written.
pub proof fn law_round_nearest(q: Quantity, places: nat)
    ensures
        round_to(q, places).places == places,
        q.places <= places ==> round_to(q, places).units == q.units * pow10(
            (places - q.places) as nat,
        ),
        q.places > places ==> ({
            let unit = pow10((q.places - places) as nat) as int;
            let gap = q.units - round_to(q, places).units * unit;
            &&& q.units >= 0 ==> -unit <= 2 * gap < unit
            &&& q.units <= 0 ==> -unit < 2 * gap <= unit
        }),
{
    if q.places > places {
        let k = (q.places - places) as nat;
        let unit = pow10(k) as int;
        let below = pow10((k - 1) as nat) as int;
        lemma_pow10_positive((k - 1) as nat);
        assert(unit == 10 * below);
        let size = if q.units < 0 {
            -q.units
        } else {
            q.units
        };
        let h = half_up(size, k);
        assert(unit / 2 == 5 * below);
        assert(h == (size + 5 * below) / unit);
        assert(-unit <= 2 * (size - h * unit) < unit) by (nonlinear_arith)
            requires
                h == (size + 5 * below) / unit,
                unit == 10 * below,
                below > 0,
        ;
        assert((-h) * unit == -(h * unit)) by (nonlinear_arith);
        if size == 0 {
            assert(h == 0) by (nonlinear_arith)
                requires
                    h == (0 + 5 * below) / unit,
                    unit == 10 * below,
                    below > 0,
            ;
            assert(0 * unit == 0);
        }
    }
}

/// Rounding what is rounded already changes nothing.
pub proof fn law_round_settled(q: Quantity, places: nat)
    ensures
        round_to(round_to(q, places), places) == round_to(q, places),
{
    let r = round_to(q, places);
    assert(pow10(0) == 1);
    assert(r.units * 1 == r.units) by (nonlinear_arith);
}

/// The numeral of a whole number holds digits only, at least one, and they
/// stand for the number.
proof fn lemma_numeral_digits(n: nat)
    ensures
        numeral(n).len() >= 1,
        forall|i: int| 0 <= i < numeral(n).len() ==> is_digit(#[trigger] numeral(n)[i]),
        value(digits_between(numeral(n), 0, numeral(n).len() as int)) == n,
    decreases n,
{
    let t = numeral(n);
    if n < 10 {
        assert(digits_between(t, 0, 1) =~= seq![n as u8] + Seq::<u8>::empty());
        lemma_value_front(n as u8, Seq::<u8>::empty());
    } else {
        let above = numeral(n / 10);
        lemma_numeral_digits(n / 10);
        let low = (n % 10) as u8;
        assert(t == above.push(digit_char(low as int)));
        assert(digits_between(t, 0, t.len() as int) =~= seq![low] + digits_between(
            above,
            0,
            above.len() as int,
        ));
        lemma_value_front(low, digits_between(above, 0, above.len() as int));
        assert forall|i: int| 0 <= i < t.len() implies is_digit(#[trigger] t[i]) by {
            if i < above.len() {
                assert(t[i] == above[i]);
            }
        }
    }
}

/// The lowest `k` digits of a numeral are `k` digits, and they stand for
/// what is left of the number over ten to the `k`.
proof fn lemma_last_digits_value(n: nat, k: nat)
    ensures
        last_digits(n, k).len() == k,
        forall|i: int| 0 <= i < k ==> is_digit(#[trigger] last_digits(n, k)[i]),
        value(digits_between(last_digits(n, k), 0, k as int)) == n % pow10(k),
    decreases k,
{
    let t = last_digits(n, k);
    if k == 0 {
        assert(digits_between(t, 0, 0) =~= Seq::<u8>::empty());
        assert(pow10(0) == 1);
    } else {
        let above = last_digits(n / 10, (k - 1) as nat);
        lemma_last_digits_value(n / 10, (k - 1) as nat);
        let low = (n % 10) as u8;
        assert(t == above.push(digit_char(low as int)));
        assert(digits_between(t, 0, k as int) =~= seq![low] + digits_between(above, 0, k - 1));
        lemma_value_front(low, digits_between(above, 0, k - 1));
        assert forall|i: int| 0 <= i < k implies is_digit(#[trigger] t[i]) by {
            if i < k - 1 {
                assert(t[i] == above[i]);
            }
        }
        let unit = pow10((k - 1) as nat) as int;
        lemma_pow10_positive((k - 1) as nat);
        let a = (n / 10) as int;
        vstd::arithmetic::div_mod::lemma_fundamental_div_mod(a, unit);
        let q = a / unit;
        let r = a % unit;
        assert(0 <= r < unit) by (nonlinear_arith)
            requires
                r == a % unit,
                unit > 0,
        ;
        assert(n as int == q * (10 * unit) + (10 * r + low)) by (nonlinear_arith)
            requires
                n as int == 10 * a + low,
                a == unit * q + r,
        ;
        vstd::arithmetic::div_mod::lemma_fundamental_div_mod_converse_mod(
            n as int,
            10 * unit,
            q,
            10 * r + low,
        );
    }
}

/// Where the digits `t` stand in `s` from position `i` on, and no digit
/// follows them, they are the run of digits at `i`.
proof fn lemma_block(s: Seq<char>, t: Seq<char>, i: int)
    requires
        0 <= i,
        i + t.len() <= s.len(),
        s.subrange(i, i + t.len()) == t,
        forall|j: int| 0 <= j < t.len() ==> is_digit(#[trigger] t[j]),
        i + t.len() == s.len() || !is_digit(s[i + t.len()]),
    ensures
        digit_run(s, i) == t.len(),
        digits_between(s, i, i + t.len()) == digits_between(t, 0, t.len() as int),
    decreases t.len(),
{
    assert(digits_between(s, i, i + t.len()) =~= digits_between(t, 0, t.len() as int)) by {
        assert forall|j: int| 0 <= j < t.len() implies s[i + j] == #[trigger] t[j] by {
            assert(s.subrange(i, i + t.len())[j] == s[i + j]);
        }
    }
    if t.len() > 0 {
        assert(s.subrange(i, i + t.len())[0] == s[i]);
        assert(is_digit(t[0]));
        let rest = t.skip(1);
        assert(s.subrange(i + 1, i + 1 + rest.len()) =~= rest);
        assert forall|j: int| 0 <= j < rest.len() implies is_digit(#[trigger] rest[j]) by {
            assert(rest[j] == t[j + 1]);
        }
        lemma_block(s, rest, i + 1);
    }
}

/// The numeral of a number names that number: reading what `text_of` writes
/// gives back the quantity, units and places.
pub proof fn law_text_parses(q: Quantity)
    ensures
        parsed(text_of(q)) == Some(q),
{
    let size = if q.units < 0 {
        (-q.units) as nat
    } else {
        q.units as nat
    };
    let sign = if q.units < 0 {
        seq!['-']
    } else {
        Seq::<char>::empty()
    };
    let unit = pow10(q.places);
    lemma_pow10_positive(q.places);
    let whole = numeral(size / unit);
    let part = last_digits(size, q.places);
    let s = text_of(q);
    lemma_numeral_digits(size / unit);
    lemma_last_digits_value(size, q.places);
    let a = sign.len() as int;
    let b = a + whole.len();
    assert(s.subrange(a, b) =~= whole);
    assert(s[a] == whole[0]);
    assert(is_digit(whole[0]));
    assert(sign_at(s, 0) == (q.units < 0));
    if q.places == 0 {
        assert(s =~= sign + whole);
        lemma_block(s, whole, a);
        assert(s.subrange(b, b) =~= Seq::<char>::empty());
        lemma_block(s, Seq::<char>::empty(), b);
        assert(digits_between(s, b, b) + digits_between(s, a, b) =~= digits_between(s, a, b));
        assert(unit == 1);
        assert(size / 1 == size);
    } else {
        assert(s =~= sign + whole + seq!['.'] + part);
        assert(s[b] == '.');
        lemma_block(s, whole, a);
        let c = b + 1;
        let d = c + part.len();
        assert(s.subrange(c, d) =~= part);
        assert(d == s.len());
        lemma_block(s, part, c);
        lemma_value_concat(digits_between(s, c, d), digits_between(s, a, b));
        assert(digits_between(s, c, d).len() == q.places);
        vstd::arithmetic::div_mod::lemma_fundamental_div_mod(size as int, unit as int);
        assert(unit * (size / unit) == unit as int * (size as int / unit as int));
    }
}

} // verus!
