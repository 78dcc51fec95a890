//! Fixed-precision decimal numbers.
//!
//! A [`Decimal`] is a 96-bit signed mantissa together with a scale of at most 28: the
//! number `mantissa / 10^scale`. Arithmetic is carried out by the `rust_decimal` crate;
//! this module states what the results are and keeps every operation free of panics by
//! reporting overflow as `None`.
use crate::collections::Dup;
use crate::decimal_laws::{raising_is_by_less_than_a_tick, truncation_cuts_down};
use crate::text::decimal_text;
use std::cmp::Ordering;
use vstd::prelude::*;

verus! {

/// The largest scale a decimal can have.
pub const MAX_SCALE: u32 = 28;

/// Mantissas lie strictly between `-MANTISSA_LIMIT` and `MANTISSA_LIMIT` (that is, `2^96`).
pub const MANTISSA_LIMIT: i128 = 79228162514264337593543950336;

/// Ten to the power `n`.
pub open spec fn pow10(n: nat) -> int
    decreases n,
{
    if n == 0 {
        1
    } else {
        10 * pow10((n - 1) as nat)
    }
}

/// Whether a mantissa and a scale make up a decimal.
pub open spec fn valid_parts(m: int, s: nat) -> bool {
    -MANTISSA_LIMIT < m < MANTISSA_LIMIT && s <= MAX_SCALE
}

/// A decimal number: `mantissa / 10^scale`.
#[derive(Clone, Copy, Debug)]
pub struct Decimal {
    mantissa: i128,
    scale: u32,
}

impl Decimal {
    /// The mantissa.
    pub closed spec fn m(self) -> int {
        self.mantissa as int
    }

    /// The scale.
    pub closed spec fn s(self) -> nat {
        self.scale as nat
    }

    /// The decimal with mantissa `m` and scale `s`.
    pub closed spec fn of(m: int, s: nat) -> Decimal {
        Decimal { mantissa: m as i128, scale: s as u32 }
    }

    /// Whether the parts of this value are in range; true of every decimal a program holds.
    #[verifier::type_invariant]
    pub open spec fn valid(self) -> bool {
        valid_parts(self.m(), self.s())
    }
}

/// The parts of a decimal are those it was made of.
pub proof fn lemma_of(m: int, s: nat)
    requires
        valid_parts(m, s),
    ensures
        Decimal::of(m, s).m() == m,
        Decimal::of(m, s).s() == s,
{
}

/// A decimal is made of its parts.
pub proof fn lemma_made_of_parts(d: Decimal)
    ensures
        Decimal::of(d.m(), d.s()) == d,
{
}

/// The number of a decimal, multiplied by `10^(a.s + b.s)` so that two can be compared.
pub open spec fn lifted(a: Decimal, b: Decimal) -> int {
    a.m() * pow10(b.s())
}

/// `a < b` as numbers.
pub open spec fn less(a: Decimal, b: Decimal) -> bool {
    lifted(a, b) < lifted(b, a)
}

/// `a == b` as numbers (`1.5` and `1.50` are the same number).
pub open spec fn same(a: Decimal, b: Decimal) -> bool {
    lifted(a, b) == lifted(b, a)
}

/// The order of two decimals, by `rust_decimal`'s `Ord::cmp`: negative, zero or positive as
/// the first number is below, equal to or above the second. The comparison is exact: the
/// crate brings both mantissas to a common scale and treats one that no longer fits in 96
/// bits as the larger.
#[verifier::external_body]
fn order_of(a: Decimal, b: Decimal) -> (r: i8)
    requires
        a.valid(),
        b.valid(),
    ensures
        r < 0 <==> less(a, b),
        r == 0 <==> same(a, b),
{
    let x = rust_decimal::Decimal::from_i128_with_scale(a.mantissa, a.scale);
    let y = rust_decimal::Decimal::from_i128_with_scale(b.mantissa, b.scale);
    match x.cmp(&y) {
        Ordering::Less => -1,
        Ordering::Equal => 0,
        Ordering::Greater => 1,
    }
}

impl PartialEq for Decimal {
    fn eq(&self, other: &Decimal) -> (r: bool) {
        proof {
            use_type_invariant(self);
            use_type_invariant(other);
        }
        order_of(*self, *other) == 0
    }
}

impl vstd::std_specs::cmp::PartialEqSpecImpl for Decimal {
    open spec fn obeys_eq_spec() -> bool {
        true
    }

    open spec fn eq_spec(&self, other: &Decimal) -> bool {
        same(*self, *other)
    }
}

impl PartialOrd for Decimal {
    fn partial_cmp(&self, other: &Decimal) -> (r: Option<Ordering>) {
        proof {
            use_type_invariant(self);
            use_type_invariant(other);
        }
        let o: i8 = order_of(*self, *other);
        if o < 0 {
            Some(Ordering::Less)
        } else if o == 0 {
            Some(Ordering::Equal)
        } else {
            Some(Ordering::Greater)
        }
    }
}

impl vstd::std_specs::cmp::PartialOrdSpecImpl for Decimal {
    open spec fn obeys_partial_cmp_spec() -> bool {
        true
    }

    open spec fn partial_cmp_spec(&self, other: &Decimal) -> Option<Ordering> {
        if less(*self, *other) {
            Some(Ordering::Less)
        } else if same(*self, *other) {
            Some(Ordering::Equal)
        } else {
            Some(Ordering::Greater)
        }
    }
}

/// Magnitude of an integer.
pub open spec fn magnitude(n: int) -> int {
    if n < 0 {
        -n
    } else {
        n
    }
}

/// Whether an integer fits in a mantissa.
pub open spec fn fits(m: int) -> bool {
    -MANTISSA_LIMIT < m < MANTISSA_LIMIT
}

/// The larger of two scales.
pub open spec fn common_scale(a: Decimal, b: Decimal) -> nat {
    if a.s() >= b.s() {
        a.s()
    } else {
        b.s()
    }
}

/// The mantissa of `a` once it is brought to a scale `s` that is at least its own.
pub open spec fn mantissa_at(a: Decimal, s: nat) -> int {
    a.m() * pow10((s - a.s()) as nat)
}

/// Brought to its own scale, a decimal keeps its mantissa.
pub proof fn lemma_at_own_scale(a: Decimal)
    ensures
        mantissa_at(a, a.s()) == a.m(),
{
    let one = pow10((a.s() - a.s()) as nat);
    assert(one == 1);
    assert(a.m() * one == a.m()) by (nonlinear_arith)
        requires
            one == 1,
    ;
}

/// Pairs an optional mantissa and scale up as a decimal, if they are in range.
pub open spec fn assembled(parts: Option<(int, nat)>) -> Option<Decimal> {
    match parts {
        Some(p) => if valid_parts(p.0, p.1) {
            Some(Decimal::of(p.0, p.1))
        } else {
            None
        },
        None => None,
    }
}

/// An integer with a sign.
pub open spec fn signed(negative: bool, n: int) -> int {
    if negative {
        -n
    } else {
        n
    }
}

/// Pairs an optional magnitude and scale up as a decimal with a sign, if they are in range.
pub open spec fn assembled_signed(negative: bool, parts: Option<(int, nat)>) -> Option<Decimal> {
    match parts {
        Some(p) => assembled(Some((signed(negative, p.0), p.1))),
        None => None,
    }
}

/// The most decimal places, at most `t`, with which the digits of `n / d` fit in a mantissa; 0 if
/// there are none.
pub open spec fn places(n: int, d: int, t: nat) -> nat
    decreases t,
{
    if t == 0 || fits((n * pow10(t)) / d) {
        t
    } else {
        places(n, d, (t - 1) as nat)
    }
}

/// The decimal nearest to `n / d` (neither negative, `d` not zero): mantissa and scale of the
/// quotient, rounded, halves to even, to as many decimal places as fit, at most 28. Where rounding
/// up makes the mantissa too large, it is rounded once more to one place less. `None` if the
/// quotient is too large.
#[verifier::opaque]
pub open spec fn nearest(n: int, d: int) -> Option<(int, nat)> {
    let t = places(n, d, 28);
    let q = half_even(n * pow10(t), d);
    if !fits((n * pow10(t)) / d) {
        None
    } else if fits(q) {
        Some((q, t))
    } else if t > 0 {
        Some((half_even(q, 10), (t - 1) as nat))
    } else {
        None
    }
}

/// The total `t` at the scale `s`, or the decimal nearest to it if it does not fit.
pub open spec fn totalled(t: int, s: nat) -> Option<Decimal> {
    if fits(t) {
        Some(Decimal::of(t, s))
    } else {
        assembled_signed(t < 0, nearest(magnitude(t), pow10(s)))
    }
}

/// The sum `a + b`: exact whenever the total fits in a mantissa at the larger scale, the decimal
/// nearest to it otherwise; `None` on overflow.
pub open spec fn sum(a: Decimal, b: Decimal) -> Option<Decimal> {
    let s = common_scale(a, b);
    if a.m() == 0 {
        Some(b)
    } else if b.m() == 0 {
        Some(a)
    } else {
        totalled(mantissa_at(a, s) + mantissa_at(b, s), s)
    }
}

/// The difference `a - b`: exact whenever the total fits in a mantissa at the larger scale, the
/// decimal nearest to it otherwise; `None` on overflow.
pub open spec fn difference(a: Decimal, b: Decimal) -> Option<Decimal> {
    let s = common_scale(a, b);
    if a.m() == 0 {
        Some(negated(b))
    } else if b.m() == 0 {
        Some(a)
    } else {
        totalled(mantissa_at(a, s) - mantissa_at(b, s), s)
    }
}

/// Whether the product of two decimals is known to be zero after rounding from their size alone:
/// mantissas below `2^32` and more than 47 decimal places.
pub open spec fn vanishes(a: Decimal, b: Decimal) -> bool {
    &&& magnitude(a.m()) < 0x1_0000_0000
    &&& magnitude(b.m()) < 0x1_0000_0000
    &&& a.s() + b.s() > 47
}

/// The product `a * b`: exact whenever the product of the mantissas fits and the scales add up
/// to at most 28, the decimal nearest to it otherwise; `None` on overflow. A product of zero, and
/// one that vanishes, has scale 0.
pub open spec fn product(a: Decimal, b: Decimal) -> Option<Decimal> {
    let m = a.m() * b.m();
    let s = a.s() + b.s();
    if a.m() == 0 || b.m() == 0 || vanishes(a, b) {
        Some(Decimal::of(0, 0))
    } else if s <= MAX_SCALE {
        totalled(m, s)
    } else {
        assembled_signed(m < 0, nearest(magnitude(m), pow10(s)))
    }
}

/// The quotient of two mantissas of which the second divides the first.
pub open spec fn mantissa_ratio(a: Decimal, b: Decimal) -> int {
    let q = magnitude(a.m()) / magnitude(b.m());
    if (a.m() < 0) == (b.m() < 0) {
        q
    } else {
        -q
    }
}

/// What `rust_decimal` makes of a quotient of mantissas that leaves a remainder.
pub uninterp spec fn rounded_quotient(m1: int, s1: nat, m2: int, s2: nat) -> Option<(int, nat)>;

/// The decimal nearest to the quotient of `a` and `b`. `None` if it is too large.
pub open spec fn nearest_quotient(a: Decimal, b: Decimal) -> Option<Decimal> {
    assembled_signed(
        (a.m() < 0) != (b.m() < 0),
        nearest(magnitude(a.m()) * pow10(b.s()), magnitude(b.m()) * pow10(a.s())),
    )
}

/// The quotient `a / b`: `None` if `b` is zero or the result overflows. If the mantissa of `b`
/// divides that of `a`, the quotient has the difference of the scales, or scale 0 if that is
/// negative. Otherwise it is the number of the decimal nearest to it, at a scale that may be smaller
/// where there are zeros at the end.
pub open spec fn quotient(a: Decimal, b: Decimal) -> Option<Decimal> {
    if b.m() == 0 {
        None
    } else if a.m() == 0 {
        Some(Decimal::of(0, 0))
    } else if magnitude(a.m()) % magnitude(b.m()) == 0 {
        let q = mantissa_ratio(a, b);
        if a.s() >= b.s() {
            Some(Decimal::of(q, (a.s() - b.s()) as nat))
        } else {
            let t = q * pow10((b.s() - a.s()) as nat);
            if fits(t) {
                Some(Decimal::of(t, 0))
            } else {
                None
            }
        }
    } else {
        let q = assembled(rounded_quotient(a.m(), a.s(), b.m(), b.s()));
        match nearest_quotient(a, b) {
            Some(r) => if q is Some && same(q.unwrap(), r) {
                q
            } else {
                Some(r)
            },
            None => None,
        }
    }
}

/// `-a`.
pub open spec fn negated(a: Decimal) -> Decimal {
    Decimal::of(-a.m(), a.s())
}

/// `|a|`.
pub open spec fn absolute(a: Decimal) -> Decimal {
    Decimal::of(magnitude(a.m()), a.s())
}

/// The larger of two decimals, the first if they are equal.
pub open spec fn larger(a: Decimal, b: Decimal) -> Decimal {
    if less(a, b) {
        b
    } else {
        a
    }
}

/// The smaller of two decimals, the first if they are equal.
pub open spec fn smaller(a: Decimal, b: Decimal) -> Decimal {
    if less(b, a) {
        b
    } else {
        a
    }
}

/// `m / d` rounded to the nearest integer, halves to the even neighbour (`d` is positive).
pub open spec fn half_even(m: int, d: int) -> int {
    let q = magnitude(m) / d;
    let r = magnitude(m) % d;
    let up = 2 * r > d || (2 * r == d && q % 2 == 1);
    let rounded = if up {
        q + 1
    } else {
        q
    };
    if m < 0 {
        -rounded
    } else {
        rounded
    }
}

/// `a` rounded to `dp` decimal places, halves to even; unchanged if it has no more than that.
pub open spec fn rounded(a: Decimal, dp: nat) -> Decimal {
    if a.s() <= dp {
        a
    } else {
        Decimal::of(half_even(a.m(), pow10((a.s() - dp) as nat)), dp)
    }
}

/// The smallest integer that is not below `m / d` (`d` is positive).
pub open spec fn ceiling(m: int, d: int) -> int {
    -((-m) / d)
}

/// `a` raised to the next number with `dp` decimal places; unchanged if it has no more than that.
pub open spec fn raised(a: Decimal, dp: nat) -> Decimal {
    if a.s() <= dp {
        a
    } else {
        Decimal::of(ceiling(a.m(), pow10((a.s() - dp) as nat)), dp)
    }
}

/// The largest integer that is not above `a`.
pub open spec fn floored(a: Decimal) -> Decimal {
    Decimal::of(a.m() / pow10(a.s()), 0)
}

impl Decimal {
    /// The decimal `num / 10^scale`.
    pub fn new(num: i64, scale: u32) -> (r: Decimal)
        requires
            scale <= MAX_SCALE,
        ensures
            r == Decimal::of(num as int, scale as nat),
            r.m() == num,
            r.s() == scale,
    {
        Decimal { mantissa: num as i128, scale }
    }

    /// The decimal `num / 10^scale`, or `None` if the scale is above 28.
    pub fn try_new(num: i64, scale: u32) -> (r: Option<Decimal>)
        ensures
            r == (if scale <= MAX_SCALE {
                Some(Decimal::of(num as int, scale as nat))
            } else {
                None::<Decimal>
            }),
    {
        if scale <= MAX_SCALE {
            Some(Decimal::new(num, scale))
        } else {
            None
        }
    }

    /// The decimal `mantissa / 10^scale`, or `None` if the parts are out of range.
    pub fn try_from_i128_with_scale(mantissa: i128, scale: u32) -> (r: Option<Decimal>)
        ensures
            r == (if valid_parts(mantissa as int, scale as nat) {
                Some(Decimal::of(mantissa as int, scale as nat))
            } else {
                None::<Decimal>
            }),
    {
        if -MANTISSA_LIMIT < mantissa && mantissa < MANTISSA_LIMIT && scale <= MAX_SCALE {
            Some(Decimal { mantissa, scale })
        } else {
            None
        }
    }

    /// The mantissa.
    pub fn mantissa(&self) -> (r: i128)
        ensures
            r == self.m(),
    {
        self.mantissa
    }

    /// The scale.
    pub fn scale(&self) -> (r: u32)
        ensures
            r == self.s(),
    {
        self.scale
    }

    /// Zero.
    pub fn zero() -> (r: Decimal)
        ensures
            r == Decimal::of(0, 0),
    {
        Decimal { mantissa: 0, scale: 0 }
    }

    /// One.
    pub fn one() -> (r: Decimal)
        ensures
            r == Decimal::of(1, 0),
    {
        Decimal { mantissa: 1, scale: 0 }
    }

    /// Whether this is the number zero.
    pub fn is_zero(&self) -> (r: bool)
        ensures
            r == (self.m() == 0),
    {
        self.mantissa == 0
    }

    /// `-self`.
    pub fn negate(self) -> (r: Decimal)
        ensures
            r == negated(self),
    {
        proof {
            use_type_invariant(&self);
        }
        Decimal { mantissa: -self.mantissa, scale: self.scale }
    }

    /// `|self|`.
    pub fn abs(self) -> (r: Decimal)
        ensures
            r == absolute(self),
    {
        proof {
            use_type_invariant(&self);
        }
        if self.mantissa < 0 {
            self.negate()
        } else {
            self
        }
    }

    /// The larger of two decimals.
    pub fn max(self, other: Decimal) -> (r: Decimal)
        ensures
            r == larger(self, other),
    {
        if self < other {
            other
        } else {
            self
        }
    }

    /// The smaller of two decimals.
    pub fn min(self, other: Decimal) -> (r: Decimal)
        ensures
            r == smaller(self, other),
    {
        if self > other {
            other
        } else {
            self
        }
    }

    /// `self + other`, or `None` on overflow.
    pub fn checked_add(self, other: Decimal) -> (r: Option<Decimal>)
        ensures
            r == sum(self, other),
    {
        proof {
            use_type_invariant(&self);
            use_type_invariant(&other);
        }
        add_parts(self, other)
    }

    /// `self - other`, or `None` on overflow.
    pub fn checked_sub(self, other: Decimal) -> (r: Option<Decimal>)
        ensures
            r == difference(self, other),
    {
        proof {
            use_type_invariant(&self);
            use_type_invariant(&other);
        }
        sub_parts(self, other)
    }

    /// `self * other`, or `None` on overflow.
    pub fn checked_mul(self, other: Decimal) -> (r: Option<Decimal>)
        ensures
            r == product(self, other),
    {
        proof {
            use_type_invariant(&self);
            use_type_invariant(&other);
        }
        mul_parts(self, other)
    }

    /// `self / other`, or `None` if `other` is zero or the result overflows.
    pub fn checked_div(self, other: Decimal) -> (r: Option<Decimal>)
        ensures
            r == quotient(self, other),
    {
        proof {
            use_type_invariant(&self);
            use_type_invariant(&other);
        }
        div_parts(self, other)
    }

    /// Rounds to `dp` decimal places, halves to even.
    pub fn round_dp(&self, dp: u32) -> (r: Decimal)
        ensures
            r == rounded(*self, dp as nat),
    {
        proof {
            use_type_invariant(self);
        }
        round_parts(*self, dp)
    }

    /// Rounds up to `dp` decimal places: the smallest such number that is not below this one.
    pub fn round_up(&self, dp: u32) -> (r: Decimal)
        ensures
            r == raised(*self, dp as nat),
            !less(r, *self),
    {
        proof {
            use_type_invariant(self);
        }
        if dp >= MAX_SCALE {
            return *self;
        }
        let near = self.round_dp(dp);
        proof {
            raising_is_by_less_than_a_tick(*self, dp as nat);
        }
        if near < *self {
            match near.checked_add(Decimal::new(1, dp)) {
                Some(above) => above,
                None => near,
            }
        } else {
            near
        }
    }

    /// The largest integer that is not above this number.
    pub fn floor(&self) -> (r: Decimal)
        ensures
            r == floored(*self),
    {
        proof {
            use_type_invariant(self);
        }
        floor_parts(*self)
    }
}

impl Decimal {
    /// The decimal as text.
    pub fn to_text(&self) -> (r: String)
        ensures
            r@ == decimal_text(self.m(), self.s()),
    {
        proof {
            use_type_invariant(self);
        }
        text_of(*self)
    }

    /// The decimal a text stands for, or `None` if it is not a number.
    pub fn parse(text: &str) -> (r: Option<Decimal>)
        ensures
            r == assembled(parsed_decimal(text@)),
    {
        parse_text(text)
    }
}

/// What `rust_decimal`'s `FromStr` makes of a text: mantissa and scale, or `None` for an error.
pub uninterp spec fn parsed_decimal(text: Seq<char>) -> Option<(int, nat)>;

/// `rust_decimal`'s `Decimal::from_str`; an error becomes `None`.
#[verifier::external_body]
fn parse_text(text: &str) -> (r: Option<Decimal>)
    ensures
        r == assembled(parsed_decimal(text@)),
{
    match <rust_decimal::Decimal as std::str::FromStr>::from_str(text) {
        Ok(d) => Some(Decimal { mantissa: d.mantissa(), scale: d.scale() }),
        Err(_) => None,
    }
}

/// `rust_decimal`'s `Display`: the sign, the integer part and, if the scale is not zero, a point
/// and as many digits as the scale says.
#[verifier::external_body]
fn text_of(a: Decimal) -> (r: String)
    requires
        a.valid(),
    ensures
        r@ == decimal_text(a.m(), a.s()),
{
    rust_decimal::Decimal::from_i128_with_scale(a.mantissa, a.scale).to_string()
}

impl View for Decimal {
    type V = Decimal;

    open spec fn view(&self) -> Decimal {
        *self
    }
}

impl Dup for Decimal {
    fn dup(&self) -> (r: Decimal) {
        *self
    }
}

impl Default for Decimal {
    fn default() -> (r: Decimal)
        ensures
            r == Decimal::of(0, 0),
    {
        Decimal::zero()
    }
}

/// `rust_decimal`'s `Decimal::checked_add`. A zero term gives back the other term. Otherwise the
/// crate brings both mantissas to the larger scale and adds them; a total of more than 96 bits is
/// divided by as small a power of ten as makes it fit, no larger than the scale allows, and rounded,
/// halves to even.
#[verifier::external_body]
fn add_parts(a: Decimal, b: Decimal) -> (r: Option<Decimal>)
    requires
        a.valid(),
        b.valid(),
    ensures
        r == sum(a, b),
{
    let x = rust_decimal::Decimal::from_i128_with_scale(a.mantissa, a.scale);
    let y = rust_decimal::Decimal::from_i128_with_scale(b.mantissa, b.scale);
    match x.checked_add(y) {
        Some(d) => Some(Decimal { mantissa: d.mantissa(), scale: d.scale() }),
        None => None,
    }
}

/// `rust_decimal`'s `Decimal::checked_sub`, with the same cases as for addition; a zero first term
/// gives the second with its sign changed.
#[verifier::external_body]
fn sub_parts(a: Decimal, b: Decimal) -> (r: Option<Decimal>)
    requires
        a.valid(),
        b.valid(),
    ensures
        r == difference(a, b),
{
    let x = rust_decimal::Decimal::from_i128_with_scale(a.mantissa, a.scale);
    let y = rust_decimal::Decimal::from_i128_with_scale(b.mantissa, b.scale);
    match x.checked_sub(y) {
        Some(d) => Some(Decimal { mantissa: d.mantissa(), scale: d.scale() }),
        None => None,
    }
}

/// `rust_decimal`'s `Decimal::checked_mul`. A zero factor gives zero at scale 0, and so do mantissas
/// of 32 bits with more than 47 decimal places in all. Otherwise the crate multiplies the mantissas;
/// a product of more than 96 bits or 28 decimal places is divided by as small a power of ten as makes
/// it fit, no larger than the scale allows, and rounded, halves to even.
#[verifier::external_body]
fn mul_parts(a: Decimal, b: Decimal) -> (r: Option<Decimal>)
    requires
        a.valid(),
        b.valid(),
    ensures
        r == product(a, b),
{
    let x = rust_decimal::Decimal::from_i128_with_scale(a.mantissa, a.scale);
    let y = rust_decimal::Decimal::from_i128_with_scale(b.mantissa, b.scale);
    match x.checked_mul(y) {
        Some(d) => Some(Decimal { mantissa: d.mantissa(), scale: d.scale() }),
        None => None,
    }
}

/// `rust_decimal`'s `Decimal::checked_div`. A zero divisor gives `None`, a zero dividend zero at
/// scale 0. If the divisor's mantissa divides the dividend's, the crate returns the quotient of the
/// mantissas at the difference of the scales; where that difference is negative the quotient is
/// scaled up to scale 0, which may overflow. Any other quotient is scaled up until no remainder is
/// left, it has 28 decimal places, or it can have no further digit in 96 bits, and then rounded,
/// halves to even: its number is that of the nearest decimal. Which zeros at its end are taken off
/// is not said.
#[verifier::external_body]
fn div_parts(a: Decimal, b: Decimal) -> (r: Option<Decimal>)
    requires
        a.valid(),
        b.valid(),
    ensures
        b.m() == 0 ==> r is None,
        b.m() != 0 && a.m() == 0 ==> r == Some(Decimal::of(0, 0)),
        b.m() != 0 && a.m() != 0 && magnitude(a.m()) % magnitude(b.m()) == 0 ==> r == quotient(a, b),
        b.m() != 0 && a.m() != 0 && magnitude(a.m()) % magnitude(b.m()) != 0 ==> r == assembled(
            rounded_quotient(a.m(), a.s(), b.m(), b.s()),
        ),
        b.m() != 0 && a.m() != 0 && magnitude(a.m()) % magnitude(b.m()) != 0 ==> (r is Some
            <==> nearest_quotient(a, b) is Some),
        b.m() != 0 && a.m() != 0 && magnitude(a.m()) % magnitude(b.m()) != 0 && r is Some ==> same(
            r.unwrap(),
            nearest_quotient(a, b).unwrap(),
        ),
{
    let x = rust_decimal::Decimal::from_i128_with_scale(a.mantissa, a.scale);
    let y = rust_decimal::Decimal::from_i128_with_scale(b.mantissa, b.scale);
    match x.checked_div(y) {
        Some(d) => Some(Decimal { mantissa: d.mantissa(), scale: d.scale() }),
        None => None,
    }
}

/// `rust_decimal`'s `Decimal::round_dp`: a number with more than `dp` decimal places is rounded
/// to `dp` of them, halves to even; any other number is returned as it is.
#[verifier::external_body]
fn round_parts(a: Decimal, dp: u32) -> (r: Decimal)
    requires
        a.valid(),
    ensures
        r == rounded(a, dp as nat),
{
    let x = rust_decimal::Decimal::from_i128_with_scale(a.mantissa, a.scale);
    let d = x.round_dp(dp);
    Decimal { mantissa: d.mantissa(), scale: d.scale() }
}

/// `rust_decimal`'s `Decimal::floor`: the largest integer that is not above the number, at scale 0.
#[verifier::external_body]
fn floor_parts(a: Decimal) -> (r: Decimal)
    requires
        a.valid(),
    ensures
        r == floored(a),
{
    let x = rust_decimal::Decimal::from_i128_with_scale(a.mantissa, a.scale);
    let d = x.floor();
    Decimal { mantissa: d.mantissa(), scale: d.scale() }
}

/// `a + b` where both are known and the sum does not overflow.
pub open spec fn spec_plus(a: Option<Decimal>, b: Option<Decimal>) -> Option<Decimal> {
    match (a, b) {
        (Some(x), Some(y)) => sum(x, y),
        _ => None,
    }
}

/// `a - b` where both are known and the difference does not overflow.
pub open spec fn spec_minus(a: Option<Decimal>, b: Option<Decimal>) -> Option<Decimal> {
    match (a, b) {
        (Some(x), Some(y)) => difference(x, y),
        _ => None,
    }
}

/// `a * b` where both are known and the product does not overflow.
pub open spec fn spec_times(a: Option<Decimal>, b: Option<Decimal>) -> Option<Decimal> {
    match (a, b) {
        (Some(x), Some(y)) => product(x, y),
        _ => None,
    }
}

/// `a / b` where both are known, `b` is not zero and the quotient does not overflow.
pub open spec fn spec_over(a: Option<Decimal>, b: Option<Decimal>) -> Option<Decimal> {
    match (a, b) {
        (Some(x), Some(y)) => quotient(x, y),
        _ => None,
    }
}

/// `a + b`; `None` if a term is missing or the sum overflows.
#[verifier::when_used_as_spec(spec_plus)]
pub fn plus(a: Option<Decimal>, b: Option<Decimal>) -> (r: Option<Decimal>)
    ensures
        r == spec_plus(a, b),
{
    match (a, b) {
        (Some(x), Some(y)) => x.checked_add(y),
        _ => None,
    }
}

/// `a - b`; `None` if a term is missing or the difference overflows.
#[verifier::when_used_as_spec(spec_minus)]
pub fn minus(a: Option<Decimal>, b: Option<Decimal>) -> (r: Option<Decimal>)
    ensures
        r == spec_minus(a, b),
{
    match (a, b) {
        (Some(x), Some(y)) => x.checked_sub(y),
        _ => None,
    }
}

/// `a * b`; `None` if a factor is missing or the product overflows.
#[verifier::when_used_as_spec(spec_times)]
pub fn times(a: Option<Decimal>, b: Option<Decimal>) -> (r: Option<Decimal>)
    ensures
        r == spec_times(a, b),
{
    match (a, b) {
        (Some(x), Some(y)) => x.checked_mul(y),
        _ => None,
    }
}

/// `a / b`; `None` if an operand is missing, `b` is zero or the quotient overflows.
#[verifier::when_used_as_spec(spec_over)]
pub fn over(a: Option<Decimal>, b: Option<Decimal>) -> (r: Option<Decimal>)
    ensures
        r == spec_over(a, b),
{
    match (a, b) {
        (Some(x), Some(y)) => x.checked_div(y),
        _ => None,
    }
}

/// The highest number of decimal places a quantity can be truncated to.
pub const MAX_TRUNCATION: u32 = 19;

/// `value` cut off after `dp` decimal places, towards minus infinity: `floor(value * 10^dp) / 10^dp`.
/// `None` if `dp` is above 19 or an intermediate result overflows.
pub open spec fn truncated(value: Decimal, dp: u32) -> Option<Decimal> {
    if dp > MAX_TRUNCATION {
        None
    } else {
        let factor = Decimal::of(pow10(dp as nat), 0);
        match product(value, factor) {
            Some(scaled) => quotient(floored(scaled), factor),
            None => None,
        }
    }
}

/// Powers of ten are positive and grow.
pub proof fn lemma_pow10(a: nat, b: nat)
    requires
        a <= b,
    ensures
        0 < pow10(a) <= pow10(b),
    decreases b,
{
    if a < b {
        lemma_pow10(a, (b - 1) as nat);
    } else if a > 0 {
        lemma_pow10((a - 1) as nat, (b - 1) as nat);
    }
}

fn power_of_ten(dp: u32) -> (r: Decimal)
    requires
        dp <= MAX_TRUNCATION,
    ensures
        r == Decimal::of(pow10(dp as nat), 0),
{
    let mut p: i128 = 1;
    let mut i: u32 = 0;
    proof {
        assert(pow10(19) == 10_000_000_000_000_000_000) by {
            reveal_with_fuel(pow10, 20);
        }
    }
    while i < dp
        invariant
            i <= dp <= MAX_TRUNCATION,
            p == pow10(i as nat),
            pow10(19) == 10_000_000_000_000_000_000,
            p <= pow10(19),
        decreases dp - i,
    {
        proof {
            lemma_pow10((i + 1) as nat, 19);
        }
        p = 10 * p;
        i = i + 1;
    }
    proof {
        lemma_pow10(0, dp as nat);
        lemma_pow10(dp as nat, 19);
    }
    Decimal { mantissa: p, scale: 0 }
}

/// Whether `t` is the largest multiple of `10^-dp` that is not above `value`: a multiple, not above
/// it, and less than `10^-dp` below it.
pub open spec fn cut_down(value: Decimal, dp: nat, t: Decimal) -> bool {
    &&& (t.m() * pow10(dp)) % pow10(t.s()) == 0
    &&& !less(value, t)
    &&& (lifted(value, t) - lifted(t, value)) * pow10(dp) < pow10(value.s()) * pow10(t.s())
}

/// Truncates a decimal to `dp` decimal places (floor, never rounds up), so that a quantity is
/// never slightly larger than what is held. `None` if `dp` is above 19 or a result overflows.
pub fn truncate_decimal(value: Decimal, dp: u32) -> (r: Option<Decimal>)
    ensures
        r == truncated(value, dp),
        r matches Some(t) ==> cut_down(value, dp as nat, t),
        dp <= MAX_TRUNCATION && fits(value.m() * pow10(dp as nat)) ==> r is Some,
{
    if dp > MAX_TRUNCATION {
        return None;
    }
    let factor = power_of_ten(dp);
    proof {
        use_type_invariant(&value);
        truncation_cuts_down(value, dp);
    }
    match value.checked_mul(factor) {
        Some(scaled) => scaled.floor().checked_div(factor),
        None => None,
    }
}

} // verus!
