//! How far results of arithmetic are from the exact ones.
//!
//! Amounts are counted in units of `10^-28`, of which `10^28` make one. Products of two amounts are
//! counted in units of `10^-56`.
use crate::decimal::{
    difference, fits, lemma_pow10, magnitude, pow10, product, quotient, signed, sum, Decimal,
};
use crate::decimal_laws::{lemma_pow10_add, units};
use crate::decimal_nearest::{
    closest, moderate_fractions_have_a_decimal, nearest_is_exact, nearest_is_near,
};
use crate::decimal_order::{
    differences_are_closest, products_are_closest, quotients_are_nearest, sums_are_closest,
};
use vstd::prelude::*;

verus! {

/// How many units make one.
pub open spec fn one() -> int {
    pow10(28)
}

/// How far two integers are apart.
pub open spec fn apart(a: int, b: int) -> int {
    magnitude(a - b)
}

/// What one is in units.
pub proof fn lemma_one()
    ensures
        one() == 10_000_000_000_000_000_000_000_000_000,
{
    reveal_with_fuel(pow10, 29);
}

/// The decimal closest to a fraction is off by at most a unit and one part in `10^27`.
pub proof fn closest_is_near(x: int, d: int)
    requires
        d > 0,
        closest(x, d) is Some,
    ensures
        apart(closest(x, d).unwrap() * d, x * one()) * one() <= d * (one() + 10 * magnitude(
            closest(x, d).unwrap(),
        )),
{
    let n = magnitude(x);
    nearest_is_near(n, d);
    let u = closest(x, d).unwrap();
    let v = magnitude(u);
    if x < 0 {
        assert((-v) * d == -(v * d) && (-n) * one() == -(n * one())) by (nonlinear_arith);
    }
}

/// The decimal closest to a number of units is off by at most one part in `10^26`, and by nothing if
/// that number fits in a mantissa.
proof fn lemma_closest_total(x: int)
    requires
        closest(x, one()) is Some,
    ensures
        apart(closest(x, one()).unwrap(), x) * one() <= 11 * magnitude(closest(x, one()).unwrap()),
        fits(x) ==> closest(x, one()).unwrap() == x,
{
    let z = one();
    lemma_one();
    let n = magnitude(x);
    let u = closest(x, z).unwrap();
    closest_is_near(x, z);
    if fits(x) {
        nearest_is_exact(n, z, n, 28);
        assert(pow10(0) == 1);
        assert(n * pow10((28 - 28) as nat) == n) by (nonlinear_arith)
            requires
                pow10((28 - 28) as nat) == 1,
        ;
    } else {
        let v = magnitude(u);
        let off = apart(u * z, x * z);
        let e = apart(u, x);
        assert(off == e * z) by (nonlinear_arith)
            requires
                off == (if u * z - x * z < 0 {
                    -(u * z - x * z)
                } else {
                    u * z - x * z
                }),
                e == (if u - x < 0 {
                    -(u - x)
                } else {
                    u - x
                }),
                z > 0,
        ;
        assert(e * z <= z + 10 * v) by (nonlinear_arith)
            requires
                (e * z) * z <= z * (z + 10 * v),
                z > 0,
        ;
        // The number is more than seven times one, so one is little against it.
        assert(z <= v) by (nonlinear_arith)
            requires
                e * z <= z + 10 * v,
                n >= 7 * z,
                n <= v + e,
                z >= 1000,
        ;
    }
}

/// A sum is off by at most one part in `10^26`.
pub proof fn sums_are_near(a: Decimal, b: Decimal)
    requires
        a.valid(),
        b.valid(),
    ensures
        sum(a, b) matches Some(r) ==> r.valid() && apart(units(r), units(a) + units(b)) * one() <= 11
            * magnitude(units(r)),
{
    sums_are_closest(a, b);
    if sum(a, b) is Some {
        lemma_closest_total(units(a) + units(b));
    }
}

/// A difference is off by at most one part in `10^26`.
pub proof fn differences_are_near(a: Decimal, b: Decimal)
    requires
        a.valid(),
        b.valid(),
    ensures
        difference(a, b) matches Some(r) ==> r.valid() && apart(units(r), units(a) - units(b)) * one()
            <= 11 * magnitude(units(r)),
{
    differences_are_closest(a, b);
    if difference(a, b) is Some {
        lemma_closest_total(units(a) - units(b));
    }
}

/// A product is off by at most a unit and one part in `10^27`.
pub proof fn products_are_near(a: Decimal, b: Decimal)
    requires
        a.valid(),
        b.valid(),
    ensures
        product(a, b) matches Some(r) ==> r.valid() && apart(
            units(r) * one(),
            units(a) * units(b),
        ) <= one() + 10 * magnitude(units(r)),
{
    products_are_closest(a, b);
    if let Some(r) = product(a, b) {
        let z = one();
        let d = pow10(56);
        lemma_pow10(0, 28);
        lemma_pow10(0, 56);
        lemma_pow10_add(28, 28);
        let x = units(a) * units(b);
        let u = units(r);
        closest_is_near(x, d);
        let e = apart(u * z, x);
        let off = apart(u * d, x * z);
        assert(u * d == (u * z) * z) by (nonlinear_arith)
            requires
                d == z * z,
        ;
        assert(off == e * z) by (nonlinear_arith)
            requires
                u * d == (u * z) * z,
                off == (if u * d - x * z < 0 {
                    -(u * d - x * z)
                } else {
                    u * d - x * z
                }),
                e == (if u * z - x < 0 {
                    -(u * z - x)
                } else {
                    u * z - x
                }),
                z > 0,
        ;
        let v = magnitude(u);
        assert(e <= z + 10 * v) by (nonlinear_arith)
            requires
                (e * z) * z <= d * (z + 10 * v),
                d == z * z,
                z > 0,
        ;
    }
}

/// A quotient by a positive number is off by at most a unit and one part in `10^27`.
pub proof fn quotients_are_off_little(a: Decimal, b: Decimal)
    requires
        a.valid(),
        b.valid(),
        b.m() > 0,
    ensures
        quotient(a, b) matches Some(r) ==> r.valid() && apart(
            units(r) * units(b),
            units(a) * one(),
        ) * one() <= units(b) * (one() + 10 * magnitude(units(r))),
{
    quotients_are_nearest(a, b);
    if let Some(r) = quotient(a, b) {
        let z = one();
        let pa = pow10(a.s());
        let pb = pow10(b.s());
        let wa = pow10((28 - a.s()) as nat);
        let wb = pow10((28 - b.s()) as nat);
        lemma_pow10(0, 28);
        lemma_pow10(0, a.s());
        lemma_pow10(0, b.s());
        lemma_pow10_add(a.s(), (28 - a.s()) as nat);
        lemma_pow10_add(b.s(), (28 - b.s()) as nat);
        assert(a.s() + (28 - a.s()) as nat == 28 && b.s() + (28 - b.s()) as nat == 28);
        let am = a.m();
        let n = magnitude(am) * pb;
        let d = b.m() * pa;
        assert(n >= 0 && d > 0) by (nonlinear_arith)
            requires
                n == magnitude(am) * pb,
                d == b.m() * pa,
                magnitude(am) >= 0,
                b.m() > 0,
                pa > 0,
                pb > 0,
        ;
        nearest_is_near(n, d);
        let u = units(r);
        let v = magnitude(u);
        let sn = signed(am < 0, n);
        // With the signs: u / d is close to sn.
        assert(apart(u * d, sn * z) * z <= d * (z + 10 * v)) by {
            assert((-v) * d == -(v * d) && (-n) * z == -(n * z)) by (nonlinear_arith);
        }
        let ua = units(a);
        let ub = units(b);
        let k = pa * pb;
        assert(k > 0) by (nonlinear_arith)
            requires
                k == pa * pb,
                pa > 0,
                pb > 0,
        ;
        assert(sn == am * pb) by (nonlinear_arith)
            requires
                sn == n && magnitude(am) == am || sn == -n && magnitude(am) == -am,
                n == magnitude(am) * pb,
        ;
        assert(ua * k == sn * z) by (nonlinear_arith)
            requires
                ua == am * wa,
                k == pa * pb,
                z == pa * wa,
                sn == am * pb,
        ;
        assert(ub * k == d * z) by (nonlinear_arith)
            requires
                ub == b.m() * wb,
                k == pa * pb,
                z == pb * wb,
                d == b.m() * pa,
        ;
        let e = u * ub - ua * z;
        let f = u * d - sn * z;
        assert(e * k == f * z) by (nonlinear_arith)
            requires
                e == u * ub - ua * z,
                f == u * d - sn * z,
                ua * k == sn * z,
                ub * k == d * z,
        ;
        let me = magnitude(e);
        let mf = magnitude(f);
        assert(me * k == mf * z) by (nonlinear_arith)
            requires
                e * k == f * z,
                k > 0,
                z > 0,
                me == (if e < 0 {
                    -e
                } else {
                    e
                }),
                mf == (if f < 0 {
                    -f
                } else {
                    f
                }),
        ;
        let w = z + 10 * v;
        assert((me * k) * z <= (ub * k) * w) by (nonlinear_arith)
            requires
                me * k == mf * z,
                mf * z <= d * w,
                ub * k == d * z,
                z > 0,
        ;
        assert(me * z <= ub * w) by (nonlinear_arith)
            requires
                (me * k) * z <= (ub * k) * w,
                k > 0,
        ;
    }
}

/// The largest number of units whose fit in a decimal is certain: `7 * 10^28` of one.
pub open spec fn ample() -> int {
    70_000_000_000_000_000_000_000_000_000 * one()
}

/// Sums and differences of at most `7 * 10^28` do not overflow.
pub proof fn moderate_totals_do_not_overflow(a: Decimal, b: Decimal)
    requires
        a.valid(),
        b.valid(),
    ensures
        magnitude(units(a) + units(b)) <= ample() ==> sum(a, b) is Some,
        magnitude(units(a) - units(b)) <= ample() ==> difference(a, b) is Some,
{
    lemma_pow10(0, 28);
    sums_are_closest(a, b);
    differences_are_closest(a, b);
    let s = magnitude(units(a) + units(b));
    let d = magnitude(units(a) - units(b));
    if s <= ample() {
        moderate_fractions_have_a_decimal(s, one());
    }
    if d <= ample() {
        moderate_fractions_have_a_decimal(d, one());
    }
}

/// Products of at most `7 * 10^28` do not overflow.
pub proof fn moderate_products_do_not_overflow(a: Decimal, b: Decimal)
    requires
        a.valid(),
        b.valid(),
        magnitude(units(a) * units(b)) <= ample() * one(),
    ensures
        product(a, b) is Some,
{
    lemma_pow10(0, 56);
    lemma_pow10_add(28, 28);
    products_are_closest(a, b);
    let x = magnitude(units(a) * units(b));
    let z = one();
    let c = 70_000_000_000_000_000_000_000_000_000int;
    assert((c * z) * z == c * pow10(56)) by (nonlinear_arith)
        requires
            pow10(56) == z * z,
    ;
    moderate_fractions_have_a_decimal(x, pow10(56));
}

/// Quotients of at most `7 * 10^28` do not overflow.
pub proof fn moderate_quotients_do_not_overflow(a: Decimal, b: Decimal)
    requires
        a.valid(),
        b.valid(),
        b.m() > 0,
        magnitude(units(a)) <= 70_000_000_000_000_000_000_000_000_000 * units(b),
    ensures
        quotient(a, b) is Some,
{
    quotients_are_nearest(a, b);
    lemma_pow10(0, a.s());
    lemma_pow10(0, b.s());
    lemma_pow10(0, (28 - a.s()) as nat);
    lemma_pow10(0, (28 - b.s()) as nat);
    lemma_pow10_add(a.s(), (28 - a.s()) as nat);
    lemma_pow10_add(b.s(), (28 - b.s()) as nat);
    let da = pow10(a.s());
    let ea = pow10((28 - a.s()) as nat);
    let db = pow10(b.s());
    let eb = pow10((28 - b.s()) as nat);
    let m = magnitude(a.m());
    let k = b.m();
    let c = 70_000_000_000_000_000_000_000_000_000int;
    assert(magnitude(a.m() * ea) == m * ea) by {
        if a.m() >= 0 {
            assert(a.m() * ea >= 0) by (nonlinear_arith)
                requires
                    a.m() >= 0,
                    ea > 0,
            ;
        } else {
            assert(a.m() * ea < 0 && (-a.m()) * ea == -(a.m() * ea)) by (nonlinear_arith)
                requires
                    a.m() < 0,
                    ea > 0,
            ;
        }
    }
    // Both sides times `da * db`, which turns one scale into the other.
    assert(m * db <= c * (k * da)) by (nonlinear_arith)
        requires
            m * ea <= c * (k * eb),
            da * ea == db * eb,
            da > 0,
            db > 0,
            ea > 0,
            eb > 0,
            m >= 0,
            k > 0,
            c > 0,
    ;
    assert(m * db >= 0 && k * da > 0) by (nonlinear_arith)
        requires
            m >= 0,
            db > 0,
            k > 0,
            da > 0,
    ;
    moderate_fractions_have_a_decimal(m * db, k * da);
}

} // verus!
