//! How arithmetic keeps signs and order: every result is the decimal closest to the exact one.
use crate::decimal::{
    assembled, assembled_signed, common_scale, difference, fits, half_even, lemma_of, lemma_pow10,
    less, magnitude, mantissa_at, mantissa_ratio, nearest, nearest_quotient, places, pow10, product,
    quotient, rounded, rounded_quotient, same, signed, sum, totalled, vanishes, Decimal, MAX_SCALE,
};
use crate::decimal_laws::{
    lemma_pow10_add, lemma_units_at, less_is_by_units, quotients_are_valid,
    rounding_moves_half_a_tick_at_most, units,
};
use crate::decimal_nearest::{
    closest, closest_goes_by_the_fraction, closest_has_the_sign, closest_is_monotone, in_units,
    lemma_divides, lemma_half_even_is_monotone, lemma_half_even_scales, nearest_is_exact,
    nearest_is_near, nearest_is_valid, nearest_of_large_integers,
};
use vstd::prelude::*;

verus! {

/// A number and its units have the same sign.
pub proof fn units_have_the_sign(a: Decimal)
    ensures
        units(a) >= 0 <==> a.m() >= 0,
        units(a) > 0 <==> a.m() > 0,
{
    let w = pow10((28 - a.s()) as nat);
    lemma_pow10(0, (28 - a.s()) as nat);
    let m = a.m();
    assert((m * w >= 0 <==> m >= 0) && (m * w > 0 <==> m > 0)) by (nonlinear_arith)
        requires
            w > 0,
    ;
}

/// A decimal assembled from a magnitude and a scale, in units.
proof fn lemma_assembled_units(negative: bool, p: (int, nat))
    requires
        p.0 >= 0,
        fits(p.0),
        p.1 <= 28,
    ensures
        assembled_signed(negative, Some(p)) matches Some(r) && r.valid() && units(r) == signed(
            negative,
            in_units(p),
        ),
{
    let m = signed(negative, p.0);
    lemma_of(m, p.1);
    let w = pow10((28 - p.1) as nat);
    assert((-p.0) * w == -(p.0 * w)) by (nonlinear_arith);
}

/// A number in units is the decimal closest to itself.
pub proof fn decimals_are_closest_to_themselves(a: Decimal)
    requires
        a.valid(),
    ensures
        closest(units(a), pow10(28)) == Some(units(a)),
{
    let m = magnitude(a.m());
    let w = pow10((28 - a.s()) as nat);
    let z = pow10(28);
    lemma_pow10(0, (28 - a.s()) as nat);
    lemma_pow10(0, 28);
    lemma_pow10_add(a.s(), (28 - a.s()) as nat);
    assert(a.s() + (28 - a.s()) as nat == 28);
    let u = units(a);
    let n = magnitude(u);
    assert(n == m * w && (u < 0 <==> a.m() < 0)) by (nonlinear_arith)
        requires
            u == a.m() * w,
            w > 0,
            n == (if u < 0 {
                -u
            } else {
                u
            }),
            m == (if a.m() < 0 {
                -a.m()
            } else {
                a.m()
            }),
    ;
    assert(n * pow10(a.s()) == m * z) by (nonlinear_arith)
        requires
            n == m * w,
            z == pow10(a.s()) * w,
    ;
    nearest_is_exact(n, z, m, a.s());
}

/// A total is the decimal closest to it.
proof fn lemma_totals_are_closest(t: int, s: nat)
    requires
        s <= 28,
    ensures
        totalled(t, s) is Some <==> closest(t * pow10((28 - s) as nat), pow10(28)) is Some,
        totalled(t, s) matches Some(r) ==> r.valid() && closest(
            t * pow10((28 - s) as nat),
            pow10(28),
        ) == Some(units(r)),
{
    let k = pow10((28 - s) as nat);
    lemma_pow10(0, (28 - s) as nat);
    lemma_pow10(0, s);
    lemma_pow10_add(s, (28 - s) as nat);
    assert(s + (28 - s) as nat == 28);
    if fits(t) {
        lemma_of(t, s);
        decimals_are_closest_to_themselves(Decimal::of(t, s));
    } else {
        closest_goes_by_the_fraction(t, pow10(s), k);
        nearest_is_valid(magnitude(t), pow10(s));
        if let Some(p) = nearest(magnitude(t), pow10(s)) {
            lemma_assembled_units(t < 0, p);
        }
    }
}

/// A sum is the decimal closest to the exact sum.
pub proof fn sums_are_closest(a: Decimal, b: Decimal)
    requires
        a.valid(),
        b.valid(),
    ensures
        sum(a, b) is Some <==> closest(units(a) + units(b), pow10(28)) is Some,
        sum(a, b) matches Some(r) ==> r.valid() && closest(units(a) + units(b), pow10(28)) == Some(
            units(r),
        ),
{
    let s = common_scale(a, b);
    let x = mantissa_at(a, s);
    let y = mantissa_at(b, s);
    let k = pow10((28 - s) as nat);
    lemma_units_at(a, s);
    lemma_units_at(b, s);
    assert((x + y) * k == x * k + y * k) by (nonlinear_arith);
    lemma_zero_units(a);
    lemma_zero_units(b);
    decimals_are_closest_to_themselves(a);
    decimals_are_closest_to_themselves(b);
    lemma_totals_are_closest(x + y, s);
}

proof fn lemma_zero_units(a: Decimal)
    ensures
        a.m() == 0 ==> units(a) == 0,
{
    if a.m() == 0 {
        assert(0 * pow10((28 - a.s()) as nat) == 0);
    }
}

/// A difference is the decimal closest to the exact difference.
pub proof fn differences_are_closest(a: Decimal, b: Decimal)
    requires
        a.valid(),
        b.valid(),
    ensures
        difference(a, b) is Some <==> closest(units(a) - units(b), pow10(28)) is Some,
        difference(a, b) matches Some(r) ==> r.valid() && closest(units(a) - units(b), pow10(28))
            == Some(units(r)),
{
    let s = common_scale(a, b);
    let x = mantissa_at(a, s);
    let y = mantissa_at(b, s);
    let k = pow10((28 - s) as nat);
    lemma_units_at(a, s);
    lemma_units_at(b, s);
    assert((x - y) * k == x * k - y * k) by (nonlinear_arith);
    lemma_zero_units(a);
    lemma_zero_units(b);
    decimals_are_closest_to_themselves(a);
    lemma_of(-b.m(), b.s());
    let c = Decimal::of(-b.m(), b.s());
    let w = pow10((28 - b.s()) as nat);
    assert((-b.m()) * w == -(b.m() * w)) by (nonlinear_arith);
    decimals_are_closest_to_themselves(c);
    lemma_totals_are_closest(x - y, s);
}

/// A product that vanishes is closest to zero.
proof fn lemma_vanishes(n: int, s: nat)
    requires
        0 <= n < 0x1_0000_0000_0000_0000,
        47 < s,
    ensures
        nearest(n, pow10(s)) == Some((0int, 28nat)),
{
    reveal(nearest);
    let z = pow10(28);
    let d = pow10(s);
    let h = pow10((s - 28) as nat);
    lemma_pow10(0, 28);
    lemma_pow10(20, (s - 28) as nat);
    lemma_pow10_add(28, (s - 28) as nat);
    assert(28 + (s - 28) as nat == s);
    assert(pow10(20) == 100_000_000_000_000_000_000) by {
        reveal_with_fuel(pow10, 21);
    }
    let x = n * z;
    assert(0 <= x && 2 * x < d) by (nonlinear_arith)
        requires
            x == n * z,
            d == z * h,
            0 <= n,
            2 * n < h,
            z > 0,
    ;
    lemma_divides(x, d, 0, x);
    assert(places(n, d, 28) == 28);
}

/// A product is the decimal closest to the exact product.
pub proof fn products_are_closest(a: Decimal, b: Decimal)
    requires
        a.valid(),
        b.valid(),
    ensures
        product(a, b) is Some <==> closest(units(a) * units(b), pow10(56)) is Some,
        product(a, b) matches Some(r) ==> r.valid() && closest(units(a) * units(b), pow10(56))
            == Some(units(r)),
{
    let m = a.m() * b.m();
    let s = a.s() + b.s();
    let u = pow10((28 - a.s()) as nat);
    let v = pow10((28 - b.s()) as nat);
    let k = pow10((56 - s) as nat);
    lemma_pow10_add((28 - a.s()) as nat, (28 - b.s()) as nat);
    assert((28 - a.s()) as nat + (28 - b.s()) as nat == (56 - s) as nat);
    assert(units(a) * units(b) == m * k) by (nonlinear_arith)
        requires
            units(a) == a.m() * u,
            units(b) == b.m() * v,
            m == a.m() * b.m(),
            k == u * v,
    ;
    lemma_pow10(0, s);
    lemma_pow10(0, (56 - s) as nat);
    lemma_pow10_add(s, (56 - s) as nat);
    assert(s + (56 - s) as nat == 56);
    // By the fraction alone: m / 10^s.
    closest_goes_by_the_fraction(m, pow10(s), k);
    lemma_of(0, 0);
    lemma_zero_units(Decimal::of(0, 0));
    if a.m() == 0 || b.m() == 0 {
        assert(m == 0) by (nonlinear_arith)
            requires
                m == a.m() * b.m(),
                a.m() == 0 || b.m() == 0,
        ;
        assert(0 * pow10(0) == 0 * pow10(s));
        nearest_is_exact(0, pow10(s), 0, 0);
        assert(0 * pow10(28) == 0);
    } else if vanishes(a, b) {
        let n = magnitude(m);
        assert(n < 0x1_0000_0000_0000_0000) by (nonlinear_arith)
            requires
                n == m || n == -m,
                m == a.m() * b.m(),
                -0x1_0000_0000 < a.m() < 0x1_0000_0000,
                -0x1_0000_0000 < b.m() < 0x1_0000_0000,
        ;
        lemma_vanishes(n, s);
        assert(pow10(0) == 1);
    } else if s <= MAX_SCALE {
        lemma_totals_are_closest(m, s);
        let w = pow10((28 - s) as nat);
        lemma_pow10(0, (28 - s) as nat);
        lemma_pow10_add(s, (28 - s) as nat);
        assert(s + (28 - s) as nat == 28);
        closest_goes_by_the_fraction(m, pow10(s), w);
    } else {
        nearest_is_valid(magnitude(m), pow10(s));
        if let Some(p) = nearest(magnitude(m), pow10(s)) {
            lemma_assembled_units(m < 0, p);
        }
    }
}

/// A quotient is the decimal closest to the exact quotient.
pub proof fn quotients_are_nearest(a: Decimal, b: Decimal)
    requires
        a.valid(),
        b.valid(),
        b.m() != 0,
    ensures
        ({
            let n = nearest(magnitude(a.m()) * pow10(b.s()), magnitude(b.m()) * pow10(a.s()));
            &&& quotient(a, b) is Some <==> n is Some
            &&& quotient(a, b) matches Some(r) ==> r.valid() && units(r) == signed(
                (a.m() < 0) != (b.m() < 0),
                in_units(n.unwrap()),
            )
        }),
{
    let negative = (a.m() < 0) != (b.m() < 0);
    let da = pow10(a.s());
    let db = pow10(b.s());
    lemma_pow10(0, a.s());
    lemma_pow10(0, b.s());
    let am = magnitude(a.m());
    let bm = magnitude(b.m());
    let n = am * db;
    let d = bm * da;
    assert(n >= 0 && d > 0) by (nonlinear_arith)
        requires
            n == am * db,
            d == bm * da,
            am >= 0,
            bm > 0,
            da > 0,
            db > 0,
    ;
    nearest_is_valid(n, d);
    quotients_are_valid(a, b);
    if a.m() == 0 {
        lemma_of(0, 0);
        lemma_zero_units(Decimal::of(0, 0));
        assert(n == 0) by (nonlinear_arith)
            requires
                n == am * db,
                am == 0,
        ;
        assert(0 * pow10(0) == 0 * d);
        nearest_is_exact(0, d, 0, 0);
        assert(0 * pow10(28) == 0);
    } else if am % bm == 0 {
        let r = am / bm;
        assert(r * bm == am && 0 <= r <= am) by (nonlinear_arith)
            requires
                am % bm == 0,
                r == am / bm,
                bm >= 1,
                am >= 0,
        ;
        let t = mantissa_ratio(a, b);
        assert(t == signed(negative, r));
        if a.s() >= b.s() {
            let k = (a.s() - b.s()) as nat;
            lemma_of(t, k);
            lemma_pow10_add(b.s(), k);
            assert(b.s() + k == a.s());
            assert(n * pow10(k) == r * d) by (nonlinear_arith)
                requires
                    n == am * db,
                    d == bm * da,
                    r * bm == am,
                    da == db * pow10(k),
            ;
            nearest_is_exact(n, d, r, k);
            lemma_assembled_units(negative, (r, k));
        } else {
            let k = (b.s() - a.s()) as nat;
            let f = pow10(k);
            lemma_pow10(0, k);
            lemma_pow10_add(a.s(), k);
            assert(a.s() + k == b.s());
            let whole = r * f;
            assert(n == whole * d && whole >= 0) by (nonlinear_arith)
                requires
                    n == am * db,
                    d == bm * da,
                    r * bm == am,
                    db == da * f,
                    whole == r * f,
                    r >= 0,
                    f > 0,
            ;
            assert(t * f == signed(negative, whole)) by (nonlinear_arith)
                requires
                    whole == r * f,
                    t == r && signed(negative, whole) == whole || t == -r && signed(negative, whole)
                        == -whole,
            ;
            if fits(whole) {
                assert(pow10(0) == 1);
                assert(n * pow10(0) == whole * d);
                nearest_is_exact(n, d, whole, 0);
                lemma_assembled_units(negative, (whole, 0));
            } else {
                nearest_of_large_integers(n, d, whole);
            }
        }
    } else {
        if let Some(p) = nearest(n, d) {
            lemma_assembled_units(negative, p);
            let r = nearest_quotient(a, b).unwrap();
            let q = assembled(rounded_quotient(a.m(), a.s(), b.m(), b.s()));
            if q is Some && same(q.unwrap(), r) {
                less_is_by_units(q.unwrap(), r);
            }
        }
    }
}

/// Sums, differences and products that are decimals are exact, whatever the scales.
pub proof fn results_that_are_decimals_are_exact(a: Decimal, b: Decimal, c: Decimal)
    requires
        a.valid(),
        b.valid(),
        c.valid(),
    ensures
        units(c) == units(a) + units(b) ==> sum(a, b) is Some && same(sum(a, b).unwrap(), c),
        units(c) == units(a) - units(b) ==> difference(a, b) is Some && same(
            difference(a, b).unwrap(),
            c,
        ),
        units(c) * pow10(28) == units(a) * units(b) ==> product(a, b) is Some && same(
            product(a, b).unwrap(),
            c,
        ),
{
    sums_are_closest(a, b);
    differences_are_closest(a, b);
    products_are_closest(a, b);
    decimals_are_closest_to_themselves(c);
    lemma_pow10(0, 28);
    lemma_pow10_add(28, 28);
    closest_goes_by_the_fraction(units(c), pow10(28), pow10(28));
    if let Some(r) = sum(a, b) {
        less_is_by_units(r, c);
    }
    if let Some(r) = difference(a, b) {
        less_is_by_units(r, c);
    }
    if let Some(r) = product(a, b) {
        less_is_by_units(r, c);
    }
}

proof fn lemma_regroup(c: int, wc: int, b: int, wb: int, pa: int, pb: int, pc: int)
    ensures
        ((c * wc) * (b * wb)) * ((pa * pb) * pc) == (c * (b * pa)) * ((pb * wb) * (pc * wc)),
{
    let x = c * wc;
    let y = b * wb;
    assert((x * y) * ((pa * pb) * pc) == (x * pc) * (y * (pa * pb))) by (nonlinear_arith);
    assert(x * pc == c * (pc * wc)) by (nonlinear_arith)
        requires
            x == c * wc,
    ;
    assert(y * (pa * pb) == (b * pa) * (pb * wb)) by (nonlinear_arith)
        requires
            y == b * wb,
    ;
    let u = pc * wc;
    let v = pb * wb;
    let w = b * pa;
    assert((c * u) * (w * v) == (c * w) * (v * u)) by (nonlinear_arith);
}

/// A quotient that is a decimal is exact, whatever the scales.
pub proof fn quotients_that_are_decimals_are_exact(a: Decimal, b: Decimal, c: Decimal)
    requires
        a.valid(),
        b.valid(),
        c.valid(),
        a.m() >= 0,
        b.m() > 0,
        c.m() >= 0,
        units(c) * units(b) == units(a) * pow10(28),
    ensures
        quotient(a, b) is Some && same(quotient(a, b).unwrap(), c),
{
    quotients_are_nearest(a, b);
    let z = pow10(28);
    let pa = pow10(a.s());
    let pb = pow10(b.s());
    let pc = pow10(c.s());
    let wa = pow10((28 - a.s()) as nat);
    let wb = pow10((28 - b.s()) as nat);
    let wc = pow10((28 - c.s()) as nat);
    lemma_pow10(0, 28);
    lemma_pow10(0, a.s());
    lemma_pow10(0, b.s());
    lemma_pow10(0, c.s());
    lemma_pow10_add(a.s(), (28 - a.s()) as nat);
    lemma_pow10_add(b.s(), (28 - b.s()) as nat);
    lemma_pow10_add(c.s(), (28 - c.s()) as nat);
    assert(a.s() + (28 - a.s()) as nat == 28 && b.s() + (28 - b.s()) as nat == 28 && c.s() + (28
        - c.s()) as nat == 28);
    let n = a.m() * pb;
    let d = b.m() * pa;
    let left = (c.m() * wc) * (b.m() * wb);
    let right = (a.m() * wa) * z;
    let k = (pa * pb) * pc;
    lemma_regroup(c.m(), wc, b.m(), wb, pa, pb, pc);
    assert(left * k == (c.m() * d) * (z * z));
    let x = a.m() * wa;
    assert((x * z) * ((pa * pb) * pc) == ((a.m() * pb) * pc) * ((pa * wa) * z)) by (nonlinear_arith)
        requires
            x == a.m() * wa,
    ;
    assert(right * k == (n * pc) * (z * z));
    let zz = z * z;
    assert(zz > 0) by (nonlinear_arith)
        requires
            zz == z * z,
            z > 0,
    ;
    assert(n * pc == c.m() * d) by (nonlinear_arith)
        requires
            (c.m() * d) * zz == (n * pc) * zz,
            zz > 0,
    ;
    assert(n >= 0 && d > 0) by (nonlinear_arith)
        requires
            n == a.m() * pb,
            d == b.m() * pa,
            a.m() >= 0,
            b.m() > 0,
            pa > 0,
            pb > 0,
    ;
    nearest_is_exact(n, d, c.m(), c.s());
    if let Some(r) = quotient(a, b) {
        less_is_by_units(r, c);
    }
}

/// Quotients are near: off by at most `10^-28` and one part in `10^27`.
pub proof fn quotients_are_near(a: Decimal, b: Decimal)
    requires
        a.valid(),
        b.valid(),
        a.m() >= 0,
        b.m() > 0,
    ensures
        quotient(a, b) matches Some(q) ==> q.valid() && units(q) >= 0 && magnitude(
            units(q) * (b.m() * pow10(a.s())) - (a.m() * pow10(b.s())) * pow10(28),
        ) * pow10(28) <= (b.m() * pow10(a.s())) * (pow10(28) + 10 * units(q)),
{
    quotients_are_nearest(a, b);
    let n = a.m() * pow10(b.s());
    let d = b.m() * pow10(a.s());
    lemma_pow10(0, a.s());
    lemma_pow10(0, b.s());
    assert(n >= 0 && d > 0) by (nonlinear_arith)
        requires
            n == a.m() * pow10(b.s()),
            d == b.m() * pow10(a.s()),
            a.m() >= 0,
            b.m() > 0,
            pow10(a.s()) > 0,
            pow10(b.s()) > 0,
    ;
    if quotient(a, b) is Some {
        nearest_is_near(n, d);
    }
}

/// Sums keep the order of their terms.
pub proof fn sums_are_monotone(a: Decimal, b: Decimal, c: Decimal)
    requires
        a.valid(),
        b.valid(),
        c.valid(),
        units(b) <= units(c),
        sum(a, b) is Some,
        sum(a, c) is Some,
    ensures
        units(sum(a, b).unwrap()) <= units(sum(a, c).unwrap()),
{
    sums_are_closest(a, b);
    sums_are_closest(a, c);
    lemma_pow10(0, 28);
    closest_is_monotone(units(a) + units(b), units(a) + units(c), pow10(28));
}

/// Differences turn the order of their second terms around.
pub proof fn differences_are_monotone(a: Decimal, b: Decimal, c: Decimal)
    requires
        a.valid(),
        b.valid(),
        c.valid(),
        units(b) <= units(c),
        difference(a, b) is Some,
        difference(a, c) is Some,
    ensures
        units(difference(a, c).unwrap()) <= units(difference(a, b).unwrap()),
{
    differences_are_closest(a, b);
    differences_are_closest(a, c);
    lemma_pow10(0, 28);
    closest_is_monotone(units(a) - units(c), units(a) - units(b), pow10(28));
}

/// Products with a factor that is not negative keep the order of the other factors, on either side.
pub proof fn products_are_monotone(a: Decimal, b: Decimal, c: Decimal)
    requires
        a.valid(),
        b.valid(),
        c.valid(),
        a.m() >= 0,
        units(b) <= units(c),
    ensures
        product(a, b) matches Some(x) ==> (product(a, c) matches Some(y) ==> units(x) <= units(y)),
        product(b, a) matches Some(x) ==> (product(c, a) matches Some(y) ==> units(x) <= units(y)),
{
    units_have_the_sign(a);
    products_are_closest(a, b);
    products_are_closest(a, c);
    products_are_closest(b, a);
    products_are_closest(c, a);
    lemma_pow10(0, 56);
    let u = units(a);
    let x = units(b);
    let y = units(c);
    assert(u * x <= u * y && x * u == u * x && y * u == u * y) by (nonlinear_arith)
        requires
            u >= 0,
            x <= y,
    ;
    if closest(u * x, pow10(56)) is Some && closest(u * y, pow10(56)) is Some {
        closest_is_monotone(u * x, u * y, pow10(56));
    }
}

/// A difference has the sign of the exact one, or is zero.
pub proof fn differences_keep_signs(a: Decimal, b: Decimal)
    requires
        a.valid(),
        b.valid(),
        units(b) <= units(a),
    ensures
        difference(a, b) matches Some(r) ==> r.m() >= 0,
{
    differences_are_closest(a, b);
    lemma_pow10(0, 28);
    closest_has_the_sign(units(a) - units(b), pow10(28));
    if let Some(r) = difference(a, b) {
        units_have_the_sign(r);
    }
}

/// A product of numbers that are not negative is not negative.
pub proof fn products_keep_signs(a: Decimal, b: Decimal)
    requires
        a.valid(),
        b.valid(),
        a.m() >= 0,
        b.m() >= 0,
    ensures
        product(a, b) matches Some(r) ==> r.m() >= 0,
{
    units_have_the_sign(a);
    units_have_the_sign(b);
    products_are_closest(a, b);
    lemma_pow10(0, 56);
    let p = units(a) * units(b);
    assert(p >= 0) by (nonlinear_arith)
        requires
            p == units(a) * units(b),
            units(a) >= 0,
            units(b) >= 0,
    ;
    closest_has_the_sign(p, pow10(56));
    if let Some(r) = product(a, b) {
        units_have_the_sign(r);
    }
}

/// A quotient of numbers that are not negative is not negative.
pub proof fn quotients_keep_signs(a: Decimal, b: Decimal)
    requires
        a.valid(),
        b.valid(),
        a.m() >= 0,
        b.m() > 0,
    ensures
        quotient(a, b) matches Some(r) ==> r.m() >= 0,
{
    quotients_are_near(a, b);
    if let Some(r) = quotient(a, b) {
        units_have_the_sign(r);
    }
}

proof fn lemma_rounded_units(a: Decimal, dp: nat)
    requires
        a.valid(),
        dp <= 28,
    ensures
        rounded(a, dp).valid(),
        units(rounded(a, dp)) == half_even(units(a), pow10((28 - dp) as nat)) * pow10(
            (28 - dp) as nat,
        ),
{
    let t = pow10((28 - dp) as nat);
    lemma_pow10(0, (28 - dp) as nat);
    rounding_moves_half_a_tick_at_most(a, dp);
    let m = a.m();
    if a.s() <= dp {
        let k = (dp - a.s()) as nat;
        let f = pow10(k);
        lemma_pow10_add(k, (28 - dp) as nat);
        assert(k + (28 - dp) as nat == (28 - a.s()) as nat);
        let c = m * f;
        assert(units(a) == c * t) by (nonlinear_arith)
            requires
                units(a) == m * (f * t),
                c == m * f,
        ;
        lemma_half_even_scales(c, 1, t);
        assert(1 * t == t);
        let n = magnitude(c);
        lemma_divides(n, 1, n, 0);
    } else {
        let k = (a.s() - dp) as nat;
        let d = pow10(k);
        let w = pow10((28 - a.s()) as nat);
        lemma_pow10(0, k);
        lemma_pow10(0, (28 - a.s()) as nat);
        lemma_pow10_add(k, (28 - a.s()) as nat);
        assert(k + (28 - a.s()) as nat == (28 - dp) as nat);
        lemma_half_even_scales(m, d, w);
        rounded_parts(a, dp);
    }
}

/// The parts of a number that is rounded.
pub proof fn rounded_parts(a: Decimal, dp: nat)
    requires
        a.valid(),
        dp < a.s(),
    ensures
        rounded(a, dp).m() == half_even(a.m(), pow10((a.s() - dp) as nat)),
        rounded(a, dp).s() == dp,
{
    let k = (a.s() - dp) as nat;
    let d = pow10(k);
    lemma_pow10(0, k);
    let n = magnitude(a.m());
    let q = n / d;
    let r = n % d;
    assert(n == q * d + r && 0 <= r < d && 0 <= q) by (nonlinear_arith)
        requires
            d > 0,
            n >= 0,
            q == n / d,
            r == n % d,
    ;
    lemma_pow10(1, k);
    assert(pow10(1) == 10) by {
        reveal_with_fuel(pow10, 2);
    }
    assert(10 * q <= n) by (nonlinear_arith)
        requires
            n == q * d + r,
            r >= 0,
            d >= 10,
            q >= 0,
    ;
    lemma_of(half_even(a.m(), d), dp);
}

/// Rounding keeps the order: a number that is not below another is not below it once both are
/// rounded.
pub proof fn rounding_is_monotone(a: Decimal, b: Decimal, dp: nat)
    requires
        a.valid(),
        b.valid(),
        !less(b, a),
    ensures
        !less(rounded(b, dp), rounded(a, dp)),
{
    less_is_by_units(b, a);
    if dp <= 28 {
        let t = pow10((28 - dp) as nat);
        lemma_pow10(0, (28 - dp) as nat);
        lemma_rounded_units(a, dp);
        lemma_rounded_units(b, dp);
        lemma_half_even_is_monotone(units(a), units(b), t);
        let x = half_even(units(a), t);
        let y = half_even(units(b), t);
        assert(x * t <= y * t) by (nonlinear_arith)
            requires
                x <= y,
                t > 0,
        ;
        less_is_by_units(rounded(b, dp), rounded(a, dp));
    }
}

} // verus!
