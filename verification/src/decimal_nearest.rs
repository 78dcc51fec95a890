//! The decimal nearest to a fraction: what rounding to as many decimal places as fit gives.
use crate::decimal::{
    fits, half_even, lemma_pow10, magnitude, nearest, places, pow10, signed, MANTISSA_LIMIT,
};
use crate::decimal_laws::{lemma_half_even, lemma_pow10_add};
use vstd::prelude::*;

verus! {

/// A mantissa and a scale, as a number of units of `10^-28`.
pub open spec fn in_units(p: (int, nat)) -> int {
    p.0 * pow10((28 - p.1) as nat)
}

/// The decimal nearest to the fraction `x / d`, in units of `10^-28`. `None` if it is too large.
pub open spec fn closest(x: int, d: int) -> Option<int> {
    match nearest(magnitude(x), d) {
        Some(p) => Some(signed(x < 0, in_units(p))),
        None => None,
    }
}

/// Rounding goes by the fraction alone.
pub proof fn lemma_half_even_scales(m: int, d: int, w: int)
    requires
        d > 0,
        w > 0,
    ensures
        half_even(m * w, d * w) == half_even(m, d),
{
    let n = magnitude(m);
    let q = n / d;
    let r = n % d;
    assert(n == q * d + r && 0 <= r < d && q >= 0) by (nonlinear_arith)
        requires
            d > 0,
            q == n / d,
            r == n % d,
            n >= 0,
    ;
    let nw = magnitude(m * w);
    assert(nw == n * w && (m * w < 0 <==> m < 0)) by (nonlinear_arith)
        requires
            w > 0,
            n == (if m < 0 {
                -m
            } else {
                m
            }),
            nw == (if m * w < 0 {
                -(m * w)
            } else {
                m * w
            }),
    ;
    assert(nw == q * (d * w) + r * w && 0 <= r * w < d * w) by (nonlinear_arith)
        requires
            nw == n * w,
            n == q * d + r,
            0 <= r < d,
            w > 0,
    ;
    lemma_divides(nw, d * w, q, r * w);
    assert((2 * (r * w) > d * w <==> 2 * r > d) && (2 * (r * w) == d * w <==> 2 * r == d)) by (
    nonlinear_arith)
        requires
            w > 0,
    ;
}

/// Quotient and remainder are the only integers of their kind.
pub proof fn lemma_divides(n: int, d: int, q: int, r: int)
    requires
        n == q * d + r,
        0 <= r < d,
    ensures
        n / d == q,
        n % d == r,
{
    assert(n / d == q && n % d == r) by (nonlinear_arith)
        requires
            n == q * d + r,
            0 <= r < d,
    ;
}

proof fn lemma_half_even_grows(x: int, y: int, d: int)
    requires
        d > 0,
        0 <= x <= y,
    ensures
        0 <= half_even(x, d) <= half_even(y, d),
{
    let qx = x / d;
    let rx = x % d;
    let qy = y / d;
    let ry = y % d;
    assert(x == qx * d + rx && 0 <= rx < d && y == qy * d + ry && 0 <= ry < d && 0 <= qx) by (
    nonlinear_arith)
        requires
            d > 0,
            0 <= x <= y,
            qx == x / d,
            rx == x % d,
            qy == y / d,
            ry == y % d,
    ;
    assert(qx <= qy) by (nonlinear_arith)
        requires
            qx * d + rx <= qy * d + ry,
            0 <= rx < d,
            0 <= ry < d,
    ;
    if qx == qy {
        assert(rx <= ry);
    }
}

/// Rounding to integers keeps the order.
pub proof fn lemma_half_even_is_monotone(x: int, y: int, d: int)
    requires
        d > 0,
        x <= y,
    ensures
        half_even(x, d) <= half_even(y, d),
{
    if x >= 0 {
        lemma_half_even_grows(x, y, d);
    } else if y < 0 {
        lemma_half_even_grows(-y, -x, d);
    } else {
        lemma_half_even_grows(0, -x, d);
        lemma_half_even_grows(0, y, d);
    }
}

/// The smallest mantissa of a number that was rounded since it has one digit too many.
pub open spec fn tenth_of_limit() -> int {
    7922816251426433759354395034
}

proof fn lemma_tenth_of_limit()
    ensures
        half_even(MANTISSA_LIMIT as int, 10) == tenth_of_limit(),
        10 * tenth_of_limit() == MANTISSA_LIMIT + 4,
{
}

proof fn lemma_places(n: int, d: int, t: nat)
    ensures
        places(n, d, t) <= t,
        places(n, d, t) < t ==> !fits((n * pow10(places(n, d, t) + 1)) / d),
        places(n, d, t) == 0 || fits((n * pow10(places(n, d, t))) / d),
    decreases t,
{
    if !(t == 0 || fits((n * pow10(t)) / d)) {
        lemma_places(n, d, (t - 1) as nat);
    }
}

proof fn lemma_places_at_least(n: int, d: int, t: nat, x: nat)
    requires
        x <= t,
        fits((n * pow10(x)) / d),
    ensures
        places(n, d, t) >= x,
    decreases t,
{
    if x < t && !fits((n * pow10(t)) / d) {
        lemma_places_at_least(n, d, (t - 1) as nat, x);
    }
}

/// The integer part of a fraction, and what rounding makes of it.
proof fn lemma_rounded_fraction(x: int, d: int)
    requires
        x >= 0,
        d > 0,
    ensures
        0 <= x / d <= half_even(x, d) <= x / d + 1,
        (x / d) * d <= x < (x / d + 1) * d,
{
    let q = x / d;
    assert(0 <= q && q * d <= x < (q + 1) * d) by (nonlinear_arith)
        requires
            x >= 0,
            d > 0,
            q == x / d,
    ;
}

/// The mantissa is at least a tenth of the limit if there could be more decimal places.
proof fn lemma_mantissa_is_long(n: int, d: int)
    requires
        n >= 0,
        d > 0,
        places(n, d, 28) < 28,
    ensures
        half_even(n * pow10(places(n, d, 28)), d) >= tenth_of_limit(),
{
    let t = places(n, d, 28);
    lemma_places(n, d, 28);
    lemma_tenth_of_limit();
    lemma_pow10(0, t);
    let x = n * pow10(t);
    let y = n * pow10(t + 1);
    assert(pow10(t + 1) == 10 * pow10(t));
    assert(y == 10 * x && x >= 0) by (nonlinear_arith)
        requires
            y == n * (10 * pow10(t)),
            x == n * pow10(t),
            n >= 0,
            pow10(t) > 0,
    ;
    lemma_rounded_fraction(y, d);
    let limit = MANTISSA_LIMIT as int;
    assert(limit * d <= y) by (nonlinear_arith)
        requires
            (y / d) * d <= y,
            y / d >= limit,
            d > 0,
    ;
    lemma_half_even_is_monotone(limit * d, y, 10 * d);
    lemma_half_even_scales(limit, 10, d);
    lemma_half_even_scales(x, d, 10);
    assert(x * 10 == y && d * 10 == 10 * d);
}

/// The nearest decimal is one, and not negative.
pub proof fn nearest_is_valid(n: int, d: int)
    requires
        n >= 0,
        d > 0,
    ensures
        nearest(n, d) matches Some(p) ==> 0 <= p.0 && fits(p.0) && p.1 <= 28,
{
    reveal(nearest);
    let t = places(n, d, 28);
    lemma_places(n, d, 28);
    lemma_pow10(0, t);
    lemma_tenth_of_limit();
    let x = n * pow10(t);
    assert(x >= 0) by (nonlinear_arith)
        requires
            x == n * pow10(t),
            n >= 0,
            pow10(t) > 0,
    ;
    lemma_rounded_fraction(x, d);
}

/// The nearest decimal goes by the fraction alone.
pub proof fn nearest_goes_by_the_fraction(n: int, d: int, k: int)
    requires
        n >= 0,
        d > 0,
        k > 0,
    ensures
        nearest(n * k, d * k) == nearest(n, d),
{
    reveal(nearest);
    lemma_places_scale(n, d, k, 28);
    let t = places(n, d, 28);
    let x = n * pow10(t);
    assert((n * k) * pow10(t) == x * k) by (nonlinear_arith)
        requires
            x == n * pow10(t),
    ;
    lemma_pow10(0, t);
    assert(x >= 0) by (nonlinear_arith)
        requires
            x == n * pow10(t),
            n >= 0,
            pow10(t) > 0,
    ;
    lemma_half_even_scales(x, d, k);
    lemma_quotient_scales(x, d, k);
}

proof fn lemma_quotient_scales(x: int, d: int, k: int)
    requires
        x >= 0,
        d > 0,
        k > 0,
    ensures
        (x * k) / (d * k) == x / d,
{
    let q = x / d;
    let r = x % d;
    assert(x == q * d + r && 0 <= r < d) by (nonlinear_arith)
        requires
            d > 0,
            q == x / d,
            r == x % d,
    ;
    assert(x * k == q * (d * k) + r * k && 0 <= r * k < d * k) by (nonlinear_arith)
        requires
            x == q * d + r,
            0 <= r < d,
            k > 0,
    ;
    lemma_divides(x * k, d * k, q, r * k);
}

proof fn lemma_places_scale(n: int, d: int, k: int, t: nat)
    requires
        n >= 0,
        d > 0,
        k > 0,
    ensures
        places(n * k, d * k, t) == places(n, d, t),
    decreases t,
{
    let x = n * pow10(t);
    lemma_pow10(0, t);
    assert((n * k) * pow10(t) == x * k && x >= 0) by (nonlinear_arith)
        requires
            x == n * pow10(t),
            n >= 0,
            pow10(t) > 0,
    ;
    lemma_quotient_scales(x, d, k);
    if t > 0 {
        lemma_places_scale(n, d, k, (t - 1) as nat);
    }
}

/// A fraction that is a decimal is its own nearest one.
pub proof fn nearest_is_exact(n: int, d: int, m: int, s: nat)
    requires
        n >= 0,
        d > 0,
        m >= 0,
        fits(m),
        s <= 28,
        n * pow10(s) == m * d,
    ensures
        nearest(n, d) matches Some(p) && in_units(p) == in_units((m, s)),
{
    reveal(nearest);
    let t = places(n, d, 28);
    lemma_places(n, d, 28);
    lemma_divides(m * d, d, m, 0);
    lemma_places_at_least(n, d, 28, s);
    let k = (t - s) as nat;
    lemma_pow10(0, k);
    lemma_pow10_add(s, k);
    assert(s + k == t);
    let c = m * pow10(k);
    assert(n * pow10(t) == c * d && c >= 0) by (nonlinear_arith)
        requires
            n * pow10(s) == m * d,
            pow10(t) == pow10(s) * pow10(k),
            c == m * pow10(k),
            m >= 0,
            pow10(k) > 0,
    ;
    lemma_divides(c * d, d, c, 0);
    assert(half_even(c * d, d) == c) by {
        lemma_half_even_scales(c, 1, d);
        lemma_divides(c, 1, c, 0);
        assert(1 * d == d);
    }
    if !fits((n * pow10(t)) / d) {
        assert(t == 0);
        assert(k == 0);
        assert(pow10(0) == 1);
        assert(c == m) by (nonlinear_arith)
            requires
                c == m * pow10(k),
                pow10(k) == 1,
        ;
    }
    lemma_pow10_add(k, (28 - t) as nat);
    assert(k + (28 - t) as nat == (28 - s) as nat);
    assert(c * pow10((28 - t) as nat) == m * pow10((28 - s) as nat)) by (nonlinear_arith)
        requires
            c == m * pow10(k),
            pow10((28 - s) as nat) == pow10(k) * pow10((28 - t) as nat),
    ;
}

/// An integer that does not fit has no nearest decimal.
pub proof fn nearest_of_large_integers(n: int, d: int, m: int)
    requires
        d > 0,
        m >= 0,
        !fits(m),
        n == m * d,
    ensures
        nearest(n, d) is None,
{
    reveal(nearest);
    let t = places(n, d, 28);
    lemma_places(n, d, 28);
    lemma_pow10(0, t);
    let c = m * pow10(t);
    assert(n * pow10(t) == c * d && c >= m) by (nonlinear_arith)
        requires
            n == m * d,
            c == m * pow10(t),
            m >= 0,
            pow10(t) >= 1,
    ;
    lemma_divides(c * d, d, c, 0);
}

/// A fraction of at most `7 * 10^28` has a nearest decimal.
pub proof fn moderate_fractions_have_a_decimal(n: int, d: int)
    requires
        0 <= n <= 70_000_000_000_000_000_000_000_000_000 * d,
        d > 0,
    ensures
        nearest(n, d) is Some,
{
    reveal(nearest);
    let t = places(n, d, 28);
    lemma_places(n, d, 28);
    lemma_pow10(0, t);
    let q = n / d;
    assert(0 <= q <= 70_000_000_000_000_000_000_000_000_000) by (nonlinear_arith)
        requires
            0 <= n <= 70_000_000_000_000_000_000_000_000_000 * d,
            d > 0,
            q == n / d,
    ;
    if t == 0 {
        assert(n * pow10(0) == n);
        lemma_rounded_fraction(n, d);
    }
}

/// The bounds of the nearest decimal, by the number of its decimal places.
proof fn lemma_unit_bounds(n: int, d: int)
    requires
        n >= 0,
        d > 0,
        nearest(n, d) is Some,
    ensures
        ({
            let t = places(n, d, 28);
            let u = in_units(nearest(n, d).unwrap());
            &&& t <= 28
            &&& u <= tenth_of_limit() * pow10((29 - t) as nat)
            &&& t < 28 ==> u >= tenth_of_limit() * pow10((28 - t) as nat)
        }),
{
    reveal(nearest);
    let t = places(n, d, 28);
    lemma_places(n, d, 28);
    lemma_tenth_of_limit();
    lemma_pow10(0, t);
    let x = n * pow10(t);
    assert(x >= 0) by (nonlinear_arith)
        requires
            x == n * pow10(t),
            n >= 0,
            pow10(t) > 0,
    ;
    lemma_rounded_fraction(x, d);
    let q = half_even(x, d);
    if t < 28 {
        lemma_mantissa_is_long(n, d);
    }
    let w = pow10((28 - t) as nat);
    lemma_pow10(0, (28 - t) as nat);
    assert(pow10((29 - t) as nat) == 10 * w);
    let l = tenth_of_limit();
    assert(q * w <= l * (10 * w)) by (nonlinear_arith)
        requires
            q <= 10 * l,
            w > 0,
    ;
    assert(q >= l ==> q * w >= l * w) by (nonlinear_arith)
        requires
            w > 0,
    ;
    assert(l * (10 * w) >= l * w) by (nonlinear_arith)
        requires
            l >= 0,
            w > 0,
    ;
    if !fits(q) {
        assert((28 - (t - 1) as nat) as nat == (29 - t) as nat);
    }
}

/// The nearest decimal keeps the order of fractions.
pub proof fn nearest_is_monotone(n: int, m: int, d: int)
    requires
        0 <= n <= m,
        d > 0,
    ensures
        nearest(m, d) is Some ==> nearest(n, d) is Some,
        nearest(m, d) is Some ==> in_units(nearest(n, d).unwrap()) <= in_units(
            nearest(m, d).unwrap(),
        ),
{
    reveal(nearest);
    if nearest(m, d) is Some {
        let s = places(n, d, 28);
        let t = places(m, d, 28);
        lemma_places(n, d, 28);
        lemma_places(m, d, 28);
        lemma_pow10(0, t);
        lemma_pow10(0, s);
        lemma_tenth_of_limit();
        let x = n * pow10(t);
        let y = m * pow10(t);
        assert(0 <= x <= y) by (nonlinear_arith)
            requires
                x == n * pow10(t),
                y == m * pow10(t),
                0 <= n <= m,
                pow10(t) > 0,
        ;
        lemma_rounded_fraction(x, d);
        lemma_rounded_fraction(y, d);
        assert(x / d <= y / d) by (nonlinear_arith)
            requires
                (x / d) * d <= x,
                x <= y,
                y < (y / d + 1) * d,
                d > 0,
        ;
        lemma_places_at_least(n, d, 28, t);
        let l = tenth_of_limit();
        if s == t {
            lemma_half_even_is_monotone(x, y, d);
            let p = half_even(x, d);
            let q = half_even(y, d);
            let w = pow10((28 - t) as nat);
            lemma_pow10(0, (28 - t) as nat);
            assert(pow10((29 - t) as nat) == 10 * w);
            if t > 0 {
                assert((28 - (t - 1) as nat) as nat == (29 - t) as nat);
            }
            assert(p * w <= q * w) by (nonlinear_arith)
                requires
                    p <= q,
                    w > 0,
            ;
            assert(p <= 10 * l ==> p * w <= l * (10 * w)) by (nonlinear_arith)
                requires
                    w > 0,
            ;
        } else {
            assert(fits((n * pow10(s)) / d));
            let z = n * pow10(s);
            assert(z >= 0) by (nonlinear_arith)
                requires
                    z == n * pow10(s),
                    n >= 0,
                    pow10(s) > 0,
            ;
            lemma_rounded_fraction(z, d);
            assert(nearest(n, d) is Some);
            lemma_unit_bounds(n, d);
            lemma_unit_bounds(m, d);
            let a = pow10((29 - s) as nat);
            let b = pow10((28 - t) as nat);
            lemma_pow10((29 - s) as nat, (28 - t) as nat);
            assert(l * a <= l * b) by (nonlinear_arith)
                requires
                    a <= b,
                    l >= 0,
            ;
        }
    }
}

/// How far off a mantissa `g` is that was rounded from `x / d`, in units: `w` is what a unit of the
/// mantissa makes, `y` the difference. It is small against the units `u`, or less than one of them.
proof fn lemma_off(x: int, d: int, g: int, w: int, y: int, z: int)
    requires
        d > 0,
        w > 0,
        z > 0,
        g >= 0,
        y == (g * d - x) * w,
        -9 * d <= 2 * (g * d - x) <= 9 * d,
        10 * g >= 5 * z || (w == 1 && -d <= 2 * (g * d - x) <= d),
    ensures
        magnitude(y) * z <= d * (z + 10 * (g * w)),
{
    let e = g * d - x;
    let off = magnitude(y);
    let u = g * w;
    assert(u >= 0) by (nonlinear_arith)
        requires
            u == g * w,
            g >= 0,
            w > 0,
    ;
    if 10 * g >= 5 * z {
        assert(off <= 5 * (d * w)) by (nonlinear_arith)
            requires
                y == e * w,
                -9 * d <= 2 * e <= 9 * d,
                w > 0,
                d > 0,
                off == y || off == -y,
        ;
        assert(off * z <= (5 * (d * w)) * z) by (nonlinear_arith)
            requires
                off <= 5 * (d * w),
                z > 0,
        ;
        assert((5 * (d * w)) * z <= d * (10 * u)) by (nonlinear_arith)
            requires
                u == g * w,
                10 * g >= 5 * z,
                d > 0,
                w > 0,
        ;
        assert(d * (10 * u) <= d * (z + 10 * u)) by (nonlinear_arith)
            requires
                d > 0,
                z > 0,
        ;
    } else {
        assert(y == e) by (nonlinear_arith)
            requires
                y == e * w,
                w == 1,
        ;
        assert(off * z <= d * z) by (nonlinear_arith)
            requires
                off <= d,
                z > 0,
        ;
        assert(d * z <= d * (z + 10 * u)) by (nonlinear_arith)
            requires
                d > 0,
                u >= 0,
        ;
    }
}

/// The nearest decimal is near: off by at most `10^-28` and one part in `10^27`.
pub proof fn nearest_is_near(n: int, d: int)
    requires
        n >= 0,
        d > 0,
        nearest(n, d) is Some,
    ensures
        ({
            let u = in_units(nearest(n, d).unwrap());
            &&& u >= 0
            &&& magnitude(u * d - n * pow10(28)) * pow10(28) <= d * (pow10(28) + 10 * u)
        }),
{
    reveal(nearest);
    let t = places(n, d, 28);
    lemma_places(n, d, 28);
    lemma_tenth_of_limit();
    lemma_pow10(0, t);
    nearest_is_valid(n, d);
    let u = in_units(nearest(n, d).unwrap());
    let x = n * pow10(t);
    assert(x >= 0) by (nonlinear_arith)
        requires
            x == n * pow10(t),
            n >= 0,
            pow10(t) > 0,
    ;
    lemma_rounded_fraction(x, d);
    let q = half_even(x, d);
    lemma_half_even(x, d);
    if t < 28 {
        lemma_mantissa_is_long(n, d);
    }
    let w = pow10((28 - t) as nat);
    let z = pow10(28);
    lemma_pow10(0, (28 - t) as nat);
    lemma_pow10_add(t, (28 - t) as nat);
    assert(t + (28 - t) as nat == 28);
    lemma_ten_to_28();
    let g = if fits(q) {
        q
    } else {
        q + 4
    };
    assert(u == g * w) by {
        if !fits(q) {
            assert((28 - (t - 1) as nat) as nat == (29 - t) as nat);
            assert(pow10((29 - t) as nat) == 10 * w);
            assert(tenth_of_limit() * (10 * w) == (10 * tenth_of_limit()) * w) by (nonlinear_arith);
        }
    }
    let y = u * d - n * z;
    assert(y == (g * d - x) * w) by (nonlinear_arith)
        requires
            y == u * d - n * z,
            u == g * w,
            z == pow10(t) * w,
            x == n * pow10(t),
    ;
    assert(-9 * d <= 2 * (g * d - x) <= 9 * d) by (nonlinear_arith)
        requires
            -d <= 2 * (q * d - x) <= d,
            q <= g <= q + 4,
            d > 0,
    ;
    assert(u >= 0) by (nonlinear_arith)
        requires
            u == g * w,
            g >= 0,
            w > 0,
    ;
    assert(10 * g >= 5 * z || (w == 1 && g == q)) by {
        if t == 28 {
            assert(pow10(0) == 1);
        }
    }
    lemma_off(x, d, g, w, y, z);
}

proof fn lemma_ten_to_28()
    ensures
        pow10(28) == 10_000_000_000_000_000_000_000_000_000,
{
    reveal_with_fuel(pow10, 29);
}

/// The closest decimal keeps the order, whatever the signs.
pub proof fn closest_is_monotone(x: int, y: int, d: int)
    requires
        x <= y,
        d > 0,
        closest(x, d) is Some,
        closest(y, d) is Some,
    ensures
        closest(x, d).unwrap() <= closest(y, d).unwrap(),
{
    if x >= 0 {
        nearest_is_monotone(x, y, d);
    } else if y < 0 {
        nearest_is_monotone(-y, -x, d);
    } else {
        closest_has_the_sign(x, d);
        closest_has_the_sign(y, d);
    }
}

/// The closest decimal has the sign of the fraction, or is zero.
pub proof fn closest_has_the_sign(x: int, d: int)
    requires
        d > 0,
    ensures
        closest(x, d) matches Some(u) ==> (x >= 0 ==> u >= 0) && (x <= 0 ==> u <= 0),
{
    let n = magnitude(x);
    nearest_is_valid(n, d);
    if let Some(p) = nearest(n, d) {
        let w = pow10((28 - p.1) as nat);
        lemma_pow10(0, (28 - p.1) as nat);
        assert(p.0 * w >= 0) by (nonlinear_arith)
            requires
                p.0 >= 0,
                w > 0,
        ;
        if x == 0 {
            assert(0 * pow10(0) == 0 * d);
            nearest_is_exact(0, d, 0, 0);
            assert(0 * pow10(28) == 0);
        }
    }
}

/// The closest decimal goes by the fraction alone.
pub proof fn closest_goes_by_the_fraction(x: int, d: int, k: int)
    requires
        d > 0,
        k > 0,
    ensures
        closest(x * k, d * k) == closest(x, d),
{
    let n = magnitude(x);
    nearest_goes_by_the_fraction(n, d, k);
    assert(magnitude(x * k) == n * k && (x * k < 0 <==> x < 0)) by (nonlinear_arith)
        requires
            k > 0,
            n == (if x < 0 {
                -x
            } else {
                x
            }),
            magnitude(x * k) == (if x * k < 0 {
                -(x * k)
            } else {
                x * k
            }),
    ;
}

} // verus!
