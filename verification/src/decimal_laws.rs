//! What holds of decimals as numbers.
use crate::decimal::{
    assembled, assembled_signed, ceiling, common_scale, cut_down, difference, fits, half_even,
    lemma_at_own_scale, lemma_of, lemma_pow10, less, magnitude, mantissa_at, mantissa_ratio, nearest,
    pow10, product, quotient, raised, rounded, rounded_quotient, same, signed, sum, totalled,
    truncated, valid_parts, Decimal, MAX_SCALE, MAX_TRUNCATION,
};
use crate::decimal_nearest::{
    in_units, nearest_is_exact, nearest_is_valid, nearest_of_large_integers,
};
use crate::decimal_order::quotients_are_nearest;
use vstd::prelude::*;

verus! {

/// The number of a decimal, counted in units of `10^-28`.
pub open spec fn units(d: Decimal) -> int {
    d.m() * pow10((28 - d.s()) as nat)
}

/// Powers of ten multiply by adding exponents.
pub proof fn lemma_pow10_add(a: nat, b: nat)
    ensures
        pow10(a + b) == pow10(a) * pow10(b),
    decreases a,
{
    if a == 0 {
        assert(pow10(0) == 1);
    } else {
        lemma_pow10_add((a - 1) as nat, b);
        let x = pow10((a - 1) as nat);
        let y = pow10(b);
        assert(((a - 1) as nat) + b == (a + b - 1) as nat);
        assert(10 * (x * y) == (10 * x) * y) by (nonlinear_arith);
    }
}

proof fn lemma_units_lifted(a: Decimal, b: Decimal)
    requires
        a.valid(),
        b.valid(),
    ensures
        units(a) * pow10(a.s() + b.s()) == (a.m() * pow10(b.s())) * pow10(28),
{
    let rest = (28 - a.s()) as nat;
    lemma_pow10_add(rest, a.s());
    lemma_pow10_add(a.s(), b.s());
    assert(rest + a.s() == 28);
    let m = a.m();
    let x = pow10(rest);
    let y = pow10(a.s());
    let z = pow10(b.s());
    assert((m * x) * (y * z) == (m * z) * (x * y)) by (nonlinear_arith);
}

/// Decimals compare as their numbers do.
pub proof fn less_is_by_units(a: Decimal, b: Decimal)
    requires
        a.valid(),
        b.valid(),
    ensures
        less(a, b) <==> units(a) < units(b),
        same(a, b) <==> units(a) == units(b),
{
    lemma_units_lifted(a, b);
    lemma_units_lifted(b, a);
    lemma_pow10(0, 28);
    lemma_pow10(0, a.s() + b.s());
    let p = pow10(a.s() + b.s());
    let q = pow10(28);
    let x = units(a);
    let y = units(b);
    let u = a.m() * pow10(b.s());
    let v = b.m() * pow10(a.s());
    assert((x < y <==> u < v) && (x == y <==> u == v)) by (nonlinear_arith)
        requires
            x * p == u * q,
            y * p == v * q,
            p > 0,
            q > 0,
    ;
}

/// The order of decimals is a strict total order on their numbers.
pub proof fn order_is_total(a: Decimal, b: Decimal, c: Decimal)
    requires
        a.valid(),
        b.valid(),
        c.valid(),
    ensures
        !less(a, a),
        less(a, b) || same(a, b) || less(b, a),
        less(a, b) ==> !less(b, a) && !same(a, b),
        less(a, b) && less(b, c) ==> less(a, c),
        same(a, b) && less(b, c) ==> less(a, c),
        less(a, b) && same(b, c) ==> less(a, c),
{
    less_is_by_units(a, b);
    less_is_by_units(b, a);
    less_is_by_units(b, c);
    less_is_by_units(a, c);
    less_is_by_units(a, a);
}

/// The units of a number brought to a larger scale.
pub proof fn lemma_units_at(a: Decimal, s: nat)
    requires
        a.valid(),
        a.s() <= s <= 28,
    ensures
        mantissa_at(a, s) * pow10((28 - s) as nat) == units(a),
{
    let x = (s - a.s()) as nat;
    let y = (28 - s) as nat;
    lemma_pow10_add(x, y);
    assert(x + y == (28 - a.s()) as nat);
    let m = a.m();
    let p = pow10(x);
    let q = pow10(y);
    assert((m * p) * q == m * (p * q)) by (nonlinear_arith);
}

/// A sum that fits is exact.
pub proof fn exact_sum_adds_units(a: Decimal, b: Decimal)
    requires
        a.valid(),
        b.valid(),
        fits(mantissa_at(a, common_scale(a, b)) + mantissa_at(b, common_scale(a, b))),
    ensures
        sum(a, b) matches Some(r) && r.valid() && units(r) == units(a) + units(b),
{
    let s = common_scale(a, b);
    let t = mantissa_at(a, s) + mantissa_at(b, s);
    lemma_of(t, s);
    lemma_units_at(a, s);
    lemma_units_at(b, s);
    let p = pow10((28 - s) as nat);
    let x = mantissa_at(a, s);
    let y = mantissa_at(b, s);
    assert((x + y) * p == x * p + y * p) by (nonlinear_arith);
    if a.m() == 0 {
        assert(units(a) == 0) by (nonlinear_arith)
            requires
                a.m() == 0,
                units(a) == a.m() * pow10((28 - a.s()) as nat),
        ;
    }
    if b.m() == 0 {
        assert(units(b) == 0) by (nonlinear_arith)
            requires
                b.m() == 0,
                units(b) == b.m() * pow10((28 - b.s()) as nat),
        ;
    }
}

/// A difference that fits is exact.
pub proof fn exact_difference_subtracts_units(a: Decimal, b: Decimal)
    requires
        a.valid(),
        b.valid(),
        fits(mantissa_at(a, common_scale(a, b)) - mantissa_at(b, common_scale(a, b))),
    ensures
        difference(a, b) matches Some(r) && r.valid() && units(r) == units(a) - units(b),
{
    let s = common_scale(a, b);
    let t = mantissa_at(a, s) - mantissa_at(b, s);
    lemma_of(t, s);
    lemma_of(-b.m(), b.s());
    lemma_units_at(a, s);
    lemma_units_at(b, s);
    let p = pow10((28 - s) as nat);
    let x = mantissa_at(a, s);
    let y = mantissa_at(b, s);
    assert((x - y) * p == x * p - y * p) by (nonlinear_arith);
    if a.m() == 0 {
        assert(units(a) == 0) by (nonlinear_arith)
            requires
                a.m() == 0,
                units(a) == a.m() * pow10((28 - a.s()) as nat),
        ;
        let w = pow10((28 - b.s()) as nat);
        assert((-b.m()) * w == -(b.m() * w)) by (nonlinear_arith);
    }
    if b.m() == 0 {
        assert(units(b) == 0) by (nonlinear_arith)
            requires
                b.m() == 0,
                units(b) == b.m() * pow10((28 - b.s()) as nat),
        ;
    }
}

/// Rounding a fraction moves it by half at most.
pub proof fn lemma_half_even(m: int, d: int)
    requires
        d > 0,
    ensures
        -d <= 2 * (half_even(m, d) * d - m) <= d,
        magnitude(half_even(m, d)) <= magnitude(m) / d + 1,
{
    let n = magnitude(m);
    let q = n / d;
    let r = n % d;
    assert(n == q * d + r && 0 <= r < d) by (nonlinear_arith)
        requires
            d > 0,
            q == n / d,
            r == n % d,
    ;
    assert((q + 1) * d == q * d + d) by (nonlinear_arith);
    assert((-q) * d == -(q * d)) by (nonlinear_arith);
    assert((-(q + 1)) * d == -(q * d) - d) by (nonlinear_arith);
}

/// Rounding to `dp` places moves a number by half a unit of the last place at most.
pub proof fn rounding_moves_half_a_tick_at_most(a: Decimal, dp: nat)
    requires
        a.valid(),
        dp <= MAX_SCALE,
    ensures
        rounded(a, dp).valid(),
        -pow10((28 - dp) as nat) <= 2 * (units(rounded(a, dp)) - units(a)) <= pow10(
            (28 - dp) as nat,
        ),
{
    lemma_pow10(0, (28 - dp) as nat);
    if a.s() > dp {
        let k = (a.s() - dp) as nat;
        let d = pow10(k);
        lemma_pow10(1, k);
        assert(pow10(1) == 10) by {
            reveal_with_fuel(pow10, 2);
        }
        let r = half_even(a.m(), d);
        lemma_half_even(a.m(), d);
        let n = magnitude(a.m());
        assert(n / d <= n / 10) by (nonlinear_arith)
            requires
                d >= 10,
                n >= 0,
        ;
        lemma_of(r, dp);
        let w = pow10((28 - a.s()) as nat);
        lemma_pow10(0, (28 - a.s()) as nat);
        lemma_pow10_add(k, (28 - a.s()) as nat);
        assert(k + (28 - a.s()) as nat == (28 - dp) as nat);
        let m = a.m();
        assert(r * (d * w) - m * w == (r * d - m) * w) by (nonlinear_arith);
        let gap = r * d - m;
        assert(-(d * w) <= 2 * (gap * w) <= d * w) by (nonlinear_arith)
            requires
                -d <= 2 * gap <= d,
                w > 0,
        ;
    }
}

/// The ceiling is the only integer that reaches the quotient and would not if it were one less.
proof fn lemma_ceiling(m: int, d: int, x: int)
    requires
        d > 0,
        x * d >= m,
        (x - 1) * d < m,
    ensures
        x == ceiling(m, d),
{
    let q = (-m) / d;
    assert(q * d <= -m && -m < (q + 1) * d) by (nonlinear_arith)
        requires
            d > 0,
            q == (-m) / d,
    ;
    assert(x == -q) by (nonlinear_arith)
        requires
            d > 0,
            x * d >= m,
            (x - 1) * d < m,
            q * d <= -m,
            -m < (q + 1) * d,
    ;
}

/// A number is raised by rounding it and, if that is below, going one tick further. The result is
/// not below the number and less than one tick above it.
pub proof fn raising_is_by_less_than_a_tick(a: Decimal, dp: nat)
    requires
        a.valid(),
        dp <= MAX_SCALE,
    ensures
        raised(a, dp).valid(),
        units(a) <= units(raised(a, dp)) < units(a) + pow10((28 - dp) as nat),
        !less(raised(a, dp), a),
        less(rounded(a, dp), a) ==> sum(rounded(a, dp), Decimal::of(1, dp)) == Some(raised(a, dp)),
        !less(rounded(a, dp), a) ==> raised(a, dp) == rounded(a, dp),
{
    lemma_pow10(0, (28 - dp) as nat);
    if a.s() > dp {
        let k = (a.s() - dp) as nat;
        let d = pow10(k);
        lemma_pow10(1, k);
        assert(pow10(1) == 10) by {
            reveal_with_fuel(pow10, 2);
        }
        let m = a.m();
        let h = half_even(m, d);
        lemma_half_even(m, d);
        let n = magnitude(m);
        assert(n / d <= n / 10) by (nonlinear_arith)
            requires
                d >= 10,
                n >= 0,
        ;
        let r = rounded(a, dp);
        lemma_of(h, dp);
        // The order of the two is that of the mantissas at the scale of `a`.
        let y = pow10(dp);
        lemma_pow10(0, dp);
        lemma_pow10_add(k, dp);
        assert(k + dp == a.s());
        assert(h * (d * y) == (h * d) * y) by (nonlinear_arith);
        assert(((h * d) * y < m * y) == (h * d < m)) by (nonlinear_arith)
            requires
                y > 0,
        ;
        assert(less(r, a) == (h * d < m));
        assert((h + 1) * d == h * d + d && (h - 1) * d == h * d - d) by (nonlinear_arith);
        let c = if h * d < m {
            h + 1
        } else {
            h
        };
        lemma_ceiling(m, d, c);
        lemma_of(c, dp);
        if h * d < m {
            let tick = Decimal::of(1, dp);
            lemma_of(1, dp);
            lemma_at_own_scale(r);
            lemma_at_own_scale(tick);
        }
        let w = pow10((28 - a.s()) as nat);
        lemma_pow10(0, (28 - a.s()) as nat);
        lemma_pow10_add(k, (28 - a.s()) as nat);
        assert(k + (28 - a.s()) as nat == (28 - dp) as nat);
        assert(c * (d * w) == (c * d) * w) by (nonlinear_arith);
        let cd = c * d;
        assert(m * w <= cd * w && cd * w < m * w + d * w) by (nonlinear_arith)
            requires
                m <= cd < m + d,
                w > 0,
        ;
    }
    less_is_by_units(raised(a, dp), a);
    less_is_by_units(rounded(a, dp), a);
}

/// Whether a price one tick above or below `p`, at `dp` decimal places, is computed exactly.
pub open spec fn tick_fits(p: Decimal, dp: nat) -> bool {
    let tick = Decimal::of(1, dp);
    let s = common_scale(p, tick);
    &&& dp <= MAX_SCALE
    &&& fits(mantissa_at(p, s) + mantissa_at(tick, s))
    &&& fits(mantissa_at(p, s) - mantissa_at(tick, s))
}

/// A price at least a tick below another stays below it when it is rounded to whole ticks.
pub proof fn rounding_does_not_reach_up(v: Decimal, p: Decimal, cap: Decimal, dp: nat)
    requires
        v.valid(),
        p.valid(),
        cap.valid(),
        tick_fits(p, dp),
        difference(p, Decimal::of(1, dp)) == Some(cap),
        !less(cap, v),
    ensures
        less(rounded(v, dp), p),
{
    let tick = Decimal::of(1, dp);
    lemma_of(1, dp);
    lemma_pow10(0, (28 - dp) as nat);
    exact_difference_subtracts_units(p, tick);
    rounding_moves_half_a_tick_at_most(v, dp);
    less_is_by_units(cap, v);
    less_is_by_units(rounded(v, dp), p);
}

/// A price at least a tick above another stays above it when it is rounded to whole ticks.
pub proof fn rounding_does_not_reach_down(v: Decimal, p: Decimal, floor: Decimal, dp: nat)
    requires
        v.valid(),
        p.valid(),
        floor.valid(),
        tick_fits(p, dp),
        sum(p, Decimal::of(1, dp)) == Some(floor),
        !less(v, floor),
    ensures
        less(p, rounded(v, dp)),
{
    let tick = Decimal::of(1, dp);
    lemma_of(1, dp);
    lemma_pow10(0, (28 - dp) as nat);
    exact_sum_adds_units(p, tick);
    rounding_moves_half_a_tick_at_most(v, dp);
    less_is_by_units(v, floor);
    less_is_by_units(p, rounded(v, dp));
}

/// A quotient is a decimal again, whatever the divisor.
pub proof fn quotients_are_valid(a: Decimal, b: Decimal)
    requires
        a.valid(),
    ensures
        quotient(a, b) matches Some(r) ==> r.valid(),
{
    lemma_of(0, 0);
    if b.m() != 0 {
        let n = magnitude(a.m());
        let d = magnitude(b.m());
        assert(0 <= n / d <= n) by (nonlinear_arith)
            requires
                n >= 0,
                d >= 1,
        ;
        let q = mantissa_ratio(a, b);
        if a.s() >= b.s() {
            lemma_of(q, (a.s() - b.s()) as nat);
        } else {
            let t = q * pow10((b.s() - a.s()) as nat);
            if fits(t) {
                lemma_of(t, 0);
            }
        }
        lemma_assembled_valid(rounded_quotient(a.m(), a.s(), b.m(), b.s()));
        let x = n * pow10(b.s());
        let y = d * pow10(a.s());
        lemma_signed_valid((a.m() < 0) != (b.m() < 0), nearest(x, y));
    }
}

proof fn lemma_totalled_valid(t: int, s: nat)
    requires
        s <= MAX_SCALE,
    ensures
        totalled(t, s) matches Some(r) ==> r.valid(),
{
    if fits(t) {
        lemma_of(t, s);
    }
    lemma_signed_valid(t < 0, nearest(magnitude(t), pow10(s)));
}

/// Results of arithmetic are decimals again.
pub proof fn results_are_valid(a: Decimal, b: Decimal)
    requires
        a.valid(),
        b.valid(),
    ensures
        sum(a, b) matches Some(r) ==> r.valid(),
        difference(a, b) matches Some(r) ==> r.valid(),
        product(a, b) matches Some(r) ==> r.valid(),
        quotient(a, b) matches Some(r) ==> r.valid(),
{
    let s = common_scale(a, b);
    let x = mantissa_at(a, s);
    let y = mantissa_at(b, s);
    lemma_of(0, 0);
    lemma_of(-b.m(), b.s());
    lemma_totalled_valid(x + y, s);
    lemma_totalled_valid(x - y, s);
    let m = a.m() * b.m();
    if a.s() + b.s() <= MAX_SCALE {
        lemma_totalled_valid(m, a.s() + b.s());
    }
    lemma_signed_valid(m < 0, nearest(magnitude(m), pow10(a.s() + b.s())));
    quotients_are_valid(a, b);
}

proof fn lemma_signed_valid(negative: bool, parts: Option<(int, nat)>)
    ensures
        assembled_signed(negative, parts) matches Some(r) ==> r.valid(),
{
    if let Some(p) = parts {
        lemma_assembled_valid(Some((signed(negative, p.0), p.1)));
    }
}

/// A decimal times a power of ten is exact, if it does not overflow.
proof fn lemma_times_power_of_ten(v: Decimal, k: nat)
    requires
        v.valid(),
        k <= 19,
    ensures
        fits(v.m() * pow10(k)) ==> product(v, Decimal::of(pow10(k), 0)) is Some,
        product(v, Decimal::of(pow10(k), 0)) matches Some(r) ==> r.valid() && r.m() * pow10(v.s())
            == v.m() * pow10(k) * pow10(r.s()),
{
    let f = pow10(k);
    lemma_pow10(0, k);
    lemma_pow10(k, 19);
    assert(pow10(19) == 10_000_000_000_000_000_000) by {
        reveal_with_fuel(pow10, 20);
    }
    assert(pow10(0) == 1);
    lemma_of(f, 0);
    lemma_of(0, 0);
    let b = Decimal::of(f, 0);
    results_are_valid(v, b);
    let s = v.s();
    if v.m() == 0 {
        assert(0 * pow10(s) == 0 && 0 * f * pow10(0) == 0);
    } else if fits(v.m() * f) {
        lemma_of(v.m() * f, s);
    } else {
        let m = v.m();
        let c = m * f;
        let n = magnitude(c);
        let d = pow10(s);
        lemma_pow10(0, s);
        assert(n == magnitude(m) * f && (c < 0 <==> m < 0)) by (nonlinear_arith)
            requires
                f > 0,
                c == m * f,
                n == (if c < 0 {
                    -c
                } else {
                    c
                }),
                magnitude(m) == (if m < 0 {
                    -m
                } else {
                    m
                }),
        ;
        if s >= k {
            // The power of ten takes decimal places away.
            let rest = (s - k) as nat;
            lemma_pow10_add(k, rest);
            assert(k + rest == s);
            assert(n * pow10(rest) == magnitude(m) * d) by (nonlinear_arith)
                requires
                    n == magnitude(m) * f,
                    d == f * pow10(rest),
            ;
            nearest_is_exact(n, d, magnitude(m), rest);
            lemma_exact_product(v, b, magnitude(m), rest);
        } else {
            let rest = (k - s) as nat;
            lemma_pow10_add(rest, s);
            assert(rest + s == k);
            let whole = magnitude(m) * pow10(rest);
            lemma_pow10(0, rest);
            assert(n == whole * d && whole >= 0) by (nonlinear_arith)
                requires
                    n == magnitude(m) * f,
                    f == pow10(rest) * d,
                    whole == magnitude(m) * pow10(rest),
                    magnitude(m) >= 0,
                    pow10(rest) > 0,
            ;
            if fits(whole) {
                assert(n * pow10(0) == whole * d);
                nearest_is_exact(n, d, whole, 0);
                lemma_exact_product(v, b, whole, 0);
            } else {
                nearest_of_large_integers(n, d, whole);
            }
        }
    }
}

/// A product whose nearest decimal is `w / 10^x`, with `w / 10^x` its magnitude, is exact.
proof fn lemma_exact_product(v: Decimal, b: Decimal, w: int, x: nat)
    requires
        v.valid(),
        b.valid(),
        b.s() == 0,
        b.m() > 0,
        v.m() != 0,
        !fits(v.m() * b.m()),
        x <= 28,
        w >= 0,
        magnitude(v.m() * b.m()) * pow10(x) == w * pow10(v.s()),
        nearest(magnitude(v.m() * b.m()), pow10(v.s())) matches Some(p) && in_units(p) == in_units(
            (w, x),
        ),
    ensures
        product(v, b) matches Some(r) && r.m() * pow10(v.s()) == v.m() * b.m() * pow10(r.s()),
{
    let c = v.m() * b.m();
    let n = magnitude(c);
    let d = pow10(v.s());
    lemma_pow10(0, v.s());
    nearest_is_valid(n, d);
    let p = nearest(n, d).unwrap();
    let m = signed(c < 0, p.0);
    lemma_of(m, p.1);
    let a = pow10((28 - p.1) as nat);
    let e = pow10((28 - x) as nat);
    let i = pow10(p.1);
    let j = pow10(x);
    lemma_pow10(0, (28 - p.1) as nat);
    lemma_pow10(0, p.1);
    lemma_pow10(0, x);
    lemma_pow10_add(p.1, (28 - p.1) as nat);
    lemma_pow10_add(x, (28 - x) as nat);
    assert(p.1 + (28 - p.1) as nat == 28 && x + (28 - x) as nat == 28);
    // p.0 / i is w / j, which is n / d.
    assert(p.0 * j == w * i) by (nonlinear_arith)
        requires
            p.0 * a == w * e,
            i * a == j * e,
            a > 0,
            i > 0,
            j > 0,
    ;
    assert(p.0 * d == n * i) by (nonlinear_arith)
        requires
            p.0 * j == w * i,
            n * j == w * d,
            j > 0,
    ;
    assert(m * d == c * i) by (nonlinear_arith)
        requires
            p.0 * d == n * i,
            m == p.0 && c == n || m == -p.0 && c == -n,
    ;
}

/// The quotient of an integer by a power of ten is exact.
proof fn lemma_over_power_of_ten(a: Decimal, k: nat)
    requires
        a.valid(),
        a.s() == 0,
        k <= 19,
    ensures
        quotient(a, Decimal::of(pow10(k), 0)) matches Some(t) && t.valid() && t.m() * pow10(k)
            == a.m() * pow10(t.s()),
{
    let f = pow10(k);
    lemma_pow10(0, k);
    lemma_pow10(k, 19);
    assert(pow10(19) == 10_000_000_000_000_000_000) by {
        reveal_with_fuel(pow10, 20);
    }
    assert(pow10(0) == 1);
    lemma_of(f, 0);
    let b = Decimal::of(f, 0);
    let n = magnitude(a.m());
    assert(n * 1 == n && f * 1 == f);
    nearest_is_exact(n, f, n, k);
    quotients_are_nearest(a, b);
    results_are_valid(a, b);
    let t = quotient(a, b).unwrap();
    let w = pow10((28 - k) as nat);
    let z = pow10((28 - t.s()) as nat);
    let i = pow10(t.s());
    lemma_pow10(0, (28 - k) as nat);
    lemma_pow10(0, (28 - t.s()) as nat);
    lemma_pow10(0, t.s());
    lemma_pow10_add(k, (28 - k) as nat);
    lemma_pow10_add(t.s(), (28 - t.s()) as nat);
    assert(k + (28 - k) as nat == 28 && t.s() + (28 - t.s()) as nat == 28);
    let m = a.m();
    assert(t.m() * z == m * w) by {
        assert((-n) * w == -(n * w)) by (nonlinear_arith);
    }
    assert(t.m() * f == m * i) by (nonlinear_arith)
        requires
            t.m() * z == m * w,
            f * w == i * z,
            w > 0,
            z > 0,
            f > 0,
            i > 0,
    ;
}

/// Truncation never rounds up: it gives the largest number with `dp` decimal places that is not
/// above the value. It succeeds whenever the value fits once it is scaled up.
pub proof fn truncation_cuts_down(v: Decimal, dp: u32)
    requires
        v.valid(),
    ensures
        truncated(v, dp) matches Some(t) ==> t.valid() && cut_down(v, dp as nat, t),
        dp <= MAX_TRUNCATION && fits(v.m() * pow10(dp as nat)) ==> truncated(v, dp) is Some,
{
    if dp <= MAX_TRUNCATION {
        let k = dp as nat;
        lemma_times_power_of_ten(v, k);
        if let Some(scaled) = product(v, Decimal::of(pow10(k), 0)) {
            let f = pow10(k);
            let d = pow10(v.s());
            let e = pow10(scaled.s());
            lemma_pow10(0, k);
            lemma_pow10(0, v.s());
            lemma_pow10(0, scaled.s());
            let n = scaled.m();
            let q = n / e;
            assert(q * e <= n < (q + 1) * e && -magnitude(n) <= q <= magnitude(n)) by (
            nonlinear_arith)
                requires
                    q == n / e,
                    e >= 1,
                    magnitude(n) == (if n < 0 {
                        -n
                    } else {
                        n
                    }),
            ;
            lemma_of(q, 0);
            let whole = Decimal::of(q, 0);
            lemma_over_power_of_ten(whole, k);
            let t = quotient(whole, Decimal::of(f, 0)).unwrap();
            let w = pow10(t.s());
            lemma_pow10(0, t.s());
            let m = v.m();
            let a = t.m();
            assert(n * d == m * f * e);
            // The floor of the scaled value is that of `m * f / d`.
            assert(q * d <= m * f < (q + 1) * d) by (nonlinear_arith)
                requires
                    q * e <= n < (q + 1) * e,
                    n * d == m * f * e,
                    e > 0,
                    d > 0,
            ;
            assert(a * f == q * w);
            assert((q * w) % w == 0) by (nonlinear_arith)
                requires
                    w > 0,
            ;
            assert(a * d <= m * w) by (nonlinear_arith)
                requires
                    a * f == q * w,
                    q * d <= m * f,
                    f > 0,
                    w > 0,
                    d > 0,
            ;
            assert((m * w - a * d) * f < d * w) by (nonlinear_arith)
                requires
                    a * f == q * w,
                    m * f < (q + 1) * d,
                    w > 0,
            ;
        }
    }
}

proof fn lemma_assembled_valid(parts: Option<(int, nat)>)
    ensures
        assembled(parts) matches Some(r) ==> r.valid(),
{
    if let Some(p) = parts {
        if valid_parts(p.0, p.1) {
            lemma_of(p.0, p.1);
        }
    }
}

} // verus!
