//! Where quotes lie, when there are none, and how large orders are, as numbers.
//!
//! Amounts are counted in units of `10^-28`, of which `one` make one; products of two amounts in units
//! of `10^-56`, and so on.
use crate::config::TradingConfig;
use crate::decimal::{
    difference, larger, lemma_of, lemma_pow10, magnitude, minus, pow10, product, quotient, rounded,
    smaller, sum, times, Decimal,
};
use crate::decimal_error::{
    apart, differences_are_near, lemma_one, one, products_are_near, quotients_are_off_little,
    sums_are_near,
};
use crate::decimal_laws::{less_is_by_units, rounding_moves_half_a_tick_at_most, units};
use crate::decimal_order::{
    differences_keep_signs, products_keep_signs, quotients_keep_signs, units_have_the_sign,
};
use crate::quoter::{
    half_capture, lemma_quotes_from, moved_beyond, order_qty, plain_qty, quotes, shifted_ask,
    shifted_bid, skew_shift, spread_fraction,
};
use crate::types::PairInfoView;
use vstd::prelude::*;

verus! {

/// Whether a book and the settings are of ordinary size: prices of a book that is not crossed, the
/// best ask at most five times mid; a capture between nothing and all; a skew between minus one and
/// one; and a mid price of at most `10^23` ticks, of at most 24 decimals.
pub open spec fn ordinary(
    best_bid: Decimal,
    best_ask: Decimal,
    mid: Decimal,
    skew: Decimal,
    capture: Decimal,
    price_decimals: u32,
) -> bool {
    &&& best_bid.valid() && best_ask.valid() && mid.valid() && skew.valid() && capture.valid()
    &&& 0 <= units(best_bid) <= units(best_ask) <= 5 * units(mid)
    &&& units(mid) > 0
    &&& 0 <= units(capture) <= one()
    &&& -one() <= units(skew) <= one()
    &&& price_decimals <= 24
    &&& units(mid) <= pow10(23) * tick_units(price_decimals)
}

/// A tick in units.
pub open spec fn tick_units(decimals: u32) -> int {
    pow10((28 - decimals) as nat)
}

/// Twenty times the price at which a quote is wanted, in units of `10^-84`: half the captured spread
/// away from mid, `side` telling in which direction, and moved up by three tenths of that for a skew
/// of one.
pub open spec fn wanted(
    best_bid: Decimal,
    best_ask: Decimal,
    mid: Decimal,
    skew: Decimal,
    capture: Decimal,
    side: int,
) -> int {
    20 * (one() * one()) * units(mid) + units(capture) * (units(best_ask) - units(best_bid)) * (10
        * side * one() + 3 * units(skew))
}

/// The smaller of two integers.
pub open spec fn least(a: int, b: int) -> int {
    if a <= b {
        a
    } else {
        b
    }
}

/// The larger of two integers.
pub open spec fn most(a: int, b: int) -> int {
    if a >= b {
        a
    } else {
        b
    }
}

/// Whether a price lies at a place, given as [`wanted`] is, up to three quarters of a tick.
pub open spec fn lies_at(price: Decimal, place: int, price_decimals: u32) -> bool {
    4 * apart(20 * (one() * one()) * units(price), place) <= 60 * (one() * one()) * tick_units(
        price_decimals,
    )
}

proof fn lemma_spread(m: int, gg: int, g: int, sp: int, z: int)
    requires
        z >= 1_000_000,
        m > 0,
        0 <= gg <= 5 * m,
        g >= 0,
        sp >= 0,
        apart(g, gg) * z <= 11 * g,
        apart(sp * m, g * z) * z <= m * (z + 10 * sp),
    ensures
        sp <= 7 * z,
        apart(sp * m, gg * z) <= 200 * m,
{
    let e = apart(g, gg);
    let f = apart(sp * m, g * z);
    assert(g <= 6 * m) by (nonlinear_arith)
        requires
            g <= gg + e,
            e * z <= 11 * g,
            gg <= 5 * m,
            z >= 1_000_000,
            m > 0,
            g >= 0,
    ;
    let sm = sp * m;
    let mz = m * z;
    assert(f * z <= mz + 10 * sm) by (nonlinear_arith)
        requires
            f * z <= m * (z + 10 * sp),
            sm == sp * m,
            mz == m * z,
    ;
    assert(g * z <= 6 * mz) by (nonlinear_arith)
        requires
            g <= 6 * m,
            mz == m * z,
            z > 0,
    ;
    assert(sm >= 0 && mz > 0) by (nonlinear_arith)
        requires
            sm == sp * m,
            mz == m * z,
            sp >= 0,
            m > 0,
            z > 0,
    ;
    assert(2 * sm <= 13 * mz) by (nonlinear_arith)
        requires
            sm <= 6 * mz + f,
            f * z <= mz + 10 * sm,
            z >= 1_000_000,
            mz > 0,
            sm >= 0,
            f >= 0,
    ;
    assert(2 * sp <= 13 * z) by (nonlinear_arith)
        requires
            2 * (sp * m) <= 13 * (m * z),
            m > 0,
    ;
    assert(f <= 66 * m) by (nonlinear_arith)
        requires
            f * z <= 66 * (m * z),
            z > 0,
    ;
    let h = apart(g * z, gg * z);
    assert(h == e * z) by (nonlinear_arith)
        requires
            z > 0,
            h == (if g * z - gg * z < 0 {
                -(g * z - gg * z)
            } else {
                g * z - gg * z
            }),
            e == (if g - gg < 0 {
                -(g - gg)
            } else {
                g - gg
            }),
    ;
}

proof fn lemma_half(sp: int, c: int, p: int, h: int, z: int)
    requires
        z >= 1_000_000,
        0 <= sp <= 7 * z,
        0 <= c <= z,
        p >= 0,
        h >= 0,
        apart(p * z, sp * c) <= z + 10 * p,
        apart(h * (2 * z), p * z) * z <= (2 * z) * (z + 10 * h),
    ensures
        h <= 5 * z,
        apart(2 * z * h, sp * c) <= 400 * z,
{
    let sc = sp * c;
    let zz = z * z;
    assert(0 <= sc <= 7 * zz) by (nonlinear_arith)
        requires
            sc == sp * c,
            0 <= sp <= 7 * z,
            0 <= c <= z,
            zz == z * z,
    ;
    assert(p <= 8 * z) by (nonlinear_arith)
        requires
            p * z <= sc + z + 10 * p,
            sc <= 7 * zz,
            zz == z * z,
            z >= 1_000_000,
            p >= 0,
    ;
    let e = apart(h * (2 * z), p * z);
    assert(e <= 2 * z + 20 * h) by (nonlinear_arith)
        requires
            e * z <= (2 * z) * (z + 10 * h),
            z > 0,
    ;
    assert(2 * z * h == h * (2 * z)) by (nonlinear_arith);
    assert(h <= 5 * z) by (nonlinear_arith)
        requires
            h * (2 * z) <= p * z + e,
            e <= 2 * z + 20 * h,
            p <= 8 * z,
            z >= 1_000_000,
            h >= 0,
    ;
}

proof fn lemma_shift(s: int, h: int, x: int, y: int, w: int, z: int)
    requires
        z >= 1_000_000,
        10 * w == 3 * z,
        -z <= s <= z,
        0 <= h <= 5 * z,
        apart(x * z, s * h) <= z + 10 * magnitude(x),
        apart(y * z, x * w) <= z + 10 * magnitude(y),
    ensures
        -3 * z <= y <= 3 * z,
        apart(10 * z * y, 3 * s * h) <= 1000 * z,
{
    let sh = s * h;
    let zz = z * z;
    assert(-5 * zz <= sh <= 5 * zz) by (nonlinear_arith)
        requires
            sh == s * h,
            -z <= s <= z,
            0 <= h <= 5 * z,
            zz == z * z,
            z > 0,
    ;
    let mx = magnitude(x);
    let my = magnitude(y);
    lemma_magnitude_times(x, z);
    lemma_magnitude_times(y, z);
    assert(mx <= 6 * z) by (nonlinear_arith)
        requires
            mx * z <= 5 * zz + z + 10 * mx,
            zz == z * z,
            z >= 1_000_000,
            mx >= 0,
    ;
    let xw = x * w;
    assert(10 * xw == 3 * (x * z)) by (nonlinear_arith)
        requires
            xw == x * w,
            10 * w == 3 * z,
    ;
    assert(-6 * zz <= x * z <= 6 * zz) by (nonlinear_arith)
        requires
            -6 * z <= x <= 6 * z,
            zz == z * z,
            z > 0,
    ;
    assert(my <= 3 * z) by (nonlinear_arith)
        requires
            my * z <= 2 * zz + z + 10 * my,
            zz == z * z,
            z >= 1_000_000,
            my >= 0,
    ;
    assert(10 * z * y == 10 * (y * z) && 3 * s * h == 3 * sh) by (nonlinear_arith)
        requires
            sh == s * h,
    ;
}

/// A magnitude grows with a positive factor.
proof fn lemma_magnitude_times(x: int, z: int)
    requires
        z > 0,
    ensures
        magnitude(x * z) == magnitude(x) * z,
{
    assert(x >= 0 ==> x * z >= 0) by (nonlinear_arith)
        requires
            z > 0,
    ;
    assert(x < 0 ==> x * z < 0) by (nonlinear_arith)
        requires
            z > 0,
    ;
    assert((-x) * z == -(x * z)) by (nonlinear_arith);
}

/// The factor by which a price is away from mid: `f` is one, the half on its side and the shift, and
/// so the part of the spread that is wanted.
proof fn lemma_factor(
    side: int,
    sp: int,
    c: int,
    s: int,
    h: int,
    y: int,
    d: int,
    f: int,
    z: int,
)
    requires
        z >= 1_000_000,
        side == 1 || side == -1,
        0 <= sp <= 7 * z,
        0 <= c <= z,
        -z <= s <= z,
        0 <= h <= 5 * z,
        -3 * z <= y <= 3 * z,
        apart(2 * z * h, sp * c) <= 400 * z,
        apart(10 * z * y, 3 * s * h) <= 1000 * z,
        apart(d, h + side * y) * z <= 11 * magnitude(d),
        apart(f, z + side * d) * z <= 11 * magnitude(f),
    ensures
        -11 * z <= f <= 11 * z,
        apart(20 * (z * z) * f, 20 * (z * z) * z + (sp * c) * (10 * side * z + 3 * s)) <= 12000 * (z
            * z),
{
    let zz = z * z;
    let e1 = apart(d, h + side * y);
    let e2 = apart(f, z + side * d);
    let md = magnitude(d);
    let mf = magnitude(f);
    assert(side * y == y || side * y == -y) by (nonlinear_arith)
        requires
            side == 1 || side == -1,
    ;
    assert(side * d == d || side * d == -d) by (nonlinear_arith)
        requires
            side == 1 || side == -1,
    ;
    assert(md <= 9 * z) by (nonlinear_arith)
        requires
            md <= 8 * z + e1,
            e1 * z <= 11 * md,
            z >= 1_000_000,
            md >= 0,
    ;
    assert(mf <= 11 * z) by (nonlinear_arith)
        requires
            mf <= 10 * z + e2,
            e2 * z <= 11 * mf,
            z >= 1_000_000,
            mf >= 0,
    ;
    assert(e1 <= 99) by (nonlinear_arith)
        requires
            e1 * z <= 11 * md,
            md <= 9 * z,
            z > 0,
    ;
    assert(e2 <= 121) by (nonlinear_arith)
        requires
            e2 * z <= 11 * mf,
            mf <= 11 * z,
            z > 0,
    ;
    let k = f - (z + side * h + y);
    assert(-220 <= k <= 220) by {
        if side == 1 {
            assert(1 * h == h && 1 * y == y && 1 * d == d);
        } else {
            assert((-1) * h == -h && (-1) * y == -y && (-1) * d == -d);
        }
    }
    // Ten times, with the half taken out.
    let sh = s * h;
    let a = 10 * side * z + 3 * s;
    let ha = h * a;
    assert(10 * z * f == 10 * zz + 10 * side * (z * h) + 10 * z * y + 10 * z * k) by (nonlinear_arith)
        requires
            k == f - (z + side * h + y),
            zz == z * z,
    ;
    assert(ha == 10 * side * (z * h) + 3 * sh) by (nonlinear_arith)
        requires
            ha == h * a,
            a == 10 * side * z + 3 * s,
            sh == s * h,
    ;
    assert(3 * s * h == 3 * sh) by (nonlinear_arith)
        requires
            sh == s * h,
    ;
    assert(-2200 * z <= 10 * z * k <= 2200 * z) by (nonlinear_arith)
        requires
            -220 <= k <= 220,
            z > 0,
    ;
    let g = 10 * z * f - (10 * zz + ha);
    assert(-3200 * z <= g <= 3200 * z);
    // Twenty times one, with the spread in the place of the half.
    let b = 2 * z * h - sp * c;
    assert(-13 * z <= a <= 13 * z) by {
        if side == 1 {
            assert(10 * 1 * z == 10 * z);
        } else {
            assert(10 * (-1) * z == -(10 * z)) by (nonlinear_arith);
        }
    }
    let sca = (sp * c) * a;
    assert(2 * z * ha == sca + b * a) by (nonlinear_arith)
        requires
            ha == h * a,
            b == 2 * z * h - sp * c,
            sca == (sp * c) * a,
    ;
    assert(-5200 * zz <= b * a <= 5200 * zz) by (nonlinear_arith)
        requires
            -400 * z <= b <= 400 * z,
            -13 * z <= a <= 13 * z,
            zz == z * z,
            z > 0,
    ;
    assert(20 * zz * f == 20 * (zz * z) + 2 * z * ha + 2 * z * g) by (nonlinear_arith)
        requires
            g == 10 * z * f - (10 * zz + ha),
            zz == z * z,
    ;
    assert(20 * zz * z == 20 * (zz * z)) by (nonlinear_arith);
    assert(-6400 * zz <= 2 * z * g <= 6400 * zz) by (nonlinear_arith)
        requires
            -3200 * z <= g <= 3200 * z,
            zz == z * z,
            z > 0,
    ;
}

/// A price that is mid times the factor lies where it is wanted.
proof fn lemma_price(m: int, gg: int, c: int, sp: int, a: int, f: int, r: int, z: int)
    requires
        z >= 1_000_000,
        m > 0,
        0 <= c <= z,
        -13 * z <= a <= 13 * z,
        apart(sp * m, gg * z) <= 200 * m,
        -11 * z <= f <= 11 * z,
        apart(20 * (z * z) * f, 20 * (z * z) * z + (sp * c) * a) <= 12000 * (z * z),
        apart(r * z, m * f) <= z + 10 * magnitude(r),
    ensures
        apart(20 * (z * z) * r, 20 * (z * z) * m + c * gg * a) <= 17000 * (m * z) + 21 * (z * z),
        -12 * m - 2 <= r <= 12 * m + 2,
{
    let zz = z * z;
    let x = 20 * zz * m + c * gg * a;
    let mr = magnitude(r);
    lemma_magnitude_times(r, z);
    assert(-11 * (m * z) <= m * f <= 11 * (m * z)) by (nonlinear_arith)
        requires
            -11 * z <= f <= 11 * z,
            m > 0,
    ;
    let mz = m * z;
    assert(mr <= 12 * m + 2) by (nonlinear_arith)
        requires
            mr * z <= 11 * mz + z + 10 * mr,
            mz == m * z,
            z >= 1_000_000,
            m > 0,
            mr >= 0,
    ;
    let ca = c * a;
    assert(-13 * zz <= ca <= 13 * zz) by (nonlinear_arith)
        requires
            ca == c * a,
            0 <= c <= z,
            -13 * z <= a <= 13 * z,
            zz == z * z,
    ;
    let b = sp * m - gg * z;
    assert(-2600 * (m * zz) <= b * ca <= 2600 * (m * zz)) by (nonlinear_arith)
        requires
            -200 * m <= b <= 200 * m,
            -13 * zz <= ca <= 13 * zz,
            m > 0,
            zz >= 0,
    ;
    let u = 20 * zz * f - (20 * zz * z + (sp * c) * a);
    assert(-12000 * (m * zz) <= m * u <= 12000 * (m * zz)) by (nonlinear_arith)
        requires
            -12000 * zz <= u <= 12000 * zz,
            m > 0,
    ;
    let v = r * z - m * f;
    // 20 zz times: the product, the factor and the spread.
    assert(m * ((sp * c) * a) == (sp * m) * ca) by (nonlinear_arith)
        requires
            ca == c * a,
    ;
    assert((sp * m) * ca == (gg * z) * ca + b * ca) by (nonlinear_arith)
        requires
            b == sp * m - gg * z,
    ;
    assert((gg * z) * ca == z * (c * gg * a)) by (nonlinear_arith)
        requires
            ca == c * a,
    ;
    assert(20 * zz * (m * f) == m * u + m * (20 * zz * z) + m * ((sp * c) * a)) by (nonlinear_arith)
        requires
            u == 20 * zz * f - (20 * zz * z + (sp * c) * a),
    ;
    assert(z * x == m * (20 * zz * z) + z * (c * gg * a)) by (nonlinear_arith)
        requires
            x == 20 * zz * m + c * gg * a,
    ;
    assert(20 * zz * (r * z) == 20 * zz * (m * f) + 20 * zz * v) by (nonlinear_arith)
        requires
            v == r * z - m * f,
    ;
    assert(20 * zz * (r * z) == z * (20 * zz * r)) by (nonlinear_arith);
    let y = 20 * zz * r - x;
    assert(z * y == m * u + b * ca + 20 * zz * v) by (nonlinear_arith)
        requires
            z * (20 * zz * r) == z * x + m * u + b * ca + 20 * zz * v,
            y == 20 * zz * r - x,
    ;
    let bound = z + 120 * m + 20;
    assert(-bound <= v <= bound);
    assert(-(20 * zz * bound) <= 20 * zz * v <= 20 * zz * bound) by (nonlinear_arith)
        requires
            -bound <= v <= bound,
            zz >= 0,
    ;
    let mzz = m * zz;
    assert(20 * zz * bound == 20 * (zz * z) + 2400 * mzz + 400 * zz) by (nonlinear_arith)
        requires
            bound == z + 120 * m + 20,
            mzz == m * zz,
    ;
    let top = 17000 * mz + 21 * zz;
    assert(z * top == 17000 * mzz + 21 * (zz * z)) by (nonlinear_arith)
        requires
            top == 17000 * mz + 21 * zz,
            mz == m * z,
            mzz == m * zz,
            zz == z * z,
    ;
    assert(400 * zz <= zz * z) by (nonlinear_arith)
        requires
            z >= 1_000_000,
            zz == z * z,
    ;
    assert(-(z * top) <= z * y <= z * top);
    assert(-top <= y <= top) by (nonlinear_arith)
        requires
            -(z * top) <= z * y <= z * top,
            z > 0,
    ;
}

/// Being held back and rounded moves a price by little more than half a tick from where it is wanted.
proof fn lemma_lies_at(r: int, x: int, cap: int, edge: int, out: int, low: bool, m: int, t: int, z: int)
    requires
        z == 10_000_000_000_000_000_000_000_000_000,
        t >= 10_000,
        0 < m <= 100_000_000_000_000_000_000_000 * t,
        apart(20 * (z * z) * r, x) <= 17000 * (m * z) + 21 * (z * z),
        apart(cap, edge) * z <= 11 * magnitude(cap),
        -6 * m - t <= edge <= 6 * m + t,
        -t <= 2 * (out - (if low {
            least(r, cap)
        } else {
            most(r, cap)
        })) <= t,
    ensures
        4 * apart(
            20 * (z * z) * out,
            if low {
                least(x, 20 * (z * z) * edge)
            } else {
                most(x, 20 * (z * z) * edge)
            },
        ) <= 60 * (z * z) * t,
{
    let zz = z * z;
    let tz = t * zz;
    let mz = m * z;
    assert(17000 * mz + 21 * zz <= tz) by (nonlinear_arith)
        requires
            mz == m * z,
            zz == z * z,
            tz == t * zz,
            z == 10_000_000_000_000_000_000_000_000_000,
            t >= 10_000,
            0 < m <= 100_000_000_000_000_000_000_000 * t,
    ;
    let e = apart(cap, edge);
    let mc = magnitude(cap);
    assert(mc <= 7 * m + 2 * t) by (nonlinear_arith)
        requires
            mc <= 6 * m + t + e,
            e * z <= 11 * mc,
            z == 10_000_000_000_000_000_000_000_000_000,
            mc >= 0,
            m > 0,
            t > 0,
    ;
    assert(20 * e <= t) by (nonlinear_arith)
        requires
            e * z <= 11 * mc,
            mc <= 7 * m + 2 * t,
            m <= 100_000_000_000_000_000_000_000 * t,
            z == 10_000_000_000_000_000_000_000_000_000,
            t >= 10_000,
    ;
    let r20 = 20 * zz * r;
    let c20 = 20 * zz * cap;
    let o20 = 20 * zz * out;
    let g20 = 20 * zz * edge;
    assert(zz > 0) by (nonlinear_arith)
        requires
            zz == z * z,
            z == 10_000_000_000_000_000_000_000_000_000,
    ;
    assert(apart(c20, g20) <= tz) by (nonlinear_arith)
        requires
            c20 == 20 * zz * cap,
            g20 == 20 * zz * edge,
            tz == t * zz,
            20 * e <= t,
            e >= cap - edge,
            e >= edge - cap,
            zz > 0,
            apart(c20, g20) == c20 - g20 || apart(c20, g20) == g20 - c20,
    ;
    assert((r <= cap) == (r20 <= c20)) by (nonlinear_arith)
        requires
            r20 == 20 * zz * r,
            c20 == 20 * zz * cap,
            zz > 0,
    ;
    let pick = if low {
        least(r, cap)
    } else {
        most(r, cap)
    };
    let p20 = 20 * zz * pick;
    assert(-(10 * tz) <= o20 - p20 <= 10 * tz) by (nonlinear_arith)
        requires
            o20 == 20 * zz * out,
            p20 == 20 * zz * pick,
            tz == t * zz,
            -t <= 2 * (out - pick) <= t,
            zz > 0,
    ;
    assert(60 * zz * t == 60 * tz) by (nonlinear_arith)
        requires
            tz == t * zz,
    ;
    assert(p20 == if low {
        least(r20, c20)
    } else {
        most(r20, c20)
    });
}

/// What the spread and the captured half are, in units.
pub proof fn lemma_captured(best_bid: Decimal, best_ask: Decimal, mid: Decimal, capture: Decimal)
    requires
        best_bid.valid() && best_ask.valid() && mid.valid() && capture.valid(),
        0 <= units(best_bid) <= units(best_ask) <= 5 * units(mid),
        units(mid) > 0,
        0 <= units(capture) <= one(),
    ensures
        spread_fraction(best_bid, best_ask, mid) matches Some(sp) ==> sp.valid() && 0 <= units(sp) <= 7
            * one() && apart(
            units(sp) * units(mid),
            (units(best_ask) - units(best_bid)) * one(),
        ) <= 200 * units(mid),
        half_capture(best_bid, best_ask, mid, capture) matches Some(h) ==> h.valid() && 0 <= units(h)
            <= 5 * one() && spread_fraction(best_bid, best_ask, mid) is Some && apart(
            2 * one() * units(h),
            units(spread_fraction(best_bid, best_ask, mid).unwrap()) * units(capture),
        ) <= 400 * one(),
{
    lemma_one();
    let z = one();
    let two = Decimal::of(2, 0);
    lemma_of(2, 0);
    assert(units(two) == 2 * z) by {
        assert(2 * pow10(28) == 2 * z);
    }
    units_have_the_sign(mid);
    units_have_the_sign(capture);
    if let Some(g) = difference(best_ask, best_bid) {
        differences_are_near(best_ask, best_bid);
        differences_keep_signs(best_ask, best_bid);
        units_have_the_sign(g);
        if let Some(sp) = quotient(g, mid) {
            quotients_are_off_little(g, mid);
            quotients_keep_signs(g, mid);
            units_have_the_sign(sp);
            lemma_spread(units(mid), units(best_ask) - units(best_bid), units(g), units(sp), z);
            if let Some(p) = product(sp, capture) {
                products_are_near(sp, capture);
                products_keep_signs(sp, capture);
                units_have_the_sign(p);
                if let Some(h) = quotient(p, two) {
                    quotients_are_off_little(p, two);
                    quotients_keep_signs(p, two);
                    units_have_the_sign(h);
                    lemma_half(units(sp), units(capture), units(p), units(h), z);
                }
            }
        }
    }
}

/// What the shift by the skew is, in units.
pub proof fn lemma_shifted(half: Decimal, skew: Decimal)
    requires
        half.valid(),
        skew.valid(),
        0 <= units(half) <= 5 * one(),
        -one() <= units(skew) <= one(),
    ensures
        skew_shift(skew, half) matches Some(y) ==> y.valid() && -3 * one() <= units(y) <= 3 * one()
            && apart(10 * one() * units(y), 3 * units(skew) * units(half)) <= 1000 * one(),
{
    lemma_one();
    let three = Decimal::of(3, 1);
    lemma_of(3, 1);
    assert(10 * units(three) == 3 * one()) by {
        assert(pow10(28) == 10 * pow10(27));
        assert(10 * (3 * pow10(27)) == 3 * (10 * pow10(27)));
    }
    if let Some(x) = product(skew, half) {
        products_are_near(skew, half);
        if let Some(y) = product(x, three) {
            products_are_near(x, three);
            lemma_shift(
                units(skew),
                units(half),
                units(x),
                units(y),
                units(three),
                one(),
            );
        }
    }
}

/// A tick and one in numbers.
proof fn lemma_tick(dp: u32)
    requires
        dp <= 24,
    ensures
        tick_units(dp) >= 10_000,
        units(Decimal::of(1, dp as nat)) == tick_units(dp),
        Decimal::of(1, dp as nat).valid(),
        pow10(23) == 100_000_000_000_000_000_000_000,
{
    lemma_of(1, dp as nat);
    lemma_pow10(4, (28 - dp) as nat);
    assert(pow10(4) == 10_000 && pow10(23) == 100_000_000_000_000_000_000_000) by {
        reveal_with_fuel(pow10, 24);
    }
    assert(1 * tick_units(dp) == tick_units(dp));
}

/// The bid lies half the captured spread below mid, a third of that higher for a skew of about one,
/// and no higher than a tick below the best ask. The ask lies as far above mid, moved in the same
/// direction, and no lower than a tick above the best bid.
pub proof fn quotes_lie_where_they_are_wanted(
    best_bid: Decimal,
    best_ask: Decimal,
    mid: Decimal,
    skew: Decimal,
    config: TradingConfig,
    info: PairInfoView,
)
    requires
        ordinary(
            best_bid,
            best_ask,
            mid,
            skew,
            config.spread_capture_pct,
            info.price_decimals,
        ),
    ensures
        quotes(best_bid, best_ask, mid, skew, config, info) matches Some(Some(q)) ==> {
            let t = tick_units(info.price_decimals);
            let c = config.spread_capture_pct;
            &&& lies_at(
                q.0,
                least(
                    wanted(best_bid, best_ask, mid, skew, c, -1),
                    20 * (one() * one()) * (units(best_ask) - t),
                ),
                info.price_decimals,
            )
            &&& lies_at(
                q.1,
                most(
                    wanted(best_bid, best_ask, mid, skew, c, 1),
                    20 * (one() * one()) * (units(best_bid) + t),
                ),
                info.price_decimals,
            )
        },
{
    if quotes(best_bid, best_ask, mid, skew, config, info) matches Some(Some(_)) {
        lemma_quotes_from(best_bid, best_ask, mid, skew, config, info);
        lemma_one();
        let capture = config.spread_capture_pct;
        let dp = info.price_decimals;
        let t = Decimal::of(1, dp as nat);
        lemma_tick(dp);
        lemma_captured(best_bid, best_ask, mid, capture);
        let sp = spread_fraction(best_bid, best_ask, mid).unwrap();
        let half = half_capture(best_bid, best_ask, mid, capture).unwrap();
        lemma_shifted(half, skew);
        let y = skew_shift(skew, half).unwrap();
        lemma_bid_lies(best_bid, best_ask, mid, skew, capture, sp, half, y, dp);
        lemma_ask_lies(best_bid, best_ask, mid, skew, capture, sp, half, y, dp);
    }
}

/// What is known of the spread, the half and the shift.
spec fn prepared(
    best_bid: Decimal,
    best_ask: Decimal,
    mid: Decimal,
    skew: Decimal,
    capture: Decimal,
    sp: Decimal,
    half: Decimal,
    y: Decimal,
) -> bool {
    let z = one();
    &&& half.valid() && y.valid()
    &&& 0 <= units(sp) <= 7 * z
    &&& apart(units(sp) * units(mid), (units(best_ask) - units(best_bid)) * z) <= 200 * units(mid)
    &&& 0 <= units(half) <= 5 * z
    &&& apart(2 * z * units(half), units(sp) * units(capture)) <= 400 * z
    &&& -3 * z <= units(y) <= 3 * z
    &&& apart(10 * z * units(y), 3 * units(skew) * units(half)) <= 1000 * z
}

proof fn lemma_bid_lies(
    best_bid: Decimal,
    best_ask: Decimal,
    mid: Decimal,
    skew: Decimal,
    capture: Decimal,
    sp: Decimal,
    half: Decimal,
    y: Decimal,
    dp: u32,
)
    requires
        ordinary(best_bid, best_ask, mid, skew, capture, dp),
        prepared(best_bid, best_ask, mid, skew, capture, sp, half, y),
        shifted_bid(mid, half, y) is Some,
        difference(best_ask, Decimal::of(1, dp as nat)) is Some,
    ensures
        lies_at(
            rounded(
                smaller(
                    shifted_bid(mid, half, y).unwrap(),
                    difference(best_ask, Decimal::of(1, dp as nat)).unwrap(),
                ),
                dp as nat,
            ),
            least(
                wanted(best_bid, best_ask, mid, skew, capture, -1),
                20 * (one() * one()) * (units(best_ask) - tick_units(dp)),
            ),
            dp,
        ),
{
    lemma_one();
    lemma_tick(dp);
    let z = one();
    let unit = Decimal::of(1, 0);
    lemma_of(1, 0);
    assert(units(unit) == z) by {
        assert(1 * pow10(28) == z);
    }
    let d = difference(half, y).unwrap();
    differences_are_near(half, y);
    let f = difference(unit, d).unwrap();
    differences_are_near(unit, d);
    let r = product(mid, f).unwrap();
    products_are_near(mid, f);
    assert((-1) * units(y) == -units(y) && (-1) * units(d) == -units(d));
    lemma_factor(-1, units(sp), units(capture), units(skew), units(half), units(y), units(d), units(f), z);
    let gg = units(best_ask) - units(best_bid);
    let a = 10 * (-1) * z + 3 * units(skew);
    lemma_price(units(mid), gg, units(capture), units(sp), a, units(f), units(r), z);
    let t = Decimal::of(1, dp as nat);
    let cap = difference(best_ask, t).unwrap();
    differences_are_near(best_ask, t);
    let pick = smaller(r, cap);
    less_is_by_units(cap, r);
    rounding_moves_half_a_tick_at_most(pick, dp as nat);
    lemma_lies_at(
        units(r),
        wanted(best_bid, best_ask, mid, skew, capture, -1),
        units(cap),
        units(best_ask) - tick_units(dp),
        units(rounded(pick, dp as nat)),
        true,
        units(mid),
        tick_units(dp),
        z,
    );
}

proof fn lemma_ask_lies(
    best_bid: Decimal,
    best_ask: Decimal,
    mid: Decimal,
    skew: Decimal,
    capture: Decimal,
    sp: Decimal,
    half: Decimal,
    y: Decimal,
    dp: u32,
)
    requires
        ordinary(best_bid, best_ask, mid, skew, capture, dp),
        prepared(best_bid, best_ask, mid, skew, capture, sp, half, y),
        shifted_ask(mid, half, y) is Some,
        sum(best_bid, Decimal::of(1, dp as nat)) is Some,
    ensures
        lies_at(
            rounded(
                larger(
                    shifted_ask(mid, half, y).unwrap(),
                    sum(best_bid, Decimal::of(1, dp as nat)).unwrap(),
                ),
                dp as nat,
            ),
            most(
                wanted(best_bid, best_ask, mid, skew, capture, 1),
                20 * (one() * one()) * (units(best_bid) + tick_units(dp)),
            ),
            dp,
        ),
{
    lemma_one();
    lemma_tick(dp);
    let z = one();
    let unit = Decimal::of(1, 0);
    lemma_of(1, 0);
    assert(units(unit) == z) by {
        assert(1 * pow10(28) == z);
    }
    let d = sum(half, y).unwrap();
    sums_are_near(half, y);
    let f = sum(unit, d).unwrap();
    sums_are_near(unit, d);
    let r = product(mid, f).unwrap();
    products_are_near(mid, f);
    assert(1 * units(y) == units(y) && 1 * units(d) == units(d));
    lemma_factor(1, units(sp), units(capture), units(skew), units(half), units(y), units(d), units(f), z);
    let gg = units(best_ask) - units(best_bid);
    let a = 10 * 1 * z + 3 * units(skew);
    lemma_price(units(mid), gg, units(capture), units(sp), a, units(f), units(r), z);
    let t = Decimal::of(1, dp as nat);
    let floor = sum(best_bid, t).unwrap();
    sums_are_near(best_bid, t);
    let pick = larger(r, floor);
    less_is_by_units(r, floor);
    rounding_moves_half_a_tick_at_most(pick, dp as nat);
    lemma_lies_at(
        units(r),
        wanted(best_bid, best_ask, mid, skew, capture, 1),
        units(floor),
        units(best_bid) + tick_units(dp),
        units(rounded(pick, dp as nat)),
        false,
        units(mid),
        tick_units(dp),
        z,
    );
}

/// Without a skew, and where neither quote is held back, bid and ask lie equally far from mid, up to a
/// tick and a half, and as far from each other as the captured part of the spread.
pub proof fn quotes_without_skew_are_symmetric(
    best_bid: Decimal,
    best_ask: Decimal,
    mid: Decimal,
    config: TradingConfig,
    info: PairInfoView,
)
    requires
        ordinary(
            best_bid,
            best_ask,
            mid,
            Decimal::of(0, 0),
            config.spread_capture_pct,
            info.price_decimals,
        ),
        wanted(best_bid, best_ask, mid, Decimal::of(0, 0), config.spread_capture_pct, -1) <= 20 * (one()
            * one()) * (units(best_ask) - tick_units(info.price_decimals)),
        wanted(best_bid, best_ask, mid, Decimal::of(0, 0), config.spread_capture_pct, 1) >= 20 * (one()
            * one()) * (units(best_bid) + tick_units(info.price_decimals)),
    ensures
        quotes(best_bid, best_ask, mid, Decimal::of(0, 0), config, info) matches Some(Some(q)) ==> {
            let t = tick_units(info.price_decimals);
            &&& 2 * apart(units(q.1) - units(mid), units(mid) - units(q.0)) <= 3 * t
            &&& 2 * apart(
                (units(q.1) - units(q.0)) * one(),
                units(config.spread_capture_pct) * (units(best_ask) - units(best_bid)),
            ) <= 3 * (t * one())
        },
{
    let zero = Decimal::of(0, 0);
    lemma_of(0, 0);
    lemma_one();
    assert(units(zero) == 0) by {
        assert(0 * pow10(28) == 0);
    }
    quotes_lie_where_they_are_wanted(best_bid, best_ask, mid, zero, config, info);
    if let Some(Some(q)) = quotes(best_bid, best_ask, mid, zero, config, info) {
        let z = one();
        let t = tick_units(info.price_decimals);
        let w = units(config.spread_capture_pct) * (units(best_ask) - units(best_bid));
        let zz = z * z;
        let k = 20 * zz;
        let up = wanted(best_bid, best_ask, mid, zero, config.spread_capture_pct, 1);
        let down = wanted(best_bid, best_ask, mid, zero, config.spread_capture_pct, -1);
        assert(up == k * units(mid) + 10 * (w * z)) by (nonlinear_arith)
            requires
                up == k * units(mid) + w * (10 * 1 * z + 3 * 0),
        ;
        assert(down == k * units(mid) - 10 * (w * z)) by (nonlinear_arith)
            requires
                down == k * units(mid) + w * (10 * (-1) * z + 3 * 0),
        ;
        let a = units(q.1);
        let b = units(q.0);
        let m = units(mid);
        assert(k * (a + b - 2 * m) == k * a + k * b - 2 * (k * m)) by (nonlinear_arith);
        assert(k * (a - b) == k * a - k * b) by (nonlinear_arith);
        let s = a + b - 2 * m;
        assert(60 * zz * t == 3 * (k * t)) by (nonlinear_arith)
            requires
                k == 20 * zz,
        ;
        assert(k > 0) by (nonlinear_arith)
            requires
                k == 20 * (z * z),
                z > 0,
        ;
        assert(2 * s <= 3 * t && -2 * s <= 3 * t) by (nonlinear_arith)
            requires
                -(3 * (k * t)) <= 2 * (k * s) <= 3 * (k * t),
                k > 0,
        ;
        let g = (a - b) * z - w;
        assert(20 * z * g == k * (a - b) - 20 * (w * z)) by (nonlinear_arith)
            requires
                g == (a - b) * z - w,
                k == 20 * (z * z),
        ;
        assert(2 * g <= 3 * (t * z) && -2 * g <= 3 * (t * z)) by (nonlinear_arith)
            requires
                -(3 * (k * t)) <= 2 * (20 * z * g) <= 3 * (k * t),
                k == 20 * (z * z),
                z > 0,
        ;
    }
}

/// There are quotes if and only if the spread is wide enough: at least twice the maker fee and at
/// least the configured number of basis points of mid, up to rounding.
pub proof fn spreads_must_be_wide_enough(
    best_bid: Decimal,
    best_ask: Decimal,
    mid: Decimal,
    skew: Decimal,
    config: TradingConfig,
    info: PairInfoView,
)
    requires
        best_bid.valid() && best_ask.valid() && mid.valid(),
        config.maker_fee_pct.valid() && config.min_spread_bps.valid(),
        0 <= units(best_bid) <= units(best_ask) <= 5 * units(mid),
        units(mid) > 0,
        0 <= units(config.maker_fee_pct) <= one(),
    ensures
        ({
            let gap = (units(best_ask) - units(best_bid)) * one();
            let fees = 2 * units(config.maker_fee_pct) * units(mid);
            let least_gap = units(config.min_spread_bps) * units(mid);
            let q = quotes(best_bid, best_ask, mid, skew, config, info);
            &&& q matches Some(Some(_)) ==> fees <= gap + 1000 * units(mid) && least_gap <= 10000 * gap
                + 3_000_000 * units(mid)
            &&& q == Some(None::<(Decimal, Decimal)>) ==> gap < fees + 1000 * units(mid) || 10000
                * gap < least_gap + 3_000_000 * units(mid)
        }),
{
    lemma_one();
    let z = one();
    units_have_the_sign(mid);
    let zero = Decimal::of(0, 0);
    lemma_of(0, 0);
    assert(units(zero) == 0) by {
        assert(0 * pow10(28) == 0);
    }
    lemma_captured(best_bid, best_ask, mid, zero);
    let two = Decimal::of(2, 0);
    let many = Decimal::of(10000, 0);
    lemma_of(2, 0);
    lemma_of(10000, 0);
    assert(units(two) == 2 * z && units(many) == 10000 * z) by {
        assert(2 * pow10(28) == 2 * z && 10000 * pow10(28) == 10000 * z);
    }
    let fee = config.maker_fee_pct;
    units_have_the_sign(fee);
    if let (Some(sp), Some(mp)) = (spread_fraction(best_bid, best_ask, mid), product(fee, two)) {
        if let Some(sb) = product(sp, many) {
            products_are_near(fee, two);
            products_are_near(sp, many);
            products_keep_signs(fee, two);
            units_have_the_sign(sp);
            products_keep_signs(sp, many);
            units_have_the_sign(mp);
            units_have_the_sign(sb);
            less_is_by_units(sp, mp);
            less_is_by_units(sb, config.min_spread_bps);
            lemma_wide(
                units(sp),
                units(mp),
                units(sb),
                units(fee),
                units(config.min_spread_bps),
                (units(best_ask) - units(best_bid)) * z,
                units(mid),
                z,
            );
        }
    }
}

proof fn lemma_wide(sp: int, mp: int, sb: int, fee: int, bps: int, gap: int, m: int, z: int)
    requires
        z >= 1_000_000,
        m > 0,
        0 <= sp <= 7 * z,
        mp >= 0,
        sb >= 0,
        0 <= fee <= z,
        apart(sp * m, gap) <= 200 * m,
        apart(mp * z, fee * (2 * z)) <= z + 10 * mp,
        apart(sb * z, sp * (10000 * z)) <= z + 10 * sb,
    ensures
        sp >= mp ==> 2 * fee * m <= gap + 1000 * m,
        sp < mp ==> gap < 2 * fee * m + 1000 * m,
        sb >= bps ==> bps * m <= 10000 * gap + 3_000_000 * m,
        sb < bps ==> 10000 * gap < bps * m + 3_000_000 * m,
{
    assert(mp <= 3 * z) by (nonlinear_arith)
        requires
            mp * z <= fee * (2 * z) + z + 10 * mp,
            fee <= z,
            z >= 1_000_000,
            mp >= 0,
    ;
    let e = mp - 2 * fee;
    assert(-31 <= e <= 31) by (nonlinear_arith)
        requires
            -(z + 10 * mp) <= mp * z - fee * (2 * z) <= z + 10 * mp,
            e == mp - 2 * fee,
            mp <= 3 * z,
            z > 0,
    ;
    assert(sb <= 80_000 * z) by (nonlinear_arith)
        requires
            sb * z <= sp * (10000 * z) + z + 10 * sb,
            sp <= 7 * z,
            z >= 1_000_000,
            sb >= 0,
    ;
    let g = sb - 10000 * sp;
    assert(-800_001 <= g <= 800_001) by (nonlinear_arith)
        requires
            -(z + 10 * sb) <= sb * z - sp * (10000 * z) <= z + 10 * sb,
            g == sb - 10000 * sp,
            sb <= 80_000 * z,
            z > 0,
    ;
    let sm = sp * m;
    if sp >= mp {
        assert(2 * fee * m <= sm + 31 * m) by (nonlinear_arith)
            requires
                2 * fee <= sp + 31,
                sm == sp * m,
                m > 0,
        ;
    } else {
        assert(sm < 2 * fee * m + 31 * m) by (nonlinear_arith)
            requires
                sp < 2 * fee + 31,
                sm == sp * m,
                m > 0,
        ;
    }
    if sb >= bps {
        assert(bps * m <= 10000 * sm + 800_001 * m) by (nonlinear_arith)
            requires
                bps <= 10000 * sp + 800_001,
                sm == sp * m,
                m > 0,
        ;
    } else {
        assert(10000 * sm < bps * m + 800_001 * m) by (nonlinear_arith)
            requires
                10000 * sp < bps + 800_001,
                sm == sp * m,
                m > 0,
        ;
    }
}

/// Quotes are moved if and only if the mid price has moved by more than the threshold, as a fraction
/// of where it was, up to rounding.
pub proof fn moves_are_judged_by_their_share(last: Decimal, now: Decimal, threshold: Decimal)
    requires
        last.valid() && now.valid() && threshold.valid(),
        units(last) > 0,
        0 <= units(threshold) <= one(),
    ensures
        ({
            let way = apart(units(now), units(last)) * one();
            let far = units(threshold) * units(last);
            let m = moved_beyond(last, now, threshold);
            &&& m == Some(true) ==> way + 1000 * units(last) >= far
            &&& m == Some(false) ==> way <= far + 1000 * units(last)
        }),
{
    lemma_one();
    units_have_the_sign(last);
    if let Some(g) = difference(now, last) {
        differences_are_near(now, last);
        if let Some(c) = quotient(g, last) {
            quotients_are_off_little(g, last);
            let a = crate::decimal::absolute(c);
            lemma_of(magnitude(c.m()), c.s());
            let w = pow10((28 - c.s()) as nat);
            lemma_pow10(0, (28 - c.s()) as nat);
            lemma_magnitude_times(c.m(), w);
            assert(units(a) == magnitude(units(c)));
            less_is_by_units(threshold, a);
            lemma_move(
                units(last),
                units(now) - units(last),
                units(g),
                units(c),
                units(threshold),
                one(),
            );
        }
    }
}

proof fn lemma_move(l: int, way: int, g: int, c: int, t: int, z: int)
    requires
        z >= 1_000_000,
        l > 0,
        0 <= t <= z,
        apart(g, way) * z <= 11 * magnitude(g),
        apart(c * l, g * z) * z <= l * (z + 10 * magnitude(c)),
    ensures
        magnitude(c) > t ==> magnitude(way) * z + 1000 * l >= t * l,
        magnitude(c) <= t ==> magnitude(way) * z <= t * l + 1000 * l,
{
    let mc = magnitude(c);
    let mg = magnitude(g);
    let mw = magnitude(way);
    let e = apart(g, way);
    let f = apart(c * l, g * z);
    lemma_magnitude_times(c, l);
    lemma_magnitude_times(g, z);
    let cl = mc * l;
    let gz = mg * z;
    let lz = l * z;
    assert(f * z <= lz + 10 * cl) by (nonlinear_arith)
        requires
            f * z <= l * (z + 10 * mc),
            cl == mc * l,
            lz == l * z,
    ;
    assert(cl - f <= gz <= cl + f);
    assert(gz - 11 * mg <= mw * z <= gz + 11 * mg) by (nonlinear_arith)
        requires
            mw <= mg + e,
            mg <= mw + e,
            e * z <= 11 * mg,
            gz == mg * z,
            z > 0,
    ;
    if mc <= t {
        assert(cl <= lz && cl <= t * l) by (nonlinear_arith)
            requires
                cl == mc * l,
                lz == l * z,
                mc <= t,
                t <= z,
                l > 0,
        ;
        assert(f <= 11 * l) by (nonlinear_arith)
            requires
                f * z <= 11 * (l * z),
                z > 0,
        ;
        assert(mg <= 2 * l) by (nonlinear_arith)
            requires
                mg * z <= lz + 11 * l,
                lz == l * z,
                z >= 1_000_000,
                l > 0,
        ;
    } else {
        assert(cl >= t * l + l) by (nonlinear_arith)
            requires
                cl == mc * l,
                mc >= t + 1,
                l > 0,
        ;
        assert(mw * z >= cl - 2 * l - 100 * (cl / z) - 200) by {
            lemma_move_low(cl, f, gz, mg, mw, l, z);
        }
        let k = cl / z;
        assert(k * z <= cl) by (nonlinear_arith)
            requires
                k == cl / z,
                z > 0,
        ;
        assert(t * l <= lz) by (nonlinear_arith)
            requires
                lz == l * z,
                0 <= t <= z,
                l > 0,
        ;
        if cl <= 2 * lz {
            assert(k <= 2 * l) by (nonlinear_arith)
                requires
                    k * z <= 2 * (l * z),
                    z > 0,
            ;
        } else {
            assert(100 * k + 200 + 2 * l <= cl / 2 + 1000 * l) by (nonlinear_arith)
                requires
                    k * z <= cl,
                    z >= 1_000_000,
                    cl >= 0,
                    l >= 1,
                    k >= 0,
            ;
        }
    }
}

proof fn lemma_move_low(cl: int, f: int, gz: int, mg: int, mw: int, l: int, z: int)
    requires
        z >= 1_000_000,
        l > 0,
        cl >= 0,
        mg >= 0,
        f >= 0,
        gz == mg * z,
        f * z <= l * z + 10 * cl,
        cl - f <= gz <= cl + f,
        gz - 11 * mg <= mw * z,
    ensures
        mw * z >= cl - 2 * l - 100 * (cl / z) - 200,
{
    let k = cl / z;
    assert(cl < (k + 1) * z && k >= 0) by (nonlinear_arith)
        requires
            k == cl / z,
            z > 0,
            cl >= 0,
    ;
    assert(f <= l + 10 * k + 10) by (nonlinear_arith)
        requires
            f * z <= l * z + 10 * cl,
            cl < (k + 1) * z,
            z > 0,
    ;
    assert(mg <= 2 * k + 12 + l / 1000) by (nonlinear_arith)
        requires
            mg * z <= cl + f,
            cl < (k + 1) * z,
            f <= l + 10 * k + 10,
            z >= 1_000_000,
            k >= 0,
            l > 0,
    ;
}

/// What the quantity of an order is uncertain by, for rounding, as a value at the mid price.
pub open spec fn qty_slack(mid: Decimal, order_size: Decimal, min_cost: Decimal) -> int {
    3 * one() + 10 * units(mid) + 100 * (units(order_size) + units(min_cost))
}

/// The quantity of an order is what the configured value buys at the mid price, or what the minimums
/// ask for if that is more, up to a few of the smallest quantity.
pub proof fn quantities_are_worth_the_order_size(
    mid: Decimal,
    order_size: Decimal,
    info: PairInfoView,
)
    requires
        mid.valid() && order_size.valid() && info.min_order_qty.valid() && info.min_cost.valid(),
        units(mid) > 0,
        units(order_size) >= 0,
        units(info.min_order_qty) >= 0,
        units(info.min_cost) >= 0,
        info.qty_decimals <= 28,
    ensures
        order_qty(mid, order_size, info) matches Some(q) ==> {
            let value = units(q) * units(mid);
            let size = units(order_size) * one();
            let least_value = units(info.min_order_qty) * units(mid);
            let least_cost = units(info.min_cost) * one();
            let slack = qty_slack(mid, order_size, info.min_cost);
            let step = pow10((28 - info.qty_decimals) as nat) * units(mid);
            &&& value >= size - step - slack
            &&& value >= least_value - slack
            &&& value >= least_cost - step - slack
            &&& value <= most(size, most(least_value, least_cost)) + 2 * step + slack
        },
{
    lemma_one();
    let z = one();
    let m = units(mid);
    let dp = info.qty_decimals as nat;
    let t = pow10((28 - dp) as nat);
    lemma_pow10(0, (28 - dp) as nat);
    units_have_the_sign(mid);
    units_have_the_sign(order_size);
    units_have_the_sign(info.min_cost);
    units_have_the_sign(info.min_order_qty);
    if let Some(q) = order_qty(mid, order_size, info) {
        let raw = quotient(order_size, mid).unwrap();
        quotients_are_off_little(order_size, mid);
        quotients_keep_signs(order_size, mid);
        units_have_the_sign(raw);
        rounding_moves_half_a_tick_at_most(raw, dp);
        let near = rounded(raw, dp);
        lemma_share_of(units(order_size), m, units(raw), units(near), t, z);
        less_is_by_units(near, info.min_order_qty);
        let plain = plain_qty(mid, order_size, info).unwrap();
        let value = product(plain, mid).unwrap();
        products_are_near(plain, mid);
        let x = units(plain);
        let nm = units(near) * m;
        let lm = units(info.min_order_qty) * m;
        let pm = x * m;
        assert(x >= units(near) && x >= units(info.min_order_qty) && (x == units(near) || x == units(
            info.min_order_qty,
        )));
        assert(pm >= nm && pm >= lm && (pm == nm || pm == lm)) by (nonlinear_arith)
            requires
                pm == x * m,
                nm == units(near) * m,
                lm == units(info.min_order_qty) * m,
                x >= units(near),
                x >= units(info.min_order_qty),
                x == units(near) || x == units(info.min_order_qty),
                m > 0,
        ;
        units_have_the_sign(plain);
        products_keep_signs(plain, mid);
        units_have_the_sign(value);
        less_is_by_units(value, info.min_cost);
        let v = units(value);
        let c = units(info.min_cost);
        if v < c {
            let need = quotient(info.min_cost, mid).unwrap();
            quotients_are_off_little(info.min_cost, mid);
            quotients_keep_signs(info.min_cost, mid);
            units_have_the_sign(need);
            rounding_moves_half_a_tick_at_most(need, dp);
            let up = rounded(need, dp);
            lemma_share_of(c, m, units(need), units(up), t, z);
            let tick = Decimal::of(1, dp);
            lemma_of(1, dp);
            assert(units(tick) == t) by {
                assert(1 * t == t);
            }
            sums_are_near(up, tick);
            lemma_raised_share(c, m, units(up), t, units(q), z);
            assert(v * z <= c * z) by (nonlinear_arith)
                requires
                    v <= c,
                    z > 0,
            ;
        } else {
            assert(c * z <= v * z) by (nonlinear_arith)
                requires
                    c <= v,
                    z > 0,
            ;
            lemma_value_bound(x, m, v, z);
            lemma_value_low(c, v, pm, z);
        }
    }
}

proof fn lemma_value_low(c: int, v: int, pm: int, z: int)
    requires
        z >= 1_000_000,
        0 <= c <= v,
        apart(v * z, pm) <= z + 10 * v,
    ensures
        pm >= c * z - z - 10 * c,
{
    assert(v * z - 10 * v >= c * z - 10 * c) by (nonlinear_arith)
        requires
            0 <= c <= v,
            z >= 1_000_000,
    ;
}

proof fn lemma_value_bound(x: int, m: int, v: int, z: int)
    requires
        z >= 1_000_000,
        apart(v * z, x * m) <= z + 10 * v,
        v >= 0,
    ensures
        10 * v <= x * m + z,
{
    let xm = x * m;
    assert(10 * v <= xm + z) by (nonlinear_arith)
        requires
            v * z <= xm + z + 10 * v,
            v >= 0,
            z >= 1_000_000,
    ;
}

/// A share of an amount, rounded to a tick.
proof fn lemma_share_of(a: int, m: int, r: int, n: int, t: int, z: int)
    requires
        z >= 1_000_000,
        a >= 0,
        m > 0,
        r >= 0,
        t > 0,
        apart(r * m, a * z) * z <= m * (z + 10 * magnitude(r)),
        -t <= 2 * (n - r) <= t,
    ensures
        2 * apart(n * m, a * z) <= t * m + 4 * m + 22 * a + 4,
{
    let rm = r * m;
    let az = a * z;
    let f = apart(rm, az);
    assert(f * z <= m * z + 10 * rm) by (nonlinear_arith)
        requires
            f * z <= m * (z + 10 * r),
            rm == r * m,
    ;
    assert(f <= 2 * m + 11 * a + 1) by (nonlinear_arith)
        requires
            f * z <= m * z + 10 * rm,
            rm <= a * z + f,
            a >= 0,
            m > 0,
            z >= 1_000_000,
    ;
    let nm = n * m;
    let tm = t * m;
    assert(-tm <= 2 * nm - 2 * rm <= tm) by (nonlinear_arith)
        requires
            nm == n * m,
            rm == r * m,
            tm == t * m,
            -t <= 2 * (n - r) <= t,
            m > 0,
    ;
}

/// A share of an amount, rounded to a tick and raised by one.
proof fn lemma_raised_share(a: int, m: int, n: int, t: int, q: int, z: int)
    requires
        z >= 1_000_000,
        a >= 0,
        m > 0,
        t > 0,
        2 * apart(n * m, a * z) <= t * m + 4 * m + 22 * a + 4,
        apart(q, n + t) * z <= 11 * magnitude(q),
    ensures
        2 * (q * m) >= 2 * (a * z) - 6 * m - 60 * a - 10,
        2 * (q * m) <= 2 * (a * z) + 4 * (t * m) + 6 * m + 60 * a + 10,
{
    let e = apart(q, n + t);
    let mq = magnitude(q);
    let w = n + t;
    let mw = magnitude(w);
    assert(e * 1_000 <= mw) by (nonlinear_arith)
        requires
            e * z <= 11 * mq,
            mq <= mw + e,
            z >= 1_000_000,
            e >= 0,
            mw >= 0,
    ;
    let nm = n * m;
    let tm = t * m;
    let qm = q * m;
    let az = a * z;
    let em = e * m;
    assert(qm >= nm + tm - em && qm <= nm + tm + em) by (nonlinear_arith)
        requires
            qm == q * m,
            nm == n * m,
            tm == t * m,
            em == e * m,
            -e <= q - (n + t) <= e,
            m > 0,
    ;
    // The sum is off by its last digit at most.
    let wm = mw * m;
    assert(em * z <= 11 * (wm + em)) by (nonlinear_arith)
        requires
            e * z <= 11 * mq,
            mq <= mw + e,
            em == e * m,
            wm == mw * m,
            m > 0,
    ;
    assert(wm <= nm + tm || wm <= -(nm + tm)) by (nonlinear_arith)
        requires
            wm == mw * m,
            nm == n * m,
            tm == t * m,
            mw == n + t || mw == -(n + t),
    ;
    assert(az >= 0 && tm > 0) by (nonlinear_arith)
        requires
            az == a * z,
            tm == t * m,
            a >= 0,
            z > 0,
            t > 0,
            m > 0,
    ;
    assert(wm <= az + 2 * tm + 2 * m + 11 * a + 2);
    assert(1000 * em <= tm + 1000 * m + 12_000 * a + 1000) by (nonlinear_arith)
        requires
            em * z <= 11 * (wm + em),
            wm <= a * z + 2 * tm + 2 * m + 11 * a + 2,
            z >= 1_000_000,
            a >= 0,
            tm > 0,
            m > 0,
            em >= 0,
    ;
}

/// A spread that just covers the fees, or just comes to the configured minimum, is wide enough: there
/// are no quotes if and only if it falls short of either.
pub proof fn just_wide_enough_is_wide_enough(
    best_bid: Decimal,
    best_ask: Decimal,
    mid: Decimal,
    skew: Decimal,
    config: TradingConfig,
    info: PairInfoView,
    gap: Decimal,
    spread: Decimal,
    bps: Decimal,
    fees: Decimal,
)
    requires
        mid.m() != 0,
        difference(best_ask, best_bid) == Some(gap),
        quotient(gap, mid) == Some(spread),
        product(spread, Decimal::of(10000, 0)) == Some(bps),
        product(config.maker_fee_pct, Decimal::of(2, 0)) == Some(fees),
        spread.valid() && bps.valid() && fees.valid() && config.min_spread_bps.valid(),
        quotes(best_bid, best_ask, mid, skew, config, info) is Some,
    ensures
        quotes(best_bid, best_ask, mid, skew, config, info).unwrap() is Some <==> units(spread)
            >= units(fees) && units(bps) >= units(config.min_spread_bps),
{
    less_is_by_units(spread, fees);
    less_is_by_units(bps, config.min_spread_bps);
}

/// A price that has moved by just the threshold has not moved beyond it; any move from zero has.
pub proof fn thresholds_must_be_passed(
    last: Decimal,
    now: Decimal,
    threshold: Decimal,
    way: Decimal,
    change: Decimal,
)
    requires
        last.m() != 0,
        difference(now, last) == Some(way),
        quotient(way, last) == Some(change),
        change.valid() && threshold.valid(),
    ensures
        moved_beyond(last, now, threshold) == Some(magnitude(units(change)) > units(threshold)),
        forall|zero: Decimal| zero.m() == 0 ==> #[trigger] moved_beyond(zero, now, threshold) == Some(
            true,
        ),
{
    let a = crate::decimal::absolute(change);
    lemma_of(magnitude(change.m()), change.s());
    let w = pow10((28 - change.s()) as nat);
    lemma_pow10(0, (28 - change.s()) as nat);
    lemma_magnitude_times(change.m(), w);
    less_is_by_units(threshold, a);
}

/// Without a mid price there are no quotes, and nothing is ordered.
pub proof fn without_a_price_nothing_is_quoted(
    best_bid: Decimal,
    best_ask: Decimal,
    mid: Decimal,
    skew: Decimal,
    config: TradingConfig,
    info: PairInfoView,
)
    requires
        units(mid) == 0 && mid.valid(),
    ensures
        quotes(best_bid, best_ask, mid, skew, config, info) == Some(None::<(Decimal, Decimal)>),
        order_qty(mid, config.order_size_usd, info) matches Some(q) && units(q) == 0,
{
    units_have_the_sign(mid);
    lemma_of(0, 0);
    assert(0 * pow10(28) == 0);
}

} // verus!
