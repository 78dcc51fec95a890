//! When results are owed: amounts of ordinary size do not overflow.
use crate::collections::{lookup, Entries};
use crate::config::TradingConfig;
use crate::decimal::{
    difference, lemma_of, lemma_pow10, magnitude, pow10, product, quotient, rounded, sum, Decimal,
};
use crate::decimal_error::{
    ample, apart, differences_are_near, lemma_one, moderate_products_do_not_overflow,
    moderate_quotients_do_not_overflow, moderate_totals_do_not_overflow, one, products_are_near,
    quotients_are_off_little, sums_are_near,
};
use crate::decimal_laws::{results_are_valid, rounding_moves_half_a_tick_at_most, units};
use crate::decimal_order::{
    products_keep_signs, quotients_keep_signs, units_have_the_sign,
};
use crate::engine_model::EngineView;
use crate::exposure_laws::lemma_sum_grows;
use crate::inventory::skew_of;
use crate::position::{bought, sale_pnl, sold, Position};
use crate::quote_laws::{lemma_captured, lemma_shifted, ordinary, tick_units};
use crate::quoter::{
    half_capture, moved_beyond, order_qty, plain_qty, quotes, skew_shift, spread_fraction,
};
use crate::risk::{buy_allowed, committed};
use crate::state::{exposure, position_of, BotStateView};
use crate::time::later_by;
use crate::types::{FillView, PairInfoView};
use vstd::prelude::*;

verus! {

/// Whether an amount is a decimal between zero and `10^12`.
pub open spec fn is_modest(d: Decimal) -> bool {
    d.valid() && 0 <= units(d) <= 1_000_000_000_000 * one()
}

/// Twice a modest amount still fits, and so does the product of two modest ones, in a decimal of at
/// most `10^24` and a unit.
proof fn lemma_modest_product(a: Decimal, b: Decimal)
    requires
        is_modest(a),
        is_modest(b),
    ensures
        product(a, b) matches Some(r) && r.valid() && 0 <= units(r) && units(r) * one() <= units(a)
            * units(b) + one() + 10 * units(r) && units(r) <= 2_000_000_000_000_000_000_000_000 * one(),
{
    lemma_one();
    let x = units(a);
    let y = units(b);
    let z = one();
    assert(0 <= x * y <= (1_000_000_000_000 * z) * (1_000_000_000_000 * z)) by (nonlinear_arith)
        requires
            0 <= x <= 1_000_000_000_000 * z,
            0 <= y <= 1_000_000_000_000 * z,
    ;
    moderate_products_do_not_overflow(a, b);
    products_are_near(a, b);
    results_are_valid(a, b);
    units_have_the_sign(a);
    units_have_the_sign(b);
    products_keep_signs(a, b);
    let r = product(a, b).unwrap();
    units_have_the_sign(r);
    let u = units(r);
    assert(u <= 2_000_000_000_000_000_000_000_000 * z) by (nonlinear_arith)
        requires
            u * z <= x * y + z + 10 * u,
            x * y <= (1_000_000_000_000 * z) * (1_000_000_000_000 * z),
            z >= 1_000_000,
            u >= 0,
    ;
}

/// A purchase of a modest quantity at a modest price is booked, whatever modest holding there is.
pub proof fn modest_purchases_are_booked(p: Position, qty: Decimal, price: Decimal)
    requires
        is_modest(p.qty) && is_modest(p.avg_cost) && is_modest(qty) && is_modest(price),
    ensures
        bought(p, qty, price) is Some,
{
    lemma_one();
    let z = one();
    moderate_totals_do_not_overflow(p.qty, qty);
    let n = sum(p.qty, qty).unwrap();
    sums_are_near(p.qty, qty);
    results_are_valid(p.qty, qty);
    units_have_the_sign(n);
    if units(n) > 0 {
        lemma_modest_product(p.qty, p.avg_cost);
        lemma_modest_product(qty, price);
        let a = product(p.qty, p.avg_cost).unwrap();
        let b = product(qty, price).unwrap();
        moderate_totals_do_not_overflow(a, b);
        let t = sum(a, b).unwrap();
        sums_are_near(a, b);
        results_are_valid(a, b);
        lemma_mean_is_modest(
            units(p.qty),
            units(p.avg_cost),
            units(qty),
            units(price),
            units(n),
            units(a),
            units(b),
            units(t),
            z,
        );
        moderate_quotients_do_not_overflow(t, n);
    }
}

proof fn lemma_mean_is_modest(
    h: int,
    c: int,
    q: int,
    p: int,
    n: int,
    a: int,
    b: int,
    t: int,
    z: int,
)
    requires
        z == 10_000_000_000_000_000_000_000_000_000,
        n > 0,
        0 <= h <= 1_000_000_000_000 * z,
        0 <= c <= 1_000_000_000_000 * z,
        0 <= q <= 1_000_000_000_000 * z,
        0 <= p <= 1_000_000_000_000 * z,
        apart(n, h + q) * z <= 11 * magnitude(n),
        0 <= a,
        0 <= b,
        a * z <= h * c + z + 10 * a,
        b * z <= q * p + z + 10 * b,
        apart(t, a + b) * z <= 11 * magnitude(t),
    ensures
        magnitude(t) <= 70_000_000_000_000_000_000_000_000_000 * n,
{
    let m = 1_000_000_000_000 * z;
    assert(h * c <= h * m && q * p <= q * m) by (nonlinear_arith)
        requires
            0 <= c <= m,
            0 <= p <= m,
            h >= 0,
            q >= 0,
    ;
    let k = 1_000_000_000_000int;
    assert(h * m == (k * h) * z && q * m == (k * q) * z) by (nonlinear_arith)
        requires
            m == k * z,
    ;
    assert(a <= 2 * (k * h) + 2) by (nonlinear_arith)
        requires
            a * z <= (k * h) * z + z + 10 * a,
            z >= 1_000_000,
            k * h >= 0,
            a >= 0,
    ;
    assert(b <= 2 * (k * q) + 2) by (nonlinear_arith)
        requires
            b * z <= (k * q) * z + z + 10 * b,
            z >= 1_000_000,
            k * q >= 0,
            b >= 0,
    ;
    let e = apart(n, h + q);
    assert(h + q <= 2 * n) by (nonlinear_arith)
        requires
            h + q <= n + e,
            e * z <= 11 * n,
            z >= 1_000_000,
            n > 0,
            e >= 0,
    ;
    let f = apart(t, a + b);
    let mt = magnitude(t);
    assert(mt <= 2 * (a + b)) by (nonlinear_arith)
        requires
            mt <= a + b + f,
            f * z <= 11 * mt,
            z >= 1_000_000,
            a + b >= 0,
            f >= 0,
            mt >= 0,
    ;
}

/// A sale of a modest quantity is booked, and what it gains can be told.
pub proof fn modest_sales_are_booked(p: Position, qty: Decimal, price: Decimal)
    requires
        is_modest(p.qty) && is_modest(p.avg_cost) && is_modest(qty) && is_modest(price),
    ensures
        sold(p, qty) is Some,
        sale_pnl(p, qty, price) is Some,
{
    lemma_one();
    let z = one();
    moderate_totals_do_not_overflow(p.qty, qty);
    moderate_totals_do_not_overflow(price, p.avg_cost);
    let d = difference(price, p.avg_cost).unwrap();
    differences_are_near(price, p.avg_cost);
    results_are_valid(price, p.avg_cost);
    let u = units(d);
    let e = apart(u, units(price) - units(p.avg_cost));
    let mu = magnitude(u);
    assert(mu <= 2_000_000_000_000 * z) by (nonlinear_arith)
        requires
            mu <= 1_000_000_000_000 * z + e,
            e * z <= 11 * mu,
            z >= 1_000_000,
            mu >= 0,
    ;
    let q = units(qty);
    assert(magnitude(q * u) <= (1_000_000_000_000 * z) * (2_000_000_000_000 * z)) by {
        let big = (1_000_000_000_000 * z) * (2_000_000_000_000 * z);
        assert(-big <= q * u <= big) by (nonlinear_arith)
            requires
                0 <= q <= 1_000_000_000_000 * z,
                mu == u || mu == -u,
                0 <= mu <= 2_000_000_000_000 * z,
                big == (1_000_000_000_000 * z) * (2_000_000_000_000 * z),
        ;
    }
    moderate_products_do_not_overflow(qty, d);
}

/// Whether prices have moved by more than a threshold can be told, unless they have grown out of all
/// proportion.
pub proof fn moves_can_be_judged(last: Decimal, now: Decimal, threshold: Decimal)
    requires
        is_modest(last) && is_modest(now),
        units(now) <= 1_000_000_000_000_000_000_000_000_000 * units(last),
    ensures
        moved_beyond(last, now, threshold) is Some,
{
    lemma_one();
    let z = one();
    units_have_the_sign(last);
    if units(last) > 0 {
        moderate_totals_do_not_overflow(now, last);
        let g = difference(now, last).unwrap();
        differences_are_near(now, last);
        results_are_valid(now, last);
        let mg = magnitude(units(g));
        let e = apart(units(g), units(now) - units(last));
        let b = 1_000_000_000_000_000_000_000_000_000 * units(last);
        assert(mg <= 2 * b) by (nonlinear_arith)
            requires
                mg <= b + e,
                e * z <= 11 * mg,
                z >= 1_000_000,
                mg >= 0,
                b >= 0,
                e >= 0,
        ;
        moderate_quotients_do_not_overflow(g, last);
    }
}

/// The skew can be told of any modest holding, unless it is out of all proportion to the limit.
pub proof fn skews_can_be_told(value: Decimal, max_inventory: Decimal)
    requires
        is_modest(value) && is_modest(max_inventory),
        units(value) <= 1_000_000_000_000_000_000_000_000_000 * units(max_inventory),
    ensures
        skew_of(Some(value), max_inventory) is Some,
{
    lemma_one();
    let z = one();
    let two = Decimal::of(2, 0);
    let unit = Decimal::of(1, 0);
    lemma_of(2, 0);
    lemma_of(1, 0);
    assert(units(two) == 2 * z && units(unit) == z) by {
        assert(2 * pow10(28) == 2 * z && 1 * pow10(28) == z);
    }
    units_have_the_sign(max_inventory);
    if units(max_inventory) > 0 {
        lemma_modest_product(two, value);
        let t = product(two, value).unwrap();
        let u = units(t);
        let v = units(value);
        assert(u <= 3 * v + 2) by (nonlinear_arith)
            requires
                u * z <= (2 * z) * v + z + 10 * u,
                z >= 1_000_000,
                u >= 0,
                v >= 0,
        ;
        moderate_quotients_do_not_overflow(t, max_inventory);
        quotients_are_off_little(t, max_inventory);
        results_are_valid(t, max_inventory);
        units_have_the_sign(t);
        quotients_keep_signs(t, max_inventory);
        let q = quotient(t, max_inventory).unwrap();
        units_have_the_sign(q);
        let m = units(max_inventory);
        let x = units(q);
        lemma_ratio(x, m, u, z);
        moderate_totals_do_not_overflow(unit, q);
    }
}

proof fn lemma_ratio(x: int, m: int, u: int, z: int)
    requires
        z == 10_000_000_000_000_000_000_000_000_000,
        m > 0,
        x >= 0,
        0 <= u <= 4_000_000_000_000_000_000_000_000_000 * m,
        apart(x * m, u * z) * z <= m * (z + 10 * magnitude(x)),
    ensures
        x <= 5_000_000_000_000_000_000_000_000_000 * z,
{
    let xm = x * m;
    let f = apart(xm, u * z);
    assert(f * z <= m * z + 10 * xm) by (nonlinear_arith)
        requires
            f * z <= m * (z + 10 * x),
            xm == x * m,
    ;
    let uz = u * z;
    let k = 4_000_000_000_000_000_000_000_000_000int;
    assert(uz <= (k * m) * z) by (nonlinear_arith)
        requires
            u <= k * m,
            uz == u * z,
            z > 0,
    ;
    assert(xm <= uz + f);
    let kmz = (k * m) * z;
    assert(1000 * f <= 2000 * m + kmz) by (nonlinear_arith)
        requires
            f * z <= m * z + 10 * xm,
            xm <= kmz + f,
            z >= 1_000_000,
            kmz >= 0,
            m > 0,
            f >= 0,
    ;
    assert(m * z >= m * 1_000_000) by (nonlinear_arith)
        requires
            z >= 1_000_000,
            m > 0,
    ;
    let c = 5_000_000_000_000_000_000_000_000_000int;
    assert(x <= c * z) by (nonlinear_arith)
        requires
            x * m <= (k * m) * z + f,
            1000 * f <= 2000 * m + (k * m) * z,
            k == 4_000_000_000_000_000_000_000_000_000,
            c == 5_000_000_000_000_000_000_000_000_000,
            m > 0,
            z >= 1_000_000,
    ;
}

/// Whether and where a pair is quoted can be told of every ordinary book.
pub proof fn ordinary_books_can_be_quoted(
    best_bid: Decimal,
    best_ask: Decimal,
    mid: Decimal,
    skew: Decimal,
    config: TradingConfig,
    info: PairInfoView,
)
    requires
        ordinary(
            best_bid,
            best_ask,
            mid,
            skew,
            config.spread_capture_pct,
            info.price_decimals,
        ),
        config.maker_fee_pct.valid(),
        0 <= units(config.maker_fee_pct) <= one(),
    ensures
        quotes(best_bid, best_ask, mid, skew, config, info) is Some,
{
    lemma_one();
    let z = one();
    let m = units(mid);
    let dp = info.price_decimals;
    let t = tick_units(dp);
    lemma_pow10((28 - dp) as nat, 28);
    lemma_pow10(0, (28 - dp) as nat);
    assert(pow10(23) == 100_000_000_000_000_000_000_000) by {
        reveal_with_fuel(pow10, 24);
    }
    assert(m <= 100_000_000_000_000_000_000_000 * z);
    units_have_the_sign(mid);
    units_have_the_sign(config.spread_capture_pct);
    // The spread, in basis points too, and what the fees ask for.
    moderate_totals_do_not_overflow(best_ask, best_bid);
    let g = difference(best_ask, best_bid).unwrap();
    differences_are_near(best_ask, best_bid);
    results_are_valid(best_ask, best_bid);
    let mg = magnitude(units(g));
    let e = apart(units(g), units(best_ask) - units(best_bid));
    assert(mg <= 6 * m) by (nonlinear_arith)
        requires
            mg <= 5 * m + e,
            e * z <= 11 * mg,
            z >= 1_000_000,
            m > 0,
            mg >= 0,
            e >= 0,
    ;
    moderate_quotients_do_not_overflow(g, mid);
    let capture = config.spread_capture_pct;
    lemma_captured(best_bid, best_ask, mid, capture);
    let sp = spread_fraction(best_bid, best_ask, mid).unwrap();
    let many = Decimal::of(10000, 0);
    let two = Decimal::of(2, 0);
    let unit = Decimal::of(1, 0);
    let three = Decimal::of(3, 1);
    lemma_of(10000, 0);
    lemma_of(2, 0);
    lemma_of(1, 0);
    lemma_of(3, 1);
    assert(units(many) == 10000 * z && units(two) == 2 * z && units(unit) == z) by {
        assert(10000 * pow10(28) == 10000 * z && 2 * pow10(28) == 2 * z && 1 * pow10(28) == z);
    }
    assert(10 * units(three) == 3 * z) by {
        assert(pow10(28) == 10 * pow10(27));
        assert(10 * (3 * pow10(27)) == 3 * (10 * pow10(27)));
    }
    lemma_small_product(sp, many);
    lemma_small_product(config.maker_fee_pct, two);
    // Half of what is captured, and the shift by the skew.
    lemma_small_product(sp, capture);
    let p = product(sp, capture).unwrap();
    moderate_quotients_do_not_overflow(p, two);
    let half = half_capture(best_bid, best_ask, mid, capture).unwrap();
    lemma_small_product(skew, half);
    let x = product(skew, half).unwrap();
    lemma_small_product(x, three);
    lemma_shifted(half, skew);
    let y = skew_shift(skew, half).unwrap();
    // The factors that make bid and ask of the mid price.
    lemma_small_total(half, y);
    let d1 = difference(half, y).unwrap();
    let d2 = sum(half, y).unwrap();
    lemma_small_total(unit, d1);
    lemma_small_total(unit, d2);
    let f1 = difference(unit, d1).unwrap();
    let f2 = sum(unit, d2).unwrap();
    lemma_scaled_mid(mid, f1);
    lemma_scaled_mid(mid, f2);
    // One tick inside the book.
    let tick = Decimal::of(1, dp as nat);
    lemma_of(1, dp as nat);
    assert(units(tick) == t) by {
        assert(1 * t == t);
    }
    moderate_totals_do_not_overflow(best_ask, tick);
    moderate_totals_do_not_overflow(best_bid, tick);
}

/// Whether a number is small: a decimal of at most a million.
spec fn is_small(d: Decimal) -> bool {
    d.valid() && magnitude(units(d)) <= 1_000_000 * one()
}

proof fn lemma_small_product(a: Decimal, b: Decimal)
    requires
        is_small(a),
        is_small(b),
    ensures
        product(a, b) matches Some(r) && r.valid() && magnitude(units(r)) <= 2_000_000_000_000 * one(),
        magnitude(units(a)) <= 1000 * one() && magnitude(units(b)) <= 100 * one() ==> is_small(
            product(a, b).unwrap(),
        ),
{
    lemma_one();
    let z = one();
    let x = units(a);
    let y = units(b);
    let mx = magnitude(x);
    let my = magnitude(y);
    let xy = x * y;
    let mxy = mx * my;
    assert(magnitude(xy) == mxy) by {
        assert(xy == mxy || xy == -mxy) by (nonlinear_arith)
            requires
                xy == x * y,
                mxy == mx * my,
                mx == x || mx == -x,
                my == y || my == -y,
        ;
        assert(mxy >= 0) by (nonlinear_arith)
            requires
                mxy == mx * my,
                mx >= 0,
                my >= 0,
        ;
    }
    assert(mxy <= (1_000_000 * z) * (1_000_000 * z)) by (nonlinear_arith)
        requires
            mxy == mx * my,
            0 <= mx <= 1_000_000 * z,
            0 <= my <= 1_000_000 * z,
    ;
    moderate_products_do_not_overflow(a, b);
    products_are_near(a, b);
    results_are_valid(a, b);
    let r = units(product(a, b).unwrap());
    let mr = magnitude(r);
    assert(mr * z <= mxy + z + 10 * mr) by {
        assert(mr * z == magnitude(r * z)) by {
            if r < 0 {
                assert((-r) * z == -(r * z) && r * z < 0) by (nonlinear_arith)
                    requires
                        r < 0,
                        z > 0,
                ;
            } else {
                assert(r * z >= 0) by (nonlinear_arith)
                    requires
                        r >= 0,
                        z > 0,
                ;
            }
        }
    }
    assert(mr <= 2_000_000_000_000 * z) by (nonlinear_arith)
        requires
            mr * z <= mxy + z + 10 * mr,
            mxy <= (1_000_000 * z) * (1_000_000 * z),
            z >= 1_000_000,
            mr >= 0,
    ;
    if mx <= 1000 * z && my <= 100 * z {
        assert(mxy <= (1000 * z) * (100 * z)) by (nonlinear_arith)
            requires
                mxy == mx * my,
                0 <= mx <= 1000 * z,
                0 <= my <= 100 * z,
        ;
        assert(mr <= 1_000_000 * z) by (nonlinear_arith)
            requires
                mr * z <= mxy + z + 10 * mr,
                mxy <= (1000 * z) * (100 * z),
                z >= 1_000_000,
                mr >= 0,
        ;
    }
}

proof fn lemma_small_total(a: Decimal, b: Decimal)
    requires
        a.valid() && b.valid(),
        magnitude(units(a)) <= 20 * one(),
        magnitude(units(b)) <= 20 * one(),
    ensures
        sum(a, b) matches Some(r) && r.valid() && magnitude(units(r)) <= magnitude(units(a))
            + magnitude(units(b)) + 500,
        difference(a, b) matches Some(r) && r.valid() && magnitude(units(r)) <= magnitude(units(a))
            + magnitude(units(b)) + 500,
{
    lemma_one();
    let z = one();
    moderate_totals_do_not_overflow(a, b);
    sums_are_near(a, b);
    differences_are_near(a, b);
    results_are_valid(a, b);
    let s = magnitude(units(sum(a, b).unwrap()));
    let d = magnitude(units(difference(a, b).unwrap()));
    let e = apart(units(sum(a, b).unwrap()), units(a) + units(b));
    let f = apart(units(difference(a, b).unwrap()), units(a) - units(b));
    assert(e <= 500) by (nonlinear_arith)
        requires
            e * z <= 11 * s,
            s <= 40 * z + e,
            z >= 1_000_000,
            e >= 0,
    ;
    assert(f <= 500) by (nonlinear_arith)
        requires
            f * z <= 11 * d,
            d <= 40 * z + f,
            z >= 1_000_000,
            f >= 0,
    ;
}

proof fn lemma_scaled_mid(mid: Decimal, f: Decimal)
    requires
        mid.valid() && f.valid(),
        0 < units(mid) <= 100_000_000_000_000_000_000_000 * one(),
        magnitude(units(f)) <= 20 * one(),
    ensures
        product(mid, f) is Some,
{
    lemma_one();
    let z = one();
    let m = units(mid);
    let u = units(f);
    let mu = magnitude(u);
    let big = (100_000_000_000_000_000_000_000 * z) * (20 * z);
    assert(-big <= m * u <= big) by (nonlinear_arith)
        requires
            0 < m <= 100_000_000_000_000_000_000_000 * z,
            mu == u || mu == -u,
            0 <= mu <= 20 * z,
            big == (100_000_000_000_000_000_000_000 * z) * (20 * z),
    ;
    assert(big <= ample() * z) by (nonlinear_arith)
        requires
            big == (100_000_000_000_000_000_000_000 * z) * (20 * z),
            ample() == 70_000_000_000_000_000_000_000_000_000 * z,
            z > 0,
    ;
    moderate_products_do_not_overflow(mid, f);
}

/// A quotient of modest size, and what rounding it to decimal places makes of it.
proof fn lemma_modest_share(a: Decimal, mid: Decimal, dp: nat)
    requires
        is_modest(a),
        is_modest(mid),
        units(mid) > 0,
        units(a) <= 1_000_000_000_000 * units(mid),
        dp <= 28,
    ensures
        quotient(a, mid) matches Some(q) && q.valid() && rounded(q, dp).valid() && -one() <= units(
            rounded(q, dp),
        ) <= 3_000_000_000_000 * one(),
{
    lemma_one();
    let z = one();
    units_have_the_sign(mid);
    units_have_the_sign(a);
    moderate_quotients_do_not_overflow(a, mid);
    quotients_are_off_little(a, mid);
    results_are_valid(a, mid);
    quotients_keep_signs(a, mid);
    let q = quotient(a, mid).unwrap();
    units_have_the_sign(q);
    rounding_moves_half_a_tick_at_most(q, dp);
    lemma_pow10((28 - dp) as nat, 28);
    let x = units(q);
    let m = units(mid);
    let u = units(a);
    let k = 1_000_000_000_000int;
    let xm = x * m;
    let f = apart(xm, u * z);
    assert(f * z <= m * z + 10 * xm) by (nonlinear_arith)
        requires
            f * z <= m * (z + 10 * x),
            xm == x * m,
    ;
    assert(u * z <= (k * m) * z) by (nonlinear_arith)
        requires
            u <= k * m,
            z > 0,
    ;
    let kmz = (k * m) * z;
    assert(xm <= kmz + f);
    assert(1000 * f <= 2000 * m + kmz) by (nonlinear_arith)
        requires
            f * z <= m * z + 10 * xm,
            xm <= kmz + f,
            z >= 1_000_000,
            kmz >= 0,
            m > 0,
            f >= 0,
    ;
    assert(x <= 2_000_000_000_000 * z) by (nonlinear_arith)
        requires
            x * m <= (k * m) * z + f,
            1000 * f <= 2000 * m + (k * m) * z,
            k == 1_000_000_000_000,
            m > 0,
            z >= 1_000_000,
    ;
}

/// The quantity of an order can be told of every modest price, size and minimum, unless they are out
/// of all proportion.
pub proof fn quantities_can_be_told(mid: Decimal, order_size: Decimal, info: PairInfoView)
    requires
        is_modest(mid) && is_modest(order_size) && is_modest(info.min_order_qty) && is_modest(
            info.min_cost,
        ),
        units(order_size) <= 1_000_000_000_000 * units(mid),
        units(info.min_cost) <= 1_000_000_000_000 * units(mid),
        info.qty_decimals <= 28,
    ensures
        order_qty(mid, order_size, info) is Some,
{
    lemma_one();
    let z = one();
    let dp = info.qty_decimals as nat;
    units_have_the_sign(mid);
    if units(mid) > 0 {
        lemma_modest_share(order_size, mid, dp);
        lemma_modest_share(info.min_cost, mid, dp);
        let plain = plain_qty(mid, order_size, info).unwrap();
        let x = units(plain);
        let m = units(mid);
        let big = (3_000_000_000_000 * z) * (1_000_000_000_000 * z);
        assert(-big <= x * m <= big) by (nonlinear_arith)
            requires
                -z <= x <= 3_000_000_000_000 * z,
                0 < m <= 1_000_000_000_000 * z,
                big == (3_000_000_000_000 * z) * (1_000_000_000_000 * z),
                z > 0,
        ;
        assert(big <= ample() * z) by (nonlinear_arith)
            requires
                big == (3_000_000_000_000 * z) * (1_000_000_000_000 * z),
                ample() == 70_000_000_000_000_000_000_000_000_000 * z,
                z == 10_000_000_000_000_000_000_000_000_000,
        ;
        moderate_products_do_not_overflow(plain, mid);
        let need = rounded(quotient(info.min_cost, mid).unwrap(), dp);
        let tick = Decimal::of(1, dp);
        lemma_of(1, dp);
        lemma_pow10((28 - dp) as nat, 28);
        lemma_pow10(0, (28 - dp) as nat);
        let t = pow10((28 - dp) as nat);
        assert(units(tick) == t) by {
            assert(1 * t == t);
        }
        moderate_totals_do_not_overflow(need, tick);
    }
}

/// Whether a total is a decimal of at most `3 * 10^24` for each of `n` amounts.
spec fn is_total_of(t: Decimal, n: int) -> bool {
    t.valid() && 0 <= units(t) <= n * (3_000_000_000_000_000_000_000_000 * one())
}

proof fn lemma_total_grows(t: Decimal, n: int, v: Decimal)
    requires
        0 <= n < 10_000,
        is_total_of(t, n),
        v.valid(),
        0 <= units(v) <= 2_000_000_000_000_000_000_000_000 * one(),
    ensures
        sum(t, v) matches Some(r) && is_total_of(r, n + 1),
{
    lemma_one();
    let z = one();
    let c = 3_000_000_000_000_000_000_000_000 * z;
    assert(n * c <= 10_000 * c && (n + 1) * c == n * c + c) by (nonlinear_arith)
        requires
            0 <= n < 10_000,
            c > 0,
    ;
    moderate_totals_do_not_overflow(t, v);
    sums_are_near(t, v);
    results_are_valid(t, v);
    let r = sum(t, v).unwrap();
    units_have_the_sign(t);
    units_have_the_sign(v);
    lemma_sum_grows(t, v);
    units_have_the_sign(r);
    let e = apart(units(r), units(t) + units(v));
    let mr = magnitude(units(r));
    let w = units(t) + units(v);
    assert(e * 1000 <= w) by (nonlinear_arith)
        requires
            e * z <= 11 * mr,
            mr <= w + e,
            z >= 1_000_000,
            w >= 0,
            e >= 0,
    ;
    assert(e <= 1_000_000_000_000_000_000_000_000 * z) by (nonlinear_arith)
        requires
            e * z <= 11 * mr,
            mr <= w + e,
            w <= 40_000 * c,
            c == 3_000_000_000_000_000_000_000_000 * z,
            z == 10_000_000_000_000_000_000_000_000_000,
            e >= 0,
    ;
}

/// Whether all holdings, prices and tracked orders have modest amounts, and there are no more than
/// `10^4` of each.
pub open spec fn books_are_modest(state: BotStateView, prices: Entries<Decimal>) -> bool {
    &&& state.positions.len() <= 10_000
    &&& state.open_orders.len() <= 10_000
    &&& forall|i: int|
        0 <= i < state.positions.len() ==> is_modest((#[trigger] state.positions[i]).1.qty)
    &&& forall|k: Seq<char>|
        #![trigger lookup(prices, k)]
        lookup(prices, k) matches Some(p) ==> is_modest(p)
    &&& forall|i: int|
        0 <= i < state.open_orders.len() ==> is_modest((#[trigger] state.open_orders[i]).1.price)
            && is_modest(state.open_orders[i].1.qty)
}

proof fn lemma_exposure_is_modest(state: BotStateView, prices: Entries<Decimal>, n: int)
    requires
        books_are_modest(state, prices),
        0 <= n <= state.positions.len(),
    ensures
        exposure(state.positions.take(n), prices) matches Some(t) && is_total_of(t, n),
    decreases n,
{
    lemma_one();
    let s = state.positions.take(n);
    if n == 0 {
        lemma_of(0, 0);
        assert(0 * pow10(28) == 0);
    } else {
        assert(s.drop_last() =~= state.positions.take(n - 1));
        assert(s.last() == state.positions[n - 1]);
        lemma_exposure_is_modest(state, prices, n - 1);
        let before = exposure(s.drop_last(), prices).unwrap();
        match lookup(prices, s.last().0) {
            Some(price) => {
                lemma_modest_product(s.last().1.qty, price);
                lemma_total_grows(before, n - 1, product(s.last().1.qty, price).unwrap());
            },
            None => {
                let c = 3_000_000_000_000_000_000_000_000 * one();
                assert((n - 1) * c <= n * c) by (nonlinear_arith)
                    requires
                        c > 0,
                ;
            },
        }
    }
}

proof fn lemma_commitments_are_modest(
    state: BotStateView,
    prices: Entries<Decimal>,
    pair: Option<Seq<char>>,
    n: int,
)
    requires
        books_are_modest(state, prices),
        0 <= n <= state.open_orders.len(),
    ensures
        committed(state.open_orders.take(n), pair) matches Some(t) && is_total_of(t, n),
    decreases n,
{
    lemma_one();
    let s = state.open_orders.take(n);
    if n == 0 {
        lemma_of(0, 0);
        assert(0 * pow10(28) == 0);
    } else {
        assert(s.drop_last() =~= state.open_orders.take(n - 1));
        assert(s.last() == state.open_orders[n - 1]);
        lemma_commitments_are_modest(state, prices, pair, n - 1);
        let before = committed(s.drop_last(), pair).unwrap();
        let o = s.last().1;
        lemma_modest_product(o.price, o.qty);
        lemma_total_grows(before, n - 1, product(o.price, o.qty).unwrap());
        let c = 3_000_000_000_000_000_000_000_000 * one();
        assert((n - 1) * c <= n * c) by (nonlinear_arith)
            requires
                c > 0,
        ;
    }
}

/// Whether a buy is allowed can be told of modest books.
pub proof fn buys_can_be_judged(
    state: BotStateView,
    pair: Seq<char>,
    size: Decimal,
    price: Decimal,
    prices: Entries<Decimal>,
    max_pair: Decimal,
    max_total: Decimal,
)
    requires
        books_are_modest(state, prices),
        is_modest(position_of(state.positions, pair).qty),
        is_modest(size) && is_modest(price),
    ensures
        buy_allowed(state, pair, size, price, prices, max_pair, max_total) is Some,
{
    lemma_one();
    let z = one();
    let c = 3_000_000_000_000_000_000_000_000 * z;
    let np = state.positions.len() as int;
    let no = state.open_orders.len() as int;
    assert(state.positions.take(np) =~= state.positions);
    assert(state.open_orders.take(no) =~= state.open_orders);
    assert(np * c <= 10_000 * c && no * c <= 10_000 * c) by (nonlinear_arith)
        requires
            0 <= np <= 10_000,
            0 <= no <= 10_000,
            c > 0,
    ;
    lemma_exposure_is_modest(state, prices, np);
    lemma_commitments_are_modest(state, prices, None, no);
    lemma_commitments_are_modest(state, prices, Some(pair), no);
    let held = position_of(state.positions, pair).qty;
    lemma_modest_product(held, price);
    lemma_three_fit(
        product(held, price).unwrap(),
        committed(state.open_orders, Some(pair)).unwrap(),
        size,
    );
    lemma_three_fit(
        exposure(state.positions, prices).unwrap(),
        committed(state.open_orders, None).unwrap(),
        size,
    );
}

proof fn lemma_three_fit(a: Decimal, b: Decimal, c: Decimal)
    requires
        a.valid() && b.valid() && is_modest(c),
        0 <= units(a) <= 10_000 * (3_000_000_000_000_000_000_000_000 * one()),
        0 <= units(b) <= 10_000 * (3_000_000_000_000_000_000_000_000 * one()),
    ensures
        sum(a, b) matches Some(r) && sum(r, c) is Some,
{
    lemma_one();
    let z = one();
    moderate_totals_do_not_overflow(a, b);
    sums_are_near(a, b);
    results_are_valid(a, b);
    let r = sum(a, b).unwrap();
    let e = apart(units(r), units(a) + units(b));
    let mr = magnitude(units(r));
    let w = units(a) + units(b);
    assert(e * 1000 <= w) by (nonlinear_arith)
        requires
            e * z <= 11 * mr,
            mr <= w + e,
            z >= 1_000_000,
            w >= 0,
            e >= 0,
    ;
    moderate_totals_do_not_overflow(r, c);
}

/// What a modest sale gains is at most `3 * 10^24`, either way.
proof fn lemma_gain_fits(p: Position, qty: Decimal, price: Decimal)
    requires
        is_modest(p.qty) && is_modest(p.avg_cost) && is_modest(qty) && is_modest(price),
    ensures
        sale_pnl(p, qty, price) matches Some(g) && g.valid() && magnitude(units(g))
            <= 3_000_000_000_000_000_000_000_000 * one(),
{
    lemma_one();
    let z = one();
    modest_sales_are_booked(p, qty, price);
    let d = difference(price, p.avg_cost).unwrap();
    differences_are_near(price, p.avg_cost);
    results_are_valid(price, p.avg_cost);
    let g = product(qty, d).unwrap();
    products_are_near(qty, d);
    results_are_valid(qty, d);
    let u = units(d);
    let mu = magnitude(u);
    let e = apart(u, units(price) - units(p.avg_cost));
    assert(mu <= 2_000_000_000_000 * z) by (nonlinear_arith)
        requires
            mu <= 1_000_000_000_000 * z + e,
            e * z <= 11 * mu,
            z >= 1_000_000,
            mu >= 0,
    ;
    let q = units(qty);
    let r = units(g);
    let mr = magnitude(r);
    let big = (1_000_000_000_000 * z) * (2_000_000_000_000 * z);
    assert(-big <= q * u <= big) by (nonlinear_arith)
        requires
            0 <= q <= 1_000_000_000_000 * z,
            mu == u || mu == -u,
            0 <= mu <= 2_000_000_000_000 * z,
            big == (1_000_000_000_000 * z) * (2_000_000_000_000 * z),
    ;
    assert(mr <= 3_000_000_000_000_000_000_000_000 * z) by (nonlinear_arith)
        requires
            r * z <= big + z + 10 * mr,
            -(r * z) <= big + z + 10 * mr,
            mr == r || mr == -r,
            mr >= 0,
            big == (1_000_000_000_000 * z) * (2_000_000_000_000 * z),
            z >= 1_000_000,
    ;
}

/// A modest fill is booked as long as the totals are not huge, trades can be counted and a cooldown
/// would end in time.
pub proof fn modest_fills_are_booked(e: EngineView, fill: FillView)
    requires
        is_modest(e.position(fill.pair).qty) && is_modest(e.position(fill.pair).avg_cost),
        is_modest(fill.qty) && is_modest(fill.price) && is_modest(fill.fee),
        e.state.total_fees.valid() && e.state.realized_pnl.valid(),
        magnitude(units(e.state.total_fees)) <= 10_000_000_000_000_000_000_000_000_000 * one(),
        magnitude(units(e.state.realized_pnl)) <= 10_000_000_000_000_000_000_000_000_000 * one(),
        e.state.trade_count < u64::MAX,
        later_by(fill.timestamp, e.config.risk.cooldown_after_liquidation_secs) is Some,
    ensures
        e.booked(fill) is Some,
{
    reveal(EngineView::booked);
    lemma_one();
    let z = one();
    let held = e.position(fill.pair);
    modest_purchases_are_booked(held, fill.qty, fill.price);
    modest_sales_are_booked(held, fill.qty, fill.price);
    lemma_gain_fits(held, fill.qty, fill.price);
    moderate_totals_do_not_overflow(e.state.total_fees, fill.fee);
    let g = sale_pnl(held, fill.qty, fill.price).unwrap();
    moderate_totals_do_not_overflow(g, fill.fee);
    let net = difference(g, fill.fee).unwrap();
    differences_are_near(g, fill.fee);
    results_are_valid(g, fill.fee);
    let mn = magnitude(units(net));
    let f = apart(units(net), units(g) - units(fill.fee));
    assert(mn <= 5_000_000_000_000_000_000_000_000 * z) by (nonlinear_arith)
        requires
            mn <= 4_000_000_000_000_000_000_000_000 * z + f,
            f * z <= 11 * mn,
            z >= 1_000_000,
            mn >= 0,
            f >= 0,
    ;
    moderate_totals_do_not_overflow(e.state.realized_pnl, net);
}

} // verus!
