//! What the limits mean, as numbers: of exposure, inventory and requests.
//!
//! Where results are rounded, the laws hold up to a few parts in `10^26` per amount that is added up;
//! amounts are counted in units of `10^-28` and products of two amounts in units of `10^-56`.
use crate::collections::{lookup, Entries};
use crate::decimal::{
    difference, larger, lemma_of, lemma_pow10, less, magnitude, plus, pow10, product, quotient,
    sum, Decimal,
};
use crate::decimal_error::{
    apart, differences_are_near, lemma_one, one, products_are_near, quotients_are_off_little,
    sums_are_near,
};
use crate::decimal_laws::{less_is_by_units, results_are_valid, units};
use crate::decimal_nearest::closest_is_monotone;
use crate::decimal_order::{
    decimals_are_closest_to_themselves, products_keep_signs, quotients_keep_signs, sums_are_closest,
    units_have_the_sign,
};
use crate::inventory::skew_of;
use crate::position::Position;
use crate::risk::{buy_allowed, committed, rate_status, RateStatus};
use crate::state::{exposure, position_of, BotStateView, TrackedOrderView};
use crate::types::OrderSide;
use vstd::prelude::*;

verus! {

/// What holdings are worth at the known prices, exactly; those without a price count nothing.
pub open spec fn held_value(positions: Entries<Position>, prices: Entries<Decimal>) -> int
    decreases positions.len(),
{
    if positions.len() == 0 {
        0
    } else {
        held_value(positions.drop_last(), prices) + match lookup(prices, positions.last().0) {
            Some(price) => units(positions.last().1.qty) * units(price),
            None => 0,
        }
    }
}

/// What the tracked buys come to, exactly: those of one pair, or all.
pub open spec fn buys_value(orders: Entries<TrackedOrderView>, pair: Option<Seq<char>>) -> int
    decreases orders.len(),
{
    if orders.len() == 0 {
        0
    } else {
        let o = orders.last().1;
        buys_value(orders.drop_last(), pair) + if o.side == OrderSide::Buy && (pair is None
            || o.pair == pair.unwrap()) {
            units(o.price) * units(o.qty)
        } else {
            0
        }
    }
}

/// Whether an amount is a decimal that is not negative.
pub open spec fn proper_amount(d: Decimal) -> bool {
    d.valid() && d.m() >= 0
}

/// Whether all holdings, prices and tracked orders have amounts that are not negative.
pub open spec fn amounts_are_proper(state: BotStateView, prices: Entries<Decimal>) -> bool {
    &&& forall|i: int|
        0 <= i < state.positions.len() ==> proper_amount((#[trigger] state.positions[i]).1.qty)
    &&& forall|k: Seq<char>|
        #![trigger lookup(prices, k)]
        lookup(prices, k) matches Some(p) ==> proper_amount(p)
    &&& forall|i: int|
        0 <= i < state.open_orders.len() ==> proper_amount((#[trigger] state.open_orders[i]).1.price)
            && proper_amount(state.open_orders[i].1.qty)
}

/// Whether a total is what some exact value is, up to the rounding of `n` amounts.
pub open spec fn totals_to(total: Decimal, exact: int, n: int) -> bool {
    apart(units(total) * one(), exact) <= n * (one() + 21 * units(total))
}

/// A sum of amounts is at least as large as each of them.
pub proof fn lemma_sum_grows(a: Decimal, b: Decimal)
    requires
        proper_amount(a),
        proper_amount(b),
    ensures
        sum(a, b) matches Some(r) ==> proper_amount(r) && units(a) <= units(r) && units(b) <= units(r),
{
    units_have_the_sign(a);
    units_have_the_sign(b);
    sums_are_closest(a, b);
    decimals_are_closest_to_themselves(a);
    decimals_are_closest_to_themselves(b);
    lemma_pow10(0, 28);
    if let Some(r) = sum(a, b) {
        closest_is_monotone(units(a), units(a) + units(b), pow10(28));
        closest_is_monotone(units(b), units(a) + units(b), pow10(28));
        units_have_the_sign(r);
    }
}

/// One more product is added to a total.
proof fn lemma_one_more(before: Decimal, exact: int, n: int, a: Decimal, b: Decimal)
    requires
        proper_amount(before),
        proper_amount(a),
        proper_amount(b),
        n >= 0,
        totals_to(before, exact, n),
    ensures
        plus(Some(before), product(a, b)) matches Some(r) ==> proper_amount(r) && totals_to(
            r,
            exact + units(a) * units(b),
            n + 1,
        ),
{
    lemma_one();
    if let Some(v) = product(a, b) {
        products_are_near(a, b);
        products_keep_signs(a, b);
        if let Some(r) = sum(before, v) {
            sums_are_near(before, v);
            lemma_sum_grows(before, v);
            units_have_the_sign(v);
            units_have_the_sign(before);
            units_have_the_sign(r);
            lemma_step(
                units(before),
                units(v),
                units(r),
                exact,
                units(a) * units(b),
                n,
                one(),
            );
        }
    }
}

proof fn lemma_step(s: int, v: int, r: int, x: int, y: int, n: int, z: int)
    requires
        z > 0,
        0 <= s <= r,
        0 <= v <= r,
        n >= 0,
        apart(s * z, x) <= n * (z + 21 * s),
        apart(v * z, y) <= z + 10 * v,
        apart(r, s + v) * z <= 11 * r,
    ensures
        apart(r * z, x + y) <= (n + 1) * (z + 21 * r),
{
    let e = apart(r, s + v);
    let h = apart(r * z, s * z + v * z);
    assert(h == e * z) by (nonlinear_arith)
        requires
            z > 0,
            h == (if r * z - (s * z + v * z) < 0 {
                -(r * z - (s * z + v * z))
            } else {
                r * z - (s * z + v * z)
            }),
            e == (if r - (s + v) < 0 {
                -(r - (s + v))
            } else {
                r - (s + v)
            }),
    ;
    assert(n * (z + 21 * s) <= n * (z + 21 * r)) by (nonlinear_arith)
        requires
            n >= 0,
            s <= r,
    ;
    assert((n + 1) * (z + 21 * r) == n * (z + 21 * r) + (z + 21 * r)) by (nonlinear_arith);
}

/// A longer list leaves more room.
proof fn lemma_more_room(total: Decimal, exact: int, n: int, m: int)
    requires
        proper_amount(total),
        totals_to(total, exact, n),
        0 <= n <= m,
    ensures
        totals_to(total, exact, m),
{
    lemma_one();
    units_have_the_sign(total);
    let w = one() + 21 * units(total);
    assert(n * w <= m * w) by (nonlinear_arith)
        requires
            n <= m,
            w >= 0,
    ;
}

/// The total exposure is what the holdings are worth.
pub proof fn exposure_is_what_is_held(state: BotStateView, prices: Entries<Decimal>, n: int)
    requires
        amounts_are_proper(state, prices),
        0 <= n <= state.positions.len(),
    ensures
        exposure(state.positions.take(n), prices) matches Some(t) ==> proper_amount(t) && totals_to(
            t,
            held_value(state.positions.take(n), prices),
            n,
        ),
    decreases n,
{
    let s = state.positions.take(n);
    if n == 0 {
        lemma_of(0, 0);
        assert(0 * pow10(28) == 0);
        assert(0 * one() == 0);
    } else {
        assert(s.drop_last() =~= state.positions.take(n - 1));
        assert(s.last() == state.positions[n - 1]);
        exposure_is_what_is_held(state, prices, n - 1);
        if let Some(before) = exposure(s.drop_last(), prices) {
            let exact = held_value(s.drop_last(), prices);
            match lookup(prices, s.last().0) {
                Some(price) => {
                    lemma_one_more(before, exact, n - 1, s.last().1.qty, price);
                },
                None => {
                    lemma_more_room(before, exact, n - 1, n);
                },
            }
        }
    }
}

/// The committed amount is what the tracked buys come to.
pub proof fn commitments_are_tracked_buys(
    state: BotStateView,
    prices: Entries<Decimal>,
    pair: Option<Seq<char>>,
    n: int,
)
    requires
        amounts_are_proper(state, prices),
        0 <= n <= state.open_orders.len(),
    ensures
        committed(state.open_orders.take(n), pair) matches Some(t) ==> proper_amount(t) && totals_to(
            t,
            buys_value(state.open_orders.take(n), pair),
            n,
        ),
    decreases n,
{
    let s = state.open_orders.take(n);
    if n == 0 {
        lemma_of(0, 0);
        assert(0 * pow10(28) == 0);
        assert(0 * one() == 0);
    } else {
        assert(s.drop_last() =~= state.open_orders.take(n - 1));
        assert(s.last() == state.open_orders[n - 1]);
        commitments_are_tracked_buys(state, prices, pair, n - 1);
        if let Some(before) = committed(s.drop_last(), pair) {
            let exact = buys_value(s.drop_last(), pair);
            let o = s.last().1;
            lemma_one_more(before, exact, n - 1, o.price, o.qty);
            lemma_more_room(before, exact, n - 1, n);
        }
    }
}

/// Two totals and an amount are added up.
proof fn lemma_added(a: Decimal, x: int, n: int, b: Decimal, y: int, m: int, size: Decimal)
    requires
        proper_amount(a),
        proper_amount(b),
        proper_amount(size),
        n >= 0,
        m >= 0,
        totals_to(a, x, n),
        totals_to(b, y, m),
    ensures
        plus(sum(a, b), Some(size)) matches Some(t) ==> proper_amount(t) && totals_to(
            t,
            x + y + units(size) * one(),
            n + m + 2,
        ),
{
    lemma_one();
    if let Some(c) = sum(a, b) {
        if let Some(t) = sum(c, size) {
            sums_are_near(a, b);
            lemma_sum_grows(a, b);
            sums_are_near(c, size);
            lemma_sum_grows(c, size);
            units_have_the_sign(a);
            units_have_the_sign(b);
            units_have_the_sign(c);
            units_have_the_sign(t);
            let z = one();
            let e = apart(units(c), units(a) + units(b));
            let f = apart(units(t), units(c) + units(size));
            let (ua, ub, uc, us, ut) = (units(a), units(b), units(c), units(size), units(t));
            lemma_scaled(uc, ua, ub, z);
            lemma_scaled(ut, uc, us, z);
            let w = z + 21 * ut;
            assert(n * (z + 21 * ua) <= n * w && m * (z + 21 * ub) <= m * w) by (nonlinear_arith)
                requires
                    n >= 0,
                    m >= 0,
                    ua <= ut,
                    ub <= ut,
                    w == z + 21 * ut,
            ;
            assert((n + m + 2) * w == n * w + m * w + 2 * w) by (nonlinear_arith);
        }
    }
}

proof fn lemma_scaled(r: int, s: int, v: int, z: int)
    requires
        z > 0,
        apart(r, s + v) * z <= 11 * magnitude(r),
    ensures
        apart(r * z, s * z + v * z) <= 11 * magnitude(r),
{
    let e = apart(r, s + v);
    let h = apart(r * z, s * z + v * z);
    assert(h == e * z) by (nonlinear_arith)
        requires
            z > 0,
            h == (if r * z - (s * z + v * z) < 0 {
                -(r * z - (s * z + v * z))
            } else {
                r * z - (s * z + v * z)
            }),
            e == (if r - (s + v) < 0 {
                -(r - (s + v))
            } else {
                r - (s + v)
            }),
    ;
}

/// Whether an exact value is at most a limit, up to the rounding of `n` amounts.
pub open spec fn within(exact: int, limit: Decimal, n: int) -> bool {
    exact <= units(limit) * one() + n * (one() + 21 * units(limit))
}

/// Whether an exact value is at least a limit, up to the rounding of `n` amounts.
pub open spec fn reaches(exact: int, limit: Decimal, n: int) -> bool {
    exact >= units(limit) * one() - n * (one() + 21 * units(limit))
}

proof fn lemma_limit(total: Decimal, exact: int, n: int, limit: Decimal)
    requires
        proper_amount(total),
        proper_amount(limit),
        totals_to(total, exact, n),
        0 <= n <= 100_000_000_000_000_000_000,
    ensures
        !less(limit, total) ==> within(exact, limit, n),
        less(limit, total) ==> reaches(exact, limit, n),
{
    lemma_one();
    less_is_by_units(limit, total);
    units_have_the_sign(total);
    units_have_the_sign(limit);
    let z = one();
    let t = units(total);
    let l = units(limit);
    if t <= l {
        assert(t * z + n * (z + 21 * t) <= l * z + n * (z + 21 * l)) by (nonlinear_arith)
            requires
                t <= l,
                z > 0,
                n >= 0,
        ;
    } else {
        assert(t * z - n * (z + 21 * t) >= l * z - n * (z + 21 * l)) by (nonlinear_arith)
            requires
                t > l,
                21 * n <= z,
                n >= 0,
        ;
    }
}

/// The exposure limits: a buy is allowed only if what is held, what is committed to tracked buys and
/// the buy itself stay within the limit of the pair and within that of the whole book; it is refused
/// only if one of them is reached.
pub proof fn buys_stay_within_the_limits(
    state: BotStateView,
    pair: Seq<char>,
    size: Decimal,
    price: Decimal,
    prices: Entries<Decimal>,
    max_pair: Decimal,
    max_total: Decimal,
)
    requires
        amounts_are_proper(state, prices),
        proper_amount(position_of(state.positions, pair).qty),
        proper_amount(size),
        proper_amount(price),
        proper_amount(max_pair),
        proper_amount(max_total),
        state.positions.len() + state.open_orders.len() < 90_000_000_000_000_000_000,
    ensures
        ({
            let allowed = buy_allowed(state, pair, size, price, prices, max_pair, max_total);
            let of_pair = units(position_of(state.positions, pair).qty) * units(price) + buys_value(
                state.open_orders,
                Some(pair),
            ) + units(size) * one();
            let of_all = held_value(state.positions, prices) + buys_value(state.open_orders, None)
                + units(size) * one();
            let n = state.open_orders.len() + 3;
            let m = state.positions.len() + state.open_orders.len() + 2;
            &&& allowed == Some(true) ==> within(of_pair, max_pair, n as int) && within(
                of_all,
                max_total,
                m as int,
            )
            &&& allowed == Some(false) ==> reaches(of_pair, max_pair, n as int) || reaches(
                of_all,
                max_total,
                m as int,
            )
        }),
{
    lemma_one();
    let held = position_of(state.positions, pair).qty;
    let np = state.positions.len() as int;
    let no = state.open_orders.len() as int;
    assert(state.positions.take(np) =~= state.positions);
    assert(state.open_orders.take(no) =~= state.open_orders);
    exposure_is_what_is_held(state, prices, np);
    commitments_are_tracked_buys(state, prices, None, no);
    commitments_are_tracked_buys(state, prices, Some(pair), no);
    if let Some(v) = product(held, price) {
        products_are_near(held, price);
        products_keep_signs(held, price);
        units_have_the_sign(v);
        let x = units(held) * units(price);
        assert(totals_to(v, x, 1)) by {
            assert(1 * (one() + 21 * units(v)) == one() + 21 * units(v));
        }
        if let Some(c) = committed(state.open_orders, Some(pair)) {
            lemma_added(v, x, 1, c, buys_value(state.open_orders, Some(pair)), no, size);
            if let Some(t) = plus(sum(v, c), Some(size)) {
                lemma_limit(
                    t,
                    x + buys_value(state.open_orders, Some(pair)) + units(size) * one(),
                    no + 3,
                    max_pair,
                );
            }
        }
    }
    if let Some(v) = exposure(state.positions, prices) {
        if let Some(c) = committed(state.open_orders, None) {
            let x = held_value(state.positions, prices);
            let y = buys_value(state.open_orders, None);
            lemma_added(v, x, np, c, y, no, size);
            if let Some(t) = plus(sum(v, c), Some(size)) {
                lemma_limit(t, x + y + units(size) * one(), np + no + 2, max_total);
            }
        }
    }
}

/// A number held between two bounds.
pub open spec fn clamped(x: int, low: int, high: int) -> int {
    if x < low {
        low
    } else if x > high {
        high
    } else {
        x
    }
}

proof fn lemma_skew(v: int, m: int, t: int, q: int, s: int, z: int)
    requires
        z >= 1_000_000,
        m > 0,
        v >= 0,
        t >= 0,
        q >= 0,
        apart(t * z, (2 * z) * v) <= z + 10 * t,
        apart(q * m, t * z) * z <= m * (z + 10 * q),
        apart(s, z - q) * z <= 11 * magnitude(s),
    ensures
        apart(clamped(s, -z, z) * m, clamped(m * z - 2 * v * z, -m * z, m * z)) <= 200 * m + 2 * z,
{
    let x = m * z - 2 * v * z;
    let e3 = apart(s, z - q);
    let ms = magnitude(s);
    assert((2 * z) * v == 2 * v * z) by (nonlinear_arith);
    let vz = 2 * v * z;
    let e2 = apart(q * m, t * z);
    let qm = q * m;
    let tz = t * z;
    assert(e2 * z <= m * z + 10 * qm) by (nonlinear_arith)
        requires
            e2 * z <= m * (z + 10 * q),
            qm == q * m,
    ;
    assert(vz >= 0 && qm >= 0 && tz >= 0) by (nonlinear_arith)
        requires
            vz == 2 * v * z,
            qm == q * m,
            tz == t * z,
            v >= 0,
            z > 0,
            q >= 0,
            m > 0,
            t >= 0,
    ;
    let mz = m * z;
    assert(mz >= 1_000_000 * m) by (nonlinear_arith)
        requires
            mz == m * z,
            z >= 1_000_000,
            m > 0,
    ;
    assert(clamped(x, -m * z, m * z) == clamped(x, -mz, mz)) by {
        assert(-m * z == -mz) by (nonlinear_arith)
            requires
                mz == m * z,
        ;
    }
    assert(s <= z + 12) by (nonlinear_arith)
        requires
            s <= z - q + e3,
            q >= 0,
            e3 * z <= 11 * ms,
            s > 0 ==> ms == s,
            z >= 1_000_000,
            e3 >= 0,
    ;
    if s >= -z {
        // Nothing is cut off, or next to nothing.
        assert(q <= 2 * z + 11) by (nonlinear_arith)
            requires
                q <= z - s + e3,
                s >= -z,
                e3 * z <= 11 * ms,
                ms <= z + 12,
                z >= 1_000_000,
        ;
        assert(e3 <= 11) by (nonlinear_arith)
            requires
                e3 * z <= 11 * ms,
                ms <= z + 12,
                z >= 1_000_000,
        ;
        assert(qm <= 3 * mz) by (nonlinear_arith)
            requires
                qm == q * m,
                mz == m * z,
                q <= 2 * z + 11,
                m > 0,
                z >= 1_000_000,
        ;
        assert(e2 <= 31 * m) by (nonlinear_arith)
            requires
                e2 * z <= mz + 10 * qm,
                qm <= 3 * mz,
                mz == m * z,
                z > 0,
        ;
        assert(t <= 4 * m) by (nonlinear_arith)
            requires
                tz == t * z,
                tz <= qm + e2,
                qm <= 3 * mz,
                e2 <= 31 * m,
                mz == m * z,
                z >= 1_000_000,
                m > 0,
        ;
        let sm = s * m;
        let d = apart(sm, mz - qm);
        assert(d <= 11 * m) by (nonlinear_arith)
            requires
                sm == s * m,
                mz == m * z,
                qm == q * m,
                m > 0,
                e3 <= 11,
                e3 >= s - (z - q),
                e3 >= -(s - (z - q)),
                d == (if sm - (mz - qm) < 0 {
                    -(sm - (mz - qm))
                } else {
                    sm - (mz - qm)
                }),
        ;
        assert(apart(sm, x) <= 11 * m + 31 * m + z + 40 * m);
        let k = clamped(s, -z, z);
        let cm = k * m;
        assert(-mz <= cm <= mz && cm <= sm <= cm + 12 * m) by (nonlinear_arith)
            requires
                sm == s * m,
                mz == m * z,
                cm == k * m,
                -z <= k <= z,
                k <= s <= k + 12,
                m > 0,
        ;
    } else {
        assert(clamped(s, -z, z) == -z);
        assert((-z) * m == -mz) by (nonlinear_arith)
            requires
                mz == m * z,
        ;
        assert(q >= 2 * z - 30) by (nonlinear_arith)
            requires
                q >= z - s - e3,
                e3 * z <= 11 * ms,
                ms == -s,
                s < -z,
                z >= 1_000_000,
        ;
        assert(qm >= 2 * mz - 30 * m) by (nonlinear_arith)
            requires
                qm == q * m,
                mz == m * z,
                q >= 2 * z - 30,
                m > 0,
        ;
        assert(tz >= 2 * mz - 70 * m) by (nonlinear_arith)
            requires
                tz >= qm - e2,
                e2 * z <= mz + 10 * qm,
                qm >= 2 * mz - 30 * m,
                mz == m * z,
                z >= 1_000_000,
                m > 0,
        ;
        assert(vz >= 2 * mz - 110 * m - z) by (nonlinear_arith)
            requires
                vz >= tz - z - 10 * t,
                tz == t * z,
                tz >= 2 * mz - 70 * m,
                mz == m * z,
                z >= 1_000_000,
                m > 0,
        ;
    }
}

/// The inventory skew falls in a straight line with the holding: it is one less twice the share of
/// the maximum that is held, kept between minus one and one.
pub proof fn skew_falls_with_the_holding(value: Decimal, max_inventory: Decimal)
    requires
        proper_amount(value),
        max_inventory.valid(),
        max_inventory.m() > 0,
    ensures
        skew_of(Some(value), max_inventory) matches Some(skew) ==> ({
            let m = units(max_inventory);
            let exact = clamped(m * one() - 2 * units(value) * one(), -m * one(), m * one());
            apart(units(skew) * m, exact) <= 200 * m + 2 * one()
        }),
{
    lemma_one();
    let z = one();
    let two = Decimal::of(2, 0);
    let high = Decimal::of(1, 0);
    let low = Decimal::of(-1, 0);
    lemma_of(2, 0);
    lemma_of(1, 0);
    lemma_of(-1, 0);
    assert(units(two) == 2 * z && units(high) == z && units(low) == -z) by {
        assert(2 * pow10(28) == 2 * z && 1 * pow10(28) == z && (-1) * pow10(28) == -z);
    }
    units_have_the_sign(value);
    units_have_the_sign(max_inventory);
    if let Some(t) = product(two, value) {
        products_are_near(two, value);
        products_keep_signs(two, value);
        units_have_the_sign(t);
        if let Some(q) = quotient(t, max_inventory) {
            quotients_are_off_little(t, max_inventory);
            quotients_keep_signs(t, max_inventory);
            units_have_the_sign(q);
            if let Some(s) = difference(high, q) {
                differences_are_near(high, q);
                lemma_skew(
                    units(value),
                    units(max_inventory),
                    units(t),
                    units(q),
                    units(s),
                    z,
                );
                less_is_by_units(s, low);
                less_is_by_units(high, s);
                less_is_by_units(high, low);
            }
        }
    }
}

/// The rate limit: requests are blocked from 95 percent of the maximum on, and there is a warning
/// from 75 percent on.
pub proof fn rate_limits_are_percentages(counter: Decimal, max: u32)
    requires
        counter.valid(),
        max > 0,
    ensures
        rate_status(counter, max) == (if 100 * units(counter) >= 95 * max * one() {
            RateStatus::Block
        } else if 100 * units(counter) >= 75 * max * one() {
            RateStatus::Warn
        } else {
            RateStatus::Okay
        }),
{
    let a = Decimal::of(95 * max, 2);
    let b = Decimal::of(75 * max, 2);
    lemma_of(95 * max, 2);
    lemma_of(75 * max, 2);
    less_is_by_units(counter, a);
    less_is_by_units(counter, b);
    let w = pow10(26);
    assert(pow10(28) == 100 * w) by {
        reveal_with_fuel(pow10, 3);
    }
    assert(units(a) == (95 * max) * w && units(b) == (75 * max) * w);
    assert(95 * max * (100 * w) == 100 * ((95 * max) * w) && 75 * max * (100 * w) == 100 * ((75
        * max) * w)) by (nonlinear_arith);
}

/// Limits may be reached and must not be passed: a buy is allowed if and only if what is held, what
/// tracked buys come to and its own size together are at most the limit, for the pair and for all
/// pairs.
pub proof fn limits_may_be_reached(
    state: BotStateView,
    pair: Seq<char>,
    size: Decimal,
    price: Decimal,
    prices: Entries<Decimal>,
    max_pair: Decimal,
    max_total: Decimal,
    of_pair: Decimal,
    of_all: Decimal,
)
    requires
        plus(
            plus(
                product(position_of(state.positions, pair).qty, price),
                committed(state.open_orders, Some(pair)),
            ),
            Some(size),
        ) == Some(of_pair),
        plus(
            plus(exposure(state.positions, prices), committed(state.open_orders, None)),
            Some(size),
        ) == Some(of_all),
        of_pair.valid() && of_all.valid() && max_pair.valid() && max_total.valid(),
    ensures
        buy_allowed(state, pair, size, price, prices, max_pair, max_total) == Some(
            units(of_pair) <= units(max_pair) && units(of_all) <= units(max_total),
        ),
{
    less_is_by_units(max_pair, of_pair);
    less_is_by_units(max_total, of_all);
}

/// Skews lie between minus one and one; without a limit to go by, a pair is wanted as much as can be.
pub proof fn skews_are_held_in(exposure_usd: Option<Decimal>, max_inventory: Decimal)
    requires
        max_inventory.valid(),
        exposure_usd matches Some(v) ==> v.valid(),
    ensures
        skew_of(exposure_usd, max_inventory) matches Some(s) ==> -one() <= units(s) <= one(),
        max_inventory.m() == 0 ==> (skew_of(exposure_usd, max_inventory) matches Some(s) && units(s)
            == one()),
{
    lemma_one();
    let up = Decimal::of(1, 0);
    let down = Decimal::of(-1, 0);
    let two = Decimal::of(2, 0);
    lemma_of(1, 0);
    lemma_of(-1, 0);
    lemma_of(2, 0);
    assert(units(up) == one() && units(down) == -one()) by {
        assert(1 * pow10(28) == one() && (-1) * pow10(28) == -one());
    }
    if max_inventory.m() != 0 {
        if let Some(v) = exposure_usd {
            if let Some(t) = product(two, v) {
                results_are_valid(two, v);
                if let Some(q) = quotient(t, max_inventory) {
                    results_are_valid(t, max_inventory);
                    if let Some(s) = difference(up, q) {
                        results_are_valid(up, q);
                        less_is_by_units(s, down);
                        let k = larger(s, down);
                        less_is_by_units(up, k);
                        less_is_by_units(k, up);
                    }
                }
            }
        }
    }
}

/// Where no request is allowed at all, the first one is too many.
pub proof fn without_a_budget_requests_block(counter: Decimal)
    requires
        counter.valid(),
    ensures
        rate_status(counter, 0) is Block <==> units(counter) > 0,
        rate_status(counter, 0) is Okay <==> units(counter) <= 0,
{
    units_have_the_sign(counter);
}

} // verus!
