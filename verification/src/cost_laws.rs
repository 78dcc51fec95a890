//! What holdings cost and what sales of them gain, as numbers.
//!
//! Where results are rounded, the laws hold up to a few parts in `10^26`; amounts are counted in
//! units of `10^-28` and products of two amounts in units of `10^-56`.
use crate::analyzer::edge_pnl;
use crate::collections::{
    distinct_keys, lookup, stored, stored_then_lookup, without, without_then_lookup, Entries,
};
use crate::decimal::{
    difference, lemma_of, lemma_pow10, less, magnitude, minus, plus, pow10, product, quotient,
    smaller, sum, times, Decimal,
};
use crate::decimal_error::{
    apart, differences_are_near, lemma_one, one, products_are_near, quotients_are_off_little,
    sums_are_near,
};
use crate::decimal_laws::{less_is_by_units, results_are_valid, units};
use crate::decimal_nearest::closest_has_the_sign;
use crate::decimal_order::{
    differences_are_closest, products_keep_signs, quotients_keep_signs, sums_are_closest,
    units_have_the_sign,
};
use crate::order_tracking::{after_buy, after_sell, tolerance, ProxyPosition};
use crate::pnl::PnlView;
use crate::position::{bought, no_position, positive, sale_pnl, sold, Position};
use crate::state::position_of;
use crate::types::{side_text, FillView, OrderSide};
use vstd::prelude::*;

verus! {

/// Whether a quantity at an average cost stands for a total cost, counted in units of `10^-56`, up
/// to rounding.
pub open spec fn costs(qty: Decimal, avg_cost: Decimal, total: int) -> bool {
    apart(units(avg_cost) * units(qty), total) * one() <= 200 * (one() * (one() + units(qty))
        + total)
}

/// Whether a gain is what some quantity makes by moving from one price to another, less a fee, up to
/// rounding.
pub open spec fn gains(pnl: Decimal, qty: Decimal, from: Decimal, to: Decimal, fee: Decimal) -> bool {
    let exact = units(qty) * (units(to) - units(from)) - units(fee) * one();
    apart(units(pnl) * one(), exact) * one() <= 100 * (one() * (one() + magnitude(units(pnl))
        + magnitude(units(fee))) + magnitude(units(qty)) * (magnitude(units(to)) + magnitude(
        units(from),
    )))
}

/// Sums of numbers that are not negative are not negative.
proof fn lemma_sum_sign(a: Decimal, b: Decimal)
    requires
        a.valid(),
        b.valid(),
        a.m() >= 0,
        b.m() >= 0,
    ensures
        sum(a, b) matches Some(r) ==> r.m() >= 0,
{
    units_have_the_sign(a);
    units_have_the_sign(b);
    sums_are_closest(a, b);
    lemma_pow10(0, 28);
    closest_has_the_sign(units(a) + units(b), pow10(28));
    if let Some(r) = sum(a, b) {
        units_have_the_sign(r);
    }
}

/// A product that is near is at most twice the exact one and a little.
proof fn lemma_at_most_twice(c: int, x: int, z: int)
    requires
        z >= 1000,
        c >= 0,
        x >= 0,
        apart(c * z, x) <= z + 10 * c,
    ensures
        c * z <= 2 * x + 2 * z,
{
    assert(c * z <= 2 * x + 2 * z) by (nonlinear_arith)
        requires
            c * z <= x + z + 10 * c,
            z >= 1000,
            c >= 0,
            x >= 0,
    ;
}

proof fn lemma_total_cost(x: int, y: int, c0: int, c1: int, c: int, avg: int, n: int, z: int)
    requires
        z >= 1_000_000,
        x >= 0,
        y >= 0,
        c0 >= 0,
        c1 >= 0,
        c >= 0,
        avg >= 0,
        n > 0,
        apart(c0 * z, x) <= z + 10 * c0,
        apart(c1 * z, y) <= z + 10 * c1,
        apart(c, c0 + c1) * z <= 11 * c,
        apart(avg * n, c * z) * z <= n * (z + 10 * avg),
    ensures
        apart(avg * n, x + y) * z <= 200 * (z * (z + n) + (x + y)),
{
    let t = x + y;
    lemma_at_most_twice(c0, x, z);
    lemma_at_most_twice(c1, y, z);
    let e = apart(c, c0 + c1);
    assert(c * z <= 4 * t + 10 * z) by (nonlinear_arith)
        requires
            c <= c0 + c1 + e,
            e * z <= 11 * c,
            c0 * z <= 2 * x + 2 * z,
            c1 * z <= 2 * y + 2 * z,
            t == x + y,
            z >= 1_000_000,
            c >= 0,
            x >= 0,
            y >= 0,
    ;
    let f = apart(avg * n, c * z);
    let p = avg * n;
    assert(n * (z + 10 * avg) == n * z + 10 * p) by (nonlinear_arith)
        requires
            p == avg * n,
    ;
    assert(p <= 2 * (c * z) + 2 * n) by (nonlinear_arith)
        requires
            p <= c * z + f,
            f * z <= n * z + 10 * p,
            z >= 1_000_000,
            n > 0,
            c * z >= 0,
            p >= 0,
    ;
    let g = apart(p, t);
    let h = apart(c * z, c0 * z + c1 * z);
    assert(h == e * z) by (nonlinear_arith)
        requires
            z > 0,
            h == (if c * z - (c0 * z + c1 * z) < 0 {
                -(c * z - (c0 * z + c1 * z))
            } else {
                c * z - (c0 * z + c1 * z)
            }),
            e == (if c - (c0 + c1) < 0 {
                -(c - (c0 + c1))
            } else {
                c - (c0 + c1)
            }),
    ;
    // By steps: the average, the sum, and the two products.
    assert(g * z <= f * z + (e * z) * z + (z + 10 * c0) * z + (z + 10 * c1) * z) by (nonlinear_arith)
        requires
            g <= f + e * z + (z + 10 * c0) + (z + 10 * c1),
            z > 0,
    ;
    assert((e * z) * z <= 11 * (c * z)) by (nonlinear_arith)
        requires
            e * z <= 11 * c,
            z > 0,
    ;
    let zz = z * z;
    assert((z + 10 * c0) * z == zz + 10 * (c0 * z) && (z + 10 * c1) * z == zz + 10 * (c1 * z)) by (
    nonlinear_arith)
        requires
            zz == z * z,
    ;
    assert(zz >= 1_000_000 * z) by (nonlinear_arith)
        requires
            zz == z * z,
            z >= 1_000_000,
    ;
    let nz = n * z;
    assert(nz >= 1_000_000 * n) by (nonlinear_arith)
        requires
            nz == n * z,
            z >= 1_000_000,
            n > 0,
    ;
    assert(g * z <= nz + 10 * p + 11 * (c * z) + 2 * zz + 10 * (c0 * z) + 10 * (c1 * z));
    assert(z * (z + n) == zz + nz) by (nonlinear_arith)
        requires
            zz == z * z,
            nz == n * z,
    ;
}

/// What the cost of a purchase and of what was held before comes to.
proof fn lemma_averaged(q0: Decimal, a0: Decimal, q1: Decimal, p1: Decimal, turned: bool)
    requires
        q0.valid(),
        a0.valid(),
        q1.valid(),
        p1.valid(),
        q0.m() >= 0,
        a0.m() >= 0,
        q1.m() >= 0,
        p1.m() >= 0,
    ensures
        ({
            let cost = if turned {
                plus(product(a0, q0), product(p1, q1))
            } else {
                plus(product(q0, a0), product(q1, p1))
            };
            sum(q0, q1) matches Some(n) ==> n.valid() && n.m() >= 0 && apart(
                units(n),
                units(q0) + units(q1),
            ) * one() <= 11 * units(n) && (cost matches Some(c) ==> (n.m() > 0 ==> (quotient(c, n)
                matches Some(avg) ==> avg.valid() && avg.m() >= 0 && costs(
                n,
                avg,
                units(q0) * units(a0) + units(q1) * units(p1),
            ))))
        }),
{
    let z = one();
    lemma_one();
    units_have_the_sign(q0);
    units_have_the_sign(a0);
    units_have_the_sign(q1);
    units_have_the_sign(p1);
    if let Some(n) = sum(q0, q1) {
        sums_are_near(q0, q1);
        lemma_sum_sign(q0, q1);
        units_have_the_sign(n);
        let (r0, r1) = if turned {
            (product(a0, q0), product(p1, q1))
        } else {
            (product(q0, a0), product(q1, p1))
        };
        if n.m() > 0 && r0 is Some && r1 is Some && sum(r0.unwrap(), r1.unwrap()) is Some {
            let c0 = r0.unwrap();
            let c1 = r1.unwrap();
            products_are_near(q0, a0);
            products_are_near(a0, q0);
            products_are_near(q1, p1);
            products_are_near(p1, q1);
            products_keep_signs(q0, a0);
            products_keep_signs(a0, q0);
            products_keep_signs(q1, p1);
            products_keep_signs(p1, q1);
            let c = sum(c0, c1).unwrap();
            sums_are_near(c0, c1);
            lemma_sum_sign(c0, c1);
            units_have_the_sign(c0);
            units_have_the_sign(c1);
            units_have_the_sign(c);
            if let Some(avg) = quotient(c, n) {
                quotients_are_off_little(c, n);
                quotients_keep_signs(c, n);
                units_have_the_sign(avg);
                let x = units(q0) * units(a0);
                let y = units(q1) * units(p1);
                assert(x >= 0 && y >= 0 && units(a0) * units(q0) == x && units(p1) * units(q1) == y)
                    by (nonlinear_arith)
                    requires
                        x == units(q0) * units(a0),
                        y == units(q1) * units(p1),
                        units(q0) >= 0,
                        units(a0) >= 0,
                        units(q1) >= 0,
                        units(p1) >= 0,
                ;
                lemma_total_cost(
                    x,
                    y,
                    units(c0),
                    units(c1),
                    units(c),
                    units(avg),
                    units(n),
                    z,
                );
            }
        }
    }
}

/// Buying conserves cost: what is held after a purchase is what was held and what was bought, and
/// costs on the whole what both cost.
pub proof fn buying_conserves_cost(p: Position, qty: Decimal, price: Decimal)
    requires
        p.qty.valid(),
        p.avg_cost.valid(),
        qty.valid(),
        price.valid(),
        p.qty.m() >= 0,
        p.avg_cost.m() >= 0,
        qty.m() >= 0,
        price.m() >= 0,
    ensures
        bought(p, qty, price) matches Some(r) ==> {
            &&& r.qty.valid()
            &&& apart(units(r.qty), units(p.qty) + units(qty)) * one() <= 11 * units(r.qty)
            &&& r.qty.m() > 0 ==> costs(
                r.qty,
                r.avg_cost,
                units(p.qty) * units(p.avg_cost) + units(qty) * units(price),
            )
        },
{
    lemma_averaged(p.qty, p.avg_cost, qty, price, false);
}

/// The proxy's positions conserve cost, too.
pub proof fn proxy_buys_conserve_cost(p: ProxyPosition, qty: Decimal, price: Decimal)
    requires
        p.qty.valid(),
        p.avg_cost.valid(),
        qty.valid(),
        price.valid(),
        p.qty.m() >= 0,
        p.avg_cost.m() >= 0,
        qty.m() >= 0,
        price.m() >= 0,
    ensures
        after_buy(p, qty, price) matches Some(r) ==> {
            &&& r.realized_pnl == p.realized_pnl
            &&& apart(units(r.qty), units(p.qty) + units(qty)) * one() <= 11 * units(r.qty)
            &&& r.qty.m() > 0 ==> costs(
                r.qty,
                r.avg_cost,
                units(p.qty) * units(p.avg_cost) + units(qty) * units(price),
            )
        },
{
    lemma_averaged(p.qty, p.avg_cost, qty, price, true);
}

/// A difference is positive if and only if the first number is the larger one.
pub proof fn differences_are_positive(a: Decimal, b: Decimal)
    requires
        a.valid(),
        b.valid(),
    ensures
        difference(a, b) matches Some(r) ==> (r.m() > 0 <==> less(b, a)),
{
    less_is_by_units(b, a);
    if let Some(r) = difference(a, b) {
        differences_are_near(a, b);
        differences_are_closest(a, b);
        lemma_one();
        lemma_pow10(0, 28);
        units_have_the_sign(r);
        let x = units(a) - units(b);
        let u = units(r);
        closest_has_the_sign(x, pow10(28));
        if x > 0 && u <= 0 {
            let e = apart(u, x);
            assert(u == 0);
            assert(e * one() > 0) by (nonlinear_arith)
                requires
                    e > 0,
                    one() > 0,
            ;
        }
    }
}

/// Selling takes what is sold away and leaves the average cost; a holding of which all or more is
/// sold is empty and costs nothing.
pub proof fn selling_takes_away(p: Position, qty: Decimal)
    requires
        p.qty.valid(),
        qty.valid(),
    ensures
        sold(p, qty) matches Some(r) ==> if less(qty, p.qty) {
            &&& r.avg_cost == p.avg_cost
            &&& r.qty.m() > 0
            &&& apart(units(r.qty), units(p.qty) - units(qty)) * one() <= 11 * units(r.qty)
        } else {
            r.qty.m() == 0 && r.avg_cost.m() == 0
        },
{
    lemma_of(0, 0);
    differences_are_positive(p.qty, qty);
    differences_are_near(p.qty, qty);
    if let Some(rest) = difference(p.qty, qty) {
        units_have_the_sign(rest);
    }
}

proof fn lemma_gain(q: int, a: int, p: int, g: int, u: int, f: int, r: int, z: int)
    requires
        z >= 1_000_000,
        apart(g, p - a) * z <= 11 * magnitude(g),
        apart(u * z, q * g) <= z + 10 * magnitude(u),
        apart(r, u - f) * z <= 11 * magnitude(r),
    ensures
        apart(r * z, q * (p - a) - f * z) * z <= 100 * (z * (z + magnitude(r) + magnitude(f))
            + magnitude(q) * (magnitude(p) + magnitude(a))),
{
    let w = magnitude(p) + magnitude(a);
    let mg = magnitude(g);
    let mu = magnitude(u);
    let mr = magnitude(r);
    let mf = magnitude(f);
    let mq = magnitude(q);
    let e1 = apart(g, p - a);
    let e2 = apart(u * z, q * g);
    let e3 = apart(r, u - f);
    assert(mg <= 2 * w) by (nonlinear_arith)
        requires
            mg <= w + e1,
            e1 * z <= 11 * mg,
            z >= 1_000_000,
            mg >= 0,
            w >= 0,
    ;
    assert(mu <= 2 * mr + mf) by (nonlinear_arith)
        requires
            mu <= mr + mf + e3,
            e3 * z <= 11 * mr,
            z >= 1_000_000,
            mr >= 0,
    ;
    let x = q * (p - a);
    // Off by the difference of prices, the product and the fee.
    let d1 = apart(q * g, x);
    assert(d1 <= mq * e1) by (nonlinear_arith)
        requires
            x == q * (p - a),
            d1 == (if q * g - x < 0 {
                -(q * g - x)
            } else {
                q * g - x
            }),
            mq == (if q < 0 {
                -q
            } else {
                q
            }),
            e1 == (if g - (p - a) < 0 {
                -(g - (p - a))
            } else {
                g - (p - a)
            }),
    ;
    assert(d1 * z <= mq * (22 * w)) by (nonlinear_arith)
        requires
            d1 <= mq * e1,
            e1 * z <= 11 * mg,
            mg <= 2 * w,
            mq >= 0,
            z > 0,
    ;
    let d3 = apart(r * z, u * z - f * z);
    assert(d3 == e3 * z) by (nonlinear_arith)
        requires
            z > 0,
            d3 == (if r * z - (u * z - f * z) < 0 {
                -(r * z - (u * z - f * z))
            } else {
                r * z - (u * z - f * z)
            }),
            e3 == (if r - (u - f) < 0 {
                -(r - (u - f))
            } else {
                r - (u - f)
            }),
    ;
    let off = apart(r * z, x - f * z);
    assert(off <= d3 + e2 + d1);
    let zz = z * z;
    assert(off * z <= d3 * z + e2 * z + d1 * z) by (nonlinear_arith)
        requires
            off <= d3 + e2 + d1,
            z > 0,
    ;
    assert(d3 * z <= 11 * (mr * z)) by (nonlinear_arith)
        requires
            d3 == e3 * z,
            e3 * z <= 11 * mr,
            z > 0,
    ;
    assert(e2 * z <= zz + 10 * (mu * z)) by (nonlinear_arith)
        requires
            e2 <= z + 10 * mu,
            zz == z * z,
            z > 0,
    ;
    assert(mu * z <= 2 * (mr * z) + mf * z) by (nonlinear_arith)
        requires
            mu <= 2 * mr + mf,
            z > 0,
    ;
    assert(z * (z + mr + mf) == zz + mr * z + mf * z) by (nonlinear_arith)
        requires
            zz == z * z,
    ;
    assert(mq * (22 * w) == 22 * (mq * w)) by (nonlinear_arith);
    assert(mq * w >= 0 && mr * z >= 0 && mf * z >= 0 && zz >= 0) by (nonlinear_arith)
        requires
            mq >= 0,
            w >= 0,
            mr >= 0,
            mf >= 0,
            z > 0,
            zz == z * z,
    ;
}

/// A sale gains what the quantity makes by moving from the average cost to the price, and a fee is
/// taken off.
pub proof fn sales_gain_the_move_less_the_fee(p: Position, qty: Decimal, price: Decimal, fee: Decimal)
    requires
        p.avg_cost.valid(),
        qty.valid(),
        price.valid(),
        fee.valid(),
    ensures
        minus(sale_pnl(p, qty, price), Some(fee)) matches Some(r) ==> gains(
            r,
            qty,
            p.avg_cost,
            price,
            fee,
        ),
        sale_pnl(p, qty, price) matches Some(r) ==> gains(
            r,
            qty,
            p.avg_cost,
            price,
            Decimal::of(0, 0),
        ),
{
    lemma_one();
    lemma_of(0, 0);
    let zero = Decimal::of(0, 0);
    assert(units(zero) == 0) by {
        assert(0 * pow10(28) == 0);
    }
    if let Some(g) = difference(price, p.avg_cost) {
        differences_are_near(price, p.avg_cost);
        if let Some(u) = product(qty, g) {
            products_are_near(qty, g);
            assert(0 * one() == 0);
            lemma_gain(
                units(qty),
                units(p.avg_cost),
                units(price),
                units(g),
                units(u),
                0,
                units(u),
                one(),
            );
            if let Some(r) = difference(u, fee) {
                differences_are_near(u, fee);
                lemma_gain(
                    units(qty),
                    units(p.avg_cost),
                    units(price),
                    units(g),
                    units(u),
                    units(fee),
                    units(r),
                    one(),
                );
            }
        }
    }
}

/// A round trip gains the difference of the two prices: buying out of nothing and selling all of it
/// leaves nothing, and what is gained is the quantity times the move from the average cost.
pub proof fn round_trips_gain_the_move(qty: Decimal, low: Decimal, high: Decimal)
    requires
        qty.valid(),
        low.valid(),
        high.valid(),
        qty.m() > 0,
        low.m() >= 0,
    ensures
        bought(no_position(), qty, low) matches Some(p) ==> {
            &&& costs(p.qty, p.avg_cost, units(qty) * units(low))
            &&& sold(p, qty) matches Some(r) ==> r.qty.m() == 0
            &&& sale_pnl(p, qty, high) matches Some(g) ==> gains(
                g,
                qty,
                p.avg_cost,
                high,
                Decimal::of(0, 0),
            )
        },
{
    lemma_of(0, 0);
    lemma_pow10(0, 28);
    let zero = Decimal::of(0, 0);
    assert(units(zero) == 0) by {
        assert(0 * pow10(28) == 0);
    }
    assert(0 * units(zero) == 0);
    buying_conserves_cost(no_position(), qty, low);
    if let Some(p) = bought(no_position(), qty, low) {
        assert(p.qty == qty);
        results_are_valid(qty, low);
        results_are_valid(product(zero, zero).unwrap(), product(qty, low).unwrap());
        let c = sum(product(zero, zero).unwrap(), product(qty, low).unwrap()).unwrap();
        results_are_valid(c, qty);
        less_is_by_units(qty, qty);
        selling_takes_away(p, qty);
        sales_gain_the_move_less_the_fee(p, qty, high, zero);
    }
}

/// The proxy's positions: a sell takes away no more than is held, gains the move from the average
/// cost on what is sold, and leaves that cost; less than the tolerance is nothing.
pub proof fn proxy_sells_take_away(p: ProxyPosition, qty: Decimal, price: Decimal)
    requires
        p.qty.valid(),
        p.avg_cost.valid(),
        p.realized_pnl.valid(),
        qty.valid(),
        price.valid(),
        p.qty.m() > 0,
    ensures
        after_sell(p, qty, price) matches Some(r) ==> {
            let part = if less(p.qty, qty) {
                p.qty
            } else {
                qty
            };
            &&& r.qty.m() == 0 && r.avg_cost.m() == 0 || r.avg_cost == p.avg_cost && !less(
                r.qty,
                tolerance(),
            ) && apart(units(r.qty), units(p.qty) - units(part)) * one() <= 11 * magnitude(
                units(r.qty),
            )
            &&& !less(qty, p.qty) ==> r.qty.m() == 0
            &&& difference(p.qty, part) matches Some(rest) && (r.qty.m() == 0 <==> units(rest)
                < pow10(16))
            &&& exists|g: Decimal|
                #![trigger sum(p.realized_pnl, g)]
                sum(p.realized_pnl, g) == Some(r.realized_pnl) && gains(
                    g,
                    part,
                    p.avg_cost,
                    price,
                    Decimal::of(0, 0),
                )
        },
{
    lemma_of(0, 0);
    lemma_of(1, 12);
    if let Some(r) = after_sell(p, qty, price) {
        let part = smaller(qty, p.qty);
        differences_are_near(p.qty, part);
        let held = Position { qty: p.qty, avg_cost: p.avg_cost };
        sales_gain_the_move_less_the_fee(held, part, price, Decimal::of(0, 0));
        let g = sale_pnl(held, part, price).unwrap();
        assert(sum(p.realized_pnl, g) == Some(r.realized_pnl));
        let rest = difference(p.qty, part).unwrap();
        less_is_by_units(qty, p.qty);
        less_is_by_units(p.qty, qty);
        results_are_valid(p.qty, part);
        units_have_the_sign(rest);
        units_have_the_sign(tolerance());
        less_is_by_units(rest, tolerance());
        lemma_pow10(0, 16);
        assert(units(tolerance()) == pow10(16)) by {
            assert(1 * pow10(16) == pow10(16));
        }
        if !less(qty, p.qty) {
            // All is sold, and nothing is less than the tolerance.
            less_is_by_units(p.qty, part);
            differences_are_positive(p.qty, part);
        }
    }
}

/// Whether a holding is what a fill makes of one: a purchase adds to quantity and cost, a sale takes
/// quantity away and leaves the average cost, and of a holding that is sold off nothing is left.
pub open spec fn held_after_fill(
    before: Position,
    after: Option<Position>,
    side: OrderSide,
    qty: Decimal,
    price: Decimal,
) -> bool {
    match side {
        OrderSide::Buy => {
            &&& after matches Some(r)
            &&& apart(units(r.qty), units(before.qty) + units(qty)) * one() <= 11 * units(r.qty)
            &&& r.qty.m() > 0 ==> costs(
                r.qty,
                r.avg_cost,
                units(before.qty) * units(before.avg_cost) + units(qty) * units(price),
            )
        },
        OrderSide::Sell => if less(qty, before.qty) {
            &&& after matches Some(r)
            &&& r.avg_cost == before.avg_cost
            &&& r.qty.m() > 0
            &&& apart(units(r.qty), units(before.qty) - units(qty)) * one() <= 11 * units(r.qty)
        } else {
            after is None
        },
    }
}

/// What a fill makes of the holdings: that of its pair changes, those of other pairs stay.
pub proof fn holdings_follow_fills(
    positions: Entries<Position>,
    after: Entries<Position>,
    pair: Seq<char>,
    side: OrderSide,
    qty: Decimal,
    price: Decimal,
)
    requires
        distinct_keys(positions),
        position_of(positions, pair).qty.valid(),
        position_of(positions, pair).avg_cost.valid(),
        position_of(positions, pair).qty.m() >= 0,
        position_of(positions, pair).avg_cost.m() >= 0,
        qty.valid(),
        price.valid(),
        qty.m() >= 0,
        price.m() >= 0,
        match side {
            OrderSide::Buy => bought(position_of(positions, pair), qty, price) matches Some(p) && after
                == stored(positions, pair, p),
            OrderSide::Sell => sold(position_of(positions, pair), qty) matches Some(p) && after == (
            if positive(p.qty) {
                stored(positions, pair, p)
            } else {
                without(positions, pair)
            }),
        },
    ensures
        held_after_fill(position_of(positions, pair), lookup(after, pair), side, qty, price),
        forall|k: Seq<char>| k != pair ==> lookup(after, k) == #[trigger] lookup(positions, k),
{
    let held = position_of(positions, pair);
    buying_conserves_cost(held, qty, price);
    selling_takes_away(held, qty);
    without_then_lookup(positions, pair, pair);
    let p = match side {
        OrderSide::Buy => bought(held, qty, price).unwrap(),
        OrderSide::Sell => sold(held, qty).unwrap(),
    };
    stored_then_lookup(positions, pair, p, pair);
    assert forall|k: Seq<char>| k != pair implies lookup(after, k) == #[trigger] lookup(
        positions,
        k,
    ) by {
        stored_then_lookup(positions, pair, p, k);
        without_then_lookup(positions, pair, k);
    }
}

/// The tracker books a fill: a purchase at its cost, a sale at its gain less the fee; holdings of
/// other pairs stay, fees and trades add up.
pub proof fn tracked_fills_are_booked(t: PnlView, fill: FillView)
    requires
        position_of(t.positions, fill.pair).qty.valid(),
        position_of(t.positions, fill.pair).avg_cost.valid(),
        position_of(t.positions, fill.pair).qty.m() >= 0,
        position_of(t.positions, fill.pair).avg_cost.m() >= 0,
        t.realized_pnl.valid(),
        t.total_fees.valid(),
        fill.qty.valid(),
        fill.price.valid(),
        fill.fee.valid(),
        fill.qty.m() >= 0,
        fill.price.m() >= 0,
        t.max_trades > 0,
        distinct_keys(t.positions),
    ensures
        t.after(fill) matches Some(u) ==> {
            let held = position_of(t.positions, fill.pair);
            let trade = u.trades.last();
            &&& held_after_fill(
                held,
                lookup(u.positions, fill.pair),
                fill.side,
                fill.qty,
                fill.price,
            )
            &&& forall|k: Seq<char>|
                k != fill.pair ==> lookup(u.positions, k) == #[trigger] lookup(t.positions, k)
            &&& trade.pair == fill.pair && trade.price == fill.price && trade.qty == fill.qty
                && trade.fee == fill.fee && trade.side == side_text(fill.side)
            &&& apart(units(u.total_fees), units(t.total_fees) + units(fill.fee)) * one() <= 11
                * magnitude(units(u.total_fees))
            &&& match fill.side {
                OrderSide::Buy => trade.pnl.m() == 0 && u.realized_pnl == t.realized_pnl,
                OrderSide::Sell => gains(trade.pnl, fill.qty, held.avg_cost, fill.price, fill.fee)
                    && apart(
                    units(u.realized_pnl),
                    units(t.realized_pnl) + units(trade.pnl),
                ) * one() <= 11 * magnitude(units(u.realized_pnl)),
            }
        },
{
    lemma_of(0, 0);
    let held = position_of(t.positions, fill.pair);
    sums_are_near(t.total_fees, fill.fee);
    sales_gain_the_move_less_the_fee(held, fill.qty, fill.price, fill.fee);
    if let Some(u) = t.after(fill) {
        holdings_follow_fills(
            t.positions,
            u.positions,
            fill.pair,
            fill.side,
            fill.qty,
            fill.price,
        );
        if fill.side == OrderSide::Sell {
            let g = difference(fill.price, held.avg_cost).unwrap();
            results_are_valid(fill.price, held.avg_cost);
            results_are_valid(fill.qty, g);
            let raw = product(fill.qty, g).unwrap();
            results_are_valid(raw, fill.fee);
            sums_are_near(t.realized_pnl, t.gain(fill).unwrap());
        }
    }
}

/// In the eyes of the analyzer a purchase costs its fee, and a sale gains the move less the fee.
pub proof fn analyzed_fills_are_booked(t: PnlView, fill: FillView)
    requires
        position_of(t.positions, fill.pair).avg_cost.valid(),
        fill.qty.valid(),
        fill.price.valid(),
        fill.fee.valid(),
    ensures
        edge_pnl(t, fill) matches Some(r) ==> match fill.side {
            OrderSide::Buy => units(r) == -units(fill.fee),
            OrderSide::Sell => gains(
                r,
                fill.qty,
                position_of(t.positions, fill.pair).avg_cost,
                fill.price,
                fill.fee,
            ),
        },
{
    lemma_of(0, 0);
    lemma_of(-fill.fee.m(), fill.fee.s());
    let w = pow10((28 - fill.fee.s()) as nat);
    assert((-fill.fee.m()) * w == -(fill.fee.m() * w)) by (nonlinear_arith);
    sales_gain_the_move_less_the_fee(
        position_of(t.positions, fill.pair),
        fill.qty,
        fill.price,
        fill.fee,
    );
}

} // verus!
