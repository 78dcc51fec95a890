//! What a tick does about holdings that have lost or gained too much, about orders that are too old,
//! about cooldowns and about the dead man's switch.
use crate::collections::{
    distinct_keys, keyed, keys_of, lemma_keyed, lemma_slot, lookup, slot, stored, stored_then_lookup,
    without_then_lookup, Entries,
};
use crate::decimal::{difference, lemma_of, less, magnitude, negated, pow10, quotient, Decimal};
use crate::decimal_error::{
    apart, differences_are_near, lemma_one, one, quotients_are_off_little,
};
use crate::decimal_laws::{less_is_by_units, units};
use crate::decimal_order::units_have_the_sign;
use crate::engine_laws::{
    lemma_ids_where, lemma_without_all, lemma_without_all_distinct, liquidation_ids_are_recognised,
};
use crate::engine_model::{
    cancel, ids_where, of_pair, older_than, order_id, without_all, EngineView,
};
use crate::events::CommandView;
use crate::position::{positive, Position};
use crate::state::TrackedOrderView;
use crate::text::begins_with;
use crate::time::{nanos_between, seconds_between, Timestamp, NANOS_PER_SEC};
use vstd::prelude::*;

verus! {

/// Whether no key of the engine's books occurs twice.
pub open spec fn is_tidy(e: EngineView) -> bool {
    &&& distinct_keys(e.state.positions)
    &&& distinct_keys(e.state.open_orders)
    &&& distinct_keys(e.state.cooldown_until)
    &&& distinct_keys(e.liquidating)
    &&& distinct_keys(e.disabled)
}

/// What no part of a tick changes.
spec fn same_holdings(e: EngineView, f: EngineView) -> bool {
    &&& f.state.positions == e.state.positions
    &&& f.prices == e.prices
    &&& f.config == e.config
    &&& f.last_dms == e.last_dms
    &&& f.state.cooldown_until == e.state.cooldown_until
}

/// Whether a pair is being liquidated, and shut off from quoting, in two states alike.
spec fn same_standing(e: EngineView, f: EngineView, pair: Seq<char>) -> bool {
    keyed(f.liquidating, pair) == keyed(e.liquidating, pair) && keyed(f.disabled, pair) == keyed(
        e.disabled,
        pair,
    )
}

/// Whether every order of the second list stands in the first.
spec fn fewer(all: Entries<TrackedOrderView>, some: Entries<TrackedOrderView>) -> bool {
    forall|j: int| 0 <= j < some.len() ==> all.contains(#[trigger] some[j])
}

proof fn lemma_negated(a: Decimal)
    requires
        a.valid(),
    ensures
        negated(a).valid(),
        units(negated(a)) == -units(a),
{
    lemma_of(-a.m(), a.s());
    let w = pow10((28 - a.s()) as nat);
    assert((-a.m()) * w == -(a.m() * w)) by (nonlinear_arith);
}

/// How far a price has moved from a cost, as a share of the cost, comes out right up to a slack.
pub proof fn lemma_share(price: int, cost: int, g: int, k: int, z: int)
    requires
        z >= 1_000_000,
        cost > 0,
        apart(g, price - cost) * z <= 11 * magnitude(g),
        apart(k * cost, g * z) * z <= cost * (z + 10 * magnitude(k)),
    ensures
        apart(k * cost, (price - cost) * z) <= 100 * (cost + magnitude(price - cost)),
{
    let d = price - cost;
    let md = magnitude(d);
    let mg = magnitude(g);
    let e = apart(g, d);
    assert(mg <= 2 * md && e <= 2 * md) by (nonlinear_arith)
        requires
            mg <= md + e,
            e * z <= 11 * mg,
            z >= 1_000_000,
            md >= 0,
            mg >= 0,
            e >= 0,
    ;
    let gz = g * z;
    let dz = d * z;
    assert(apart(gz, dz) <= 22 * md) by {
        assert(gz - dz <= e * z && dz - gz <= e * z) by (nonlinear_arith)
            requires
                gz == g * z,
                dz == d * z,
                g - d <= e,
                d - g <= e,
                z > 0,
        ;
    }
    let kc = k * cost;
    let mk = magnitude(k);
    let mkc = mk * cost;
    assert(magnitude(kc) == mkc) by {
        if k >= 0 {
            assert(kc >= 0) by (nonlinear_arith)
                requires
                    kc == k * cost,
                    k >= 0,
                    cost > 0,
            ;
        } else {
            assert(kc < 0 && mkc == -kc) by (nonlinear_arith)
                requires
                    kc == k * cost,
                    mkc == (-k) * cost,
                    k < 0,
                    cost > 0,
            ;
        }
    }
    let f = apart(kc, gz);
    assert(f * z <= cost * z + 10 * mkc) by (nonlinear_arith)
        requires
            f * z <= cost * (z + 10 * mk),
            mkc == mk * cost,
    ;
    let mgz = mg * z;
    assert(magnitude(gz) == mgz) by {
        if g >= 0 {
            assert(gz >= 0) by (nonlinear_arith)
                requires
                    gz == g * z,
                    g >= 0,
                    z > 0,
            ;
        } else {
            assert(gz < 0 && mgz == -gz) by (nonlinear_arith)
                requires
                    gz == g * z,
                    mgz == (-g) * z,
                    g < 0,
                    z > 0,
            ;
        }
    }
    assert(mkc <= mgz + f);
    assert(f <= 2 * cost + 21 * mg) by (nonlinear_arith)
        requires
            f * z <= cost * z + 10 * mkc,
            mkc <= mg * z + f,
            z >= 1_000_000,
            mg >= 0,
            cost > 0,
            f >= 0,
    ;
}

/// Whether a price is beyond a stop-loss or a take-profit by more than some slack, or short of both
/// by less: the loss or the gain is compared with the share of the cost that is allowed.
pub open spec fn moved_out(
    price: Decimal,
    cost: Decimal,
    stop_loss: Decimal,
    take_profit: Decimal,
    slack: int,
) -> bool {
    let way = (units(price) - units(cost)) * one();
    way < -(units(stop_loss) * units(cost)) - slack || way > units(take_profit) * units(cost) + slack
}

/// What a move is uncertain by, for rounding.
pub open spec fn move_slack(price: Decimal, cost: Decimal) -> int {
    100 * (units(cost) + magnitude(units(price) - units(cost)))
}

/// A holding is extreme if and only if its price has moved from its cost by more than the allowed
/// share: down by more than the stop-loss or up by more than the take-profit.
pub proof fn extremes_are_judged_by_their_share(e: EngineView, pair: Seq<char>, p: Position)
    requires
        p.avg_cost.valid(),
        units(p.avg_cost) > 0,
        units(p.qty) > 0 && p.qty.valid(),
        !keyed(e.liquidating, pair),
        lookup(e.prices, pair) matches Some(price) && price.valid(),
        e.config.risk.stop_loss_pct.valid(),
        e.config.risk.take_profit_pct.valid(),
    ensures
        ({
            let price = lookup(e.prices, pair).unwrap();
            let slack = move_slack(price, p.avg_cost);
            let stop = e.config.risk.stop_loss_pct;
            let take = e.config.risk.take_profit_pct;
            &&& moved_out(price, p.avg_cost, stop, take, slack) ==> e.extreme(pair, p) != Some(false)
            &&& e.extreme(pair, p) == Some(true) ==> moved_out(price, p.avg_cost, stop, take, -slack)
            &&& e.extreme(pair, p) is Some <==> (difference(price, p.avg_cost) matches Some(g)
                && quotient(g, p.avg_cost) is Some)
        }),
{
    lemma_one();
    let price = lookup(e.prices, pair).unwrap();
    let cost = p.avg_cost;
    let stop = e.config.risk.stop_loss_pct;
    let take = e.config.risk.take_profit_pct;
    units_have_the_sign(cost);
    units_have_the_sign(p.qty);
    if let Some(g) = difference(price, cost) {
        differences_are_near(price, cost);
        if let Some(k) = quotient(g, cost) {
            quotients_are_off_little(g, cost);
            lemma_share(units(price), units(cost), units(g), units(k), one());
            lemma_negated(stop);
            less_is_by_units(k, negated(stop));
            less_is_by_units(take, k);
            let c = units(cost);
            let kc = units(k) * c;
            let sc = units(stop) * c;
            let tc = units(take) * c;
            assert(units(k) < -units(stop) <==> kc < -sc) by (nonlinear_arith)
                requires
                    kc == units(k) * c,
                    sc == units(stop) * c,
                    c > 0,
            ;
            assert(units(k) > units(take) <==> kc > tc) by (nonlinear_arith)
                requires
                    kc == units(k) * c,
                    tc == units(take) * c,
                    c > 0,
            ;
        }
    }
}

proof fn lemma_fewer_trans(
    a: Entries<TrackedOrderView>,
    b: Entries<TrackedOrderView>,
    c: Entries<TrackedOrderView>,
)
    requires
        fewer(a, b),
        fewer(b, c),
    ensures
        fewer(a, c),
{
    assert forall|j: int| 0 <= j < c.len() implies a.contains(#[trigger] c[j]) by {
        let i = choose|i: int| 0 <= i < b.len() && b[i] == c[j];
        assert(a.contains(b[i]));
    }
}

proof fn lemma_fewer_without_all(s: Entries<TrackedOrderView>, ks: Seq<Seq<char>>)
    requires
        distinct_keys(s),
    ensures
        fewer(s, without_all(s, ks)),
        distinct_keys(without_all(s, ks)),
{
    lemma_without_all_distinct(s, ks);
    assert forall|j: int| 0 <= j < without_all(s, ks).len() implies s.contains(
        #[trigger] without_all(s, ks)[j],
    ) by {
        lemma_without_all(s, ks, j);
    }
}

/// A liquidation step concerns its own pair only.
proof fn lemma_step_stays_apart(e: EngineView, q: Seq<char>, at: Timestamp)
    requires
        is_tidy(e),
    ensures
        e.liquidation_step(q, at) matches Some((f, c)) ==> {
            &&& is_tidy(f)
            &&& same_holdings(e, f)
            &&& forall|k: Seq<char>| k != q ==> #[trigger] same_standing(e, f, k)
            &&& forall|i: int| 0 <= i < c.len() ==> (#[trigger] c[i]) !is RefreshDms
            &&& forall|k: Seq<char>|
                (#[trigger] lookup(e.state.open_orders, k) matches Some(o) && o.pair != q
                    && !begins_with(k, "liq"@)) ==> lookup(f.state.open_orders, k) == lookup(
                    e.state.open_orders,
                    k,
                )
        },
{
    reveal(EngineView::liquidation_step);
    reveal(EngineView::liquidation_sell);
    if let Some((f, c)) = e.liquidation_step(q, at) {
        let orders = e.state.open_orders;
        let left = ids_where(orders, crate::engine_model::plain_of_pair(q));
        lemma_fewer_without_all(orders, left);
        without_then_lookup(e.liquidating, q, q);
        without_then_lookup(e.disabled, q, q);
        assert forall|k: Seq<char>| k != q implies #[trigger] same_standing(e, f, k) by {
            without_then_lookup(e.liquidating, q, k);
            without_then_lookup(e.disabled, q, k);
        }
        if e.counter < u64::MAX {
            let id = order_id("liq"@, (e.counter + 1) as nat);
            liquidation_ids_are_recognised((e.counter + 1) as nat);
            assert forall|o: TrackedOrderView, k: Seq<char>|
                #![trigger lookup(stored(orders, id, o), k)]
                distinct_keys(stored(orders, id, o)) && (k != id ==> lookup(
                    stored(orders, id, o),
                    k,
                ) == lookup(orders, k)) by {
                stored_then_lookup(orders, id, o, k);
            }
            assert forall|o: TrackedOrderView|
                distinct_keys(#[trigger] stored(orders, id, o)) by {
                stored_then_lookup(orders, id, o, id);
            }
        }
        assert forall|k: Seq<char>|
            (#[trigger] lookup(e.state.open_orders, k) matches Some(o) && o.pair != q
                && !begins_with(k, "liq"@)) implies lookup(f.state.open_orders, k) == lookup(
            e.state.open_orders,
            k,
        ) by {
            lemma_kept_order(orders, crate::engine_model::plain_of_pair(q), k);
        }
    }
}

/// An order that a predicate does not pick stays where those that it picks are taken out.
pub proof fn lemma_kept_order(
    s: Entries<TrackedOrderView>,
    f: spec_fn(TrackedOrderView) -> bool,
    k: Seq<char>,
)
    requires
        distinct_keys(s),
        lookup(s, k) matches Some(o) && !f(o),
    ensures
        lookup(without_all(s, ids_where(s, f)), k) == lookup(s, k),
{
    let ks = ids_where(s, f);
    assert(!ks.contains(k)) by {
        if ks.contains(k) {
            lemma_picked_is_there(s, f, k);
        }
    }
    lemma_without_all_keeps(s, ks, k);
}

proof fn lemma_without_all_keeps<T>(s: Entries<T>, ks: Seq<Seq<char>>, k: Seq<char>)
    requires
        distinct_keys(s),
        !ks.contains(k),
    ensures
        lookup(without_all(s, ks), k) == lookup(s, k),
    decreases ks.len(),
{
    if ks.len() > 0 {
        let front = ks.drop_last();
        assert(!front.contains(k)) by {
            if front.contains(k) {
                let i = choose|i: int| 0 <= i < front.len() && front[i] == k;
                assert(ks[i] == k);
            }
        }
        assert(ks[ks.len() - 1] != k);
        lemma_without_all_keeps(s, front, k);
        lemma_without_all_distinct(s, front);
        without_then_lookup(without_all(s, front), ks.last(), k);
    }
}

/// What a predicate picks stands in the list, and satisfies it.
proof fn lemma_picked_is_there(
    s: Entries<TrackedOrderView>,
    f: spec_fn(TrackedOrderView) -> bool,
    k: Seq<char>,
)
    requires
        distinct_keys(s),
        ids_where(s, f).contains(k),
    ensures
        lookup(s, k) matches Some(o) && f(o),
    decreases s.len(),
{
    let ks = ids_where(s, f);
    let front = s.drop_last();
    let before = ids_where(front, f);
    let i = choose|i: int| 0 <= i < ks.len() && ks[i] == k;
    assert(s.len() > 0);
    let last = s.len() - 1;
    if f(s.last().1) && i == ks.len() - 1 {
        assert(s[last].0 == k);
        lemma_keyed(s, k, last);
    } else {
        assert(before[i] == k);
        assert(before.contains(k));
        assert(distinct_keys(front)) by {
            assert forall|a: int, b: int| 0 <= a < b < front.len() implies front[a].0
                != front[b].0 by {
                assert(s[a].0 != s[b].0);
            }
        }
        lemma_picked_is_there(front, f, k);
        lemma_slot(front, k);
        let p = slot(front, k);
        assert(s[p] == front[p]);
        lemma_keyed(s, k, p);
    }
}

/// The liquidation steps of some pairs concern those pairs only.
proof fn lemma_steps_stay_apart(e: EngineView, pairs: Seq<Seq<char>>, at: Timestamp)
    requires
        is_tidy(e),
    ensures
        e.liquidation_steps(pairs, at) matches Some((f, c)) ==> {
            &&& is_tidy(f)
            &&& same_holdings(e, f)
            &&& forall|k: Seq<char>| !pairs.contains(k) ==> #[trigger] same_standing(e, f, k)
            &&& forall|i: int| 0 <= i < c.len() ==> (#[trigger] c[i]) !is RefreshDms
            &&& forall|k: Seq<char>|
                (#[trigger] lookup(e.state.open_orders, k) matches Some(o) && !pairs.contains(o.pair)
                    && !begins_with(k, "liq"@)) ==> lookup(f.state.open_orders, k) == lookup(
                    e.state.open_orders,
                    k,
                )
        },
    decreases pairs.len(),
{
    if pairs.len() > 0 && e.liquidation_steps(pairs, at) is Some {
        let front = pairs.drop_last();
        let (e1, c1) = e.liquidation_steps(front, at).unwrap();
        let (e2, c2) = e1.liquidation_step(pairs.last(), at).unwrap();
        lemma_steps_stay_apart(e, front, at);
        lemma_step_stays_apart(e1, pairs.last(), at);
        assert(pairs[pairs.len() - 1] == pairs.last());
        assert forall|k: Seq<char>| !pairs.contains(k) implies !#[trigger] front.contains(k) by {
            if front.contains(k) {
                let i = choose|i: int| 0 <= i < front.len() && front[i] == k;
                assert(pairs[i] == k);
            }
        }
        assert forall|k: Seq<char>| !pairs.contains(k) implies #[trigger] same_standing(
            e,
            e2,
            k,
        ) by {
            assert(!front.contains(k));
            assert(same_standing(e, e1, k));
            assert(same_standing(e1, e2, k));
        }
        assert forall|k: Seq<char>|
            (#[trigger] lookup(e.state.open_orders, k) matches Some(o) && !pairs.contains(o.pair)
                && !begins_with(k, "liq"@)) implies lookup(e2.state.open_orders, k) == lookup(
            e.state.open_orders,
            k,
        ) by {
            let o = lookup(e.state.open_orders, k).unwrap();
            assert(!front.contains(o.pair));
            assert(lookup(e1.state.open_orders, k) == Some(o));
        }
        let c = c1 + c2;
        assert forall|i: int| 0 <= i < c.len() implies (#[trigger] c[i]) !is RefreshDms by {
            if i < c1.len() {
                assert(c[i] == c1[i]);
            } else {
                assert(c[i] == c2[i - c1.len()]);
            }
        }
    }
}

/// A pair is found extreme if and only if its holding is.
proof fn lemma_extremes(e: EngineView, positions: Entries<Position>, pair: Seq<char>)
    requires
        distinct_keys(positions),
        e.extremes(positions) is Some,
    ensures
        e.extremes(positions).unwrap().contains(pair) <==> (lookup(positions, pair) matches Some(p)
            && e.extreme(pair, p) == Some(true)),
        lookup(positions, pair) matches Some(p) ==> e.extreme(pair, p) is Some,
    decreases positions.len(),
{
    let all = e.extremes(positions).unwrap();
    lemma_slot(positions, pair);
    if positions.len() > 0 {
        let front = positions.drop_last();
        let last = positions.len() - 1;
        let before = e.extremes(front).unwrap();
        assert(distinct_keys(front)) by {
            assert forall|a: int, b: int| 0 <= a < b < front.len() implies front[a].0
                != front[b].0 by {
                assert(positions[a].0 != positions[b].0);
            }
        }
        lemma_extremes(e, front, pair);
        lemma_slot(front, pair);
        if positions.last().0 == pair {
            lemma_keyed(positions, pair, last);
            assert(!keyed(front, pair)) by {
                if keyed(front, pair) {
                    assert(positions[slot(front, pair)].0 != positions[last].0);
                }
            }
            assert(!before.contains(pair));
        } else {
            if keyed(front, pair) {
                assert(positions[slot(front, pair)] == front[slot(front, pair)]);
                lemma_keyed(positions, pair, slot(front, pair));
            } else if keyed(positions, pair) {
                assert(front[slot(positions, pair)].0 != pair);
            }
        }
        if all.contains(pair) {
            let i = choose|i: int| 0 <= i < all.len() && all[i] == pair;
            if i < before.len() {
                assert(before[i] == pair);
            }
        }
        if before.contains(pair) {
            let i = choose|i: int| 0 <= i < before.len() && before[i] == pair;
            assert(all[i] == pair);
        }
        if positions.last().0 == pair && e.extreme(pair, positions.last().1) == Some(true) {
            assert(all[all.len() - 1] == pair);
        }
    }
}

/// Whether no order of a pair is tracked.
pub open spec fn none_of(orders: Entries<TrackedOrderView>, pair: Seq<char>) -> bool {
    forall|j: int| 0 <= j < orders.len() ==> (#[trigger] orders[j]).1.pair != pair
}

proof fn lemma_none_of_fewer(
    all: Entries<TrackedOrderView>,
    some: Entries<TrackedOrderView>,
    pair: Seq<char>,
)
    requires
        fewer(all, some),
        none_of(all, pair),
    ensures
        none_of(some, pair),
{
    assert forall|j: int| 0 <= j < some.len() implies (#[trigger] some[j]).1.pair != pair by {
        let i = choose|i: int| 0 <= i < all.len() && all[i] == some[j];
        assert(all[i].1.pair != pair);
    }
}

/// One liquidation begins.
proof fn lemma_liquidate(e: EngineView, q: Seq<char>)
    requires
        is_tidy(e),
    ensures
        ({
            let (f, c) = e.liquidate(q);
            &&& is_tidy(f)
            &&& same_holdings(e, f)
            &&& fewer(e.state.open_orders, f.state.open_orders)
            &&& forall|k: Seq<char>| k != q ==> #[trigger] same_standing(e, f, k)
            &&& keyed(f.liquidating, q) <==> keyed(e.liquidating, q) || positive(e.position(q).qty)
            &&& (!keyed(e.liquidating, q) && positive(e.position(q).qty)) ==> keyed(f.disabled, q)
                && none_of(f.state.open_orders, q)
            &&& forall|i: int| 0 <= i < c.len() ==> (#[trigger] c[i]) is CancelOrders
            &&& forall|k: Seq<char>|
                (#[trigger] lookup(e.state.open_orders, k) matches Some(o) && (o.pair != q || f == e))
                    ==> lookup(f.state.open_orders, k) == lookup(e.state.open_orders, k)
        }),
{
    let (f, c) = e.liquidate(q);
    if !keyed(e.liquidating, q) && positive(e.position(q).qty) {
        let orders = e.state.open_orders;
        let ks = ids_where(orders, of_pair(q));
        lemma_fewer_without_all(orders, ks);
        stored_then_lookup(e.liquidating, q, (), q);
        stored_then_lookup(e.disabled, q, (), q);
        assert forall|k: Seq<char>| k != q implies #[trigger] same_standing(e, f, k) by {
            stored_then_lookup(e.liquidating, q, (), k);
            stored_then_lookup(e.disabled, q, (), k);
        }
        let left = f.state.open_orders;
        assert forall|j: int| 0 <= j < left.len() implies (#[trigger] left[j]).1.pair != q by {
            lemma_without_all(orders, ks, j);
            let i = choose|i: int| 0 <= i < orders.len() && orders[i] == left[j];
            if orders[i].1.pair == q {
                lemma_ids_where(orders, of_pair(q), i);
            }
        }
        assert forall|k: Seq<char>|
            (#[trigger] lookup(e.state.open_orders, k) matches Some(o) && o.pair != q) implies lookup(
            f.state.open_orders,
            k,
        ) == lookup(e.state.open_orders, k) by {
            lemma_kept_order(orders, of_pair(q), k);
        }
    } else {
        assert(fewer(e.state.open_orders, f.state.open_orders));
    }
}

/// Some liquidations begin.
proof fn lemma_liquidate_all(e: EngineView, pairs: Seq<Seq<char>>)
    requires
        is_tidy(e),
    ensures
        ({
            let (f, c) = e.liquidate_all(pairs);
            &&& is_tidy(f)
            &&& same_holdings(e, f)
            &&& fewer(e.state.open_orders, f.state.open_orders)
            &&& forall|k: Seq<char>| !pairs.contains(k) ==> #[trigger] same_standing(e, f, k)
            &&& forall|k: Seq<char>|
                (#[trigger] pairs.contains(k) && positive(e.position(k).qty) && !keyed(
                    e.liquidating,
                    k,
                )) ==> keyed(f.liquidating, k) && keyed(f.disabled, k) && none_of(
                    f.state.open_orders,
                    k,
                )
            &&& forall|i: int| 0 <= i < c.len() ==> (#[trigger] c[i]) is CancelOrders
            &&& forall|k: Seq<char>|
                (#[trigger] lookup(e.state.open_orders, k) matches Some(o) && !pairs.contains(o.pair))
                    ==> lookup(f.state.open_orders, k) == lookup(e.state.open_orders, k)
        }),
    decreases pairs.len(),
{
    if pairs.len() > 0 {
        let front = pairs.drop_last();
        let last = pairs.last();
        let (e1, c1) = e.liquidate_all(front);
        let (e2, c2) = e1.liquidate(last);
        lemma_liquidate_all(e, front);
        lemma_liquidate(e1, last);
        lemma_fewer_trans(e.state.open_orders, e1.state.open_orders, e2.state.open_orders);
        assert(pairs[pairs.len() - 1] == last);
        assert forall|k: Seq<char>| !pairs.contains(k) implies !#[trigger] front.contains(k) by {
            if front.contains(k) {
                let i = choose|i: int| 0 <= i < front.len() && front[i] == k;
                assert(pairs[i] == k);
            }
        }
        assert forall|k: Seq<char>| !pairs.contains(k) implies #[trigger] same_standing(
            e,
            e2,
            k,
        ) by {
            assert(!front.contains(k));
            assert(same_standing(e, e1, k));
            assert(same_standing(e1, e2, k));
        }
        assert forall|k: Seq<char>|
            (#[trigger] pairs.contains(k) && positive(e.position(k).qty) && !keyed(
                e.liquidating,
                k,
            )) implies keyed(e2.liquidating, k) && keyed(e2.disabled, k) && none_of(
            e2.state.open_orders,
            k,
        ) by {
            assert(e1.position(k) == e.position(k));
            if front.contains(k) {
                lemma_none_of_fewer(e1.state.open_orders, e2.state.open_orders, k);
                if k != last {
                    assert(same_standing(e1, e2, k));
                }
            } else {
                assert(k == last) by {
                    let i = choose|i: int| 0 <= i < pairs.len() && pairs[i] == k;
                    if i < front.len() {
                        assert(front[i] == k);
                    }
                }
                assert(same_standing(e, e1, k));
            }
        }
        assert forall|k: Seq<char>|
            (#[trigger] lookup(e.state.open_orders, k) matches Some(o) && !pairs.contains(
                o.pair,
            )) implies lookup(e2.state.open_orders, k) == lookup(e.state.open_orders, k) by {
            let o = lookup(e.state.open_orders, k).unwrap();
            assert(!front.contains(o.pair));
            assert(lookup(e1.state.open_orders, k) == Some(o));
        }
        let c = c1 + c2;
        assert forall|i: int| 0 <= i < c.len() implies (#[trigger] c[i]) is CancelOrders by {
            if i < c1.len() {
                assert(c[i] == c1[i]);
            } else {
                assert(c[i] == c2[i - c1.len()]);
            }
        }
    } else {
        assert(fewer(e.state.open_orders, e.liquidate_all(pairs).0.state.open_orders));
    }
}

/// Stale orders are taken out, and nothing else is touched but quoters.
proof fn lemma_dropped_all(e: EngineView, ids: Seq<Seq<char>>)
    ensures
        ({
            let f = e.dropped_all(ids);
            &&& f.state.open_orders == without_all(e.state.open_orders, ids)
            &&& same_holdings(e, f)
            &&& f.liquidating == e.liquidating
            &&& f.disabled == e.disabled
        }),
    decreases ids.len(),
{
    if ids.len() > 0 {
        lemma_dropped_all(e, ids.drop_last());
    }
}

/// Whether a list of commands cancels an order.
pub open spec fn is_cancelled(c: Seq<CommandView>, id: Seq<char>) -> bool {
    exists|i: int| 0 <= i < c.len() && (#[trigger] c[i] matches CommandView::CancelOrders(ids)
        && ids.contains(id))
}

/// Whether every order that is in the first list and not in the second is cancelled.
spec fn lost_are_cancelled(
    before: Entries<TrackedOrderView>,
    after: Entries<TrackedOrderView>,
    c: Seq<CommandView>,
) -> bool {
    forall|k: Seq<char>|
        (#[trigger] lookup(before, k) is Some && lookup(after, k) is None) ==> is_cancelled(c, k)
}

proof fn lemma_lost_join(
    a: Entries<TrackedOrderView>,
    b: Entries<TrackedOrderView>,
    d: Entries<TrackedOrderView>,
    c1: Seq<CommandView>,
    c2: Seq<CommandView>,
)
    requires
        lost_are_cancelled(a, b, c1),
        lost_are_cancelled(b, d, c2),
    ensures
        lost_are_cancelled(a, d, c1 + c2),
{
    let c = c1 + c2;
    assert forall|k: Seq<char>|
        (#[trigger] lookup(a, k) is Some && lookup(d, k) is None) implies is_cancelled(c, k) by {
        if lookup(b, k) is None {
            assert(is_cancelled(c1, k));
            let i = choose|i: int|
                0 <= i < c1.len() && (#[trigger] c1[i] matches CommandView::CancelOrders(ids)
                    && ids.contains(k));
            assert(c[i] == c1[i]);
        } else {
            assert(is_cancelled(c2, k));
            let i = choose|i: int|
                0 <= i < c2.len() && (#[trigger] c2[i] matches CommandView::CancelOrders(ids)
                    && ids.contains(k));
            assert(c[c1.len() + i] == c2[i]);
        }
    }
}

proof fn lemma_lost_all(s: Entries<TrackedOrderView>, ks: Seq<Seq<char>>)
    requires
        distinct_keys(s),
    ensures
        lost_are_cancelled(s, without_all(s, ks), cancel(ks)),
{
    let t = without_all(s, ks);
    assert forall|k: Seq<char>|
        (#[trigger] lookup(s, k) is Some && lookup(t, k) is None) implies is_cancelled(
        cancel(ks),
        k,
    ) by {
        if !ks.contains(k) {
            lemma_without_all_keeps(s, ks, k);
        }
        assert(cancel(ks)[0] == CommandView::CancelOrders(ks));
    }
}

proof fn lemma_lost_steps(e: EngineView, pairs: Seq<Seq<char>>, at: Timestamp)
    requires
        is_tidy(e),
    ensures
        e.liquidation_steps(pairs, at) matches Some((f, c)) ==> lost_are_cancelled(
            e.state.open_orders,
            f.state.open_orders,
            c,
        ),
    decreases pairs.len(),
{
    if pairs.len() > 0 && e.liquidation_steps(pairs, at) is Some {
        let front = pairs.drop_last();
        let q = pairs.last();
        let (e1, c1) = e.liquidation_steps(front, at).unwrap();
        let (e2, c2) = e1.liquidation_step(q, at).unwrap();
        lemma_steps_stay_apart(e, front, at);
        lemma_lost_steps(e, front, at);
        assert(lost_are_cancelled(e1.state.open_orders, e2.state.open_orders, c2)) by {
            reveal(EngineView::liquidation_step);
            reveal(EngineView::liquidation_sell);
            let orders = e1.state.open_orders;
            let left = ids_where(orders, crate::engine_model::plain_of_pair(q));
            lemma_lost_all(orders, left);
            let id = order_id("liq"@, (e1.counter + 1) as nat);
            assert forall|o: TrackedOrderView, k: Seq<char>|
                #![trigger lookup(stored(orders, id, o), k)]
                lookup(orders, k) is Some ==> lookup(stored(orders, id, o), k) is Some by {
                stored_then_lookup(orders, id, o, k);
            }
        }
        lemma_lost_join(
            e.state.open_orders,
            e1.state.open_orders,
            e2.state.open_orders,
            c1,
            c2,
        );
    }
}

proof fn lemma_lost_liquidate_all(e: EngineView, pairs: Seq<Seq<char>>)
    requires
        is_tidy(e),
    ensures
        ({
            let (f, c) = e.liquidate_all(pairs);
            lost_are_cancelled(e.state.open_orders, f.state.open_orders, c)
        }),
    decreases pairs.len(),
{
    if pairs.len() > 0 {
        let front = pairs.drop_last();
        let q = pairs.last();
        let (e1, c1) = e.liquidate_all(front);
        let (e2, c2) = e1.liquidate(q);
        lemma_liquidate_all(e, front);
        lemma_lost_liquidate_all(e, front);
        lemma_lost_all(e1.state.open_orders, ids_where(e1.state.open_orders, of_pair(q)));
        lemma_lost_join(
            e.state.open_orders,
            e1.state.open_orders,
            e2.state.open_orders,
            c1,
            c2,
        );
    }
}

/// What is left of cooldowns: those that are not over.
proof fn lemma_thawed(cooldowns: Entries<Timestamp>, at: Timestamp, k: Seq<char>)
    requires
        distinct_keys(cooldowns),
    ensures
        distinct_keys(without_all(cooldowns, EngineView::cooled(cooldowns, at))),
        lookup(without_all(cooldowns, EngineView::cooled(cooldowns, at)), k) == (match lookup(
            cooldowns,
            k,
        ) {
            Some(t) => if t.order() <= at.order() {
                None
            } else {
                Some(t)
            },
            None => None,
        }),
{
    let ks = EngineView::cooled(cooldowns, at);
    let left = without_all(cooldowns, ks);
    lemma_without_all_distinct(cooldowns, ks);
    lemma_cooled(cooldowns, at, k);
    if ks.contains(k) {
        lemma_slot(left, k);
        if keyed(left, k) {
            lemma_without_all(cooldowns, ks, slot(left, k));
        }
    } else {
        lemma_without_all_keeps(cooldowns, ks, k);
    }
}

proof fn lemma_cooled(cooldowns: Entries<Timestamp>, at: Timestamp, k: Seq<char>)
    requires
        distinct_keys(cooldowns),
    ensures
        EngineView::cooled(cooldowns, at).contains(k) <==> (lookup(cooldowns, k) matches Some(t)
            && t.order() <= at.order()),
    decreases cooldowns.len(),
{
    let all = EngineView::cooled(cooldowns, at);
    lemma_slot(cooldowns, k);
    if cooldowns.len() > 0 {
        let front = cooldowns.drop_last();
        let last = cooldowns.len() - 1;
        let before = EngineView::cooled(front, at);
        assert(distinct_keys(front)) by {
            assert forall|a: int, b: int| 0 <= a < b < front.len() implies front[a].0
                != front[b].0 by {
                assert(cooldowns[a].0 != cooldowns[b].0);
            }
        }
        lemma_cooled(front, at, k);
        lemma_slot(front, k);
        if cooldowns.last().0 == k {
            lemma_keyed(cooldowns, k, last);
            assert(!keyed(front, k)) by {
                if keyed(front, k) {
                    assert(cooldowns[slot(front, k)].0 != cooldowns[last].0);
                }
            }
        } else {
            if keyed(front, k) {
                assert(cooldowns[slot(front, k)] == front[slot(front, k)]);
                lemma_keyed(cooldowns, k, slot(front, k));
            } else if keyed(cooldowns, k) {
                assert(front[slot(cooldowns, k)].0 != k);
            }
        }
        if all.contains(k) {
            let i = choose|i: int| 0 <= i < all.len() && all[i] == k;
            if i < before.len() {
                assert(before[i] == k);
            }
        }
        if before.contains(k) {
            let i = choose|i: int| 0 <= i < before.len() && before[i] == k;
            assert(all[i] == k);
        }
        if cooldowns.last().0 == k && cooldowns.last().1.order() <= at.order() {
            assert(all[all.len() - 1] == k);
        }
    }
}

/// Everything a tick does to one pair.
proof fn lemma_tick_pair(e: EngineView, pair: Seq<char>, at: Timestamp)
    requires
        is_tidy(e),
        !keyed(e.liquidating, pair),
    ensures
        e.on_tick(at) matches Some((f, c)) ==> {
            &&& f.state.positions == e.state.positions
            &&& f.prices == e.prices
            &&& f.config == e.config
            &&& lookup(e.state.positions, pair) matches Some(p) ==> e.extreme(pair, p) is Some
            &&& keyed(f.liquidating, pair) <==> (lookup(e.state.positions, pair) matches Some(p)
                && e.extreme(pair, p) == Some(true))
            &&& keyed(f.liquidating, pair) ==> keyed(f.disabled, pair) && none_of(
                f.state.open_orders,
                pair,
            )
            &&& !keyed(f.liquidating, pair) ==> keyed(f.disabled, pair) == keyed(e.disabled, pair)
        },
{
    reveal(EngineView::on_tick);
    reveal(EngineView::upkeep);
    if e.on_tick(at) is Some {
        let e0 = e.thawed(at);
        lemma_thawed(e.state.cooldown_until, at, pair);
        let going = keys_of(e0.liquidating);
        let (e1, c1) = e0.liquidation_steps(going, at).unwrap();
        lemma_steps_stay_apart(e0, going, at);
        assert(!going.contains(pair)) by {
            if going.contains(pair) {
                let i = choose|i: int| 0 <= i < going.len() && going[i] == pair;
                lemma_keyed(e.liquidating, pair, i);
            }
        }
        assert(same_standing(e0, e1, pair));
        let pairs = e1.extremes(e1.state.positions).unwrap();
        lemma_extremes(e1, e1.state.positions, pair);
        if let Some(p) = lookup(e.state.positions, pair) {
            assert(e1.extreme(pair, p) == e.extreme(pair, p));
            assert(e1.position(pair) == p);
        }
        let (e2, c2) = e1.liquidate_all(pairs);
        lemma_liquidate_all(e1, pairs);
        if !pairs.contains(pair) {
            assert(same_standing(e1, e2, pair));
        }
        let old = ids_where(
            e2.state.open_orders,
            older_than(at, e2.config.risk.stale_order_secs),
        );
        lemma_dropped_all(e2, old);
        lemma_fewer_without_all(e2.state.open_orders, old);
        let (e3, c3) = e2.upkeep(at);
        if keyed(e2.liquidating, pair) {
            lemma_none_of_fewer(e2.state.open_orders, e3.state.open_orders, pair);
        }
    }
}

/// After a tick, a pair that was not being liquidated is being liquidated if and only if some of it
/// is held, at a cost, and its price has moved from that cost by more than the allowed share: down
/// by more than the stop-loss, or up by more than the take-profit. A pair that is being liquidated
/// from now on is shut off from quoting, and none of its orders is left.
pub proof fn extremes_are_liquidated(e: EngineView, pair: Seq<char>, at: Timestamp)
    requires
        is_tidy(e),
        !keyed(e.liquidating, pair),
        e.on_tick(at) is Some,
        e.position(pair).qty.valid() && e.position(pair).avg_cost.valid(),
        units(e.position(pair).avg_cost) >= 0,
        e.config.risk.stop_loss_pct.valid() && e.config.risk.take_profit_pct.valid(),
        lookup(e.prices, pair) matches Some(price) ==> price.valid(),
    ensures
        ({
            let f = e.on_tick(at).unwrap().0;
            let p = e.position(pair);
            let stop = e.config.risk.stop_loss_pct;
            let take = e.config.risk.take_profit_pct;
            let judged = units(p.qty) > 0 && units(p.avg_cost) > 0 && lookup(e.prices, pair) is Some;
            let price = lookup(e.prices, pair).unwrap();
            let slack = move_slack(price, p.avg_cost);
            &&& judged && moved_out(price, p.avg_cost, stop, take, slack) ==> keyed(
                f.liquidating,
                pair,
            )
            &&& keyed(f.liquidating, pair) ==> judged && moved_out(
                price,
                p.avg_cost,
                stop,
                take,
                -slack,
            )
            &&& keyed(f.liquidating, pair) ==> keyed(f.disabled, pair) && none_of(
                f.state.open_orders,
                pair,
            )
            &&& !keyed(f.liquidating, pair) ==> keyed(f.disabled, pair) == keyed(e.disabled, pair)
            &&& f.state.positions == e.state.positions
        }),
{
    lemma_tick_pair(e, pair, at);
    let p = e.position(pair);
    units_have_the_sign(p.qty);
    units_have_the_sign(p.avg_cost);
    lemma_of(0, 0);
    if units(p.qty) > 0 && units(p.avg_cost) > 0 && lookup(e.prices, pair) is Some {
        extremes_are_judged_by_their_share(e, pair, p);
    }
}

/// Without rounding in the way: the change is the difference to the cost, divided by the cost, and a
/// pair is liquidated if it is below minus the stop-loss or above the take-profit.
pub proof fn changes_beyond_the_limits_are_liquidated(
    e: EngineView,
    pair: Seq<char>,
    at: Timestamp,
    price: Decimal,
    gain: Decimal,
    change: Decimal,
)
    requires
        is_tidy(e),
        !keyed(e.liquidating, pair),
        e.on_tick(at) is Some,
        e.position(pair).qty.m() > 0,
        e.position(pair).avg_cost.m() != 0,
        lookup(e.prices, pair) == Some(price),
        difference(price, e.position(pair).avg_cost) == Some(gain),
        quotient(gain, e.position(pair).avg_cost) == Some(change),
        change.valid(),
        e.config.risk.stop_loss_pct.valid() && e.config.risk.take_profit_pct.valid(),
    ensures
        keyed(e.on_tick(at).unwrap().0.liquidating, pair) <==> units(change) < -units(
            e.config.risk.stop_loss_pct,
        ) || units(change) > units(e.config.risk.take_profit_pct),
{
    lemma_tick_pair(e, pair, at);
    lemma_of(0, 0);
    lemma_negated(e.config.risk.stop_loss_pct);
    less_is_by_units(change, negated(e.config.risk.stop_loss_pct));
    less_is_by_units(e.config.risk.take_profit_pct, change);
}

/// Whether an order has been out for more than some seconds.
pub open spec fn out_for_longer(o: TrackedOrderView, now: Timestamp, secs: int) -> bool {
    nanos_between(o.placed_at, now) >= (secs + 1) * NANOS_PER_SEC
}

proof fn lemma_seconds(since: Timestamp, now: Timestamp, secs: int)
    requires
        secs > 0,
    ensures
        seconds_between(since, now) >= secs <==> nanos_between(since, now) >= secs * NANOS_PER_SEC,
{
    let n = nanos_between(since, now);
    let d = NANOS_PER_SEC as int;
    if n >= 0 {
        let q = n / d;
        assert(n == d * q + n % d && 0 <= n % d < d) by (nonlinear_arith)
            requires
                q == n / d,
                d > 0,
        ;
        assert(q >= secs <==> n >= secs * d) by (nonlinear_arith)
            requires
                n == d * q + n % d,
                0 <= n % d < d,
        ;
    } else {
        assert((-n) / d >= 0) by (nonlinear_arith)
            requires
                n < 0,
                d > 0,
        ;
        assert(secs * d > 0) by (nonlinear_arith)
            requires
                secs > 0,
                d > 0,
        ;
    }
}

/// A tick leaves no order that has been out for longer than allowed, keeps every other quote of a
/// pair that is not being liquidated, and cancels each order that it no longer tracks.
pub proof fn stale_orders_are_cancelled(e: EngineView, at: Timestamp)
    requires
        is_tidy(e),
        e.config.risk.stale_order_secs <= i64::MAX,
        e.on_tick(at) is Some,
    ensures
        ({
            let (f, c) = e.on_tick(at).unwrap();
            let secs = e.config.risk.stale_order_secs as int;
            let after = f.state.open_orders;
            &&& forall|j: int|
                0 <= j < after.len() ==> !out_for_longer((#[trigger] after[j]).1, at, secs)
            &&& forall|id: Seq<char>|
                (#[trigger] lookup(e.state.open_orders, id) matches Some(o) && !begins_with(id, "liq"@)
                    && !keyed(e.liquidating, o.pair) && !keyed(f.liquidating, o.pair)
                    && !out_for_longer(o, at, secs)) ==> lookup(after, id) == lookup(
                    e.state.open_orders,
                    id,
                )
            &&& forall|id: Seq<char>|
                (#[trigger] lookup(e.state.open_orders, id) is Some && lookup(after, id) is None)
                    ==> is_cancelled(c, id)
        }),
{
    let (f, c) = e.on_tick(at).unwrap();
    let e0 = e.thawed(at);
    lemma_thawed(e.state.cooldown_until, at, Seq::empty());
    let going = keys_of(e0.liquidating);
    reveal(EngineView::on_tick);
    let (e1, c1) = e0.liquidation_steps(going, at).unwrap();
    let pairs = e1.extremes(e1.state.positions).unwrap();
    let (e2, c2) = e1.liquidate_all(pairs);
    let (e3, c3) = e2.upkeep(at);
    lemma_steps_stay_apart(e0, going, at);
    lemma_lost_steps(e0, going, at);
    lemma_liquidate_all(e1, pairs);
    lemma_lost_liquidate_all(e1, pairs);
    let secs = e.config.risk.stale_order_secs as int;
    let stale = older_than(at, e.config.risk.stale_order_secs);
    let old = ids_where(e2.state.open_orders, stale);
    let before = e2.state.open_orders;
    let after = f.state.open_orders;
    assert(after == without_all(before, old)) by {
        reveal(EngineView::upkeep);
        lemma_dropped_all(e2, old);
    }
    assert forall|o: TrackedOrderView| #[trigger] stale(o) <==> out_for_longer(o, at, secs) by {
        lemma_seconds(o.placed_at, at, secs + 1);
    }
    assert forall|j: int| 0 <= j < after.len() implies !out_for_longer(
        (#[trigger] after[j]).1,
        at,
        secs,
    ) by {
        lemma_without_all(before, old, j);
        let i = choose|i: int| 0 <= i < before.len() && before[i] == after[j];
        if stale(after[j].1) {
            lemma_ids_where(before, stale, i);
        }
    }
    assert forall|id: Seq<char>|
        (#[trigger] lookup(e.state.open_orders, id) matches Some(o) && !begins_with(id, "liq"@)
            && !keyed(e.liquidating, o.pair) && !keyed(f.liquidating, o.pair) && !out_for_longer(
            o,
            at,
            secs,
        )) implies lookup(after, id) == lookup(e.state.open_orders, id) by {
        let o = lookup(e.state.open_orders, id).unwrap();
        assert(!going.contains(o.pair)) by {
            if going.contains(o.pair) {
                let i = choose|i: int| 0 <= i < going.len() && going[i] == o.pair;
                lemma_keyed(e.liquidating, o.pair, i);
            }
        }
        assert(lookup(e1.state.open_orders, id) == Some(o));
        lemma_tick_pair(e, o.pair, at);
        lemma_extremes(e1, e1.state.positions, o.pair);
        assert(same_standing(e0, e1, o.pair));
        if let Some(p) = lookup(e.state.positions, o.pair) {
            assert(e1.extreme(o.pair, p) == e.extreme(o.pair, p));
        }
        assert(!pairs.contains(o.pair));
        assert(lookup(before, id) == Some(o));
        assert(!stale(o));
        lemma_kept_order(before, stale, id);
    }
    assert(lost_are_cancelled(before, after, c3)) by {
        reveal(EngineView::upkeep);
        lemma_lost_all(before, old);
        if c3 != cancel(old) {
            let gone = cancel(old);
            assert forall|k: Seq<char>|
                (#[trigger] lookup(before, k) is Some && lookup(after, k) is None) implies is_cancelled(
                c3,
                k,
            ) by {
                assert(is_cancelled(gone, k));
                let i = choose|i: int|
                    0 <= i < gone.len() && (#[trigger] gone[i] matches CommandView::CancelOrders(ids)
                        && ids.contains(k));
                assert(c3[i] == gone[i]);
            }
        }
    }
    lemma_lost_join(e0.state.open_orders, e1.state.open_orders, before, c1, c2);
    lemma_lost_join(e0.state.open_orders, before, after, c1 + c2, c3);
}

/// A tick refreshes the dead man's switch if and only if that was never done or was done at least the
/// configured number of seconds ago, and notes when.
pub proof fn the_switch_is_refreshed_in_time(e: EngineView, at: Timestamp)
    requires
        is_tidy(e),
        0 < e.config.risk.dms_refresh_secs <= i64::MAX,
        e.on_tick(at) is Some,
    ensures
        ({
            let (f, c) = e.on_tick(at).unwrap();
            let due = e.last_dms is None || nanos_between(e.last_dms.unwrap(), at)
                >= e.config.risk.dms_refresh_secs * NANOS_PER_SEC;
            &&& due <==> c.contains(CommandView::RefreshDms)
            &&& due ==> f.last_dms == Some(at)
            &&& !due ==> f.last_dms == e.last_dms
        }),
{
    reveal(EngineView::on_tick);
    let (f, c) = e.on_tick(at).unwrap();
    let e0 = e.thawed(at);
    lemma_thawed(e.state.cooldown_until, at, Seq::empty());
    let going = keys_of(e0.liquidating);
    let (e1, c1) = e0.liquidation_steps(going, at).unwrap();
    let pairs = e1.extremes(e1.state.positions).unwrap();
    let (e2, c2) = e1.liquidate_all(pairs);
    let (e3, c3) = e2.upkeep(at);
    lemma_steps_stay_apart(e0, going, at);
    lemma_liquidate_all(e1, pairs);
    let old = ids_where(e2.state.open_orders, older_than(at, e2.config.risk.stale_order_secs));
    lemma_dropped_all(e2, old);
    reveal(EngineView::upkeep);
    if let Some(last) = e.last_dms {
        lemma_seconds(last, at, e.config.risk.dms_refresh_secs as int);
    }
    if e2.dropped_all(old).dms_due(at) {
        assert(c3[c3.len() - 1] is RefreshDms);
        assert(c[c.len() - 1] is RefreshDms);
    } else if c.contains(CommandView::RefreshDms) {
        let i = choose|i: int| 0 <= i < c.len() && c[i] == CommandView::RefreshDms;
        if i < c1.len() {
            assert(c[i] == c1[i]);
        } else if i < c1.len() + c2.len() {
            assert(c[i] == c2[i - c1.len()]);
        } else {
            assert(c[i] == c3[i - c1.len() - c2.len()]);
        }
    }
}

/// A tick ends the cooldowns whose time has come, and no others.
pub proof fn cooldowns_end_in_time(e: EngineView, pair: Seq<char>, at: Timestamp)
    requires
        is_tidy(e),
        e.on_tick(at) is Some,
    ensures
        ({
            let before = lookup(e.state.cooldown_until, pair);
            let after = lookup(e.on_tick(at).unwrap().0.state.cooldown_until, pair);
            &&& (before matches Some(t) && at.order() >= t.order()) ==> after is None
            &&& (before matches Some(t) && at.order() < t.order()) ==> after == before
            &&& before is None ==> after is None
        }),
{
    reveal(EngineView::on_tick);
    let e0 = e.thawed(at);
    lemma_thawed(e.state.cooldown_until, at, pair);
    let going = keys_of(e0.liquidating);
    let (e1, c1) = e0.liquidation_steps(going, at).unwrap();
    let pairs = e1.extremes(e1.state.positions).unwrap();
    let (e2, c2) = e1.liquidate_all(pairs);
    lemma_steps_stay_apart(e0, going, at);
    lemma_liquidate_all(e1, pairs);
    let old = ids_where(e2.state.open_orders, older_than(at, e2.config.risk.stale_order_secs));
    lemma_dropped_all(e2, old);
    reveal(EngineView::upkeep);
}

/// Whether no quoter of a pair refers to an order.
pub open spec fn is_not_quoted(e: EngineView, pair: Seq<char>, id: Seq<char>) -> bool {
    lookup(e.quoters, pair) matches Some(q) ==> q.bid != Some(id) && q.ask != Some(id)
}

proof fn lemma_dropped_is_not_quoted(e: EngineView, id: Seq<char>, pair: Seq<char>, other: Seq<char>)
    ensures
        lookup(e.state.open_orders, id) matches Some(o) ==> is_not_quoted(e.dropped(id), o.pair, id),
        is_not_quoted(e, pair, other) ==> is_not_quoted(e.dropped(id), pair, other),
{
    if let Some(o) = lookup(e.state.open_orders, id) {
        if let Some(q) = lookup(e.quoters, o.pair) {
            stored_then_lookup(e.quoters, o.pair, q.cancelled(id), o.pair);
            stored_then_lookup(e.quoters, o.pair, q.cancelled(id), pair);
        }
    }
}

/// A dropped order is not quoted any more.
proof fn lemma_dropped_are_not_quoted(e: EngineView, ids: Seq<Seq<char>>, id: Seq<char>)
    requires
        distinct_keys(e.state.open_orders),
        ids.contains(id),
    ensures
        lookup(e.state.open_orders, id) matches Some(o) ==> is_not_quoted(
            e.dropped_all(ids),
            o.pair,
            id,
        ),
    decreases ids.len(),
{
    if let Some(o) = lookup(e.state.open_orders, id) {
        let front = ids.drop_last();
        let last = ids.last();
        let e1 = e.dropped_all(front);
        lemma_dropped_all(e, front);
        lemma_dropped_is_not_quoted(e1, last, o.pair, id);
        if front.contains(id) {
            lemma_dropped_are_not_quoted(e, front, id);
        } else {
            assert(last == id) by {
                let i = choose|i: int| 0 <= i < ids.len() && ids[i] == id;
                if i < front.len() {
                    assert(front[i] == id);
                }
            }
            lemma_without_all_keeps(e.state.open_orders, front, id);
        }
    }
}

/// An order that has been out for too long is no longer quoted after a tick.
pub proof fn stale_orders_are_not_quoted(e: EngineView, at: Timestamp, id: Seq<char>)
    requires
        is_tidy(e),
        e.config.risk.stale_order_secs <= i64::MAX,
        e.on_tick(at) is Some,
        !begins_with(id, "liq"@),
        lookup(e.state.open_orders, id) matches Some(o) && out_for_longer(
            o,
            at,
            e.config.risk.stale_order_secs as int,
        ) && !keyed(e.liquidating, o.pair) && !keyed(e.on_tick(at).unwrap().0.liquidating, o.pair),
    ensures
        is_not_quoted(
            e.on_tick(at).unwrap().0,
            lookup(e.state.open_orders, id).unwrap().pair,
            id,
        ),
{
    let (f, c) = e.on_tick(at).unwrap();
    let o = lookup(e.state.open_orders, id).unwrap();
    let e0 = e.thawed(at);
    lemma_thawed(e.state.cooldown_until, at, Seq::empty());
    let going = keys_of(e0.liquidating);
    reveal(EngineView::on_tick);
    let (e1, c1) = e0.liquidation_steps(going, at).unwrap();
    let pairs = e1.extremes(e1.state.positions).unwrap();
    let (e2, c2) = e1.liquidate_all(pairs);
    lemma_steps_stay_apart(e0, going, at);
    lemma_liquidate_all(e1, pairs);
    assert(!going.contains(o.pair)) by {
        if going.contains(o.pair) {
            let i = choose|i: int| 0 <= i < going.len() && going[i] == o.pair;
            lemma_keyed(e.liquidating, o.pair, i);
        }
    }
    assert(lookup(e1.state.open_orders, id) == Some(o));
    lemma_tick_pair(e, o.pair, at);
    lemma_extremes(e1, e1.state.positions, o.pair);
    assert(same_standing(e0, e1, o.pair));
    if let Some(p) = lookup(e.state.positions, o.pair) {
        assert(e1.extreme(o.pair, p) == e.extreme(o.pair, p));
    }
    assert(!pairs.contains(o.pair));
    assert(lookup(e2.state.open_orders, id) == Some(o));
    let stale = older_than(at, e.config.risk.stale_order_secs);
    lemma_seconds(o.placed_at, at, e.config.risk.stale_order_secs + 1);
    assert(stale(o));
    let before = e2.state.open_orders;
    let old = ids_where(before, stale);
    lemma_slot(before, id);
    lemma_ids_where(before, stale, slot(before, id));
    lemma_dropped_are_not_quoted(e2, old, id);
    reveal(EngineView::upkeep);
}

} // verus!
