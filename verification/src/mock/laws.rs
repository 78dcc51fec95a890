//! What the simulated exchange does with orders, and which prices a scenario leads to.
use crate::collections::{keyed, lookup, stored_then_lookup, Entries};
use crate::json::{as_count, as_number, as_text, LeafView};
use crate::mock::book::{ascending, lemma_place, place_of, with_level, KeyLevel};
use crate::mock::commands::{command_in, goes_to, CommandView, FeedView, FieldsView};
use crate::mock::config::{first_with, merged_one};
use crate::mock::exchange::{
    all_filled, amended, cancel_events, canceled, completed, drawn, maker_fill, near_orders, order_id,
    placement_reply, reached_orders, NewOrderView, Placed, Quotes, StateView,
};
use crate::mock::orders::{
    all_canceled, open_orders, OrderStatus, OrderType, OrderView, Side,
};
use crate::mock::scenario::{
    accepted_scenarios_are_timed, falls_into, fault, order_fault, sample, timed, values_fault,
    EndBehavior, Interpolation, Mid, ScenarioDefaults, Waypoint,
};
use crate::mock::sizes::ONE_KEY;
use crate::proxy::ProxyEventView;
use vstd::prelude::*;

verus! {

/// Whether an order can be placed at all: it names a symbol that is traded, bears an id and is of some
/// quantity.
pub open spec fn is_acceptable(v: StateView, o: NewOrderView) -> bool {
    o.symbol.len() > 0 && o.cl_ord_id.len() > 0 && o.qty > 0 && keyed(v.symbols, o.symbol)
}

/// Whether the price of a limit order reaches the other side of the book.
pub open spec fn reaches_across(o: NewOrderView, q: Quotes) -> bool {
    match o.side {
        Side::Buy => q.rounded_ask > 0 && o.price >= q.rounded_ask,
        Side::Sell => q.rounded_bid > 0 && o.price <= q.rounded_bid,
    }
}

/// Orders that cannot be placed are refused. A limit order rests unless its price reaches the other
/// side of the book; one that does trades at the price that stands there, and is taken back instead if
/// it may only rest. A market order trades at the best price of the other side.
pub proof fn orders_trade_when_they_reach_across(v: StateView, o: NewOrderView, q: Quotes)
    ensures
        ({
            let p = v.placement(o, q);
            let across = o.order_type is Market || reaches_across(o, q);
            let opposite = match (o.order_type, o.side) {
                (OrderType::Limit, Side::Buy) => q.rounded_ask,
                (OrderType::Limit, Side::Sell) => q.rounded_bid,
                (OrderType::Market, Side::Buy) => q.best_ask,
                (OrderType::Market, Side::Sell) => q.best_bid,
            };
            &&& (p is Invalid || p is UnknownSymbol) <==> !is_acceptable(v, o)
            &&& p is Invalid <==> o.symbol.len() == 0 || o.cl_ord_id.len() == 0 || o.qty <= 0
            &&& p is Resting <==> is_acceptable(v, o) && !across
            &&& p is Crossing <==> is_acceptable(v, o) && across && o.post_only
            &&& p is Filled <==> is_acceptable(v, o) && across && !o.post_only
            &&& p matches Placed::Filled(price) ==> price == opposite
        }),
{
}

/// An order that rests or trades is kept under its id with all that it asked for, filled in full or
/// not at all; an order that is refused or taken back is not kept. Other orders stay, and each order
/// that gets as far as the book uses up a number.
pub proof fn placed_orders_are_kept(v: StateView, o: NewOrderView, q: Quotes, other: Seq<char>)
    requires
        other != o.cl_ord_id,
    ensures
        ({
            let w = v.placed(o, q);
            let p = v.placement(o, q);
            &&& w.symbols == v.symbols
            &&& lookup(w.orders, other) == lookup(v.orders, other)
            &&& !is_acceptable(v, o) ==> w == v
            &&& is_acceptable(v, o) ==> w.next_order_id == v.next_order_id + 1
            &&& p is Crossing ==> w.orders == v.orders
            &&& p is Resting || p is Filled ==> (lookup(w.orders, o.cl_ord_id) matches Some(x)
                && x.cl_ord_id == o.cl_ord_id && x.symbol == o.symbol && x.side == o.side && x.price
                == o.price && x.qty == o.qty && x.order_type == o.order_type && x.post_only
                == o.post_only && x.order_id == order_id(v.next_order_id) && (p is Filled
                ==> x.filled_qty == o.qty && x.status is Filled) && (p is Resting ==> x.filled_qty == 0
                && x.status is New))
        }),
{
    let id = order_id(v.next_order_id);
    stored_then_lookup(
        v.orders,
        o.cl_ord_id,
        crate::mock::exchange::recorded(o, id, true),
        o.cl_ord_id,
    );
    stored_then_lookup(
        v.orders,
        o.cl_ord_id,
        crate::mock::exchange::recorded(o, id, false),
        o.cl_ord_id,
    );
    stored_then_lookup(v.orders, o.cl_ord_id, crate::mock::exchange::recorded(o, id, true), other);
    stored_then_lookup(v.orders, o.cl_ord_id, crate::mock::exchange::recorded(o, id, false), other);
}

/// The reply to a new order goes by what became of it, and names the order and the request.
pub proof fn replies_say_what_became_of_an_order(
    v: StateView,
    o: NewOrderView,
    q: Quotes,
    req_id: u64,
    id: Seq<char>,
)
    ensures
        ({
            let p = v.placement(o, q);
            let r = placement_reply(o, req_id, id, p);
            &&& p is Resting || p is Filled <==> r is OrderAccepted
            &&& p is Invalid || p is UnknownSymbol <==> r is OrderRejected
            &&& p is Crossing <==> r is OrderCancelled
            &&& r matches ProxyEventView::OrderAccepted { req_id: n, cl_ord_id, order_id } ==> n
                == req_id && cl_ord_id == o.cl_ord_id && order_id == id
            &&& r matches ProxyEventView::OrderRejected { req_id: n, cl_ord_id, error, symbol } ==> n
                == req_id && cl_ord_id == o.cl_ord_id
            &&& r matches ProxyEventView::OrderCancelled { cl_ord_id, reason, symbol } ==> cl_ord_id
                == o.cl_ord_id && symbol == Some(o.symbol)
        }),
{
}

/// A change sets the price or the quantity that is given and leaves the rest of an order.
pub proof fn amendments_keep_the_rest(o: OrderView, price: Option<i64>, qty: Option<i64>)
    ensures
        ({
            let r = amended(o, price, qty);
            &&& price matches Some(p) ==> r.price == p
            &&& price is None ==> r.price == o.price
            &&& qty matches Some(n) ==> r.qty == n
            &&& qty is None ==> r.qty == o.qty
            &&& r.side == o.side && r.symbol == o.symbol && r.cl_ord_id == o.cl_ord_id && r.filled_qty
                == o.filled_qty && r.status == o.status && r.order_id == o.order_id
        }),
{
}

/// Cancelling some orders cancels each of them that is known, and touches no other.
pub proof fn cancels_hit_what_they_name(s: Entries<OrderView>, ids: Seq<Seq<char>>, id: Seq<char>)
    ensures
        ids.contains(id) ==> (lookup(s, id) matches Some(o) ==> (lookup(canceled(s, ids), id) matches Some(
            x,
        ) && x == OrderView { status: OrderStatus::Canceled, ..o })),
        !ids.contains(id) ==> lookup(canceled(s, ids), id) == lookup(s, id),
        lookup(s, id) is None ==> lookup(canceled(s, ids), id) is None,
    decreases ids.len(),
{
    if ids.len() > 0 {
        let front = ids.drop_last();
        let last = ids.last();
        cancels_hit_what_they_name(s, front, id);
        let t = canceled(s, front);
        if let Some(o) = lookup(t, last) {
            stored_then_lookup(t, last, OrderView { status: OrderStatus::Canceled, ..o }, id);
        }
        assert(ids[ids.len() - 1] == last);
        if front.contains(id) {
            let i = choose|i: int| 0 <= i < front.len() && front[i] == id;
            assert(ids[i] == id);
        }
        if ids.contains(id) && id != last {
            let i = choose|i: int| 0 <= i < ids.len() && ids[i] == id;
            assert(front[i] == id);
        }
    }
}

/// Cancelling everything cancels each order that is neither filled nor cancelled, and leaves the
/// others as they are.
pub proof fn cancelling_all_spares_filled_orders(s: Entries<OrderView>, i: int)
    requires
        0 <= i < s.len(),
    ensures
        all_canceled(s).len() == s.len(),
        all_canceled(s)[i].0 == s[i].0,
        s[i].1.status is Filled || s[i].1.status is Canceled ==> all_canceled(s)[i].1 == s[i].1,
        !(s[i].1.status is Filled || s[i].1.status is Canceled) ==> all_canceled(s)[i].1 == (OrderView {
            status: OrderStatus::Canceled,
            ..s[i].1
        }),
{
}

/// Whether an order rests untouched and the book has come to its price: the best ask is at a bid's
/// price or below, or the best bid at an ask's price or above.
pub open spec fn is_met(o: OrderView, symbol: Seq<char>, best_bid: i64, best_ask: i64) -> bool {
    &&& o.symbol == symbol
    &&& o.status is New
    &&& o.filled_qty == 0
    &&& match o.side {
        Side::Buy => 0 < best_ask <= o.price,
        Side::Sell => 0 < best_bid && o.price <= best_bid,
    }
}

/// The orders that a book fills are those that rest untouched and whose price it has come to.
pub proof fn books_fill_the_orders_they_meet(
    s: Entries<OrderView>,
    symbol: Seq<char>,
    best_bid: i64,
    best_ask: i64,
    id: Seq<char>,
)
    ensures
        reached_orders(s, symbol, best_bid, best_ask).contains(id) <==> exists|i: int|
            0 <= i < s.len() && (#[trigger] s[i]).1.cl_ord_id == id && is_met(
                s[i].1,
                symbol,
                best_bid,
                best_ask,
            ),
    decreases s.len(),
{
    if s.len() > 0 {
        let front = s.drop_last();
        let all = reached_orders(s, symbol, best_bid, best_ask);
        let rest = reached_orders(front, symbol, best_bid, best_ask);
        let last = s.len() - 1;
        books_fill_the_orders_they_meet(front, symbol, best_bid, best_ask, id);
        if all.contains(id) {
            let k = choose|k: int| 0 <= k < all.len() && all[k] == id;
            if k < rest.len() {
                assert(rest[k] == id);
                let i = choose|i: int|
                    0 <= i < front.len() && (#[trigger] front[i]).1.cl_ord_id == id && is_met(
                        front[i].1,
                        symbol,
                        best_bid,
                        best_ask,
                    );
                assert(s[i] == front[i]);
            } else {
                assert(s[last].1.cl_ord_id == id);
            }
        }
        if exists|i: int|
            0 <= i < s.len() && (#[trigger] s[i]).1.cl_ord_id == id && is_met(
                s[i].1,
                symbol,
                best_bid,
                best_ask,
            ) {
            let i = choose|i: int|
                0 <= i < s.len() && (#[trigger] s[i]).1.cl_ord_id == id && is_met(
                    s[i].1,
                    symbol,
                    best_bid,
                    best_ask,
                );
            if i < last {
                assert(front[i] == s[i]);
                let k = choose|k: int| 0 <= k < rest.len() && rest[k] == id;
                assert(all[k] == id);
            } else {
                assert(all[all.len() - 1] == id);
            }
        }
    }
}

/// Whether an order rests untouched and the book has come near its price without reaching it.
pub open spec fn is_nearly_met(
    o: OrderView,
    symbol: Seq<char>,
    best_bid: i64,
    best_ask: i64,
    low_ask: i64,
    high_bid: i64,
) -> bool {
    &&& o.symbol == symbol
    &&& o.status is New
    &&& o.filled_qty == 0
    &&& !is_met(o, symbol, best_bid, best_ask)
    &&& match o.side {
        Side::Buy => 0 < best_ask && low_ask <= o.price,
        Side::Sell => 0 < best_bid && o.price <= high_bid,
    }
}

/// The orders that may be filled by chance are those that rest untouched and that the book has come
/// near to without reaching them.
pub proof fn near_orders_are_nearly_met(
    s: Entries<OrderView>,
    symbol: Seq<char>,
    best_bid: i64,
    best_ask: i64,
    low_ask: i64,
    high_bid: i64,
    id: Seq<char>,
)
    ensures
        near_orders(s, symbol, best_bid, best_ask, low_ask, high_bid).contains(id) <==> exists|i: int|
            0 <= i < s.len() && (#[trigger] s[i]).1.cl_ord_id == id && is_nearly_met(
                s[i].1,
                symbol,
                best_bid,
                best_ask,
                low_ask,
                high_bid,
            ),
    decreases s.len(),
{
    if s.len() > 0 {
        let front = s.drop_last();
        let all = near_orders(s, symbol, best_bid, best_ask, low_ask, high_bid);
        let rest = near_orders(front, symbol, best_bid, best_ask, low_ask, high_bid);
        let last = s.len() - 1;
        near_orders_are_nearly_met(front, symbol, best_bid, best_ask, low_ask, high_bid, id);
        if all.contains(id) {
            let k = choose|k: int| 0 <= k < all.len() && all[k] == id;
            if k < rest.len() {
                assert(rest[k] == id);
                let i = choose|i: int|
                    0 <= i < front.len() && (#[trigger] front[i]).1.cl_ord_id == id && is_nearly_met(
                        front[i].1,
                        symbol,
                        best_bid,
                        best_ask,
                        low_ask,
                        high_bid,
                    );
                assert(s[i] == front[i]);
            } else {
                assert(s[last].1.cl_ord_id == id);
            }
        }
        if exists|i: int|
            0 <= i < s.len() && (#[trigger] s[i]).1.cl_ord_id == id && is_nearly_met(
                s[i].1,
                symbol,
                best_bid,
                best_ask,
                low_ask,
                high_bid,
            ) {
            let i = choose|i: int|
                0 <= i < s.len() && (#[trigger] s[i]).1.cl_ord_id == id && is_nearly_met(
                    s[i].1,
                    symbol,
                    best_bid,
                    best_ask,
                    low_ask,
                    high_bid,
                );
            if i < last {
                assert(front[i] == s[i]);
                let k = choose|k: int| 0 <= k < rest.len() && rest[k] == id;
                assert(all[k] == id);
            } else {
                assert(all[all.len() - 1] == id);
            }
        }
    }
}

/// A resting order that is filled is filled in full: a bid at the best ask if that is below its price,
/// an ask at the best bid if that is above its price, and at its own price otherwise.
pub proof fn resting_orders_fill_at_the_better_price(o: OrderView, best_bid: i64, best_ask: i64)
    ensures
        ({
            let f = maker_fill(o, best_bid, best_ask);
            &&& f.order.filled_qty == o.qty && f.order.status is Filled
            &&& f.order.qty == o.qty && f.order.price == o.price && f.order.side == o.side
            &&& f.before == o.filled_qty
            &&& o.side is Buy && best_ask <= o.price ==> f.price == best_ask
            &&& o.side is Buy && best_ask > o.price ==> f.price == o.price
            &&& o.side is Sell && best_bid >= o.price ==> f.price == best_bid
            &&& o.side is Sell && best_bid < o.price ==> f.price == o.price
        }),
{
}

/// Filling a list of orders fills each known order that it names, and touches no other.
pub proof fn fills_hit_what_they_name(
    s: StateView,
    ids: Seq<Seq<char>>,
    best_bid: i64,
    best_ask: i64,
    id: Seq<char>,
)
    ensures
        ({
            let t = all_filled(s, ids, best_bid, best_ask).0;
            &&& ids.contains(id) ==> (lookup(s.orders, id) matches Some(o) ==> lookup(t.orders, id)
                == Some(completed(o)))
            &&& !ids.contains(id) ==> lookup(t.orders, id) == lookup(s.orders, id)
            &&& t.symbols == s.symbols && t.next_order_id == s.next_order_id
        }),
    decreases ids.len(),
{
    if ids.len() > 0 {
        let front = ids.drop_last();
        let last = ids.last();
        fills_hit_what_they_name(s, front, best_bid, best_ask, id);
        let t = all_filled(s, front, best_bid, best_ask).0;
        if let Some(o) = lookup(t.orders, last) {
            stored_then_lookup(t.orders, last, completed(o), id);
        }
        assert(ids[ids.len() - 1] == last);
        if front.contains(id) {
            let i = choose|i: int| 0 <= i < front.len() && front[i] == id;
            assert(ids[i] == id);
        }
        if ids.contains(id) && id != last {
            let i = choose|i: int| 0 <= i < ids.len() && ids[i] == id;
            assert(front[i] == id);
        }
    }
}

/// Of some orders those are drawn whose draw came up.
pub proof fn draws_decide(ids: Seq<Seq<char>>, draws: Seq<bool>, id: Seq<char>)
    requires
        ids.len() <= draws.len(),
    ensures
        drawn(ids, draws).contains(id) <==> exists|i: int|
            0 <= i < ids.len() && #[trigger] ids[i] == id && draws[i],
    decreases ids.len(),
{
    if ids.len() > 0 {
        let front = ids.drop_last();
        let rest = drawn(front, draws);
        let all = drawn(ids, draws);
        let last = ids.len() - 1;
        draws_decide(front, draws, id);
        if all.contains(id) {
            let k = choose|k: int| 0 <= k < all.len() && all[k] == id;
            if k < rest.len() {
                assert(rest[k] == id);
                let i = choose|i: int| 0 <= i < front.len() && #[trigger] front[i] == id && draws[i];
                assert(ids[i] == id);
            } else {
                assert(ids[last] == id);
            }
        }
        if exists|i: int| 0 <= i < ids.len() && #[trigger] ids[i] == id && draws[i] {
            let i = choose|i: int| 0 <= i < ids.len() && #[trigger] ids[i] == id && draws[i];
            if i < last {
                assert(front[i] == id);
                let k = choose|k: int| 0 <= k < rest.len() && rest[k] == id;
                assert(all[k] == id);
            } else {
                assert(all[all.len() - 1] == id);
            }
        }
    }
}

/// A quantity that is stored for a price stands there, and what stands at other prices stays.
pub proof fn levels_are_stored_by_price(levels: Seq<KeyLevel>, price: i64, qty: i64, l: KeyLevel)
    requires
        ascending(levels),
    ensures
        l.0 == price ==> (with_level(levels, price, qty).contains(l) <==> l.1 == qty),
        l.0 != price ==> (with_level(levels, price, qty).contains(l) <==> levels.contains(l)),
{
    let p = place_of(levels, price);
    let after = with_level(levels, price, qty);
    lemma_place(levels, price);
    let hit = p < levels.len() && levels[p].0 == price;
    assert(after[p] == (price, qty));
    if levels.contains(l) {
        let i = choose|i: int| 0 <= i < levels.len() && levels[i] == l;
        if l.0 != price {
            if hit || i < p {
                assert(after[i] == l);
            } else {
                assert(after[i + 1] == l);
            }
        }
    }
    if after.contains(l) {
        let i = choose|i: int| 0 <= i < after.len() && after[i] == l;
        if i != p {
            if hit || i < p {
                assert(levels[i] == l);
                if hit && i > p {
                    assert(levels[p].0 < levels[i].0);
                }
            } else {
                assert(levels[i - 1] == l);
                assert(levels[i - 1].0 >= price);
                if levels[i - 1].0 == price {
                    if i - 1 > p {
                        assert(levels[p].0 < levels[i - 1].0);
                    }
                }
            }
        }
    }
}

/// What a setting is where the waypoint has one, and where it has none.
pub open spec fn is_setting(r: Option<i64>, own: Option<i64>, default: Option<i64>) -> bool {
    (own is Some ==> r == own) && (own is None ==> r == default)
}

/// On the way from one waypoint to the next the mid price goes evenly from the one to the other, or
/// stays at the first one where steps are asked for; the settings are those of the first one, or the
/// defaults.
pub proof fn scenarios_go_from_waypoint_to_waypoint(
    w: Seq<Waypoint>,
    t: u64,
    d: ScenarioDefaults,
    end: EndBehavior,
    i: int,
)
    requires
        timed(w),
        falls_into(w, t, i),
    ensures
        ({
            let s = sample(w, t, d, end);
            let steps = w[i].interpolation == Some(Interpolation::Step) || (w[i].interpolation is None
                && d.interpolation == Some(Interpolation::Step));
            &&& !s.finished
            &&& steps ==> s.mid == Mid::At(w[i].mid)
            &&& !steps ==> (s.mid matches Mid::Between { from, to, elapsed, span } && from == w[i].mid
                && to == w[i + 1].mid && elapsed == t - w[i].t_ms && span == w[i + 1].t_ms - w[i].t_ms
                && elapsed < span)
            &&& is_setting(s.spread_pct, w[i].spread_pct, d.spread_pct)
            &&& is_setting(s.fill_probability, w[i].fill_probability, d.fill_probability)
        }),
{
    let k = crate::mock::scenario::segment(w, t);
    assert(falls_into(w, t, k));
    if k < i {
        assert(w[k + 1].t_ms <= w[i].t_ms);
    } else if i < k {
        assert(w[i + 1].t_ms <= w[k].t_ms);
    }
    if i + 1 < w.len() - 1 {
        assert(w[i + 1].t_ms < w[w.len() - 1].t_ms);
    }
    assert(w[w.len() - 1] == w.last());
}

/// After its last waypoint a scenario keeps the last mid price and settings; it is over only where it
/// is meant to stop there.
pub proof fn scenarios_end_at_the_last_waypoint(
    w: Seq<Waypoint>,
    t: u64,
    d: ScenarioDefaults,
    end: EndBehavior,
)
    requires
        timed(w),
        t >= w.last().t_ms,
        !(end is Loop),
    ensures
        ({
            let s = sample(w, t, d, end);
            &&& s.mid == Mid::At(w.last().mid)
            &&& s.finished <==> end is Stop
            &&& is_setting(s.spread_pct, w.last().spread_pct, d.spread_pct)
            &&& is_setting(s.fill_probability, w.last().fill_probability, d.fill_probability)
        }),
{
}

/// The open orders of a symbol are those of it that are neither filled nor cancelled.
pub proof fn open_orders_are_open(s: Entries<OrderView>, symbol: Option<Seq<char>>, o: OrderView)
    ensures
        open_orders(s, symbol).contains(o) <==> (!(o.status is Filled) && !(o.status is Canceled) && (
        symbol matches Some(x) ==> o.symbol == x) && exists|i: int|
            0 <= i < s.len() && (#[trigger] s[i]).1 == o),
    decreases s.len(),
{
    if s.len() > 0 {
        let front = s.drop_last();
        let rest = open_orders(front, symbol);
        let all = open_orders(s, symbol);
        let last = s.len() - 1;
        open_orders_are_open(front, symbol, o);
        if all.contains(o) {
            let k = choose|k: int| 0 <= k < all.len() && all[k] == o;
            if k < rest.len() {
                assert(rest[k] == o);
                let i = choose|i: int| 0 <= i < front.len() && (#[trigger] front[i]).1 == o;
                assert(s[i] == front[i]);
            } else {
                assert(s[last].1 == o);
            }
        }
        if exists|i: int| 0 <= i < s.len() && (#[trigger] s[i]).1 == o {
            let i = choose|i: int| 0 <= i < s.len() && (#[trigger] s[i]).1 == o;
            if i < last {
                assert(front[i] == s[i]);
            } else if all.len() > rest.len() {
                assert(all[all.len() - 1] == s.last().1);
            }
        }
        if rest.contains(o) {
            let k = choose|k: int| 0 <= k < rest.len() && rest[k] == o;
            assert(all[k] == o);
        }
    }
}

/// Whether the values of a waypoint are in range: a mid price and a spread above zero, and a
/// probability between zero and one.
pub open spec fn is_in_range(p: Waypoint) -> bool {
    &&& p.mid > 0
    &&& (p.spread_pct matches Some(v) ==> v > 0)
    &&& (p.fill_probability matches Some(v) ==> 0 <= v <= ONE_KEY)
}

proof fn lemma_values_fault(w: Seq<Waypoint>, i: nat)
    ensures
        values_fault(w, i) is None <==> forall|k: int| i <= k < w.len() ==> is_in_range(#[trigger] w[k]),
    decreases w.len() - i,
{
    if i < w.len() {
        lemma_values_fault(w, i + 1);
        if values_fault(w, i) is None {
            assert forall|k: int| i <= k < w.len() implies is_in_range(#[trigger] w[k]) by {
                if k > i {
                    assert(values_fault(w, i + 1) is None);
                }
            }
        } else if forall|k: int| i <= k < w.len() ==> is_in_range(#[trigger] w[k]) {
            assert(is_in_range(w[i as int]));
        }
    }
}

proof fn lemma_order_fault(w: Seq<Waypoint>, i: nat)
    requires
        timed(w),
    ensures
        order_fault(w, i) is None,
    decreases w.len() - i,
{
    if i + 1 < w.len() {
        assert(w[i as int].t_ms < w[i as int + 1].t_ms);
        lemma_order_fault(w, i + 1);
    }
}

/// A scenario is accepted if and only if its waypoints begin at the start and follow one another in
/// time, its starting price is the first mid price, and all its values are in range.
pub proof fn good_scenarios_are_accepted(w: Seq<Waypoint>, start_matches: bool)
    ensures
        fault(w, start_matches) is None <==> timed(w) && start_matches && forall|k: int|
            0 <= k < w.len() ==> is_in_range(#[trigger] w[k]),
{
    lemma_values_fault(w, 0);
    if fault(w, start_matches) is None {
        accepted_scenarios_are_timed(w, start_matches);
    }
    if timed(w) {
        lemma_order_fault(w, 0);
    }
}

/// A message that asks to place an order, by the newer or the older name, is read as an order with its
/// own symbol, price, quantity and id: a sell only if it says so, a market order only if it says so,
/// and one that only rests only if it says so.
pub proof fn orders_are_read_as_they_are(f: FieldsView)
    requires
        as_text(f.action) == Some("place_order"@) || as_text(f.action) == Some("add_order"@),
    ensures
        command_in(f) matches Some(CommandView::Place {
            req_id,
            symbol,
            side,
            order_type,
            price,
            qty,
            cl_ord_id,
            post_only,
        }) && req_id == as_count(f.req_id) && price == as_number(f.price) && qty == as_number(f.qty) && (
        as_text(f.symbol) matches Some(s) ==> symbol == s) && (as_text(f.cl_ord_id) matches Some(s)
            ==> cl_ord_id == s) && (side is Sell <==> as_text(f.side) == Some("sell"@)) && (
        order_type is Market <==> as_text(f.order_type) == Some("market"@) || f.market == Some(
            LeafView::Flag(true),
        )) && (post_only <==> f.post_only == Some(LeafView::Flag(true))),
{
    reveal_strlit("subscribe");
    reveal_strlit("place_order");
    reveal_strlit("add_order");
    reveal_strlit("buy");
    reveal_strlit("sell");
    reveal_strlit("limit");
    reveal_strlit("market");
    assert("subscribe"@[0] == 's' && "add_order"@[0] == 'a' && "place_order"@[0] == 'p');
    assert("buy"@.len() != "sell"@.len() && "limit"@.len() != "market"@.len());
}

/// Heartbeats go to every client, and books to those who subscribed to their symbol: that of the first
/// item of a list, if there is one, else the one at the top.
pub proof fn feeds_go_to_subscribers(f: FeedView, subscribed: Seq<Seq<char>>, symbol: Seq<char>)
    requires
        f.data matches Some(LeafView::List(_)) ==> as_text(f.first_symbol) == Some(symbol),
        !(f.data matches Some(LeafView::List(_))) ==> as_text(f.symbol) == Some(symbol),
    ensures
        goes_to(f, subscribed) <==> as_text(f.event) == Some("heartbeat"@) || as_text(f.channel) == Some(
            "heartbeat"@,
        ) || subscribed.contains(symbol),
{
}

/// A pair of a scenario is there with the price of the scenario, and the prices of other pairs stay.
pub proof fn scenarios_set_starting_prices(
    s: Seq<(Seq<char>, i64)>,
    p: (Seq<char>, i64),
    other: (Seq<char>, i64),
)
    requires
        other.0 != p.0,
    ensures
        merged_one(s, p).contains(p),
        merged_one(s, p).contains(other) <==> s.contains(other),
        merged_one(s, p).len() <= s.len() + 1,
{
    let i = first_with(s, p.0);
    let r = merged_one(s, p);
    lemma_first(s, p.0);
    if i < s.len() {
        assert(r[i] == p);
    } else {
        assert(r[s.len() as int] == p);
    }
    if s.contains(other) {
        let k = choose|k: int| 0 <= k < s.len() && s[k] == other;
        assert(r[k] == other);
    }
    if r.contains(other) {
        let k = choose|k: int| 0 <= k < r.len() && r[k] == other;
        assert(s[k] == other);
    }
}

proof fn lemma_first(s: Seq<(Seq<char>, i64)>, symbol: Seq<char>)
    ensures
        0 <= first_with(s, symbol) <= s.len(),
        first_with(s, symbol) < s.len() ==> s[first_with(s, symbol)].0 == symbol,
    decreases s.len(),
{
    if s.len() > 0 && s[0].0 != symbol {
        lemma_first(s.drop_first(), symbol);
    }
}

/// Cancelling some orders tells of each of them that is known, under its id and symbol, and of no
/// other.
pub proof fn cancels_are_told_of(s: Entries<OrderView>, ids: Seq<Seq<char>>, id: Seq<char>)
    ensures
        ids.contains(id) ==> (lookup(s, id) matches Some(o) ==> cancel_events(s, ids).contains(
            ProxyEventView::OrderCancelled {
                cl_ord_id: id,
                reason: Some("user_requested"@),
                symbol: Some(o.symbol),
            },
        )),
        cancel_events(s, ids).len() <= ids.len(),
    decreases ids.len(),
{
    if ids.len() > 0 {
        let front = ids.drop_last();
        let last = ids.last();
        let before = cancel_events(s, front);
        let all = cancel_events(s, ids);
        cancels_are_told_of(s, front, id);
        cancels_hit_what_they_name(s, front, id);
        cancels_hit_what_they_name(s, front, last);
        if ids.contains(id) && lookup(s, id) is Some {
            let o = lookup(s, id).unwrap();
            let e = ProxyEventView::OrderCancelled {
                cl_ord_id: id,
                reason: Some("user_requested"@),
                symbol: Some(o.symbol),
            };
            if front.contains(id) {
                let k = choose|k: int| 0 <= k < before.len() && before[k] == e;
                assert(all[k] == e);
            } else {
                assert(last == id) by {
                    let i = choose|i: int| 0 <= i < ids.len() && ids[i] == id;
                    if i < front.len() {
                        assert(front[i] == id);
                    }
                }
                assert(all[all.len() - 1] == e);
            }
        }
    }
}

/// Filling a list of orders tells of each known one that it names, at the price it is filled at and
/// with all that was not filled before.
pub proof fn fills_are_told_of(
    s: StateView,
    ids: Seq<Seq<char>>,
    best_bid: i64,
    best_ask: i64,
    id: Seq<char>,
)
    requires
        ids.no_duplicates(),
        ids.contains(id),
    ensures
        lookup(s.orders, id) matches Some(o) ==> exists|k: int|
            #![trigger all_filled(s, ids, best_bid, best_ask).1[k]]
            0 <= k < all_filled(s, ids, best_bid, best_ask).1.len() && ({
                let f = all_filled(s, ids, best_bid, best_ask).1[k];
                f.order == completed(o) && f.before == o.filled_qty && f == maker_fill(
                    o,
                    best_bid,
                    best_ask,
                )
            }),
    decreases ids.len(),
{
    if lookup(s.orders, id) is Some {
        let o = lookup(s.orders, id).unwrap();
        let front = ids.drop_last();
        let last = ids.last();
        let (t, before) = all_filled(s, front, best_bid, best_ask);
        let all = all_filled(s, ids, best_bid, best_ask).1;
        assert(front.no_duplicates()) by {
            assert forall|i: int, j: int|
                0 <= i < front.len() && 0 <= j < front.len() && i != j implies front[i] != front[j] by {
                assert(ids[i] != ids[j]);
            }
        }
        if last == id {
            assert(!front.contains(id)) by {
                if front.contains(id) {
                    let i = choose|i: int| 0 <= i < front.len() && front[i] == id;
                    assert(ids[i] != ids[ids.len() - 1]);
                }
            }
            fills_hit_what_they_name(s, front, best_bid, best_ask, id);
            assert(all[all.len() - 1] == maker_fill(o, best_bid, best_ask));
        } else {
            let i = choose|i: int| 0 <= i < ids.len() && ids[i] == id;
            assert(front[i] == id);
            fills_are_told_of(s, front, best_bid, best_ask, id);
            let k = choose|k: int|
                #![trigger before[k]]
                0 <= k < before.len() && before[k].order == completed(o) && before[k].before
                    == o.filled_qty && before[k] == maker_fill(o, best_bid, best_ask);
            assert(all[k] == before[k]);
        }
    }
}

} // verus!
