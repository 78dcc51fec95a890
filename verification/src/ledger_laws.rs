//! What totals, edges and unrealized gains are made of: each trade and each holding counts once, with
//! its own amounts.
use crate::analyzer::{edge_pnl, AnalyzerView};
use crate::collections::{lookup, stored_then_lookup, Entries};
use crate::decimal::{
    difference, lemma_of, magnitude, plus, pow10, product, sum, times, Decimal,
};
use crate::decimal_error::{
    apart, differences_are_near, lemma_one, one, products_are_near, quotients_are_off_little,
    sums_are_near,
};
use crate::decimal_laws::{results_are_valid, units};
use crate::decimal_order::units_have_the_sign;
use crate::edge::{
    counted, edge_totals, long_ago, window_totals, CumulativeStats, EdgeView, PairEdgeView,
};
use crate::order_tracking::{position_in, ProxyPosition};
use crate::pnl::{unrealized, PnlTradeView};
use crate::position::Position;
use crate::state::position_of;
use crate::time::{nanos_between, Timestamp, NANOS_PER_HOUR};
use crate::types::{side_text, FillView};
use vstd::prelude::*;

verus! {

/// Whether one amount is the sum of two others, up to rounding.
pub open spec fn adds_up(total: Decimal, a: int, b: int) -> bool {
    apart(units(total), a + b) * one() <= 11 * magnitude(units(total))
}

/// Whether one amount is another one and a product, given in units of `10^-56`, up to rounding.
pub open spec fn adds_product(total: Decimal, a: Decimal, exact: int) -> bool {
    apart(units(total) * one(), units(a) * one() + exact) <= one() + 30 * (magnitude(units(total))
        + magnitude(units(a))) + 30
}

/// Whether all amounts of totals are decimals.
pub open spec fn stats_valid(s: CumulativeStats) -> bool {
    s.realized_pnl.valid() && s.total_volume.valid() && s.total_fees.valid()
}

/// Whether all amounts of a trade are decimals.
pub open spec fn trade_valid(t: PnlTradeView) -> bool {
    t.pnl.valid() && t.price.valid() && t.qty.valid() && t.fee.valid()
}

/// Whether totals are those before with one trade counted in: its profit, its value, its fee, once.
pub open spec fn counts_in(before: CumulativeStats, after: CumulativeStats, t: PnlTradeView) -> bool {
    &&& adds_up(after.realized_pnl, units(before.realized_pnl), units(t.pnl))
    &&& adds_product(after.total_volume, before.total_volume, units(t.price) * units(t.qty))
    &&& adds_up(after.total_fees, units(before.total_fees), units(t.fee))
    &&& after.trade_count == before.trade_count + 1
}

proof fn lemma_adds_product(a: Decimal, x: Decimal, y: Decimal)
    requires
        a.valid() && x.valid() && y.valid(),
    ensures
        plus(Some(a), product(x, y)) matches Some(r) ==> r.valid() && adds_product(
            r,
            a,
            units(x) * units(y),
        ),
{
    lemma_one();
    if let Some(v) = product(x, y) {
        products_are_near(x, y);
        results_are_valid(x, y);
        if let Some(r) = sum(a, v) {
            sums_are_near(a, v);
            results_are_valid(a, v);
            lemma_added_product(units(a), units(v), units(r), units(x) * units(y), one());
        }
    }
}

proof fn lemma_added_product(a: int, v: int, r: int, xy: int, z: int)
    requires
        z >= 1_000_000,
        apart(v * z, xy) <= z + 10 * magnitude(v),
        apart(r, a + v) * z <= 11 * magnitude(r),
    ensures
        apart(r * z, a * z + xy) <= z + 30 * (magnitude(r) + magnitude(a)) + 30,
{
    let e = apart(r, a + v);
    let mr = magnitude(r);
    let ma = magnitude(a);
    let mv = magnitude(v);
    assert(e <= mr) by (nonlinear_arith)
        requires
            e * z <= 11 * mr,
            z >= 1_000_000,
            e >= 0,
            mr >= 0,
    ;
    assert(r * z - a * z - v * z <= e * z && a * z + v * z - r * z <= e * z) by (nonlinear_arith)
        requires
            r - a - v <= e,
            a + v - r <= e,
            z > 0,
    ;
    assert(e <= mr / 1000 + 1) by (nonlinear_arith)
        requires
            e * z <= 11 * mr,
            z >= 1_000_000,
            e >= 0,
            mr >= 0,
    ;
    assert(mv <= mr + ma + e);
}

/// Totals with one more trade: its profit, its value and its fee are added, and it is counted.
pub proof fn trades_are_counted_in(s: CumulativeStats, t: PnlTradeView)
    requires
        stats_valid(s),
        trade_valid(t),
    ensures
        counted(s, t) matches Some(r) ==> stats_valid(r) && counts_in(s, r, t),
{
    sums_are_near(s.realized_pnl, t.pnl);
    results_are_valid(s.realized_pnl, t.pnl);
    sums_are_near(s.total_fees, t.fee);
    results_are_valid(s.total_fees, t.fee);
    lemma_adds_product(s.total_volume, t.price, t.qty);
}

/// Whether a list of trades has amounts that are decimals.
pub open spec fn trades_valid(trades: Seq<PnlTradeView>) -> bool {
    forall|i: int| 0 <= i < trades.len() ==> trade_valid(#[trigger] trades[i])
}

proof fn lemma_window_valid(
    trades: Seq<PnlTradeView>,
    symbol: Seq<char>,
    hours: u64,
    now: Timestamp,
)
    requires
        trades_valid(trades),
    ensures
        window_totals(trades, symbol, hours, now) matches Some(s) ==> stats_valid(s),
    decreases trades.len(),
{
    lemma_of(0, 0);
    if trades.len() > 0 {
        let front = trades.drop_last();
        assert forall|i: int| 0 <= i < front.len() implies trade_valid(#[trigger] front[i]) by {
            assert(front[i] == trades[i]);
        }
        lemma_window_valid(front, symbol, hours, now);
        assert(trade_valid(trades[trades.len() - 1]));
        if let Some(s) = window_totals(front, symbol, hours, now) {
            trades_are_counted_in(s, trades.last());
        }
    }
}

/// A trade of a pair that is not too old is counted in the pair's window; no other trade is. A window
/// without trades has no profit, no volume, no fees and an edge of zero.
pub proof fn windows_count_each_trade_once(
    tracker: EdgeView,
    t: PnlTradeView,
    symbol: Seq<char>,
    hours: u64,
    now: Timestamp,
)
    requires
        trades_valid(tracker.trades),
        trade_valid(t),
    ensures
        ({
            let more = EdgeView { trades: tracker.trades.push(t), ..tracker };
            let a = tracker.pair_edge(symbol, hours, now);
            let b = more.pair_edge(symbol, hours, now);
            a is Some && b is Some ==> {
                let x = a.unwrap();
                let y = b.unwrap();
                &&& y.symbol == symbol
                &&& y.last_trade_at == lookup(tracker.last_trade, symbol)
                &&& !(t.pair == symbol && !long_ago(t.timestamp, hours, now)) ==> x == y
                &&& t.pair == symbol && !long_ago(t.timestamp, hours, now) ==> {
                    &&& adds_up(y.realized_pnl, units(x.realized_pnl), units(t.pnl))
                    &&& adds_product(y.total_volume, x.total_volume, units(t.price) * units(t.qty))
                    &&& adds_up(y.total_fees, units(x.total_fees), units(t.fee))
                    &&& y.trade_count == x.trade_count + 1
                }
            }
        }),
        tracker.trades.len() == 0 ==> (tracker.pair_edge(symbol, hours, now) matches Some(x) && units(
            x.realized_pnl,
        ) == 0 && units(x.total_volume) == 0 && units(x.total_fees) == 0 && x.trade_count == 0
            && units(x.edge) == 0),
{
    let all = tracker.trades.push(t);
    assert(all.drop_last() =~= tracker.trades);
    assert(all.last() == t);
    lemma_window_valid(tracker.trades, symbol, hours, now);
    if let Some(s) = window_totals(tracker.trades, symbol, hours, now) {
        trades_are_counted_in(s, t);
    }
    lemma_of(0, 0);
    assert(0 * pow10(28) == 0);
}

/// The edge of a pair is its profit for each unit of volume; zero if there is no volume.
pub proof fn edges_are_profit_per_volume(
    tracker: EdgeView,
    symbol: Seq<char>,
    hours: u64,
    now: Timestamp,
)
    requires
        trades_valid(tracker.trades),
    ensures
        tracker.pair_edge(symbol, hours, now) matches Some(x) ==> {
            &&& units(x.total_volume) > 0 ==> apart(
                units(x.edge) * units(x.total_volume),
                units(x.realized_pnl) * one(),
            ) * one() <= units(x.total_volume) * (one() + 10 * magnitude(units(x.edge)))
            &&& units(x.total_volume) <= 0 ==> units(x.edge) == 0
        },
{
    lemma_window_valid(tracker.trades, symbol, hours, now);
    if let Some(s) = window_totals(tracker.trades, symbol, hours, now) {
        units_have_the_sign(s.total_volume);
        if units(s.total_volume) > 0 {
            quotients_are_off_little(s.realized_pnl, s.total_volume);
        }
        lemma_of(0, 0);
        assert(0 * pow10(28) == 0);
    }
}

/// A point in time is too old for a window if and only if more than the window's hours have passed
/// since, as long as neither lies in a leap second.
pub proof fn windows_go_by_the_hour(t: Timestamp, hours: u64, now: Timestamp)
    requires
        !t.in_leap_second() && !now.in_leap_second(),
        0 < hours <= i64::MAX,
    ensures
        long_ago(t, hours, now) <==> nanos_between(t, now) > hours * NANOS_PER_HOUR,
{
}

/// Recording a trade counts it in the all-time totals of its pair, touches those of no other pair,
/// and notes when the pair was last traded.
pub proof fn recorded_trades_are_counted_for_good(
    tracker: EdgeView,
    t: PnlTradeView,
    now: Timestamp,
    other: Seq<char>,
)
    requires
        trade_valid(t),
        stats_valid(tracker.totals(t.pair)),
        other != t.pair,
    ensures
        tracker.recorded(t, now) matches Some(r) ==> {
            &&& counts_in(tracker.totals(t.pair), r.totals(t.pair), t)
            &&& r.totals(other) == tracker.totals(other)
            &&& lookup(r.last_trade, t.pair) == Some(t.timestamp)
            &&& lookup(r.last_trade, other) == lookup(tracker.last_trade, other)
            &&& r.max_history_hours == tracker.max_history_hours
        },
{
    if let Some(s) = counted(tracker.totals(t.pair), t) {
        trades_are_counted_in(tracker.totals(t.pair), t);
        stored_then_lookup(tracker.cumulative, t.pair, s, t.pair);
        stored_then_lookup(tracker.cumulative, t.pair, s, other);
        stored_then_lookup(tracker.last_trade, t.pair, t.timestamp, t.pair);
        stored_then_lookup(tracker.last_trade, t.pair, t.timestamp, other);
    }
}

/// The totals over several pairs are those over all but the last, with the amounts of the last one
/// added.
pub proof fn summaries_add_up(edges: Seq<PairEdgeView>, e: PairEdgeView)
    requires
        edge_totals(edges) matches Some(s) ==> stats_valid(s),
        e.realized_pnl.valid() && e.total_volume.valid() && e.total_fees.valid(),
    ensures
        edge_totals(edges.push(e)) matches Some(r) ==> (edge_totals(edges) matches Some(s) && adds_up(
            r.realized_pnl,
            units(s.realized_pnl),
            units(e.realized_pnl),
        ) && adds_up(r.total_volume, units(s.total_volume), units(e.total_volume)) && adds_up(
            r.total_fees,
            units(s.total_fees),
            units(e.total_fees),
        ) && r.trade_count == s.trade_count + e.trade_count),
        edges.len() == 0 ==> (edge_totals(edges) matches Some(s) && units(s.realized_pnl) == 0 && units(
            s.total_volume,
        ) == 0 && units(s.total_fees) == 0 && s.trade_count == 0),
{
    let all = edges.push(e);
    assert(all.drop_last() =~= edges);
    assert(all.last() == e);
    if let Some(s) = edge_totals(edges) {
        sums_are_near(s.realized_pnl, e.realized_pnl);
        sums_are_near(s.total_volume, e.total_volume);
        sums_are_near(s.total_fees, e.total_fees);
    }
    lemma_of(0, 0);
    assert(0 * pow10(28) == 0);
}

/// What is held adds to the unrealized gain its quantity times the move from its cost to the known
/// price; without a known price it adds nothing, and without holdings there is no gain.
pub proof fn holdings_gain_by_their_move(
    positions: Entries<Position>,
    prices: Entries<Decimal>,
    pair: Seq<char>,
    p: Position,
)
    requires
        p.qty.valid() && p.avg_cost.valid(),
        lookup(prices, pair) matches Some(price) ==> price.valid(),
        unrealized(positions, prices) matches Some(u) ==> u.valid(),
    ensures
        ({
            let before = unrealized(positions, prices);
            let after = unrealized(positions.push((pair, p)), prices);
            &&& lookup(prices, pair) is None ==> after == before
            &&& lookup(prices, pair) is Some && before is Some && after is Some ==> {
                let price = lookup(prices, pair).unwrap();
                let exact = units(p.qty) * (units(price) - units(p.avg_cost));
                apart(
                    units(after.unwrap()) * one(),
                    units(before.unwrap()) * one() + exact,
                ) <= one() + 30 * (magnitude(units(after.unwrap())) + magnitude(
                    units(before.unwrap()),
                )) + 30 + magnitude(units(p.qty)) * (1 + magnitude(units(price)) + magnitude(
                    units(p.avg_cost),
                ))
            }
        }),
        positions.len() == 0 ==> (unrealized(positions, prices) matches Some(u) && units(u) == 0),
{
    let all = positions.push((pair, p));
    assert(all.drop_last() =~= positions);
    assert(all.last() == (pair, p));
    lemma_one();
    lemma_of(0, 0);
    assert(0 * pow10(28) == 0);
    if let Some(price) = lookup(prices, pair) {
        if let Some(d) = difference(price, p.avg_cost) {
            differences_are_near(price, p.avg_cost);
            results_are_valid(price, p.avg_cost);
            if let Some(u) = unrealized(positions, prices) {
                lemma_adds_product(u, p.qty, d);
                lemma_gain_moves(
                    units(p.qty),
                    units(d),
                    units(price) - units(p.avg_cost),
                    magnitude(units(price)) + magnitude(units(p.avg_cost)),
                    one(),
                );
            }
        }
    }
}

/// A difference that is off by one at most moves a product by the other factor at most.
proof fn lemma_gain_moves(q: int, d: int, exact: int, bound: int, z: int)
    requires
        z >= 1_000_000,
        apart(d, exact) * z <= 11 * magnitude(d),
        magnitude(exact) <= bound,
    ensures
        apart(q * d, q * exact) <= magnitude(q) * (1 + bound),
{
    let e = apart(d, exact);
    let md = magnitude(d);
    assert(e <= 1 + bound) by (nonlinear_arith)
        requires
            e * z <= 11 * md,
            md <= bound + e,
            z >= 1_000_000,
            e >= 0,
            bound >= 0,
    ;
    let mq = magnitude(q);
    let w = d - exact;
    assert(q * d - q * exact == q * w) by (nonlinear_arith)
        requires
            w == d - exact,
    ;
    let b = 1 + bound;
    assert(-(mq * b) <= q * w <= mq * b) by (nonlinear_arith)
        requires
            -b <= w <= b,
            mq == q || mq == -q,
            mq >= 0,
            b >= 0,
    ;
}

/// A fill that the analyzer takes in is recorded with its own pair, side, price, quantity, fee and
/// time and with what it earns; its price is the latest known one of the pair.
pub proof fn analyzed_fills_are_recorded(a: AnalyzerView, fill: FillView, now: Timestamp)
    ensures
        a.after(fill, now) matches Some(b) ==> {
            &&& lookup(b.prices, fill.pair) == Some(fill.price)
            &&& a.tracker.after(fill) == Some(b.tracker)
            &&& edge_pnl(a.tracker, fill) matches Some(pnl) && a.edges.recorded(
                PnlTradeView {
                    timestamp: fill.timestamp,
                    pair: fill.pair,
                    side: side_text(fill.side),
                    price: fill.price,
                    qty: fill.qty,
                    fee: fill.fee,
                    pnl,
                },
                now,
            ) == Some(b.edges)
            &&& b.tracker.trade_count == a.tracker.trade_count + 1
        },
{
    stored_then_lookup(a.prices, fill.pair, fill.price, fill.pair);
}

/// What is on the books of a pair is what was noted of it last; where nothing was, nothing is held,
/// nothing was gained and nothing traded.
pub proof fn books_without_an_entry_are_empty(
    positions: Entries<Position>,
    kept: Entries<ProxyPosition>,
    tracker: EdgeView,
    pair: Seq<char>,
)
    ensures
        lookup(positions, pair) matches Some(p) ==> position_of(positions, pair) == p,
        lookup(positions, pair) is None ==> units(position_of(positions, pair).qty) == 0 && units(
            position_of(positions, pair).avg_cost,
        ) == 0,
        lookup(kept, pair) matches Some(p) ==> position_in(kept, pair) == p,
        lookup(kept, pair) is None ==> units(position_in(kept, pair).qty) == 0 && units(
            position_in(kept, pair).avg_cost,
        ) == 0 && units(position_in(kept, pair).realized_pnl) == 0,
        lookup(tracker.cumulative, pair) matches Some(s) ==> tracker.totals(pair) == s,
        lookup(tracker.cumulative, pair) is None ==> tracker.totals(pair).trade_count == 0 && units(
            tracker.totals(pair).realized_pnl,
        ) == 0 && units(tracker.totals(pair).total_volume) == 0 && units(
            tracker.totals(pair).total_fees,
        ) == 0,
{
    lemma_of(0, 0);
    assert(0 * pow10(28) == 0);
}

/// The edges of several pairs are those of each of them, in order.
pub proof fn every_pair_has_its_edge(
    tracker: EdgeView,
    symbols: Seq<Seq<char>>,
    hours: u64,
    now: Timestamp,
    i: int,
)
    requires
        0 <= i < symbols.len(),
    ensures
        tracker.edges(symbols, hours, now) matches Some(r) ==> r.len() == symbols.len()
            && tracker.pair_edge(symbols[i], hours, now) == Some(r[i]),
    decreases symbols.len(),
{
    let front = symbols.drop_last();
    if i < front.len() {
        every_pair_has_its_edge(tracker, front, hours, now, i);
        assert(front[i] == symbols[i]);
    } else if front.len() > 0 {
        every_pair_has_its_edge(tracker, front, hours, now, 0);
    }
}

} // verus!
