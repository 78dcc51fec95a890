//! What the engine never orders, whatever happens: a buy of a pair that is sell-only, or a sell of
//! more than is held.
use crate::book::BookView;
use crate::collections::{
    distinct_keys, keyed, keys_of, lookup, stored, stored_then_lookup, without_then_lookup, Entries,
};
use crate::decimal::{lemma_of, less, product, quotient, rounded, smaller, Decimal, MAX_SCALE};
use crate::decimal_laws::{
    order_is_total, quotients_are_valid, results_are_valid, rounding_moves_half_a_tick_at_most,
    truncation_cuts_down,
};
use crate::engine_laws::{at_least_positive, lemma_stored_all, quoting_keeps_the_books};
use crate::engine_model::{ids_where, older_than, EngineView};
use crate::events::{ApiAction, CommandView, EngineEvent};
use crate::inventory::skew_of;
use crate::position::{positive, Position};
use crate::quoter::{order_qty, quotes};
use crate::time::Timestamp;
use crate::types::{FillView, OrderSide, PairInfoView};
use vstd::prelude::*;

verus! {

/// Whether the amounts that sells go by are decimals, held under distinct pairs, and every known
/// pair has a minimum quantity above zero.
pub open spec fn amounts_valid(e: EngineView) -> bool {
    &&& e.config.trading.order_size_usd.valid()
    &&& distinct_keys(e.state.positions)
    &&& forall|k: Seq<char>|
        #![trigger lookup(e.state.positions, k)]
        lookup(e.state.positions, k) matches Some(p) ==> p.qty.valid()
    &&& forall|k: Seq<char>|
        #![trigger lookup(e.pair_info, k)]
        lookup(e.pair_info, k) matches Some(i) ==> i.min_cost.valid() && i.min_order_qty.valid()
            && positive(i.min_order_qty)
}

/// Whether an order of this pair, side and quantity is within bounds: a buy is of a pair that is
/// not sell-only; a sell is of a pair that is held, and of no more than is held.
pub open spec fn order_in_bounds(e: EngineView, pair: Seq<char>, side: OrderSide, qty: Decimal) -> bool {
    match side {
        OrderSide::Buy => !keyed(e.sell_only, pair),
        OrderSide::Sell => amounts_valid(e) ==> positive(e.position(pair).qty) && !less(
            e.position(pair).qty,
            qty,
        ),
    }
}

/// Whether a command places no order, or one within bounds.
pub open spec fn in_bounds(e: EngineView, c: CommandView) -> bool {
    c matches CommandView::PlaceOrder(r) ==> order_in_bounds(e, r.pair, r.side, r.qty)
}

/// Whether all orders that a list of commands places are within bounds.
pub open spec fn all_in_bounds(e: EngineView, c: Seq<CommandView>) -> bool {
    forall|i: int| 0 <= i < c.len() ==> in_bounds(e, #[trigger] c[i])
}

/// Whether the bounds are the same in two states.
pub open spec fn same_bounds(e: EngineView, f: EngineView) -> bool {
    &&& f.config == e.config
    &&& f.pair_info == e.pair_info
    &&& f.sell_only == e.sell_only
    &&& f.state.positions == e.state.positions
}

proof fn lemma_join(e: EngineView, a: Seq<CommandView>, b: Seq<CommandView>)
    requires
        all_in_bounds(e, a),
        all_in_bounds(e, b),
    ensures
        all_in_bounds(e, a + b),
{
    let c = a + b;
    assert forall|i: int| 0 <= i < c.len() implies in_bounds(e, #[trigger] c[i]) by {
        if i < a.len() {
            assert(c[i] == a[i]);
        } else {
            assert(c[i] == b[i - a.len()]);
        }
    }
}

proof fn lemma_order_qty_valid(mid: Decimal, order_size: Decimal, info: PairInfoView)
    requires
        order_size.valid(),
        info.min_order_qty.valid(),
        info.min_cost.valid(),
    ensures
        order_qty(mid, order_size, info) matches Some(q) ==> q.valid(),
{
    let dp = info.qty_decimals as nat;
    lemma_of(0, 0);
    quotients_are_valid(order_size, mid);
    quotients_are_valid(info.min_cost, mid);
    if let Some(q) = quotient(order_size, mid) {
        if dp <= MAX_SCALE {
            rounding_moves_half_a_tick_at_most(q, dp);
        }
        assert(rounded(q, dp).valid());
    }
    if let Some(need) = quotient(info.min_cost, mid) {
        if dp <= MAX_SCALE {
            rounding_moves_half_a_tick_at_most(need, dp);
            lemma_of(1, dp);
            results_are_valid(rounded(need, dp), Decimal::of(1, dp));
        }
    }
}

proof fn lemma_sellable(e: EngineView, pair: Seq<char>, qty: Decimal, mid: Decimal)
    requires
        amounts_valid(e) ==> qty.valid(),
    ensures
        e.sellable(pair, qty, mid) matches Some(Some(q)) ==> order_in_bounds(
            e,
            pair,
            OrderSide::Sell,
            q,
        ),
{
    if amounts_valid(e) {
        if let Some(Some(q)) = e.sellable(pair, qty, mid) {
            lemma_of(0, 0);
            lemma_of(1, 0);
            let held = e.position(pair).qty;
            assert(held.valid());
            at_least_positive(held, e.min_qty(pair));
            let v = smaller(qty, held);
            truncation_cuts_down(v, e.qty_decimals(pair));
            order_is_total(held, qty, held);
            order_is_total(qty, held, qty);
            order_is_total(v, held, q);
            order_is_total(held, v, q);
            order_is_total(q, v, held);
            order_is_total(held, q, v);
        }
    }
}

proof fn lemma_fresh(
    e: EngineView,
    pair: Seq<char>,
    bid: Decimal,
    ask: Decimal,
    qty: Decimal,
    mid: Decimal,
    at: Timestamp,
)
    requires
        amounts_valid(e) ==> qty.valid(),
    ensures
        e.fresh_quotes(pair, bid, ask, qty, mid, at) matches Some((f, c)) ==> all_in_bounds(e, c),
{
    reveal(EngineView::fresh_quotes);
    lemma_sellable(e, pair, qty, mid);
}

proof fn lemma_requoted(e: EngineView, pair: Seq<char>, bid: Decimal, ask: Decimal, mid: Decimal)
    ensures
        e.requoted(pair, bid, ask, mid) matches Some((f, c)) ==> all_in_bounds(e, c),
{
    reveal(EngineView::requoted);
}

proof fn lemma_one_side(
    e: EngineView,
    pair: Seq<char>,
    side: OrderSide,
    price: Decimal,
    qty: Decimal,
    mid: Decimal,
    at: Timestamp,
)
    requires
        amounts_valid(e) ==> qty.valid(),
    ensures
        e.one_side(pair, side, price, qty, mid, at) matches Some((f, c)) ==> all_in_bounds(e, c),
{
    reveal(EngineView::one_side);
    lemma_sellable(e, pair, qty, mid);
}

proof fn lemma_quoted_on(
    e: EngineView,
    pair: Seq<char>,
    best_bid: Decimal,
    best_ask: Decimal,
    mid: Decimal,
    at: Timestamp,
)
    ensures
        e.quoted_on(pair, best_bid, best_ask, mid, at) matches Some((f, c)) ==> all_in_bounds(e, c),
{
    reveal(EngineView::quoted_on);
    if let Some((f, c)) = e.quoted_on(pair, best_bid, best_ask, mid, at) {
        if lookup(e.pair_info, pair) is Some && lookup(e.quoters, pair) is Some {
            let info = lookup(e.pair_info, pair).unwrap();
            let skew = skew_of(
                product(e.position(pair).qty, mid),
                e.config.risk.max_inventory_usd,
            ).unwrap();
            let qty = order_qty(mid, e.config.trading.order_size_usd, info).unwrap();
            if amounts_valid(e) {
                lemma_order_qty_valid(mid, e.config.trading.order_size_usd, info);
            }
            if let Some(Some((bid, ask))) = quotes(
                best_bid,
                best_ask,
                mid,
                skew,
                e.config.trading,
                info,
            ) {
                reveal(EngineView::quoted_at);
                lemma_fresh(e, pair, bid, ask, qty, mid, at);
                lemma_requoted(e, pair, bid, ask, mid);
                lemma_one_side(e, pair, OrderSide::Sell, ask, qty, mid, at);
                lemma_one_side(e, pair, OrderSide::Buy, bid, qty, mid, at);
            }
        }
    }
}

proof fn lemma_quoted(e: EngineView, pair: Seq<char>, at: Timestamp)
    ensures
        e.quoted(pair, at) matches Some((f, c)) ==> all_in_bounds(f, c) && same_bounds(e, f),
{
    reveal(EngineView::quoted);
    quoting_keeps_the_books(e, pair, at);
    if let Some(b) = lookup(e.books, pair) {
        if let (Some(bb), Some(ba), Some(Some(mid))) = (b.best_bid(), b.best_ask(), b.mid()) {
            lemma_quoted_on(e, pair, bb.price, ba.price, mid, at);
        }
    }
    if let Some((f, c)) = e.quoted(pair, at) {
        lemma_same_bounds(e, f, c);
    }
}

proof fn lemma_same_bounds(e: EngineView, f: EngineView, c: Seq<CommandView>)
    requires
        same_bounds(e, f),
    ensures
        amounts_valid(f) == amounts_valid(e),
        all_in_bounds(f, c) == all_in_bounds(e, c),
{
    assert forall|x: CommandView| in_bounds(f, x) == #[trigger] in_bounds(e, x) by {
        if let CommandView::PlaceOrder(r) = x {
            assert(e.position(r.pair) == f.position(r.pair));
        }
    }
    if all_in_bounds(e, c) {
        assert forall|i: int| 0 <= i < c.len() implies in_bounds(f, #[trigger] c[i]) by {
            assert(in_bounds(e, c[i]));
        }
    }
    if all_in_bounds(f, c) {
        assert forall|i: int| 0 <= i < c.len() implies in_bounds(e, #[trigger] c[i]) by {
            assert(in_bounds(f, c[i]));
        }
    }
}

proof fn lemma_liquidation_step(e: EngineView, pair: Seq<char>, at: Timestamp)
    ensures
        e.liquidation_step(pair, at) matches Some((f, c)) ==> all_in_bounds(e, c) && same_bounds(
            e,
            f,
        ),
{
    reveal(EngineView::liquidation_step);
    reveal(EngineView::liquidation_sell);
    if amounts_valid(e) {
        let held = e.position(pair).qty;
        lemma_of(0, 0);
        assert(held.valid());
        truncation_cuts_down(held, e.qty_decimals(pair));
    }
}

proof fn lemma_liquidation_steps(e: EngineView, pairs: Seq<Seq<char>>, at: Timestamp)
    ensures
        e.liquidation_steps(pairs, at) matches Some((f, c)) ==> all_in_bounds(e, c) && same_bounds(
            e,
            f,
        ),
    decreases pairs.len(),
{
    if let Some((f, c)) = e.liquidation_steps(pairs, at) {
        if pairs.len() > 0 {
            let (e1, c1) = e.liquidation_steps(pairs.drop_last(), at).unwrap();
            let (e2, c2) = e1.liquidation_step(pairs.last(), at).unwrap();
            lemma_liquidation_steps(e, pairs.drop_last(), at);
            lemma_liquidation_step(e1, pairs.last(), at);
            lemma_same_bounds(e, e1, c2);
            lemma_join(e, c1, c2);
        }
    }
}

proof fn lemma_liquidate_all(e: EngineView, pairs: Seq<Seq<char>>)
    ensures
        ({
            let (f, c) = e.liquidate_all(pairs);
            all_in_bounds(e, c) && same_bounds(e, f)
        }),
    decreases pairs.len(),
{
    if pairs.len() > 0 {
        let (e1, c1) = e.liquidate_all(pairs.drop_last());
        let (e2, c2) = e1.liquidate(pairs.last());
        lemma_liquidate_all(e, pairs.drop_last());
        lemma_join(e, c1, c2);
    }
}

proof fn lemma_dropped_all(e: EngineView, ids: Seq<Seq<char>>)
    ensures
        same_bounds(e, e.dropped_all(ids)),
    decreases ids.len(),
{
    if ids.len() > 0 {
        lemma_dropped_all(e, ids.drop_last());
    }
}

proof fn lemma_tick(e: EngineView, at: Timestamp)
    ensures
        e.on_tick(at) matches Some((f, c)) ==> all_in_bounds(f, c) && same_bounds(e, f),
{
    reveal(EngineView::on_tick);
    reveal(EngineView::upkeep);
    if let Some((f, c)) = e.on_tick(at) {
        let e0 = e.thawed(at);
        let (e1, c1) = e0.liquidation_steps(keys_of(e0.liquidating), at).unwrap();
        lemma_liquidation_steps(e0, keys_of(e0.liquidating), at);
        let pairs = e1.extremes(e1.state.positions).unwrap();
        let (e2, c2) = e1.liquidate_all(pairs);
        lemma_liquidate_all(e1, pairs);
        lemma_same_bounds(e0, e1, c2);
        lemma_join(e0, c1, c2);
        let (e3, c3) = e2.upkeep(at);
        lemma_dropped_all(
            e2,
            ids_where(e2.state.open_orders, older_than(at, e2.config.risk.stale_order_secs)),
        );
        lemma_join(e0, c1 + c2, c3);
        lemma_same_bounds(e0, f, c);
    }
}

/// The state in which a pair is quoted again after a fill.
spec fn after_booking(e: EngineView, fill: FillView) -> EngineView {
    let e2 = e.booked(fill).unwrap().0.closed_by(fill);
    EngineView {
        kill_switch: e2.kill_switch.checked(
            e2.state.realized_pnl,
            e.config.risk.kill_switch_loss_usd,
        ),
        ..e2
    }
}

proof fn lemma_after_booking(e: EngineView, fill: FillView)
    requires
        e.booked(fill) is Some,
    ensures
        after_booking(e, fill).sell_only == e.sell_only,
        amounts_valid(e) && fill.qty.valid() ==> amounts_valid(after_booking(e, fill)),
{
    reveal(EngineView::booked);
    reveal(EngineView::closed_by);
    reveal(EngineView::settle);
    let f = after_booking(e, fill);
    if amounts_valid(e) && fill.qty.valid() {
        lemma_of(0, 0);
        let held = e.position(fill.pair);
        assert(held.qty.valid());
        results_are_valid(held.qty, fill.qty);
        let before = e.state.positions;
        let after = f.state.positions;
        assert(distinct_keys(after)) by {
            without_then_lookup(before, fill.pair, fill.pair);
            assert forall|p: Position| distinct_keys(#[trigger] stored(before, fill.pair, p)) by {
                stored_then_lookup(before, fill.pair, p, fill.pair);
            }
        }
        assert forall|k: Seq<char>|
            #![trigger lookup(after, k)]
            lookup(after, k) is Some implies lookup(after, k).unwrap().qty.valid() by {
            without_then_lookup(before, fill.pair, k);
            assert forall|p: Position| #[trigger] lookup(stored(before, fill.pair, p), k) == (if k
                == fill.pair {
                Some(p)
            } else {
                lookup(before, k)
            }) by {
                stored_then_lookup(before, fill.pair, p, k);
            }
        }
    }
}

proof fn lemma_fill(e: EngineView, fill: FillView)
    ensures
        e.on_fill(fill) matches Some((f, c)) ==> {
            &&& all_in_bounds(f, c)
            &&& f.sell_only == e.sell_only
            &&& amounts_valid(e) && fill.qty.valid() ==> amounts_valid(f)
        },
{
    reveal(EngineView::on_fill);
    if let Some((f, c)) = e.on_fill(fill) {
        let e3 = after_booking(e, fill);
        lemma_after_booking(e, fill);
        let (e4, c4) = e3.quoted(fill.pair, fill.timestamp).unwrap();
        assert(e4 == f);
        lemma_quoted(e3, fill.pair, fill.timestamp);
        lemma_same_bounds(e3, f, c4);
        let n = c.len() - c4.len();
        let head = c.take(n);
        assert(head.len() == 2 || head.len() == 4);
        assert(c =~= head + c4);
        assert(all_in_bounds(f, head));
        lemma_join(f, head, c4);
    }
}

proof fn lemma_informed(e: EngineView, info: Entries<PairInfoView>)
    ensures
        e.informed(info).sell_only == e.sell_only,
    decreases info.len(),
{
    if info.len() > 0 {
        lemma_informed(e, info.drop_last());
    }
}

proof fn lemma_gone(e: EngineView, id: Seq<char>, pair: Seq<char>)
    ensures
        same_bounds(e, e.order_gone(id, pair)),
{
    reveal(EngineView::order_gone);
    reveal(EngineView::settle);
}

proof fn lemma_reject(e: EngineView, id: Seq<char>, named: Seq<char>, reason: Seq<char>)
    ensures
        e.on_reject(id, named, reason) matches Some((f, c)) ==> same_bounds(e, f) && forall|i: int|
            0 <= i < c.len() ==> !((#[trigger] c[i]) is PlaceOrder),
{
    reveal(EngineView::on_reject);
    let pair = e.rejected_pair(id, named);
    let off = EngineView { disabled: stored(e.disabled, pair, ()), ..e };
    lemma_gone(off.withdraw(pair).0, id, pair);
    lemma_gone(e, id, pair);
    if let Some(r) = e.retry_counted(pair) {
        lemma_gone(r, id, pair);
    }
}

proof fn lemma_book_data(e: EngineView, e1: EngineView, pair: Seq<char>, at: Timestamp)
    requires
        same_bounds(e, e1),
    ensures
        e1.priced(pair) matches Some(p) ==> (p.quoted(pair, at) matches Some((f, c)) ==> all_in_bounds(
            f,
            c,
        ) && same_bounds(e, f)),
{
    if let Some(p) = e1.priced(pair) {
        lemma_quoted(p, pair, at);
    }
}

proof fn lemma_event(e: EngineView, event: EngineEvent)
    ensures
        e.on_event(event) matches Some((f, c)) ==> {
            &&& all_in_bounds(f, c)
            &&& f.sell_only == e.sell_only || event is ApiCommand
            &&& (exists|i: int| 0 <= i < c.len() && (#[trigger] c[i]) is PlaceOrder) ==> event is Fill
                || same_bounds(e, f)
        },
{
    match event {
        EngineEvent::BookSnapshot { pair, bids, asks, timestamp } => {
            reveal(EngineView::on_book_snapshot);
            let e1 = EngineView {
                books: stored(e.books, pair@, BookView::snapshot(bids@, asks@)),
                ..e
            };
            lemma_book_data(e, e1, pair@, timestamp);
        },
        EngineEvent::BookUpdate { pair, bid_updates, ask_updates, timestamp } => {
            reveal(EngineView::on_book_update);
            let e1 = match lookup(e.books, pair@) {
                Some(b) => EngineView {
                    books: stored(e.books, pair@, b.updated(bid_updates@, ask_updates@)),
                    ..e
                },
                None => e,
            };
            lemma_book_data(e, e1, pair@, timestamp);
        },
        EngineEvent::Fill(fill) => {
            lemma_fill(e, fill@);
        },
        EngineEvent::Tick { timestamp } => {
            lemma_tick(e, timestamp);
        },
        EngineEvent::OrderAcknowledged { cl_ord_id, order_id } => {
            reveal(EngineView::settle);
        },
        EngineEvent::OrderCancelled { cl_ord_id, pair, reason } => {
            lemma_gone(e, cl_ord_id@, pair@);
        },
        EngineEvent::OrderRejected { cl_ord_id, pair, reason } => {
            lemma_reject(e, cl_ord_id@, pair@, reason@);
        },
        EngineEvent::ApiCommand(action) => {},
        EngineEvent::StateStoreCommand(action) => {},
        EngineEvent::PairInfoFetched { info } => {
            lemma_informed(e, info@);
        },
        EngineEvent::BalanceUpdate { balances } => {},
    }
}

/// No sell without inventory, and none of more than is held: whenever the engine places a sell, the
/// pair is held after the event, in at least the quantity of the sell.
pub proof fn no_sells_without_inventory(e: EngineView, event: EngineEvent, i: int)
    requires
        amounts_valid(e),
        event matches EngineEvent::Fill(fill) ==> fill.qty.valid(),
        e.on_event(event) is Some,
        0 <= i < e.on_event(event).unwrap().1.len(),
    ensures
        e.on_event(event).unwrap().1[i] matches CommandView::PlaceOrder(r) ==> (r.side
            == OrderSide::Sell ==> {
            let held = e.on_event(event).unwrap().0.position(r.pair).qty;
            positive(held) && !less(held, r.qty)
        }),
{
    let (f, c) = e.on_event(event).unwrap();
    lemma_event(e, event);
    assert(in_bounds(f, c[i]));
    match event {
        EngineEvent::Fill(fill) => {
            lemma_fill(e, fill@);
        },
        _ => {
            if c[i] is PlaceOrder {
                lemma_same_bounds(e, f, c);
            }
        },
    }
}

/// No new buys of a pair that is sell-only: whatever happens, none is placed, and only a resume
/// lifts the restriction.
pub proof fn sell_only_pairs_are_not_bought(e: EngineView, event: EngineEvent, pair: Seq<char>)
    requires
        keyed(e.sell_only, pair),
    ensures
        e.on_event(event) matches Some((f, c)) ==> {
            &&& forall|i: int|
                0 <= i < c.len() ==> !((#[trigger] c[i]) matches CommandView::PlaceOrder(r) && r.side
                    == OrderSide::Buy && r.pair == pair)
            &&& !(event matches EngineEvent::ApiCommand(action) && action is Resume) ==> keyed(
                f.sell_only,
                pair,
            )
        },
{
    lemma_event(e, event);
    if let Some((f, c)) = e.on_event(event) {
        match event {
            EngineEvent::ApiCommand(action) => {
                if action is Pause {
                    lemma_stored_all(e.sell_only, keys_of(e.pair_info), pair);
                }
            },
            _ => {
                assert forall|i: int| 0 <= i < c.len() implies !((#[trigger] c[i])
                    matches CommandView::PlaceOrder(r) && r.side == OrderSide::Buy && r.pair
                    == pair) by {
                    assert(in_bounds(f, c[i]));
                }
            },
        }
    }
}

proof fn lemma_stopped(e: EngineView, pair: Seq<char>, at: Timestamp)
    requires
        e.kill_switch.triggered,
    ensures
        e.quoted(pair, at) == Some((e, Seq::<CommandView>::empty())),
{
    reveal(EngineView::quoted);
}

/// Whether a list of commands places no order.
pub open spec fn places_nothing(c: Seq<CommandView>) -> bool {
    forall|i: int| 0 <= i < c.len() ==> !((#[trigger] c[i]) is PlaceOrder)
}

proof fn lemma_stopped_fill(e: EngineView, fill: FillView)
    requires
        e.kill_switch.triggered,
    ensures
        e.on_fill(fill) matches Some((f, c)) ==> places_nothing(c),
{
    reveal(EngineView::on_fill);
    if e.booked(fill) is Some {
        let e3 = after_booking(e, fill);
        assert(e3.kill_switch.triggered) by {
            reveal(EngineView::booked);
            reveal(EngineView::closed_by);
            reveal(EngineView::settle);
        }
        lemma_stopped(e3, fill.pair, fill.timestamp);
    }
}

proof fn lemma_api_places_nothing(e: EngineView, action: ApiAction)
    ensures
        places_nothing(e.on_api(action).1),
{
}

/// Once the kill switch has fired nothing is quoted any more: no event but a tick, which may go on
/// with a liquidation, places an order.
pub proof fn kill_switch_stops_quoting(e: EngineView, event: EngineEvent)
    requires
        e.kill_switch.triggered,
        !(event is Tick),
    ensures
        e.on_event(event) matches Some((f, c)) ==> places_nothing(c),
{
    match event {
        EngineEvent::BookSnapshot { pair, bids, asks, timestamp } => {
            reveal(EngineView::on_book_snapshot);
            let e1 = EngineView {
                books: stored(e.books, pair@, BookView::snapshot(bids@, asks@)),
                ..e
            };
            if let Some(p) = e1.priced(pair@) {
                lemma_stopped(p, pair@, timestamp);
            }
        },
        EngineEvent::BookUpdate { pair, bid_updates, ask_updates, timestamp } => {
            reveal(EngineView::on_book_update);
            let e1 = match lookup(e.books, pair@) {
                Some(b) => EngineView {
                    books: stored(e.books, pair@, b.updated(bid_updates@, ask_updates@)),
                    ..e
                },
                None => e,
            };
            if let Some(p) = e1.priced(pair@) {
                lemma_stopped(p, pair@, timestamp);
            }
        },
        EngineEvent::Fill(fill) => {
            lemma_stopped_fill(e, fill@);
        },
        EngineEvent::ApiCommand(action) => {
            lemma_api_places_nothing(e, action);
        },
        EngineEvent::OrderRejected { cl_ord_id, pair, reason } => {
            lemma_reject(e, cl_ord_id@, pair@, reason@);
        },
        _ => {},
    }
}

} // verus!
