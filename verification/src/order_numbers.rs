//! The numbers of client order ids: no two orders that the engine places share one.
use crate::book::BookView;
use crate::collections::{keyed, keys_of, lookup, stored, Entries};
use crate::decimal::{product, Decimal};
use crate::engine_laws::quoting_keeps_the_books;
use crate::engine_model::{ids_where, older_than, order_id, place, EngineView};
use crate::events::{ApiAction, CommandView, EngineEvent};
use crate::inventory::skew_of;
use crate::quoter::{order_qty, quotes};
use crate::text::{digits, digits_are_injective};
use crate::time::Timestamp;
use crate::types::{FillView, LevelUpdate, OrderSide, PairInfoView};
use vstd::prelude::*;

verus! {

/// Whether an id is one that the engine gives to its order with this number.
pub open spec fn bears_number(id: Seq<char>, n: nat) -> bool {
    id == order_id("bid"@, n) || id == order_id("ask"@, n) || id == order_id("liq"@, n)
}

/// Whether a command places no order, or one with a number above `low` and up to `high`.
pub open spec fn numbered(c: CommandView, low: u64, high: u64) -> bool {
    c matches CommandView::PlaceOrder(r) ==> exists|n: nat|
        low < n <= high && #[trigger] bears_number(r.cl_ord_id, n)
}

/// Whether two commands do not place orders with the same id.
pub open spec fn distinct_orders(a: CommandView, b: CommandView) -> bool {
    match (a, b) {
        (CommandView::PlaceOrder(x), CommandView::PlaceOrder(y)) => x.cl_ord_id != y.cl_ord_id,
        _ => true,
    }
}

/// Whether the orders that a list of commands places have numbers above `low` and up to `high`, no
/// two of them the same id.
pub open spec fn well_numbered(c: Seq<CommandView>, low: u64, high: u64) -> bool {
    &&& low <= high
    &&& forall|i: int| 0 <= i < c.len() ==> numbered(#[trigger] c[i], low, high)
    &&& forall|i: int, j: int|
        0 <= i < j < c.len() ==> distinct_orders(#[trigger] c[i], #[trigger] c[j])
}

proof fn lemma_id_number(id: Seq<char>, n: nat, m: nat)
    requires
        bears_number(id, n),
        bears_number(id, m),
    ensures
        n == m,
{
    reveal_strlit("bid");
    reveal_strlit("ask");
    reveal_strlit("liq");
    let k = (3 + "-"@.len()) as int;
    assert(id.skip(k) =~= digits(n));
    assert(id.skip(k) =~= digits(m));
    digits_are_injective(n, m);
}

proof fn lemma_join(a: Seq<CommandView>, b: Seq<CommandView>, low: u64, mid: u64, high: u64)
    requires
        well_numbered(a, low, mid),
        well_numbered(b, mid, high),
    ensures
        well_numbered(a + b, low, high),
{
    let c = a + b;
    assert forall|i: int| 0 <= i < c.len() implies numbered(#[trigger] c[i], low, high) by {
        if i < a.len() {
            assert(numbered(a[i], low, mid));
            if let CommandView::PlaceOrder(r) = a[i] {
                let n = choose|n: nat| low < n <= mid && #[trigger] bears_number(r.cl_ord_id, n);
                assert(low < n <= high && bears_number(r.cl_ord_id, n));
            }
        } else {
            assert(numbered(b[i - a.len()], mid, high));
            if let CommandView::PlaceOrder(r) = b[i - a.len()] {
                let n = choose|n: nat| mid < n <= high && #[trigger] bears_number(r.cl_ord_id, n);
                assert(low < n <= high && bears_number(r.cl_ord_id, n));
            }
        }
    }
    assert forall|i: int, j: int| 0 <= i < j < c.len() implies distinct_orders(
        #[trigger] c[i],
        #[trigger] c[j],
    ) by {
        if j < a.len() {
            assert(distinct_orders(a[i], a[j]));
        } else if i >= a.len() {
            assert(distinct_orders(b[i - a.len()], b[j - a.len()]));
        } else {
            assert(numbered(a[i], low, mid));
            assert(numbered(b[j - a.len()], mid, high));
            if let (CommandView::PlaceOrder(x), CommandView::PlaceOrder(y)) = (c[i], c[j]) {
                let n = choose|n: nat| low < n <= mid && #[trigger] bears_number(x.cl_ord_id, n);
                let m = choose|m: nat| mid < m <= high && #[trigger] bears_number(y.cl_ord_id, m);
                if x.cl_ord_id == y.cl_ord_id {
                    lemma_id_number(x.cl_ord_id, n, m);
                }
            }
        }
    }
}

proof fn lemma_one(c: CommandView, low: u64, high: u64, n: nat)
    requires
        low < n <= high,
        c matches CommandView::PlaceOrder(r) ==> bears_number(r.cl_ord_id, n),
    ensures
        well_numbered(seq![c], low, high),
{
}

proof fn lemma_none(c: Seq<CommandView>, low: u64)
    requires
        forall|i: int| 0 <= i < c.len() ==> !((#[trigger] c[i]) is PlaceOrder),
    ensures
        well_numbered(c, low, low),
{
}

proof fn lemma_fresh(
    e: EngineView,
    pair: Seq<char>,
    bid: Decimal,
    ask: Decimal,
    qty: Decimal,
    mid: Decimal,
    at: Timestamp,
)
    ensures
        e.fresh_quotes(pair, bid, ask, qty, mid, at) matches Some((f, c)) ==> well_numbered(
            c,
            e.counter,
            f.counter,
        ),
{
    reveal(EngineView::fresh_quotes);
    if let Some((f, c)) = e.fresh_quotes(pair, bid, ask, qty, mid, at) {
        let value = product(qty, mid).unwrap();
        let buy = if keyed(e.sell_only, pair) {
            false
        } else {
            e.may_buy(pair, value, mid).unwrap()
        };
        let sell = e.sellable(pair, qty, mid).unwrap();
        let sell_price = match sell {
            Some(_) => e.anchored(pair, ask).unwrap(),
            None => ask,
        };
        let (e1, bid_id) = e.fresh_bid(buy, pair, bid, qty, at).unwrap();
        let (e2, ask_id) = e1.fresh_ask(sell, pair, sell_price, at).unwrap();
        let buys = match bid_id {
            Some(id) => seq![place(id, pair, OrderSide::Buy, bid, qty, false)],
            None => Seq::empty(),
        };
        let sells = match (ask_id, sell) {
            (Some(id), Some(q)) => seq![place(id, pair, OrderSide::Sell, sell_price, q, false)],
            _ => Seq::empty(),
        };
        assert(c == buys + sells);
        if let Some(id) = bid_id {
            assert(bears_number(id, e1.counter as nat));
            lemma_one(buys[0], e.counter, e1.counter, e1.counter as nat);
            assert(buys =~= seq![buys[0]]);
        } else {
            lemma_none(buys, e.counter);
        }
        if let Some(id) = ask_id {
            assert(bears_number(id, e2.counter as nat));
            lemma_one(sells[0], e1.counter, e2.counter, e2.counter as nat);
            assert(sells =~= seq![sells[0]]);
        } else {
            lemma_none(sells, e1.counter);
        }
        lemma_join(buys, sells, e.counter, e1.counter, e2.counter);
    }
}

proof fn lemma_requoted(e: EngineView, pair: Seq<char>, bid: Decimal, ask: Decimal, mid: Decimal)
    ensures
        e.requoted(pair, bid, ask, mid) matches Some((f, c)) ==> well_numbered(
            c,
            e.counter,
            f.counter,
        ),
{
    reveal(EngineView::requoted);
    if let Some((f, c)) = e.requoted(pair, bid, ask, mid) {
        lemma_none(c, e.counter);
    }
}

proof fn lemma_one_side(
    e: EngineView,
    pair: Seq<char>,
    side: OrderSide,
    price: Decimal,
    qty: Decimal,
    mid: Decimal,
    at: Timestamp,
)
    ensures
        e.one_side(pair, side, price, qty, mid, at) matches Some((f, c)) ==> well_numbered(
            c,
            e.counter,
            f.counter,
        ),
{
    reveal(EngineView::one_side);
    if let Some((f, c)) = e.one_side(pair, side, price, qty, mid, at) {
        if c.len() > 0 && c[0] is PlaceOrder {
            assert(c =~= seq![c[0]]);
            if let CommandView::PlaceOrder(r) = c[0] {
                assert(bears_number(r.cl_ord_id, f.counter as nat));
            }
            lemma_one(c[0], e.counter, f.counter, f.counter as nat);
        } else {
            lemma_none(c, e.counter);
        }
    }
}

proof fn lemma_quoted(e: EngineView, pair: Seq<char>, at: Timestamp)
    ensures
        e.quoted(pair, at) matches Some((f, c)) ==> well_numbered(c, e.counter, f.counter),
{
    reveal(EngineView::quoted);
    if let Some((f, c)) = e.quoted(pair, at) {
        if c.len() > 0 {
            let b = lookup(e.books, pair).unwrap();
            let mid = b.mid().unwrap().unwrap();
            lemma_quoted_on(
                e,
                pair,
                b.best_bid().unwrap().price,
                b.best_ask().unwrap().price,
                mid,
                at,
            );
        } else {
            quoting_keeps_the_books(e, pair, at);
        }
    }
}

proof fn lemma_quoted_on(
    e: EngineView,
    pair: Seq<char>,
    best_bid: Decimal,
    best_ask: Decimal,
    mid: Decimal,
    at: Timestamp,
)
    ensures
        e.quoted_on(pair, best_bid, best_ask, mid, at) matches Some((f, c)) ==> well_numbered(
            c,
            e.counter,
            f.counter,
        ),
{
    reveal(EngineView::quoted_on);
    if let Some((f, c)) = e.quoted_on(pair, best_bid, best_ask, mid, at) {
        if lookup(e.pair_info, pair) is Some && lookup(e.quoters, pair) is Some {
            let info = lookup(e.pair_info, pair).unwrap();
            let q = lookup(e.quoters, pair).unwrap();
            let skew = skew_of(
                product(e.position(pair).qty, mid),
                e.config.risk.max_inventory_usd,
            ).unwrap();
            let qty = order_qty(mid, e.config.trading.order_size_usd, info).unwrap();
            match quotes(best_bid, best_ask, mid, skew, e.config.trading, info) {
                Some(Some((bid, ask))) => {
                    reveal(EngineView::quoted_at);
                    lemma_fresh(e, pair, bid, ask, qty, mid, at);
                    lemma_requoted(e, pair, bid, ask, mid);
                    lemma_one_side(e, pair, OrderSide::Sell, ask, qty, mid, at);
                    lemma_one_side(e, pair, OrderSide::Buy, bid, qty, mid, at);
                    if c.len() == 0 {
                        lemma_none(c, e.counter);
                    }
                },
                _ => {
                    lemma_none(c, e.counter);
                },
            }
        } else {
            lemma_none(c, e.counter);
        }
    }
}

proof fn lemma_liquidation_step(e: EngineView, pair: Seq<char>, at: Timestamp)
    ensures
        e.liquidation_step(pair, at) matches Some((f, c)) ==> well_numbered(
            c,
            e.counter,
            f.counter,
        ),
{
    reveal(EngineView::liquidation_step);
    reveal(EngineView::liquidation_sell);
    if let Some((f, c)) = e.liquidation_step(pair, at) {
        if c.len() > 0 && c[0] is PlaceOrder {
            assert(c =~= seq![c[0]]);
            if let CommandView::PlaceOrder(r) = c[0] {
                assert(bears_number(r.cl_ord_id, f.counter as nat));
            }
            lemma_one(c[0], e.counter, f.counter, f.counter as nat);
        } else {
            lemma_none(c, e.counter);
        }
    }
}

proof fn lemma_liquidation_steps(e: EngineView, pairs: Seq<Seq<char>>, at: Timestamp)
    ensures
        e.liquidation_steps(pairs, at) matches Some((f, c)) ==> well_numbered(
            c,
            e.counter,
            f.counter,
        ),
    decreases pairs.len(),
{
    if let Some((f, c)) = e.liquidation_steps(pairs, at) {
        if pairs.len() == 0 {
            lemma_none(c, e.counter);
        } else {
            let (e1, c1) = e.liquidation_steps(pairs.drop_last(), at).unwrap();
            let (e2, c2) = e1.liquidation_step(pairs.last(), at).unwrap();
            lemma_liquidation_steps(e, pairs.drop_last(), at);
            lemma_liquidation_step(e1, pairs.last(), at);
            lemma_join(c1, c2, e.counter, e1.counter, e2.counter);
        }
    }
}

proof fn lemma_liquidate_all(e: EngineView, pairs: Seq<Seq<char>>)
    ensures
        ({
            let (f, c) = e.liquidate_all(pairs);
            &&& f.counter == e.counter
            &&& forall|i: int| 0 <= i < c.len() ==> !((#[trigger] c[i]) is PlaceOrder)
        }),
    decreases pairs.len(),
{
    if pairs.len() > 0 {
        let (e1, c1) = e.liquidate_all(pairs.drop_last());
        let (e2, c2) = e1.liquidate(pairs.last());
        lemma_liquidate_all(e, pairs.drop_last());
        assert forall|i: int| 0 <= i < (c1 + c2).len() implies !((#[trigger] (c1 + c2)[i])
            is PlaceOrder) by {
            if i < c1.len() {
                assert(!(c1[i] is PlaceOrder));
            } else {
                assert((c1 + c2)[i] == c2[i - c1.len()]);
            }
        }
    }
}

proof fn lemma_dropped_all(e: EngineView, ids: Seq<Seq<char>>)
    ensures
        e.dropped_all(ids).counter == e.counter,
    decreases ids.len(),
{
    if ids.len() > 0 {
        lemma_dropped_all(e, ids.drop_last());
    }
}

proof fn lemma_tick(e: EngineView, at: Timestamp)
    ensures
        e.on_tick(at) matches Some((f, c)) ==> well_numbered(c, e.counter, f.counter),
{
    reveal(EngineView::on_tick);
    if let Some((f, c)) = e.on_tick(at) {
        let e0 = e.thawed(at);
        let (e1, c1) = e0.liquidation_steps(keys_of(e0.liquidating), at).unwrap();
        lemma_liquidation_steps(e0, keys_of(e0.liquidating), at);
        let pairs = e1.extremes(e1.state.positions).unwrap();
        let (e2, c2) = e1.liquidate_all(pairs);
        lemma_liquidate_all(e1, pairs);
        lemma_none(c2, e1.counter);
        lemma_join(c1, c2, e.counter, e1.counter, e1.counter);
        let (e3, c3) = e2.upkeep(at);
        reveal(EngineView::upkeep);
        lemma_dropped_all(
            e2,
            ids_where(e2.state.open_orders, older_than(at, e2.config.risk.stale_order_secs)),
        );
        lemma_none(c3, e1.counter);
        lemma_join(c1 + c2, c3, e.counter, e1.counter, e1.counter);
    }
}

proof fn lemma_fill(e: EngineView, fill: FillView)
    ensures
        e.on_fill(fill) matches Some((f, c)) ==> well_numbered(c, e.counter, f.counter),
{
    reveal(EngineView::on_fill);
    reveal(EngineView::booked);
    reveal(EngineView::closed_by);
    reveal(EngineView::settle);
    if let Some((f, c)) = e.on_fill(fill) {
        let (e1, pnl) = e.booked(fill).unwrap();
        let e2 = e1.closed_by(fill);
        let e3 = EngineView {
            kill_switch: e2.kill_switch.checked(
                e2.state.realized_pnl,
                e.config.risk.kill_switch_loss_usd,
            ),
            ..e2
        };
        assert(e3.counter == e.counter);
        let (e4, c4) = e3.quoted(fill.pair, fill.timestamp).unwrap();
        lemma_quoted(e3, fill.pair, fill.timestamp);
        let n = c.len() - c4.len();
        let head = c.take(n);
        assert(head.len() == 2 || head.len() == 4);
        assert(c =~= head + c4);
        lemma_none(head, e.counter);
        lemma_join(head, c4, e.counter, e.counter, e4.counter);
    }
}

proof fn lemma_informed(e: EngineView, info: Entries<PairInfoView>)
    ensures
        e.informed(info).counter == e.counter,
    decreases info.len(),
{
    if info.len() > 0 {
        lemma_informed(e, info.drop_last());
    }
}

proof fn lemma_book_snapshot(
    e: EngineView,
    pair: Seq<char>,
    bids: Seq<LevelUpdate>,
    asks: Seq<LevelUpdate>,
    at: Timestamp,
)
    ensures
        e.on_book_snapshot(pair, bids, asks, at) matches Some((f, c)) ==> well_numbered(
            c,
            e.counter,
            f.counter,
        ),
{
    reveal(EngineView::on_book_snapshot);
    let e1 = EngineView { books: stored(e.books, pair, BookView::snapshot(bids, asks)), ..e };
    if let Some(p) = e1.priced(pair) {
        lemma_quoted(p, pair, at);
    }
}

proof fn lemma_book_update(
    e: EngineView,
    pair: Seq<char>,
    bids: Seq<LevelUpdate>,
    asks: Seq<LevelUpdate>,
    at: Timestamp,
)
    ensures
        e.on_book_update(pair, bids, asks, at) matches Some((f, c)) ==> well_numbered(
            c,
            e.counter,
            f.counter,
        ),
{
    reveal(EngineView::on_book_update);
    let e1 = match lookup(e.books, pair) {
        Some(b) => EngineView { books: stored(e.books, pair, b.updated(bids, asks)), ..e },
        None => e,
    };
    if let Some(p) = e1.priced(pair) {
        lemma_quoted(p, pair, at);
    }
}

proof fn lemma_gone(e: EngineView, id: Seq<char>, pair: Seq<char>)
    ensures
        e.order_gone(id, pair).counter == e.counter,
{
    reveal(EngineView::order_gone);
    reveal(EngineView::settle);
}

proof fn lemma_reject(e: EngineView, id: Seq<char>, named: Seq<char>, reason: Seq<char>)
    ensures
        e.on_reject(id, named, reason) matches Some((f, c)) ==> well_numbered(
            c,
            e.counter,
            f.counter,
        ),
{
    reveal(EngineView::on_reject);
    let pair = e.rejected_pair(id, named);
    let off = EngineView { disabled: stored(e.disabled, pair, ()), ..e };
    lemma_gone(off.withdraw(pair).0, id, pair);
    lemma_gone(e, id, pair);
    if let Some(r) = e.retry_counted(pair) {
        lemma_gone(r, id, pair);
    }
    if let Some((f, c)) = e.on_reject(id, named, reason) {
        lemma_none(c, e.counter);
    }
}

proof fn lemma_api(e: EngineView, action: ApiAction)
    ensures
        ({
            let (f, c) = e.on_api(action);
            well_numbered(c, e.counter, f.counter)
        }),
{
    let (f, c) = e.on_api(action);
    assert(f.counter == e.counter);
    lemma_none(c, e.counter);
}

proof fn lemma_ack(e: EngineView, id: Seq<char>)
    ensures
        e.on_ack(id).counter == e.counter,
{
    reveal(EngineView::settle);
}

/// Whatever happens, the orders that the engine places bear numbers that it has not used before,
/// and no two of them have the same id; the count never goes back.
pub proof fn new_orders_have_new_numbers(e: EngineView, event: EngineEvent)
    ensures
        e.on_event(event) matches Some((f, c)) ==> well_numbered(c, e.counter, f.counter),
{
    match event {
        EngineEvent::BookSnapshot { pair, bids, asks, timestamp } => {
            lemma_book_snapshot(e, pair@, bids@, asks@, timestamp);
        },
        EngineEvent::BookUpdate { pair, bid_updates, ask_updates, timestamp } => {
            lemma_book_update(e, pair@, bid_updates@, ask_updates@, timestamp);
        },
        EngineEvent::Fill(fill) => {
            lemma_fill(e, fill@);
        },
        EngineEvent::Tick { timestamp } => {
            lemma_tick(e, timestamp);
        },
        EngineEvent::OrderAcknowledged { cl_ord_id, order_id } => {
            lemma_ack(e, cl_ord_id@);
            lemma_none(Seq::empty(), e.counter);
        },
        EngineEvent::OrderCancelled { cl_ord_id, pair, reason } => {
            lemma_gone(e, cl_ord_id@, pair@);
            lemma_none(Seq::empty(), e.counter);
        },
        EngineEvent::OrderRejected { cl_ord_id, pair, reason } => {
            lemma_reject(e, cl_ord_id@, pair@, reason@);
        },
        EngineEvent::ApiCommand(action) => {
            lemma_api(e, action);
        },
        EngineEvent::StateStoreCommand(action) => {
            lemma_none(e.on_state_store(action).1, e.counter);
        },
        EngineEvent::PairInfoFetched { info } => {
            lemma_informed(e, info@);
            lemma_none(Seq::empty(), e.counter);
        },
        EngineEvent::BalanceUpdate { balances } => {
            lemma_none(Seq::empty(), e.counter);
        },
    }
}

/// Orders that are placed at different times have different ids: once the count has passed a
/// number, the id with that number is not given again.
pub proof fn ids_are_not_reused(e: EngineView, event: EngineEvent, id: Seq<char>, n: nat, i: int)
    requires
        bears_number(id, n),
        n <= e.counter,
        e.on_event(event) is Some,
        0 <= i < e.on_event(event).unwrap().1.len(),
    ensures
        e.on_event(event).unwrap().1[i] matches CommandView::PlaceOrder(r) ==> r.cl_ord_id != id,
{
    new_orders_have_new_numbers(e, event);
    let (f, c) = e.on_event(event).unwrap();
    assert(numbered(c[i], e.counter, f.counter));
    if let CommandView::PlaceOrder(r) = c[i] {
        let m = choose|m: nat|
            e.counter < m <= f.counter && #[trigger] bears_number(r.cl_ord_id, m);
        if r.cl_ord_id == id {
            lemma_id_number(id, n, m);
        }
    }
}

} // verus!
