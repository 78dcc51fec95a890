//! What holds of the engine as a whole.
use crate::book::BookView;
use crate::collections::{
    distinct_keys, keyed, keys_of, lemma_keyed, lemma_slot, lookup, slot, stored,
    stored_then_lookup, without, without_then_lookup, Entries,
};
use crate::decimal::{
    larger, lemma_of, lemma_pow10, less, plus, pow10, product, sum, times, truncated, Decimal,
    MAX_SCALE,
};
use crate::decimal_laws::{
    less_is_by_units, order_is_total, raising_is_by_less_than_a_tick, results_are_valid, tick_fits,
};
use crate::engine_model::{
    ids_where, liquidation_of_pair, of_pair, order_id, stored_all, without_all, EngineView,
};
use crate::events::{ApiAction, CommandView, EngineEvent};
use crate::inventory::{skew_of, skews_are_valid};
use crate::position::{positive, Position};
use crate::quoter::{order_qty, quotes, quotes_do_not_cross, QuoteState, QuoterView};
use crate::state::{position_of, BotStateView, TrackedOrderView};
use crate::text::{begins_with, digits, digits_are_injective};
use crate::time::Timestamp;
use crate::types::{FillView, OrderSide, PairInfoView};
use vstd::prelude::*;

verus! {

/// Whether a price is at the cost floor of a pair or above; any price is if the holding has no
/// cost.
pub open spec fn covers_cost(e: EngineView, pair: Seq<char>, price: Decimal) -> bool {
    e.position(pair).avg_cost.m() != 0 ==> (e.cost_floor(pair) matches Some(floor) && !less(
        price,
        floor,
    ))
}

/// What quoting a pair at mid price `mid` in the state `e` may ask for.
pub open spec fn proper(e: EngineView, pair: Seq<char>, mid: Decimal, c: CommandView) -> bool {
    match c {
        CommandView::PlaceOrder(r) => {
            &&& r.pair == pair
            &&& r.post_only
            &&& !r.market
            &&& match r.side {
                OrderSide::Buy => {
                    &&& !keyed(e.sell_only, pair)
                    &&& product(r.qty, mid) matches Some(value)
                    &&& e.may_buy(pair, value, mid) == Some(true)
                },
                OrderSide::Sell => {
                    &&& !less(e.position(pair).qty, e.min_qty(pair))
                    &&& covers_cost(e, pair, r.price)
                },
            }
        },
        CommandView::AmendOrder { cl_ord_id, new_price, new_qty } => {
            &&& lookup(e.state.open_orders, cl_ord_id) matches Some(o)
            &&& o.acked
            &&& new_price is Some
            &&& new_qty is None
            &&& lookup(e.quoters, pair) matches Some(q)
            &&& q.ask == Some(cl_ord_id) && q.bid != q.ask ==> covers_cost(
                e,
                pair,
                new_price.unwrap(),
            )
        },
        CommandView::CancelOrders(ids) => ids.len() > 0,
        _ => false,
    }
}

/// Whether every command of a list is proper.
pub open spec fn all_proper(e: EngineView, pair: Seq<char>, mid: Decimal, c: Seq<CommandView>) -> bool {
    forall|i: int| 0 <= i < c.len() ==> proper(e, pair, mid, #[trigger] c[i])
}

proof fn lemma_larger(a: Decimal, b: Decimal)
    ensures
        !less(larger(a, b), b),
        !less(larger(a, b), a),
{
}

proof fn lemma_anchored(e: EngineView, pair: Seq<char>, price: Decimal)
    ensures
        e.anchored(pair, price) matches Some(p) ==> covers_cost(e, pair, p),
{
    if let Some(floor) = e.cost_floor(pair) {
        lemma_larger(price, floor);
    }
}

proof fn lemma_fresh_quotes(
    e: EngineView,
    pair: Seq<char>,
    bid: Decimal,
    ask: Decimal,
    qty: Decimal,
    mid: Decimal,
    at: Timestamp,
)
    ensures
        e.fresh_quotes(pair, bid, ask, qty, mid, at) matches Some((e2, c)) ==> all_proper(
            e,
            pair,
            mid,
            c,
        ),
{
    reveal(EngineView::fresh_quotes);
    lemma_anchored(e, pair, ask);
}

proof fn lemma_amended(e: EngineView, id: Option<Seq<char>>, price: Decimal, pair: Seq<char>, mid: Decimal)
    requires
        lookup(e.quoters, pair) matches Some(q) && (q.ask == id && q.bid != q.ask ==> covers_cost(
            e,
            pair,
            price,
        )),
    ensures
        ({
            let (e2, c) = e.amended(id, price);
            all_proper(e, pair, mid, c)
        }),
{
}

proof fn lemma_requoted(
    e: EngineView,
    pair: Seq<char>,
    bid: Decimal,
    ask: Decimal,
    mid: Decimal,
)
    ensures
        e.requoted(pair, bid, ask, mid) matches Some((e2, c)) ==> all_proper(e, pair, mid, c),
{
    reveal(EngineView::requoted);
    if let Some(q) = lookup(e.quoters, pair) {
        if let Some(a) = e.anchored(pair, ask) {
            let (e1, c1) = e.amended(q.bid, bid);
            let (e2, c2) = e1.amended(q.ask, a);
            lemma_anchored(e, pair, ask);
            lemma_amended(e, q.bid, bid, pair, mid);
            lemma_amended(e1, q.ask, a, pair, mid);
            if let Some(b) = q.bid {
                if let Some(o) = lookup(e.state.open_orders, b) {
                    if let Some(k) = q.ask {
                        stored_then_lookup(
                            e.state.open_orders,
                            b,
                            TrackedOrderView { price: bid, ..o },
                            k,
                        );
                    }
                }
            }
            assert forall|i: int| 0 <= i < (c1 + c2).len() implies proper(
                e,
                pair,
                mid,
                #[trigger] (c1 + c2)[i],
            ) by {
                if i < c1.len() {
                    assert((c1 + c2)[i] == c1[i]);
                } else {
                    assert((c1 + c2)[i] == c2[i - c1.len()]);
                }
            }
        }
    }
}

proof fn lemma_one_side(
    e: EngineView,
    pair: Seq<char>,
    side: OrderSide,
    price: Decimal,
    qty: Decimal,
    mid: Decimal,
    at: Timestamp,
)
    ensures
        e.one_side(pair, side, price, qty, mid, at) matches Some((e2, c)) ==> all_proper(
            e,
            pair,
            mid,
            c,
        ),
{
    reveal(EngineView::one_side);
    lemma_anchored(e, pair, price);
}

/// Quoting a pair asks for nothing but post-only orders of that pair, price changes of
/// acknowledged orders, and cancels. A buy is within the risk limits and never of a sell-only
/// pair; a sell is backed by a holding of at least the minimum quantity and never priced below
/// the cost floor, when it is placed and when its price is changed.
pub proof fn quoting_is_proper(e: EngineView, pair: Seq<char>, at: Timestamp)
    ensures
        e.quoted(pair, at) matches Some((e2, c)) ==> (c.len() == 0 || exists|mid: Decimal|
            #[trigger] all_proper(e, pair, mid, c)),
{
    reveal(EngineView::quoted);
    reveal(EngineView::quoted_on);
    reveal(EngineView::quoted_at);
    if let Some((e2, c)) = e.quoted(pair, at) {
        if c.len() > 0 {
            let b = lookup(e.books, pair).unwrap();
            let mid = b.mid().unwrap().unwrap();
            let bb = b.best_bid().unwrap().price;
            let ba = b.best_ask().unwrap().price;
            let info = lookup(e.pair_info, pair).unwrap();
            let q = lookup(e.quoters, pair).unwrap();
            let skew = skew_of(
                product(e.position(pair).qty, mid),
                e.config.risk.max_inventory_usd,
            ).unwrap();
            let prices = quotes(bb, ba, mid, skew, e.config.trading, info).unwrap();
            let qty = order_qty(mid, e.config.trading.order_size_usd, info).unwrap();
            if let Some((bid, ask)) = prices {
                lemma_fresh_quotes(e, pair, bid, ask, qty, mid, at);
                lemma_requoted(e, pair, bid, ask, mid);
                lemma_one_side(e, pair, OrderSide::Sell, ask, qty, mid, at);
                lemma_one_side(e, pair, OrderSide::Buy, bid, qty, mid, at);
            }
            assert(all_proper(e, pair, mid, c));
        }
    }
}

/// What quoting never touches: holdings, results, limits, data and configuration.
pub open spec fn books_kept(e: EngineView, f: EngineView) -> bool {
    &&& f.config == e.config
    &&& f.pair_info == e.pair_info
    &&& f.kill_switch == e.kill_switch
    &&& f.rate_limiter == e.rate_limiter
    &&& f.disabled == e.disabled
    &&& f.sell_only == e.sell_only
    &&& f.liquidating == e.liquidating
    &&& f.liq_retries == e.liq_retries
    &&& f.last_dms == e.last_dms
    &&& f.state == (BotStateView { open_orders: f.state.open_orders, ..e.state })
}

/// What quoting leaves alone: all but tracked orders, quoters and the order counter.
pub open spec fn only_quoted(e: EngineView, f: EngineView) -> bool {
    books_kept(e, f) && f.prices == e.prices && f.books == e.books && f.counter >= e.counter
}

proof fn lemma_fresh_keeps(
    e: EngineView,
    pair: Seq<char>,
    bid: Decimal,
    ask: Decimal,
    qty: Decimal,
    mid: Decimal,
    at: Timestamp,
)
    ensures
        e.fresh_quotes(pair, bid, ask, qty, mid, at) matches Some((f, c)) ==> only_quoted(e, f),
{
    reveal(EngineView::fresh_quotes);
}

proof fn lemma_requoted_keeps(
    e: EngineView,
    pair: Seq<char>,
    bid: Decimal,
    ask: Decimal,
    mid: Decimal,
)
    ensures
        e.requoted(pair, bid, ask, mid) matches Some((f, c)) ==> only_quoted(e, f),
{
    reveal(EngineView::requoted);
}

proof fn lemma_one_side_keeps(
    e: EngineView,
    pair: Seq<char>,
    side: OrderSide,
    price: Decimal,
    qty: Decimal,
    mid: Decimal,
    at: Timestamp,
)
    ensures
        e.one_side(pair, side, price, qty, mid, at) matches Some((f, c)) ==> only_quoted(e, f),
{
    reveal(EngineView::one_side);
}

proof fn lemma_quoted_at_keeps(
    e: EngineView,
    pair: Seq<char>,
    q: QuoterView,
    bid: Decimal,
    ask: Decimal,
    qty: Decimal,
    mid: Decimal,
    at: Timestamp,
)
    ensures
        e.quoted_at(pair, q, bid, ask, qty, mid, at) matches Some((f, c)) ==> only_quoted(e, f),
{
    reveal(EngineView::quoted_at);
    lemma_fresh_keeps(e, pair, bid, ask, qty, mid, at);
    lemma_requoted_keeps(e, pair, bid, ask, mid);
    lemma_one_side_keeps(e, pair, OrderSide::Sell, ask, qty, mid, at);
    lemma_one_side_keeps(e, pair, OrderSide::Buy, bid, qty, mid, at);
}

proof fn lemma_quoted_on_keeps(
    e: EngineView,
    pair: Seq<char>,
    best_bid: Decimal,
    best_ask: Decimal,
    mid: Decimal,
    at: Timestamp,
)
    ensures
        e.quoted_on(pair, best_bid, best_ask, mid, at) matches Some((f, c)) ==> only_quoted(e, f),
{
    reveal(EngineView::quoted_on);
    if let Some((f, c)) = e.quoted_on(pair, best_bid, best_ask, mid, at) {
        if lookup(e.pair_info, pair) is Some && lookup(e.quoters, pair) is Some {
            let info = lookup(e.pair_info, pair).unwrap();
            let q = lookup(e.quoters, pair).unwrap();
            let skew = skew_of(
                product(e.position(pair).qty, mid),
                e.config.risk.max_inventory_usd,
            ).unwrap();
            let qty = order_qty(mid, e.config.trading.order_size_usd, info).unwrap();
            match quotes(best_bid, best_ask, mid, skew, e.config.trading, info) {
                Some(Some((bid, ask))) => {
                    lemma_quoted_at_keeps(e, pair, q, bid, ask, qty, mid, at);
                },
                _ => {},
            }
        }
    }
}

/// Quoting a pair touches nothing but tracked orders, quoters and the order counter.
pub proof fn quoting_keeps_the_books(e: EngineView, pair: Seq<char>, at: Timestamp)
    ensures
        e.quoted(pair, at) matches Some((f, c)) ==> only_quoted(e, f),
{
    reveal(EngineView::quoted);
    if let Some(b) = lookup(e.books, pair) {
        if let (Some(bb), Some(ba), Some(Some(mid))) = (b.best_bid(), b.best_ask(), b.mid()) {
            lemma_quoted_on_keeps(e, pair, bb.price, ba.price, mid, at);
        }
    }
}

/// Whether an event is book data.
pub open spec fn is_book_data(event: EngineEvent) -> bool {
    event is BookSnapshot || event is BookUpdate
}

/// The pair a book event is about.
pub open spec fn book_pair(event: EngineEvent) -> Seq<char> {
    match event {
        EngineEvent::BookSnapshot { pair, bids, asks, timestamp } => pair@,
        EngineEvent::BookUpdate { pair, bid_updates, ask_updates, timestamp } => pair@,
        _ => Seq::empty(),
    }
}

/// Book data leads to proper quoting of its pair and to nothing else, judged by the holdings,
/// limits and tracked orders as they were before it, and leaves holdings and results alone.
pub proof fn book_data_only_quotes(e: EngineView, event: EngineEvent)
    requires
        is_book_data(event),
    ensures
        e.on_event(event) matches Some((f, c)) ==> {
            &&& books_kept(e, f)
            &&& f.counter >= e.counter
            &&& (c.len() == 0 || exists|g: EngineView, mid: Decimal|
                #![trigger all_proper(g, book_pair(event), mid, c)]
                books_kept(e, g) && g.state == e.state && all_proper(g, book_pair(event), mid, c))
        },
{
    reveal(EngineView::on_book_snapshot);
    reveal(EngineView::on_book_update);
    let pair = book_pair(event);
    match event {
        EngineEvent::BookSnapshot { pair: p, bids, asks, timestamp } => {
            let e1 = EngineView {
                books: stored(e.books, pair, BookView::snapshot(bids@, asks@)),
                ..e
            };
            if let Some(g) = e1.priced(pair) {
                quoting_is_proper(g, pair, timestamp);
                quoting_keeps_the_books(g, pair, timestamp);
            }
        },
        EngineEvent::BookUpdate { pair: p, bid_updates, ask_updates, timestamp } => {
            let e1 = match lookup(e.books, pair) {
                Some(b) => EngineView {
                    books: stored(e.books, pair, b.updated(bid_updates@, ask_updates@)),
                    ..e
                },
                None => e,
            };
            if let Some(g) = e1.priced(pair) {
                quoting_is_proper(g, pair, timestamp);
                quoting_keeps_the_books(g, pair, timestamp);
            }
        },
        _ => {},
    }
}

/// Book data alone never shuts the engine down and never cancels everything.
pub proof fn no_shutdown_on_book_data(e: EngineView, event: EngineEvent, i: int)
    requires
        is_book_data(event),
        e.on_event(event) is Some,
        0 <= i < e.on_event(event).unwrap().1.len(),
    ensures
        !(e.on_event(event).unwrap().1[i] is Shutdown),
        !(e.on_event(event).unwrap().1[i] is CancelAll),
{
    book_data_only_quotes(e, event);
    let (f, c) = e.on_event(event).unwrap();
    let (g, mid) = choose|g: EngineView, mid: Decimal|
        #![trigger all_proper(g, book_pair(event), mid, c)]
        books_kept(e, g) && g.state == e.state && all_proper(g, book_pair(event), mid, c);
    assert(proper(g, book_pair(event), mid, c[i]));
}

/// What is at least as large as a positive number is positive.
pub proof fn at_least_positive(a: Decimal, b: Decimal)
    requires
        !less(a, b),
        positive(b),
    ensures
        positive(a),
{
    lemma_pow10(0, a.s());
    lemma_pow10(0, b.s());
    let x = pow10(a.s());
    let y = pow10(b.s());
    assert(b.m() * x > 0) by (nonlinear_arith)
        requires
            b.m() > 0,
            x > 0,
    ;
    assert(a.m() > 0) by (nonlinear_arith)
        requires
            a.m() * y > 0,
            y > 0,
    ;
}

/// A price change sent on book data refers to an order that is tracked and acknowledged.
pub proof fn amend_references_valid_order_ids(e: EngineView, event: EngineEvent, i: int)
    requires
        is_book_data(event),
        e.on_event(event) is Some,
        0 <= i < e.on_event(event).unwrap().1.len(),
        e.on_event(event).unwrap().1[i] is AmendOrder,
    ensures
        e.on_event(event).unwrap().1[i] matches CommandView::AmendOrder {
            cl_ord_id,
            new_price,
            new_qty,
        } && lookup(e.state.open_orders, cl_ord_id) matches Some(o) && o.acked,
{
    book_data_only_quotes(e, event);
    let (f, c) = e.on_event(event).unwrap();
    let (g, mid) = choose|g: EngineView, mid: Decimal|
        #![trigger all_proper(g, book_pair(event), mid, c)]
        books_kept(e, g) && g.state == e.state && all_proper(g, book_pair(event), mid, c);
    assert(proper(g, book_pair(event), mid, c[i]));
}

/// A pair that is held back, for instance because the kill switch has fired or it is disabled or
/// cooling down, is not touched by book data.
pub proof fn held_back_pairs_are_not_quoted(e: EngineView, event: EngineEvent)
    requires
        is_book_data(event),
        e.held_back(book_pair(event)),
    ensures
        e.on_event(event) matches Some((f, c)) ==> c.len() == 0 && f.state == e.state && f.quoters
            == e.quoters,
{
    reveal(EngineView::on_book_snapshot);
    reveal(EngineView::on_book_update);
    reveal(EngineView::quoted);
}

/// A spread that is too narrow places no orders: whatever quotes are out are withdrawn.
pub proof fn narrow_spread_places_no_orders(
    e: EngineView,
    pair: Seq<char>,
    best_bid: Decimal,
    best_ask: Decimal,
    mid: Decimal,
    skew: Decimal,
    info: PairInfoView,
    at: Timestamp,
)
    requires
        lookup(e.pair_info, pair) == Some(info),
        skew_of(
            product(e.position(pair).qty, mid),
            e.config.risk.max_inventory_usd,
        ) == Some(skew),
        quotes(best_bid, best_ask, mid, skew, e.config.trading, info) == Some(
            None::<(Decimal, Decimal)>,
        ),
    ensures
        e.quoted_on(pair, best_bid, best_ask, mid, at) matches Some((f, c)) ==> forall|i: int|
            0 <= i < c.len() ==> (#[trigger] c[i]) is CancelOrders,
{
    reveal(EngineView::quoted_on);
}

/// Numbers make client order ids unique: an engine that counts up never issues one twice.
pub proof fn order_ids_are_unique(p: Seq<char>, n: nat, m: nat)
    requires
        order_id(p, n) == order_id(p, m),
    ensures
        n == m,
{
    let a = order_id(p, n);
    let head = (p + "-"@).len() as int;
    assert(a.subrange(head, a.len() as int) =~= digits(n));
    assert(a.subrange(head, a.len() as int) =~= digits(m));
    digits_are_injective(n, m);
}

/// The order numbers go up with every order that is placed.
pub proof fn tracking_counts_up(
    e: EngineView,
    prefix: Seq<char>,
    pair: Seq<char>,
    side: OrderSide,
    price: Decimal,
    qty: Decimal,
    at: Timestamp,
)
    ensures
        e.tracking(prefix, pair, side, price, qty, at) matches Some((f, id)) ==> f.counter
            == e.counter + 1 && id == order_id(prefix, f.counter as nat) && lookup(
            f.state.open_orders,
            id,
        ) == Some(
            TrackedOrderView {
                cl_ord_id: id,
                pair,
                side,
                price,
                qty,
                placed_at: at,
                acked: false,
            },
        ),
{
    if e.counter < u64::MAX {
        let id = order_id(prefix, (e.counter + 1) as nat);
        let o = TrackedOrderView { cl_ord_id: id, pair, side, price, qty, placed_at: at, acked: false };
        stored_then_lookup(e.state.open_orders, id, o, id);
    }
}

/// An order that a predicate picks has its id picked.
pub proof fn lemma_ids_where(
    s: Entries<TrackedOrderView>,
    f: spec_fn(TrackedOrderView) -> bool,
    i: int,
)
    requires
        0 <= i < s.len(),
        f(s[i].1),
    ensures
        ids_where(s, f).contains(s[i].0),
        ids_where(s, f).len() > 0,
    decreases s.len(),
{
    let t = s.drop_last();
    let before = ids_where(t, f);
    if i == s.len() - 1 {
        let all = before.push(s[i].0);
        assert(all[all.len() - 1] == s[i].0);
    } else {
        assert(t[i] == s[i]);
        lemma_ids_where(t, f, i);
        let k = choose|k: int| 0 <= k < before.len() && before[k] == s[i].0;
        if f(s.last().1) {
            let all = before.push(s.last().0);
            assert(all[k] == s[i].0);
        }
    }
}

/// Where a predicate holds of no order none is picked.
pub proof fn lemma_ids_where_empty(s: Entries<TrackedOrderView>, f: spec_fn(TrackedOrderView) -> bool)
    requires
        forall|i: int| 0 <= i < s.len() ==> !f(#[trigger] s[i].1),
    ensures
        ids_where(s, f).len() == 0,
    decreases s.len(),
{
    if s.len() > 0 {
        let t = s.drop_last();
        assert forall|i: int| 0 <= i < t.len() implies !f(#[trigger] t[i].1) by {
            assert(t[i] == s[i]);
        }
        lemma_ids_where_empty(t, f);
        assert(!f(s[s.len() - 1].1));
    }
}

/// What is left after a list of keys is taken out: entries that were there, under other keys.
pub proof fn lemma_without_all<T>(s: Entries<T>, ks: Seq<Seq<char>>, j: int)
    requires
        distinct_keys(s),
        0 <= j < without_all(s, ks).len(),
    ensures
        distinct_keys(without_all(s, ks)),
        s.contains(without_all(s, ks)[j]),
        !ks.contains(without_all(s, ks)[j].0),
    decreases ks.len(),
{
    if ks.len() == 0 {
        assert(s[j] == without_all(s, ks)[j]);
    } else {
        let t = without_all(s, ks.drop_last());
        let k = ks.last();
        let r = without(t, k);
        lemma_without_all_distinct(s, ks.drop_last());
        lemma_slot(t, k);
        without_then_lookup(t, k, k);
        let p = slot(t, k);
        let i = if keyed(t, k) && j >= p {
            j + 1
        } else {
            j
        };
        assert(r[j] == t[i]);
        lemma_without_all(s, ks.drop_last(), i);
        assert(r[j].0 != k) by {
            if r[j].0 == k {
                lemma_keyed(r, k, j);
            }
        }
        assert forall|a: int| 0 <= a < ks.len() implies ks[a] != r[j].0 by {
            if a < ks.len() - 1 {
                assert(ks.drop_last()[a] == ks[a]);
            }
        }
    }
}

/// Taking keys out leaves the others distinct.
pub proof fn lemma_without_all_distinct<T>(s: Entries<T>, ks: Seq<Seq<char>>)
    requires
        distinct_keys(s),
    ensures
        distinct_keys(without_all(s, ks)),
    decreases ks.len(),
{
    if ks.len() > 0 {
        lemma_without_all_distinct(s, ks.drop_last());
        without_then_lookup(without_all(s, ks.drop_last()), ks.last(), ks.last());
    }
}

/// Once the orders a predicate picks are taken out, it picks none.
proof fn lemma_picked_orders_go(
    s: Entries<TrackedOrderView>,
    f: spec_fn(TrackedOrderView) -> bool,
)
    requires
        distinct_keys(s),
    ensures
        ids_where(without_all(s, ids_where(s, f)), f).len() == 0,
{
    let ks = ids_where(s, f);
    let t = without_all(s, ks);
    assert forall|j: int| 0 <= j < t.len() implies !f(#[trigger] t[j].1) by {
        lemma_without_all(s, ks, j);
        let i = choose|i: int| 0 <= i < s.len() && s[i] == t[j];
        if f(t[j].1) {
            lemma_ids_where(s, f, i);
        }
    }
    lemma_ids_where_empty(t, f);
}

/// The first phase of a liquidation places nothing: it cancels every tracked order of the pair,
/// leaves none of them, and takes the pair out of quoting.
pub proof fn liquidation_begins_with_cancels(e: EngineView, pair: Seq<char>)
    requires
        distinct_keys(e.state.open_orders),
    ensures
        ({
            let (f, c) = e.liquidate(pair);
            &&& forall|i: int| 0 <= i < c.len() ==> (#[trigger] c[i]) is CancelOrders
            &&& (positive(e.position(pair).qty) && !keyed(e.liquidating, pair)) ==> {
                &&& keyed(f.liquidating, pair)
                &&& keyed(f.disabled, pair)
                &&& f.held_back(pair)
                &&& lookup(f.liq_retries, pair) == Some(0u32)
                &&& ids_where(f.state.open_orders, of_pair(pair)).len() == 0
            }
        }),
{
    lemma_picked_orders_go(e.state.open_orders, of_pair(pair));
    stored_then_lookup(e.liquidating, pair, (), pair);
    stored_then_lookup(e.disabled, pair, (), pair);
    stored_then_lookup(e.liq_retries, pair, 0u32, pair);
}

proof fn lemma_picked_order_shows(
    s: Entries<TrackedOrderView>,
    f: spec_fn(TrackedOrderView) -> bool,
    k: Seq<char>,
)
    requires
        lookup(s, k) matches Some(o) && f(o),
    ensures
        ids_where(s, f).len() > 0,
{
    lemma_slot(s, k);
    lemma_ids_where(s, f, slot(s, k));
}

/// Liquidation ids are recognised as such.
pub proof fn liquidation_ids_are_recognised(n: nat)
    ensures
        begins_with(order_id("liq"@, n), "liq"@),
{
    let id = order_id("liq"@, n);
    let p = "liq"@;
    assert(id.subrange(0, p.len() as int) =~= p);
}

/// What a liquidation step places is one market sell of the whole holding, truncated to the
/// pair's precision; and as long as that order is out, no further step does anything.
pub proof fn liquidation_sell_is_sent_once(
    e: EngineView,
    pair: Seq<char>,
    at: Timestamp,
    later: Timestamp,
    i: int,
)
    requires
        e.liquidation_step(pair, at) is Some,
        0 <= i < e.liquidation_step(pair, at).unwrap().1.len(),
        e.liquidation_step(pair, at).unwrap().1[i] is PlaceOrder,
    ensures
        ({
            let (f, c) = e.liquidation_step(pair, at).unwrap();
            &&& c.len() == 1
            &&& c[0] matches CommandView::PlaceOrder(r)
            &&& r.pair == pair
            &&& r.side == OrderSide::Sell
            &&& r.market
            &&& !r.post_only
            &&& truncated(e.position(pair).qty, e.qty_decimals(pair)) == Some(r.qty)
            &&& positive(e.position(pair).qty)
            &&& f.liquidation_step(pair, later) == Some((f, Seq::<CommandView>::empty()))
        }),
{
    reveal(EngineView::liquidation_step);
    reveal(EngineView::liquidation_sell);
    let (f, c) = e.liquidation_step(pair, at).unwrap();
    let held = e.position(pair).qty;
    let price = e.reference_price(pair);
    let qty = truncated(held, e.qty_decimals(pair)).unwrap();
    tracking_counts_up(e, "liq"@, pair, OrderSide::Sell, price, qty, at);
    liquidation_ids_are_recognised(f.counter as nat);
    lemma_picked_order_shows(
        f.state.open_orders,
        liquidation_of_pair(pair),
        order_id("liq"@, f.counter as nat),
    );
}

/// Three rejected sells end a liquidation: it is given up and the pair stays disabled.
pub proof fn liquidation_is_given_up_after_three_tries(
    e: EngineView,
    pair: Seq<char>,
    at: Timestamp,
)
    requires
        lookup(e.liq_retries, pair) matches Some(n) && n >= 3,
    ensures
        e.liquidation_sell(pair, at) == Some(
            (
                EngineView { liquidating: without(e.liquidating, pair), ..e },
                Seq::<CommandView>::empty(),
            ),
        ),
{
    reveal(EngineView::liquidation_sell);
}

proof fn lemma_settle_keeps(e: EngineView, pair: Seq<char>)
    ensures
        e.settle(pair) == (EngineView { quoters: e.settle(pair).quoters, ..e }),
{
    reveal(EngineView::settle);
}

/// Closing the order of a fill touches nothing but tracked orders and quoters.
pub proof fn lemma_closed_keeps(e: EngineView, fill: FillView)
    ensures
        ({
            let f = e.closed_by(fill);
            f == (EngineView {
                quoters: f.quoters,
                state: BotStateView { open_orders: f.state.open_orders, ..e.state },
                ..e
            })
        }),
{
    reveal(EngineView::closed_by);
    let e1 = e.with_orders(without(e.state.open_orders, fill.cl_ord_id));
    let e2 = match lookup(e1.quoters, fill.pair) {
        Some(q) => e1.with_quoter(
            fill.pair,
            match fill.side {
                OrderSide::Buy => q.bid_filled(),
                OrderSide::Sell => q.ask_filled(),
            },
        ),
        None => e1,
    };
    lemma_settle_keeps(e2, fill.pair);
}

/// A fill is logged first and saved second, with the realized profit it leads to; it is counted,
/// its fee is added up, and only a sell changes the realized profit. If the profit is below the
/// threshold, the engine cancels everything and shuts down.
pub proof fn fills_are_accounted_for(e: EngineView, fill: FillView)
    ensures
        e.on_fill(fill) matches Some((f, c)) ==> {
            &&& c.len() >= 2
            &&& c[0] matches CommandView::LogTrade(t)
            &&& t.pair == fill.pair
            &&& t.cumulative_pnl == f.state.realized_pnl
            &&& c[1] matches CommandView::PersistState(saved)
            &&& saved.realized_pnl == f.state.realized_pnl
            &&& saved.positions == f.state.positions
            &&& f.state.trade_count == e.state.trade_count + 1
            &&& sum(e.state.total_fees, fill.fee) == Some(f.state.total_fees)
            &&& (fill.side == OrderSide::Buy ==> f.state.realized_pnl == e.state.realized_pnl)
            &&& (fill.side == OrderSide::Sell ==> sum(
                e.state.realized_pnl,
                t.pnl,
            ) == Some(f.state.realized_pnl))
            &&& (less(f.state.realized_pnl, e.config.risk.kill_switch_loss_usd) ==> {
                &&& f.kill_switch.triggered
                &&& c.len() >= 4
                &&& c[2] is CancelAll
                &&& c[3] is Shutdown
            })
        },
{
    reveal(EngineView::on_fill);
    reveal(EngineView::booked);
    if let Some((f, c)) = e.on_fill(fill) {
        let (e1, pnl) = e.booked(fill).unwrap();
        let e2 = e1.closed_by(fill);
        lemma_closed_keeps(e1, fill);
        let e3 = EngineView {
            kill_switch: e2.kill_switch.checked(
                e2.state.realized_pnl,
                e.config.risk.kill_switch_loss_usd,
            ),
            ..e2
        };
        quoting_keeps_the_books(e3, fill.pair, fill.timestamp);
    }
}

/// A key is among entries with some keys stored if it was before or is one of those.
pub proof fn lemma_stored_all(s: Entries<()>, ks: Seq<Seq<char>>, k: Seq<char>)
    ensures
        keyed(stored_all(s, ks), k) <==> keyed(s, k) || ks.contains(k),
    decreases ks.len(),
{
    if ks.len() > 0 {
        let t = stored_all(s, ks.drop_last());
        lemma_stored_all(s, ks.drop_last(), k);
        stored_then_lookup(t, ks.last(), (), k);
        if ks.contains(k) {
            let i = choose|i: int| 0 <= i < ks.len() && ks[i] == k;
            if i < ks.len() - 1 {
                assert(ks.drop_last()[i] == k);
            }
        }
        if ks.drop_last().contains(k) {
            let i = choose|i: int| 0 <= i < ks.drop_last().len() && ks.drop_last()[i] == k;
            assert(ks[i] == k);
        }
        assert(ks[ks.len() - 1] == ks.last());
    }
}

/// Pausing makes every known pair sell-only and resuming lifts that for all pairs; both are saved.
pub proof fn pausing_stops_buys(e: EngineView, pair: Seq<char>)
    ensures
        ({
            let (f, c) = e.on_api(ApiAction::Pause);
            &&& (keyed(e.pair_info, pair) ==> keyed(f.sell_only, pair))
            &&& f.state.paused
            &&& c == seq![CommandView::PersistState(f.state)]
        }),
        ({
            let (f, c) = e.on_api(ApiAction::Resume);
            &&& !keyed(f.sell_only, pair)
            &&& !f.state.paused
            &&& c == seq![CommandView::PersistState(f.state)]
        }),
{
    let ks = keys_of(e.pair_info);
    lemma_stored_all(e.sell_only, ks, pair);
    if keyed(e.pair_info, pair) {
        lemma_slot(e.pair_info, pair);
        assert(ks[slot(e.pair_info, pair)] == pair);
    }
}

/// Cancelling everything leaves no tracked order, and every quoter idle and without orders.
pub proof fn cancel_all_leaves_nothing(e: EngineView, i: int)
    requires
        0 <= i < e.quoters.len(),
    ensures
        ({
            let (f, c) = e.on_api(ApiAction::CancelAll);
            &&& f.state.open_orders.len() == 0
            &&& f.quoters[i].1.state == QuoteState::Idle
            &&& f.quoters[i].1.bid is None
            &&& f.quoters[i].1.ask is None
            &&& c == seq![CommandView::CancelAll]
        }),
{
}

/// Disabling a pair takes it out of quoting; enabling it undoes that.
pub proof fn enabling_undoes_disabling(e: EngineView, pair: Seq<char>)
    requires
        distinct_keys(e.disabled),
        distinct_keys(e.state.disabled_pairs),
        distinct_keys(e.state.cooldown_until),
    ensures
        e.disable(pair).0.held_back(pair),
        ({
            let f = e.disable(pair).0.enable(pair);
            !keyed(f.disabled, pair) && !keyed(f.state.disabled_pairs, pair) && !keyed(
                f.state.cooldown_until,
                pair,
            )
        }),
{
    stored_then_lookup(e.disabled, pair, (), pair);
    stored_then_lookup(e.state.disabled_pairs, pair, (), pair);
    without_then_lookup(stored(e.disabled, pair, ()), pair, pair);
    without_then_lookup(stored(e.state.disabled_pairs, pair, ()), pair, pair);
    without_then_lookup(e.state.cooldown_until, pair, pair);
}

/// What the prices of new orders are made of: the bid price for buys, the ask price raised to the
/// cost floor for sells.
spec fn priced_from(
    e: EngineView,
    pair: Seq<char>,
    bid: Decimal,
    ask: Decimal,
    c: Seq<CommandView>,
) -> bool {
    forall|i: int|
        0 <= i < c.len() ==> ((#[trigger] c[i]) matches CommandView::PlaceOrder(r) ==> match r.side {
            OrderSide::Buy => r.price == bid,
            OrderSide::Sell => e.anchored(pair, ask) == Some(r.price),
        })
}

proof fn lemma_priced_from(
    e: EngineView,
    pair: Seq<char>,
    q: QuoterView,
    bid: Decimal,
    ask: Decimal,
    qty: Decimal,
    mid: Decimal,
    at: Timestamp,
)
    ensures
        e.quoted_at(pair, q, bid, ask, qty, mid, at) matches Some((f, c)) ==> priced_from(
            e,
            pair,
            bid,
            ask,
            c,
        ),
{
    reveal(EngineView::quoted_at);
    match q.state {
        QuoteState::Idle => {
            reveal(EngineView::fresh_quotes);
        },
        QuoteState::Quoting => {
            reveal(EngineView::requoted);
        },
        QuoteState::Pending => {},
        _ => {
            reveal(EngineView::one_side);
        },
    }
}

proof fn lemma_anchored_is_above(e: EngineView, pair: Seq<char>, price: Decimal, low: Decimal)
    requires
        price.valid(),
        low.valid(),
        e.position(pair).avg_cost.valid(),
        e.config.trading.min_profit_pct.valid(),
        e.price_decimals(pair) <= MAX_SCALE,
        less(low, price),
    ensures
        e.anchored(pair, price) matches Some(p) ==> less(low, p),
{
    if e.position(pair).avg_cost.m() != 0 {
        if let Some(floor) = e.cost_floor(pair) {
            lemma_of(1, 0);
            results_are_valid(Decimal::of(1, 0), e.config.trading.min_profit_pct);
            let factor = sum(Decimal::of(1, 0), e.config.trading.min_profit_pct).unwrap();
            results_are_valid(e.position(pair).avg_cost, factor);
            let raw = product(e.position(pair).avg_cost, factor).unwrap();
            raising_is_by_less_than_a_tick(raw, e.price_decimals(pair) as nat);
            order_is_total(low, price, floor);
        }
    }
}

/// Orders that are placed on a top of book never cross it: a buy is priced below the best ask and a
/// sell above the best bid, as long as a tick can be added to and taken from those without loss.
pub proof fn placed_orders_do_not_cross(
    e: EngineView,
    pair: Seq<char>,
    best_bid: Decimal,
    best_ask: Decimal,
    mid: Decimal,
    at: Timestamp,
    i: int,
)
    requires
        best_bid.valid(),
        best_ask.valid(),
        mid.valid(),
        e.position(pair).qty.valid(),
        e.position(pair).avg_cost.valid(),
        e.config.risk.max_inventory_usd.valid(),
        e.config.trading.spread_capture_pct.valid(),
        e.config.trading.min_profit_pct.valid(),
        tick_fits(best_bid, e.price_decimals(pair) as nat),
        tick_fits(best_ask, e.price_decimals(pair) as nat),
        e.quoted_on(pair, best_bid, best_ask, mid, at) is Some,
        0 <= i < e.quoted_on(pair, best_bid, best_ask, mid, at).unwrap().1.len(),
    ensures
        e.quoted_on(pair, best_bid, best_ask, mid, at).unwrap().1[i] matches CommandView::PlaceOrder(
            r,
        ) ==> match r.side {
            OrderSide::Buy => less(r.price, best_ask),
            OrderSide::Sell => less(best_bid, r.price),
        },
{
    reveal(EngineView::quoted_on);
    let (f, c) = e.quoted_on(pair, best_bid, best_ask, mid, at).unwrap();
    if c[i] is PlaceOrder {
        let info = lookup(e.pair_info, pair).unwrap();
        let q = lookup(e.quoters, pair).unwrap();
        let exposure = product(e.position(pair).qty, mid);
        let max = e.config.risk.max_inventory_usd;
        let skew = skew_of(exposure, max).unwrap();
        results_are_valid(e.position(pair).qty, mid);
        skews_are_valid(exposure, max);
        let qty = order_qty(mid, e.config.trading.order_size_usd, info).unwrap();
        quotes_do_not_cross(best_bid, best_ask, mid, skew, e.config.trading, info);
        if let Some(Some((bid, ask))) = quotes(
            best_bid,
            best_ask,
            mid,
            skew,
            e.config.trading,
            info,
        ) {
            lemma_priced_from(e, pair, q, bid, ask, qty, mid, at);
            lemma_anchored_is_above(e, pair, ask, best_bid);
        }
    }
}

/// What reconciling leaves for a pair: the balance of its base asset.
proof fn lemma_reconciled(
    positions: Entries<Position>,
    infos: Entries<PairInfoView>,
    balances: Entries<Decimal>,
    i: int,
)
    requires
        distinct_keys(positions),
        distinct_keys(infos),
        0 <= i < infos.len(),
    ensures
        distinct_keys(EngineView::reconciled(positions, infos, balances)),
        lookup(balances, infos[i].1.exchange_base_asset) matches Some(b) ==> if positive(b) {
            position_of(
                EngineView::reconciled(positions, infos, balances),
                infos[i].0,
            ).qty == b
        } else {
            lookup(EngineView::reconciled(positions, infos, balances), infos[i].0) is None
        },
    decreases infos.len(),
{
    let init = infos.drop_last();
    let before = EngineView::reconciled(positions, init, balances);
    let (pair, info) = infos.last();
    lemma_reconciled_distinct(positions, init, balances);
    assert(distinct_keys(init)) by {
        assert forall|a: int, b: int| 0 <= a < b < init.len() implies init[a].0 != init[b].0 by {
            assert(infos[a].0 != infos[b].0);
        }
    }
    let k = infos[i].0;
    if let Some(qty) = lookup(balances, info.exchange_base_asset) {
        let p = Position { qty, avg_cost: position_of(before, pair).avg_cost };
        stored_then_lookup(before, pair, p, k);
        without_then_lookup(before, pair, k);
    }
    if i < init.len() {
        assert(init[i] == infos[i]);
        assert(infos[i].0 != infos[infos.len() - 1].0);
        lemma_reconciled(positions, init, balances, i);
    }
}

proof fn lemma_reconciled_distinct(
    positions: Entries<Position>,
    infos: Entries<PairInfoView>,
    balances: Entries<Decimal>,
)
    requires
        distinct_keys(positions),
    ensures
        distinct_keys(EngineView::reconciled(positions, infos, balances)),
    decreases infos.len(),
{
    if infos.len() > 0 {
        let before = EngineView::reconciled(positions, infos.drop_last(), balances);
        let (pair, info) = infos.last();
        lemma_reconciled_distinct(positions, infos.drop_last(), balances);
        if let Some(qty) = lookup(balances, info.exchange_base_asset) {
            let p = Position { qty, avg_cost: position_of(before, pair).avg_cost };
            stored_then_lookup(before, pair, p, pair);
            without_then_lookup(before, pair, pair);
        }
    }
}

/// A balance snapshot makes the holding of every known pair whose base asset it lists equal to the
/// balance, and issues no commands.
pub proof fn balances_correct_holdings(e: EngineView, balances: Entries<Decimal>, i: int)
    requires
        distinct_keys(e.state.positions),
        distinct_keys(e.pair_info),
        0 <= i < e.pair_info.len(),
    ensures
        lookup(balances, e.pair_info[i].1.exchange_base_asset) matches Some(b) ==> (positive(b)
            ==> e.on_balances(balances).position(e.pair_info[i].0).qty == b) && (!positive(b)
            ==> !keyed(e.on_balances(balances).state.positions, e.pair_info[i].0)),
{
    lemma_reconciled(e.state.positions, e.pair_info, balances, i);
}

/// Removing a pair takes it out of quoting for good: enabled or not after a liquidation, it stays
/// barred.
pub proof fn removed_pairs_stay_out(e: EngineView, pair: Seq<char>, at: Timestamp)
    ensures
        e.remove(pair).0.held_back(pair),
        e.remove(pair).0.released(pair).held_back(pair),
        e.remove(pair).0.liquidated(pair, at) matches Some(f) ==> f.held_back(pair),
{
    stored_then_lookup(e.state.disabled_pairs, pair, (), pair);
    stored_then_lookup(e.disabled, pair, (), pair);
}

/// Average cost plus minimum profit, before it is raised to the pair's precision.
pub open spec fn profit_line(e: EngineView, pair: Seq<char>) -> Option<Decimal> {
    times(
        Some(e.position(pair).avg_cost),
        plus(Some(Decimal::of(1, 0)), Some(e.config.trading.min_profit_pct)),
    )
}

/// Sells keep the minimum profit: a price at the cost floor or above is never below the average
/// cost plus the minimum profit.
pub proof fn sells_keep_the_minimum_profit(e: EngineView, pair: Seq<char>, price: Decimal)
    requires
        e.position(pair).avg_cost.valid(),
        e.config.trading.min_profit_pct.valid(),
        price.valid(),
        e.position(pair).avg_cost.m() != 0,
        covers_cost(e, pair, price),
    ensures
        profit_line(e, pair) matches Some(line) && !less(price, line),
{
    let dp = e.price_decimals(pair) as nat;
    let one = Decimal::of(1, 0);
    lemma_of(1, 0);
    results_are_valid(one, e.config.trading.min_profit_pct);
    let factor = sum(one, e.config.trading.min_profit_pct).unwrap();
    results_are_valid(e.position(pair).avg_cost, factor);
    let line = profit_line(e, pair).unwrap();
    let floor = e.cost_floor(pair).unwrap();
    if dp <= MAX_SCALE {
        raising_is_by_less_than_a_tick(line, dp);
    }
    less_is_by_units(floor, line);
    less_is_by_units(price, floor);
    less_is_by_units(price, line);
}

} // verus!
