//! Which orders the engine places, moves and withdraws for a pair, at which prices and quantities.
use crate::book::BookView;
use crate::collections::{
    distinct_keys, keyed, lookup, stored, stored_then_lookup, without, without_then_lookup, Entries,
};
use crate::decimal::{
    cut_down, larger, lemma_of, less, magnitude, pow10, product, sum, Decimal, MAX_SCALE,
};
use crate::decimal_error::{
    apart, lemma_one, one, products_are_near, sums_are_near,
};
use crate::decimal_laws::{
    less_is_by_units, raising_is_by_less_than_a_tick, results_are_valid,
    truncation_cuts_down, units,
};
use crate::decimal_order::units_have_the_sign;
use crate::engine_laws::quoting_keeps_the_books;
use crate::engine_model::{order_id, EngineView};
use crate::events::CommandView;
use crate::inventory::skew_of;
use crate::quoter::{moved_beyond, order_qty, quotes, QuoteState, QuoterView};
use crate::risk::buy_allowed;
use crate::state::TrackedOrderView;
use crate::time::Timestamp;
use crate::types::{FillView, LevelUpdate, OrderSide, PairInfoView};
use vstd::prelude::*;

verus! {

/// Whether a pair may be quoted, and at which prices and quantity: those that its book, its holding
/// and the configuration call for.
pub open spec fn is_due_quotes(
    e: EngineView,
    pair: Seq<char>,
    info: PairInfoView,
    book: BookView,
    mid: Decimal,
    skew: Decimal,
    at_prices: Option<(Decimal, Decimal)>,
    qty: Decimal,
) -> bool {
    &&& !e.held_back(pair)
    &&& lookup(e.pair_info, pair) == Some(info)
    &&& lookup(e.books, pair) == Some(book)
    &&& book.mid() == Some(Some(mid))
    &&& book.best_bid() is Some
    &&& book.best_ask() is Some
    &&& skew_of(product(e.position(pair).qty, mid), e.config.risk.max_inventory_usd) == Some(skew)
    &&& quotes(
        book.best_bid().unwrap().price,
        book.best_ask().unwrap().price,
        mid,
        skew,
        e.config.trading,
        info,
    ) == Some(at_prices)
    &&& order_qty(mid, e.config.trading.order_size_usd, info) == Some(qty)
}

/// Whether a command places a resting order of a pair on a side.
pub open spec fn places(
    c: CommandView,
    pair: Seq<char>,
    side: OrderSide,
    price: Decimal,
    qty: Decimal,
) -> bool {
    c matches CommandView::PlaceOrder(r) && r.pair == pair && r.side == side && r.price == price
        && r.qty == qty && r.post_only && !r.market && !r.urgent
}

/// The id of the order a command places.
pub open spec fn placed_id(c: CommandView) -> Seq<char> {
    match c {
        CommandView::PlaceOrder(r) => r.cl_ord_id,
        _ => Seq::empty(),
    }
}

/// Whether an order is tracked as it was placed, not acknowledged yet.
pub open spec fn tracks(
    e: EngineView,
    id: Seq<char>,
    pair: Seq<char>,
    side: OrderSide,
    price: Decimal,
    qty: Decimal,
    at: Timestamp,
) -> bool {
    lookup(e.state.open_orders, id) matches Some(o) && o.pair == pair && o.side == side && o.price
        == price && o.qty == qty && o.placed_at == at && !o.acked && o.cl_ord_id == id
}

/// Whether a buy of some value is within the configured limits of the pair and of all pairs.
pub open spec fn is_within_limits(
    e: EngineView,
    pair: Seq<char>,
    value: Decimal,
    mid: Decimal,
) -> bool {
    buy_allowed(
        e.state,
        pair,
        value,
        mid,
        e.prices,
        e.config.risk.max_inventory_usd,
        e.config.risk.max_total_exposure_usd,
    ) == Some(true)
}

/// Minimums and decimals of a pair are those of its pair data.
pub proof fn minimums_are_those_of_the_pair(e: EngineView, pair: Seq<char>, info: PairInfoView)
    requires
        lookup(e.pair_info, pair) == Some(info),
    ensures
        e.min_qty(pair) == info.min_order_qty,
        e.min_cost(pair) == info.min_cost,
        e.qty_decimals(pair) == info.qty_decimals,
        e.price_decimals(pair) == info.price_decimals,
{
}

/// Whether enough of a pair is held to sell it: the minimum quantity and, at the mid price, the
/// minimum value.
pub open spec fn can_sell(e: EngineView, pair: Seq<char>, value: Decimal) -> bool {
    units(e.position(pair).qty) >= units(e.min_qty(pair)) && units(value) >= units(e.min_cost(pair))
}

/// What is sold is no more than is asked for and no more than is held, and short of the lesser of
/// the two by less than the last decimal place; nothing is sold of a holding below the minimums.
pub proof fn sells_are_of_what_is_held(
    e: EngineView,
    pair: Seq<char>,
    qty: Decimal,
    mid: Decimal,
    value: Decimal,
)
    requires
        e.position(pair).qty.valid(),
        qty.valid(),
        e.min_qty(pair).valid(),
        e.min_cost(pair).valid(),
        product(e.position(pair).qty, mid) == Some(value),
        value.valid(),
    ensures
        ({
            let held = e.position(pair).qty;
            let s = e.sellable(pair, qty, mid);
            &&& !can_sell(e, pair, value) <==> s == Some(None::<Decimal>)
            &&& s matches Some(Some(q)) ==> units(q) <= units(qty) && units(q) <= units(held) && (
            units(qty) <= units(held) ==> cut_down(qty, e.qty_decimals(pair) as nat, q)) && (units(
                held,
            ) < units(qty) ==> cut_down(held, e.qty_decimals(pair) as nat, q))
        }),
{
    let held = e.position(pair).qty;
    less_is_by_units(held, e.min_qty(pair));
    less_is_by_units(value, e.min_cost(pair));
    less_is_by_units(held, qty);
    less_is_by_units(qty, held);
    truncation_cuts_down(qty, e.qty_decimals(pair));
    truncation_cuts_down(held, e.qty_decimals(pair));
    if let Some(Some(q)) = e.sellable(pair, qty, mid) {
        less_is_by_units(qty, q);
        less_is_by_units(held, q);
    }
}

/// The lowest selling price is the average cost with the minimum profit on top, raised to the next
/// tick.
pub proof fn floors_are_cost_and_profit(e: EngineView, pair: Seq<char>)
    requires
        e.position(pair).avg_cost.valid(),
        units(e.position(pair).avg_cost) >= 0,
        e.config.trading.min_profit_pct.valid(),
        0 <= units(e.config.trading.min_profit_pct) <= one(),
        e.price_decimals(pair) <= MAX_SCALE,
    ensures
        e.cost_floor(pair) matches Some(floor) ==> {
            let cost = units(e.position(pair).avg_cost);
            let line = cost * (one() + units(e.config.trading.min_profit_pct));
            let slack = 2 * one() + 100 * cost;
            &&& units(floor) * one() >= line - slack
            &&& units(floor) * one() <= line + slack + pow10(
                (28 - e.price_decimals(pair)) as nat,
            ) * one()
        },
{
    lemma_one();
    let unit = Decimal::of(1, 0);
    lemma_of(1, 0);
    assert(units(unit) == one()) by {
        assert(1 * pow10(28) == one());
    }
    let cost = e.position(pair).avg_cost;
    let profit = e.config.trading.min_profit_pct;
    if let Some(f) = sum(unit, profit) {
        sums_are_near(unit, profit);
        results_are_valid(unit, profit);
        if let Some(c) = product(cost, f) {
            products_are_near(cost, f);
            results_are_valid(cost, f);
            units_have_the_sign(f);
            units_have_the_sign(cost);
            raising_is_by_less_than_a_tick(c, e.price_decimals(pair) as nat);
            let z = one();
            let t = pow10((28 - e.price_decimals(pair)) as nat);
            lemma_floor(units(cost), units(profit), units(f), units(c), z);
            let r = units(crate::decimal::raised(c, e.price_decimals(pair) as nat));
            let u = units(c);
            assert(u * z <= r * z <= u * z + t * z) by (nonlinear_arith)
                requires
                    u <= r < u + t,
                    z > 0,
            ;
        }
    }
}

proof fn lemma_floor(cost: int, p: int, f: int, c: int, z: int)
    requires
        z >= 1_000_000,
        cost >= 0,
        0 <= p <= z,
        apart(f, z + p) * z <= 11 * magnitude(f),
        apart(c * z, cost * f) <= z + 10 * magnitude(c),
    ensures
        apart(c * z, cost * (z + p)) <= 2 * z + 100 * cost,
{
    let e = apart(f, z + p);
    let mf = magnitude(f);
    assert(e <= 30 && mf <= 2 * z + 30) by (nonlinear_arith)
        requires
            e * z <= 11 * mf,
            mf <= 2 * z + e,
            z >= 1_000_000,
            e >= 0,
    ;
    let cf = cost * f;
    let line = cost * (z + p);
    assert(apart(cf, line) <= 30 * cost) by {
        assert(cf - line <= 30 * cost && line - cf <= 30 * cost) by (nonlinear_arith)
            requires
                cf == cost * f,
                line == cost * (z + p),
                -30 <= f - (z + p) <= 30,
                cost >= 0,
        ;
    }
    let mc = magnitude(c);
    assert(cf >= 0 && cf <= 3 * (cost * z)) by (nonlinear_arith)
        requires
            cf == cost * f,
            0 <= f <= 3 * z,
            cost >= 0,
    ;
    assert(mc <= 4 * cost + 2) by (nonlinear_arith)
        requires
            c * z <= 3 * (cost * z) + z + 10 * mc,
            -(c * z) <= z + 10 * mc,
            mc == c || mc == -c,
            z >= 1_000_000,
            cost >= 0,
            mc >= 0,
    ;
}

/// A pair without quotes gets fresh ones: a resting buy of the wanted quantity at the bid price, if
/// it may be bought and the limits allow it, and a resting sell at the ask price or the lowest
/// selling price, whichever is higher, if enough is held. Both are tracked, and the quoter refers to
/// them and to the mid price.
pub proof fn idle_pairs_get_fresh_quotes(
    e: EngineView,
    pair: Seq<char>,
    info: PairInfoView,
    book: BookView,
    mid: Decimal,
    skew: Decimal,
    bid: Decimal,
    ask: Decimal,
    qty: Decimal,
    at: Timestamp,
)
    requires
        is_due_quotes(e, pair, info, book, mid, skew, Some((bid, ask)), qty),
        lookup(e.quoters, pair) matches Some(q) && q.state is Idle && q.bid is None && q.ask is None,
        e.quoted(pair, at) is Some,
    ensures
        ({
            let (f, c) = e.quoted(pair, at).unwrap();
            let buys = !keyed(e.sell_only, pair) && is_within_limits(
                e,
                pair,
                product(qty, mid).unwrap(),
                mid,
            );
            let sells = e.sellable(pair, qty, mid).unwrap();
            let price = if e.position(pair).avg_cost.m() == 0 {
                ask
            } else {
                larger(ask, e.cost_floor(pair).unwrap())
            };
            let n: int = if buys {
                1
            } else {
                0
            };
            let m: int = if sells is Some {
                1
            } else {
                0
            };
            let after = lookup(f.quoters, pair).unwrap();
            &&& c.len() == n + m
            &&& buys ==> places(c[0], pair, OrderSide::Buy, bid, qty) && tracks(
                f,
                placed_id(c[0]),
                pair,
                OrderSide::Buy,
                bid,
                qty,
                at,
            ) && after.bid == Some(placed_id(c[0]))
            &&& sells is Some ==> places(
                c[n],
                pair,
                OrderSide::Sell,
                price,
                sells.unwrap(),
            ) && tracks(
                f,
                placed_id(c[n]),
                pair,
                OrderSide::Sell,
                price,
                sells.unwrap(),
                at,
            ) && after.ask == Some(placed_id(c[n]))
            &&& !buys ==> after.bid is None
            &&& sells is None ==> after.ask is None
            &&& n + m > 0 ==> after.state is Quoting && after.last_mid == Some(mid)
                && after.last_quote_time == Some(at)
            &&& n + m == 0 ==> f == e
        }),
{
    reveal(EngineView::quoted);
    reveal(EngineView::quoted_on);
    reveal(EngineView::quoted_at);
    reveal(EngineView::fresh_quotes);
    let (f, c) = e.quoted(pair, at).unwrap();
    let buys = !keyed(e.sell_only, pair) && e.may_buy(pair, product(qty, mid).unwrap(), mid) == Some(
        true,
    );
    let sells = e.sellable(pair, qty, mid).unwrap();
    let price = e.anchored(pair, ask).unwrap();
    let q = lookup(e.quoters, pair).unwrap();
    let (e1, bid_id) = e.fresh_bid(buys, pair, bid, qty, at).unwrap();
    let n1 = (e.counter + 1) as u64;
    let id1 = order_id("bid"@, n1 as nat);
    let o1 = TrackedOrderView {
        cl_ord_id: id1,
        pair,
        side: OrderSide::Buy,
        price: bid,
        qty,
        placed_at: at,
        acked: false,
    };
    stored_then_lookup(e.state.open_orders, id1, o1, id1);
    if let Some(sold) = sells {
        let n2 = (e1.counter + 1) as u64;
        let id2 = order_id("ask"@, n2 as nat);
        let o2 = TrackedOrderView {
            cl_ord_id: id2,
            pair,
            side: OrderSide::Sell,
            price,
            qty: sold,
            placed_at: at,
            acked: false,
        };
        stored_then_lookup(e1.state.open_orders, id2, o2, id2);
        stored_then_lookup(e1.state.open_orders, id2, o2, id1);
        reveal_strlit("bid");
        reveal_strlit("ask");
        assert(id1[0] == 'b' && id2[0] == 'a');
        let (e2, ask_id) = e1.fresh_ask(Some(sold), pair, price, at).unwrap();
        lemma_quoting(e2, pair, bid_id, ask_id, mid, at);
    } else if buys {
        lemma_quoting(e1, pair, bid_id, None, mid, at);
    }
}

proof fn lemma_quoting(
    e: EngineView,
    pair: Seq<char>,
    bid: Option<Seq<char>>,
    ask: Option<Seq<char>>,
    mid: Decimal,
    at: Timestamp,
)
    requires
        keyed(e.quoters, pair),
        bid is Some || ask is Some,
    ensures
        ({
            let q = lookup(e.quoters, pair).unwrap();
            let f = e.quoting(pair, bid, ask, mid, at);
            &&& f.state == e.state
            &&& lookup(f.quoters, pair) matches Some(r) && r.state is Quoting && r.last_mid == Some(
                mid,
            ) && r.last_quote_time == Some(at) && r.bid == (if bid is Some {
                bid
            } else {
                q.bid
            }) && r.ask == (if ask is Some {
                ask
            } else {
                q.ask
            })
        }),
{
    let q = lookup(e.quoters, pair).unwrap();
    let r = QuoterView {
        state: QuoteState::Quoting,
        last_mid: Some(mid),
        last_quote_time: Some(at),
        bid: if bid is Some {
            bid
        } else {
            q.bid
        },
        ask: if ask is Some {
            ask
        } else {
            q.ask
        },
        ..q
    };
    stored_then_lookup(e.quoters, pair, r, pair);
}

/// Whether a command changes the price of an order, and only that.
pub open spec fn reprices(c: CommandView, id: Seq<char>, price: Decimal) -> bool {
    c matches CommandView::AmendOrder { cl_ord_id, new_price, new_qty } && cl_ord_id == id
        && new_price == Some(price) && new_qty is None
}

/// Whether an order is out and acknowledged.
pub open spec fn is_acked(e: EngineView, id: Option<Seq<char>>) -> bool {
    id matches Some(i) && (lookup(e.state.open_orders, i) matches Some(o) && o.acked)
}

/// A pair with both quotes out is left alone as long as the mid price has not moved beyond the
/// threshold since it was last quoted. Once it has, each quote that is acknowledged is moved: the bid
/// to the bid price, the ask to the ask price or the lowest selling price, whichever is higher.
pub proof fn quotes_follow_the_mid_price(
    e: EngineView,
    pair: Seq<char>,
    info: PairInfoView,
    book: BookView,
    mid: Decimal,
    skew: Decimal,
    bid: Decimal,
    ask: Decimal,
    qty: Decimal,
    at: Timestamp,
)
    requires
        is_due_quotes(e, pair, info, book, mid, skew, Some((bid, ask)), qty),
        lookup(e.quoters, pair) matches Some(q) && q.state is Quoting && (q.bid is Some && q.ask is Some
            ==> q.bid != q.ask),
        e.quoted(pair, at) is Some,
    ensures
        ({
            let (f, c) = e.quoted(pair, at).unwrap();
            let q = lookup(e.quoters, pair).unwrap();
            let moved = q.last_mid is None || moved_beyond(
                q.last_mid.unwrap(),
                mid,
                e.config.trading.requote_threshold_pct,
            ) == Some(true);
            let price = if e.position(pair).avg_cost.m() == 0 {
                ask
            } else {
                larger(ask, e.cost_floor(pair).unwrap())
            };
            let n: int = if is_acked(e, q.bid) {
                1
            } else {
                0
            };
            let m: int = if is_acked(e, q.ask) {
                1
            } else {
                0
            };
            let after = lookup(f.quoters, pair).unwrap();
            &&& !moved ==> f == e && c.len() == 0
            &&& moved ==> {
                &&& c.len() == n + m
                &&& is_acked(e, q.bid) ==> reprices(c[0], q.bid.unwrap(), bid) && lookup(
                    f.state.open_orders,
                    q.bid.unwrap(),
                ).unwrap().price == bid
                &&& is_acked(e, q.ask) ==> reprices(c[n], q.ask.unwrap(), price) && lookup(
                    f.state.open_orders,
                    q.ask.unwrap(),
                ).unwrap().price == price
                &&& after == QuoterView { last_mid: Some(mid), ..q }
            }
        }),
{
    reveal(EngineView::quoted);
    reveal(EngineView::quoted_on);
    reveal(EngineView::quoted_at);
    reveal(EngineView::requoted);
    let q = lookup(e.quoters, pair).unwrap();
    let moved = q.last_mid is None || moved_beyond(
        q.last_mid.unwrap(),
        mid,
        e.config.trading.requote_threshold_pct,
    ) == Some(true);
    if moved {
        let price = e.anchored(pair, ask).unwrap();
        let (e1, c1) = e.amended(q.bid, bid);
        lemma_amended(e, q.bid, bid, q.ask);
        lemma_amended(e1, q.ask, price, q.bid);
        let (e2, c2) = e1.amended(q.ask, price);
        stored_then_lookup(e2.quoters, pair, QuoterView { last_mid: Some(mid), ..q }, pair);
        if is_acked(e, q.bid) {
            assert((c1 + c2)[0] == c1[0]);
        }
        if is_acked(e, q.ask) {
            assert((c1 + c2)[c1.len() as int] == c2[0]);
        }
    }
}

proof fn lemma_amended(e: EngineView, id: Option<Seq<char>>, price: Decimal, other: Option<Seq<char>>)
    ensures
        ({
            let (f, c) = e.amended(id, price);
            &&& f.quoters == e.quoters
            &&& is_acked(e, id) ==> c.len() == 1 && reprices(c[0], id.unwrap(), price) && lookup(
                f.state.open_orders,
                id.unwrap(),
            ).unwrap().price == price
            &&& !is_acked(e, id) ==> c.len() == 0 && f == e
            &&& other is Some && other != id ==> lookup(f.state.open_orders, other.unwrap()) == lookup(
                e.state.open_orders,
                other.unwrap(),
            )
            &&& is_acked(f, other) == is_acked(e, other)
        }),
{
    if is_acked(e, id) {
        let i = id.unwrap();
        let o = lookup(e.state.open_orders, i).unwrap();
        stored_then_lookup(e.state.open_orders, i, TrackedOrderView { price, ..o }, i);
        if let Some(k) = other {
            stored_then_lookup(e.state.open_orders, i, TrackedOrderView { price, ..o }, k);
        }
    }
}

/// A pair whose orders are not acknowledged yet is left alone.
pub proof fn pending_pairs_are_left_alone(
    e: EngineView,
    pair: Seq<char>,
    info: PairInfoView,
    book: BookView,
    mid: Decimal,
    skew: Decimal,
    bid: Decimal,
    ask: Decimal,
    qty: Decimal,
    at: Timestamp,
)
    requires
        is_due_quotes(e, pair, info, book, mid, skew, Some((bid, ask)), qty),
        lookup(e.quoters, pair) matches Some(q) && q.state is Pending,
    ensures
        e.quoted(pair, at) == Some((e, Seq::<CommandView>::empty())),
{
    reveal(EngineView::quoted);
    reveal(EngineView::quoted_on);
    reveal(EngineView::quoted_at);
}

/// Once one side is filled only the other is cared for: after a buy what is held is offered for sale,
/// after a sell the pair is bought again. An order that is out is moved once it is acknowledged and
/// its price is off by more than the threshold; if there is none, one is placed, within the limits
/// and out of what is held.
pub proof fn the_other_side_is_cared_for(
    e: EngineView,
    pair: Seq<char>,
    info: PairInfoView,
    book: BookView,
    mid: Decimal,
    skew: Decimal,
    bid: Decimal,
    ask: Decimal,
    qty: Decimal,
    at: Timestamp,
)
    requires
        is_due_quotes(e, pair, info, book, mid, skew, Some((bid, ask)), qty),
        lookup(e.quoters, pair) matches Some(q) && (q.state is BidFilled || q.state is AskFilled),
        e.quoted(pair, at) is Some,
    ensures
        ({
            let (f, c) = e.quoted(pair, at).unwrap();
            let q = lookup(e.quoters, pair).unwrap();
            let selling = q.state is BidFilled;
            let side = if selling {
                OrderSide::Sell
            } else {
                OrderSide::Buy
            };
            let out = if selling {
                q.ask
            } else {
                q.bid
            };
            let price = if !selling {
                bid
            } else if e.position(pair).avg_cost.m() == 0 {
                ask
            } else {
                larger(ask, e.cost_floor(pair).unwrap())
            };
            let off = is_acked(e, out) && moved_beyond(
                lookup(e.state.open_orders, out.unwrap()).unwrap().price,
                price,
                e.config.trading.requote_threshold_pct,
            ) == Some(true);
            let wanted = if selling {
                e.sellable(pair, qty, mid).unwrap()
            } else if !keyed(e.sell_only, pair) && is_within_limits(
                e,
                pair,
                product(qty, mid).unwrap(),
                mid,
            ) {
                Some(qty)
            } else {
                None
            };
            &&& out is Some && off ==> c.len() == 1 && reprices(c[0], out.unwrap(), price)
            &&& out is Some && !off ==> c.len() == 0 && f == e
            &&& out is None && wanted is Some ==> c.len() == 1 && places(
                c[0],
                pair,
                side,
                price,
                wanted.unwrap(),
            ) && tracks(f, placed_id(c[0]), pair, side, price, wanted.unwrap(), at)
            &&& out is None && wanted is None ==> c.len() == 0 && f == e
        }),
{
    reveal(EngineView::quoted);
    reveal(EngineView::quoted_on);
    reveal(EngineView::quoted_at);
    reveal(EngineView::one_side);
    let q = lookup(e.quoters, pair).unwrap();
    let selling = q.state is BidFilled;
    let side = if selling {
        OrderSide::Sell
    } else {
        OrderSide::Buy
    };
    let price = if selling {
        e.anchored(pair, ask).unwrap()
    } else {
        bid
    };
    let prefix = if selling {
        "ask"@
    } else {
        "bid"@
    };
    let id = order_id(prefix, (e.counter + 1) as nat);
    assert forall|o: TrackedOrderView|
        lookup(#[trigger] stored(e.state.open_orders, id, o), id) == Some(o) by {
        stored_then_lookup(e.state.open_orders, id, o, id);
    }
}

/// If the spread is too narrow both quotes of a pair are withdrawn: their orders are cancelled, and
/// the pair has no quotes any more.
pub proof fn narrow_spreads_withdraw_quotes(
    e: EngineView,
    pair: Seq<char>,
    info: PairInfoView,
    book: BookView,
    mid: Decimal,
    skew: Decimal,
    qty: Decimal,
    at: Timestamp,
)
    requires
        is_due_quotes(e, pair, info, book, mid, skew, None, qty),
        keyed(e.quoters, pair),
        distinct_keys(e.state.open_orders),
    ensures
        e.quoted(pair, at) matches Some((f, c)) && ({
            let q = lookup(e.quoters, pair).unwrap();
            let after = lookup(f.quoters, pair).unwrap();
            &&& after.state is Idle && after.bid is None && after.ask is None
            &&& q.bid matches Some(id) ==> lookup(f.state.open_orders, id) is None
                && crate::tick_laws::is_cancelled(c, id)
            &&& q.ask matches Some(id) ==> lookup(f.state.open_orders, id) is None
                && crate::tick_laws::is_cancelled(c, id)
            &&& forall|i: int| 0 <= i < c.len() ==> (#[trigger] c[i]) is CancelOrders
        }),
{
    reveal(EngineView::quoted);
    reveal(EngineView::quoted_on);
    let q = lookup(e.quoters, pair).unwrap();
    let (f, c) = e.withdraw(pair);
    stored_then_lookup(e.quoters, pair, q.reset(), pair);
    let bids = match q.bid {
        Some(id) => seq![id],
        None => Seq::empty(),
    };
    let asks = match q.ask {
        Some(id) => seq![id],
        None => Seq::empty(),
    };
    let ids = bids + asks;
    if let Some(id) = q.bid {
        assert(ids[0] == id);
        lemma_gone(e.state.open_orders, ids, id);
        assert(c[0] == CommandView::CancelOrders(ids));
    }
    if let Some(id) = q.ask {
        assert(ids[ids.len() - 1] == id);
        lemma_gone(e.state.open_orders, ids, id);
        assert(c[0] == CommandView::CancelOrders(ids));
    }
}

proof fn lemma_gone(s: Entries<TrackedOrderView>, ids: Seq<Seq<char>>, id: Seq<char>)
    requires
        distinct_keys(s),
        ids.contains(id),
    ensures
        lookup(crate::engine_model::without_all(s, ids), id) is None,
{
    let left = crate::engine_model::without_all(s, ids);
    crate::collections::lemma_slot(left, id);
    if keyed(left, id) {
        crate::engine_laws::lemma_without_all(s, ids, crate::collections::slot(left, id));
    }
}

/// A pair that is held back, or that has no book with two sides, no pair data or no quoter, is left
/// alone.
pub proof fn pairs_that_cannot_be_quoted_are_left_alone(e: EngineView, pair: Seq<char>, at: Timestamp)
    requires
        e.held_back(pair) || lookup(e.books, pair) is None || (lookup(e.books, pair).unwrap().mid()
            == Some(None::<Decimal>)),
    ensures
        e.quoted(pair, at) == Some((e, Seq::<CommandView>::empty())),
{
    reveal(EngineView::quoted);
}

/// A pair is held back if and only if it is disabled, now or for good, cools down, may only be sold
/// and is not held, or if the kill switch is triggered or the rate limit is nearly used up.
pub proof fn pairs_are_held_back_for_a_reason(e: EngineView, pair: Seq<char>)
    requires
        e.position(pair).qty.valid(),
    ensures
        keyed(e.disabled, pair) ==> e.held_back(pair),
        keyed(e.state.disabled_pairs, pair) ==> e.held_back(pair),
        keyed(e.state.cooldown_until, pair) ==> e.held_back(pair),
        e.kill_switch.triggered ==> e.held_back(pair),
        keyed(e.sell_only, pair) && units(e.position(pair).qty) <= 0 ==> e.held_back(pair),
        e.held_back(pair) ==> keyed(e.disabled, pair) || keyed(e.state.disabled_pairs, pair) || keyed(
            e.state.cooldown_until,
            pair,
        ) || e.kill_switch.triggered || (keyed(e.sell_only, pair) && units(e.position(pair).qty)
            <= 0) || crate::risk::rate_status(e.rate_limiter.counter, e.rate_limiter.max) is Block,
{
    units_have_the_sign(e.position(pair).qty);
}

/// A snapshot takes the place of a pair's book, and updates are applied to it if there is one; the
/// mid price of the new book is the latest known price. Books and prices of other pairs stay.
pub proof fn book_data_is_taken_in(
    e: EngineView,
    pair: Seq<char>,
    bids: Seq<LevelUpdate>,
    asks: Seq<LevelUpdate>,
    at: Timestamp,
    other: Seq<char>,
)
    requires
        other != pair,
    ensures
        e.on_book_snapshot(pair, bids, asks, at) matches Some((f, c)) ==> {
            let b = BookView::snapshot(bids, asks);
            &&& lookup(f.books, pair) == Some(b)
            &&& lookup(f.books, other) == lookup(e.books, other)
            &&& b.mid() matches Some(Some(m)) ==> lookup(f.prices, pair) == Some(m)
            &&& b.mid() == Some(None::<Decimal>) ==> f.prices == e.prices
            &&& lookup(f.prices, other) == lookup(e.prices, other)
        },
        e.on_book_update(pair, bids, asks, at) matches Some((f, c)) ==> {
            &&& lookup(e.books, pair) matches Some(b) ==> lookup(f.books, pair) == Some(
                b.updated(bids, asks),
            ) && (b.updated(bids, asks).mid() matches Some(Some(m)) ==> lookup(f.prices, pair) == Some(
                m,
            ))
            &&& lookup(e.books, pair) is None ==> f.books == e.books && f.prices == e.prices
            &&& lookup(f.books, other) == lookup(e.books, other)
            &&& lookup(f.prices, other) == lookup(e.prices, other)
        },
{
    reveal(EngineView::on_book_snapshot);
    reveal(EngineView::on_book_update);
    let b = BookView::snapshot(bids, asks);
    let e1 = EngineView { books: stored(e.books, pair, b), ..e };
    lemma_priced(e, pair, b, other);
    if let Some(g) = e1.priced(pair) {
        quoting_keeps_the_books(g, pair, at);
    }
    match lookup(e.books, pair) {
        Some(old) => {
            let new = old.updated(bids, asks);
            lemma_priced(e, pair, new, other);
            if let Some(g) = (EngineView { books: stored(e.books, pair, new), ..e }).priced(pair) {
                quoting_keeps_the_books(g, pair, at);
            }
        },
        None => {
            if let Some(g) = e.priced(pair) {
                quoting_keeps_the_books(g, pair, at);
            }
        },
    }
}

proof fn lemma_priced(e: EngineView, pair: Seq<char>, b: BookView, other: Seq<char>)
    requires
        other != pair,
    ensures
        (EngineView { books: stored(e.books, pair, b), ..e }).priced(pair) matches Some(g) ==> {
            &&& lookup(g.books, pair) == Some(b)
            &&& lookup(g.books, other) == lookup(e.books, other)
            &&& lookup(g.prices, other) == lookup(e.prices, other)
            &&& b.mid() matches Some(Some(m)) ==> lookup(g.prices, pair) == Some(m)
            &&& b.mid() == Some(None::<Decimal>) ==> g.prices == e.prices
        },
{
    stored_then_lookup(e.books, pair, b, pair);
    stored_then_lookup(e.books, pair, b, other);
    if let Some(Some(m)) = b.mid() {
        stored_then_lookup(e.prices, pair, m, pair);
        stored_then_lookup(e.prices, pair, m, other);
    }
}

/// Whether a liquidation can go on with a sell: it was not rejected three times, a price is known and
/// the holding is not below the minimums.
pub open spec fn can_be_sold_off(e: EngineView, pair: Seq<char>, price: Decimal, value: Decimal) -> bool {
    &&& (lookup(e.liq_retries, pair) matches Some(n) ==> n < 3)
    &&& units(e.position(pair).qty) > 0
    &&& units(price) != 0
    &&& can_sell(e, pair, value)
}

/// Once no order of a pair is left, its liquidation goes on with one market sell of the whole holding,
/// cut down to the pair's precision, at the best bid or else the last known price. It waits for a
/// price, and it ends if nothing is held or less than the minimums; only three rejections leave the
/// pair disabled.
pub proof fn liquidations_sell_what_is_held(
    e: EngineView,
    pair: Seq<char>,
    at: Timestamp,
    value: Decimal,
)
    requires
        e.position(pair).qty.valid(),
        e.reference_price(pair).valid(),
        e.min_qty(pair).valid(),
        e.min_cost(pair).valid(),
        product(e.position(pair).qty, e.reference_price(pair)) == Some(value),
        value.valid(),
        distinct_keys(e.liquidating) && distinct_keys(e.disabled),
        e.liquidation_sell(pair, at) is Some,
    ensures
        ({
            let (f, c) = e.liquidation_sell(pair, at).unwrap();
            let price = e.reference_price(pair);
            let held = e.position(pair).qty;
            let tired = lookup(e.liq_retries, pair) matches Some(n) && n >= 3;
            &&& can_be_sold_off(e, pair, price, value) ==> c.len() == 1 && (
            c[0] matches CommandView::PlaceOrder(r) && r.pair == pair && r.side == OrderSide::Sell
                && r.market && r.urgent && !r.post_only && r.price == price && cut_down(
                held,
                e.qty_decimals(pair) as nat,
                r.qty,
            ) && units(r.qty) <= units(held)) && f.liquidating == e.liquidating
            &&& !can_be_sold_off(e, pair, price, value) ==> c.len() == 0
            &&& tired ==> !keyed(f.liquidating, pair) && f.disabled == e.disabled
            &&& !tired && units(held) > 0 && units(price) == 0 ==> f == e
            &&& !tired && (units(held) <= 0 || (units(price) != 0 && !can_sell(e, pair, value)))
                ==> !keyed(f.liquidating, pair) && !keyed(f.disabled, pair)
            &&& f.state.positions == e.state.positions
        }),
{
    reveal(EngineView::liquidation_sell);
    let held = e.position(pair).qty;
    let price = e.reference_price(pair);
    units_have_the_sign(held);
    units_have_the_sign(price);
    less_is_by_units(held, e.min_qty(pair));
    less_is_by_units(value, e.min_cost(pair));
    truncation_cuts_down(held, e.qty_decimals(pair));
    if let Some(q) = crate::decimal::truncated(held, e.qty_decimals(pair)) {
        less_is_by_units(held, q);
    }
    without_then_lookup(e.liquidating, pair, pair);
    without_then_lookup(e.disabled, pair, pair);
}

/// The price a liquidation goes by is that of the best bid; without one, the last known price.
pub proof fn liquidations_go_by_the_best_bid(e: EngineView, pair: Seq<char>)
    ensures
        lookup(e.books, pair) matches Some(b) ==> (b.best_bid() matches Some(l) ==> e.reference_price(
            pair,
        ) == l.price),
        (lookup(e.books, pair) is None || lookup(e.books, pair).unwrap().best_bid() is None) ==> (lookup(
            e.prices,
            pair,
        ) matches Some(p) ==> e.reference_price(pair) == p),
{
}

/// New book data is followed by quoting its pair at once, on the new book and price, with everything
/// else as it was.
pub proof fn book_data_is_followed_by_quotes(
    e: EngineView,
    pair: Seq<char>,
    bids: Seq<LevelUpdate>,
    asks: Seq<LevelUpdate>,
    at: Timestamp,
)
    ensures
        e.on_book_snapshot(pair, bids, asks, at) matches Some(r) ==> exists|g: EngineView| #[trigger]
            g.quoted(pair, at) == Some(r) && lookup(g.books, pair) == Some(
                BookView::snapshot(bids, asks),
            ) && g == (EngineView { books: g.books, prices: g.prices, ..e }),
        e.on_book_update(pair, bids, asks, at) matches Some(r) ==> exists|g: EngineView| #[trigger]
            g.quoted(pair, at) == Some(r) && (lookup(e.books, pair) matches Some(b) ==> lookup(
                g.books,
                pair,
            ) == Some(b.updated(bids, asks))) && g == (EngineView {
                books: g.books,
                prices: g.prices,
                ..e
            }),
{
    reveal(EngineView::on_book_snapshot);
    reveal(EngineView::on_book_update);
    let b = BookView::snapshot(bids, asks);
    let e1 = EngineView { books: stored(e.books, pair, b), ..e };
    stored_then_lookup(e.books, pair, b, pair);
    if let Some(g) = e1.priced(pair) {
        assert(g == (EngineView { books: g.books, prices: g.prices, ..e }));
        assert(lookup(g.books, pair) == Some(b));
    }
    match lookup(e.books, pair) {
        Some(old) => {
            let new = old.updated(bids, asks);
            let e2 = EngineView { books: stored(e.books, pair, new), ..e };
            stored_then_lookup(e.books, pair, new, pair);
            if let Some(g) = e2.priced(pair) {
                assert(g == (EngineView { books: g.books, prices: g.prices, ..e }));
                assert(lookup(g.books, pair) == Some(new));
            }
        },
        None => {
            if let Some(g) = e.priced(pair) {
                assert(g == (EngineView { books: g.books, prices: g.prices, ..e }));
            }
        },
    }
}

/// A fill is followed by quoting its pair at once: with its order closed if it is complete, on the
/// same book, and with the holding that it leads to.
pub proof fn fills_are_followed_by_quotes(e: EngineView, fill: FillView)
    ensures
        e.on_fill(fill) matches Some((f, c)) ==> exists|g: EngineView, n: int|
            #![trigger g.quoted(fill.pair, fill.timestamp), c.skip(n)]
            g.quoted(fill.pair, fill.timestamp) == Some((f, c.skip(n))) && (n == 2 || n == 4)
                && g.books == e.books && g.prices == e.prices && g.state.positions
                == f.state.positions && g.kill_switch == f.kill_switch && g.state.open_orders == (
            if fill.is_fully_filled {
                without(e.state.open_orders, fill.cl_ord_id)
            } else {
                e.state.open_orders
            }),
{
    reveal(EngineView::on_fill);
    if let Some((f, c)) = e.on_fill(fill) {
        let (e1, pnl) = e.booked(fill).unwrap();
        assert(e1.state.open_orders == e.state.open_orders && e1.books == e.books && e1.prices
            == e.prices) by {
            reveal(EngineView::booked);
        }
        let e2 = e1.closed_by(fill);
        assert(e2.books == e1.books && e2.prices == e1.prices && e2.state.open_orders == (
        if fill.is_fully_filled {
            without(e1.state.open_orders, fill.cl_ord_id)
        } else {
            e1.state.open_orders
        })) by {
            reveal(EngineView::closed_by);
            reveal(EngineView::settle);
        }
        let e3 = EngineView {
            kill_switch: e2.kill_switch.checked(
                e2.state.realized_pnl,
                e.config.risk.kill_switch_loss_usd,
            ),
            ..e2
        };
        let (e4, more) = e3.quoted(fill.pair, fill.timestamp).unwrap();
        quoting_keeps_the_books(e3, fill.pair, fill.timestamp);
        let n = c.len() - more.len();
        assert(n == 2 || n == 4);
        assert(c.skip(n) =~= more);
    }
}

} // verus!
