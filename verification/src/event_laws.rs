//! What acknowledgements, cancellations, rejections, fills and requests do to orders and quoters.
use crate::collections::{
    distinct_keys, keyed, keys_of, lemma_slot, lookup, slot, stored, stored_then_lookup, without,
    without_then_lookup, Entries,
};
use crate::config::Config;
use crate::decimal::Decimal;
use crate::engine::until_shutdown;
use crate::engine_laws::{lemma_ids_where, lemma_ids_where_empty, lemma_without_all};
use crate::engine_model::{
    ids_where, liquidation_of_pair, of_pair, plain_of_pair, EngineView,
};
use crate::events::{ApiAction, CommandView, EngineEvent, StateStoreAction};
use crate::position::positive;
use crate::quoter::QuoterView;
use crate::state::{BotStateView, TrackedOrderView};
use crate::text::{begins_with, occurs_in};
use crate::tick_laws::{is_cancelled, is_not_quoted, none_of};
use crate::time::Timestamp;
use crate::types::{FillView, OrderSide, PairInfoView};
use vstd::prelude::*;

verus! {

/// A filled bid is no longer quoted, and the ask stays as it is; with the ask out the pair waits for
/// it to be sold, unless it is not acknowledged yet, and without it the pair is idle.
pub proof fn filled_bids_leave_the_ask(q: QuoterView)
    ensures
        ({
            let r = q.bid_filled();
            &&& r.bid is None && r.ask == q.ask
            &&& r.last_mid == q.last_mid && r.pair == q.pair
            &&& r.state is Idle <==> q.ask is None
            &&& q.ask is Some && q.state is Pending ==> r.state is Pending
            &&& q.ask is Some && !(q.state is Pending) ==> r.state is BidFilled
        }),
{
}

/// A filled ask is no longer quoted, and the bid stays as it is; with the bid out the pair waits for
/// it to be bought, unless it is not acknowledged yet, and without it the pair is idle.
pub proof fn filled_asks_leave_the_bid(q: QuoterView)
    ensures
        ({
            let r = q.ask_filled();
            &&& r.ask is None && r.bid == q.bid
            &&& r.last_mid == q.last_mid && r.pair == q.pair
            &&& r.state is Idle <==> q.bid is None
            &&& q.bid is Some && q.state is Pending ==> r.state is Pending
            &&& q.bid is Some && !(q.state is Pending) ==> r.state is AskFilled
        }),
{
}

/// A cancelled order is no longer quoted, and the other one stays; with no order left the pair is
/// idle and has no reference price.
pub proof fn cancelled_orders_leave_the_other(q: QuoterView, id: Seq<char>)
    ensures
        ({
            let r = q.cancelled(id);
            &&& r.bid != Some(id) && r.ask != Some(id)
            &&& q.bid != Some(id) ==> r.bid == q.bid
            &&& q.ask != Some(id) ==> r.ask == q.ask
            &&& r.bid is None && r.ask is None ==> r.state is Idle && r.last_mid is None
            &&& r.bid is Some || r.ask is Some ==> r.state == q.state && r.last_mid == q.last_mid
        }),
{
}

/// A pair waits until all its orders are acknowledged, and is then quoted on the sides that have one;
/// a pair that does not wait is not touched.
pub proof fn waiting_ends_with_acknowledgement(q: QuoterView, all_acked: bool)
    ensures
        ({
            let r = q.settled(all_acked);
            &&& r.bid == q.bid && r.ask == q.ask && r.last_mid == q.last_mid
            &&& !(q.state is Pending) || !all_acked ==> r == q
            &&& q.state is Pending && all_acked ==> {
                &&& r.state is Quoting <==> q.bid is Some && q.ask is Some
                &&& r.state is AskFilled <==> q.bid is Some && q.ask is None
                &&& r.state is BidFilled <==> q.bid is None && q.ask is Some
                &&& r.state is Idle <==> q.bid is None && q.ask is None
            }
        }),
{
}

/// A pair with new orders waits, and refers to both of them, to the mid price and to the time.
pub proof fn new_quotes_are_waited_for(
    q: QuoterView,
    mid: Decimal,
    bid: Seq<char>,
    ask: Seq<char>,
    at: Timestamp,
)
    ensures
        ({
            let r = q.pending(mid, bid, ask, at);
            &&& r.state is Pending
            &&& r.bid == Some(bid) && r.ask == Some(ask)
            &&& r.last_mid == Some(mid) && r.last_quote_time == Some(at)
            &&& r.pair == q.pair
        }),
        q.reset().state is Idle && q.reset().bid is None && q.reset().ask is None
            && q.reset().last_mid is None && q.reset().pair == q.pair,
{
}

proof fn lemma_settle(e: EngineView, pair: Seq<char>)
    ensures
        e.settle(pair).state == e.state,
        e.settle(pair).disabled == e.disabled,
        e.settle(pair).liq_retries == e.liq_retries,
        e.settle(pair).liquidating == e.liquidating,
        lookup(e.quoters, pair) is None ==> e.settle(pair) == e,
        lookup(e.quoters, pair) matches Some(q) ==> (lookup(e.settle(pair).quoters, pair) matches Some(
            r,
        ) && r.bid == q.bid && r.ask == q.ask),
        forall|k: Seq<char>|
            k != pair ==> #[trigger] lookup(e.settle(pair).quoters, k) == lookup(e.quoters, k),
{
    reveal(EngineView::settle);
    if let Some(q) = lookup(e.quoters, pair) {
        let r = q.settled(e.acked(q.bid) && e.acked(q.ask));
        stored_then_lookup(e.quoters, pair, r, pair);
        assert forall|k: Seq<char>| k != pair implies #[trigger] lookup(e.settle(pair).quoters, k)
            == lookup(e.quoters, k) by {
            stored_then_lookup(e.quoters, pair, r, k);
        }
    }
}

/// An acknowledged order is marked as such; its price and quantity, and all other orders, stay as
/// they are. Nothing happens if the order is not tracked.
pub proof fn acknowledgements_mark_one_order(e: EngineView, id: Seq<char>, other: Seq<char>)
    requires
        other != id,
    ensures
        ({
            let f = e.on_ack(id);
            let before = lookup(e.state.open_orders, id);
            let after = lookup(f.state.open_orders, id);
            &&& before is None ==> f == e
            &&& before matches Some(o) ==> after == Some(TrackedOrderView { acked: true, ..o })
            &&& lookup(f.state.open_orders, other) == lookup(e.state.open_orders, other)
            &&& f.state.positions == e.state.positions
        }),
{
    if let Some(o) = lookup(e.state.open_orders, id) {
        let marked = TrackedOrderView { acked: true, ..o };
        stored_then_lookup(e.state.open_orders, id, marked, id);
        stored_then_lookup(e.state.open_orders, id, marked, other);
        lemma_settle(e.with_orders(stored(e.state.open_orders, id, marked)), o.pair);
    }
}

/// An order that is gone is no longer tracked, and the quoter of its pair does not refer to it any
/// more; all other orders and quoters stay as they are.
pub proof fn gone_orders_are_forgotten(
    e: EngineView,
    id: Seq<char>,
    pair: Seq<char>,
    other: Seq<char>,
    other_pair: Seq<char>,
)
    requires
        distinct_keys(e.state.open_orders),
        other != id,
        other_pair != pair,
    ensures
        ({
            let f = e.order_gone(id, pair);
            &&& lookup(f.state.open_orders, id) is None
            &&& lookup(f.state.open_orders, other) == lookup(e.state.open_orders, other)
            &&& lookup(f.quoters, other_pair) == lookup(e.quoters, other_pair)
            &&& lookup(f.quoters, pair) is Some <==> lookup(e.quoters, pair) is Some
            &&& lookup(f.quoters, pair) matches Some(q) ==> q.bid != Some(id) && q.ask != Some(id)
            &&& f.state.positions == e.state.positions
            &&& f.disabled == e.disabled
            &&& f.liq_retries == e.liq_retries
            &&& f.liquidating == e.liquidating
        }),
{
    reveal(EngineView::order_gone);
    without_then_lookup(e.state.open_orders, id, id);
    without_then_lookup(e.state.open_orders, id, other);
    let e1 = e.with_orders(without(e.state.open_orders, id));
    let e2 = match lookup(e1.quoters, pair) {
        Some(q) => e1.with_quoter(pair, q.cancelled(id)),
        None => e1,
    };
    if let Some(q) = lookup(e.quoters, pair) {
        stored_then_lookup(e.quoters, pair, q.cancelled(id), pair);
        stored_then_lookup(e.quoters, pair, q.cancelled(id), other_pair);
    }
    lemma_settle(e2, pair);
}

/// A rejected order is no longer tracked. If the reason is that the pair may not be traded, the pair
/// is shut off from quoting and its quotes are withdrawn; the rejection of a liquidation sell is
/// counted; a rejection for any other reason does nothing else.
pub proof fn rejections_are_heeded(e: EngineView, id: Seq<char>, named: Seq<char>, reason: Seq<char>)
    requires
        distinct_keys(e.state.open_orders),
        e.on_reject(id, named, reason) is Some,
    ensures
        ({
            let (f, c) = e.on_reject(id, named, reason).unwrap();
            let pair = if named.len() > 0 {
                named
            } else {
                match lookup(e.state.open_orders, id) {
                    Some(o) => o.pair,
                    None => Seq::empty(),
                }
            };
            let barred = occurs_in("restricted"@, reason) || occurs_in(
                "Invalid permissions"@,
                reason,
            );
            let tries = match lookup(e.liq_retries, pair) {
                Some(n) => n as int,
                None => 0,
            };
            &&& lookup(f.state.open_orders, id) is None
            &&& barred ==> keyed(f.disabled, pair)
            &&& barred ==> (lookup(e.quoters, pair) matches Some(q) ==> (q.bid matches Some(b)
                ==> is_cancelled(c, b)) && (q.ask matches Some(a) ==> is_cancelled(c, a)))
            &&& !barred ==> c.len() == 0 && f.disabled == e.disabled
            &&& !barred && begins_with(id, "liq"@) ==> (lookup(f.liq_retries, pair) matches Some(n)
                && n == tries + 1)
            &&& barred || !begins_with(id, "liq"@) ==> f.liq_retries == e.liq_retries
            &&& f.state.positions == e.state.positions
        }),
{
    reveal(EngineView::on_reject);
    let pair = e.rejected_pair(id, named);
    let other: Seq<char> = id.push('x');
    let other_pair: Seq<char> = pair.push('x');
    assert(other.len() != id.len() && other_pair.len() != pair.len());
    if EngineView::restricted(reason) {
        let off = EngineView { disabled: stored(e.disabled, pair, ()), ..e };
        stored_then_lookup(e.disabled, pair, (), pair);
        let (e1, c) = off.withdraw(pair);
        if let Some(q) = lookup(e.quoters, pair) {
            let bids = match q.bid {
                Some(b) => seq![b],
                None => Seq::empty(),
            };
            let asks = match q.ask {
                Some(a) => seq![a],
                None => Seq::empty(),
            };
            let ids = bids + asks;
            crate::engine_laws::lemma_without_all_distinct(e.state.open_orders, ids);
            if let Some(b) = q.bid {
                assert(ids[0] == b);
                assert(c[0] == CommandView::CancelOrders(ids));
            }
            if let Some(a) = q.ask {
                assert(ids[ids.len() - 1] == a);
                assert(c[0] == CommandView::CancelOrders(ids));
            }
        }
        gone_orders_are_forgotten(e1, id, pair, other, other_pair);
    } else if begins_with(id, "liq"@) {
        let e1 = e.retry_counted(pair).unwrap();
        let n = match lookup(e.liq_retries, pair) {
            Some(n) => n,
            None => 0,
        };
        stored_then_lookup(e.liq_retries, pair, (n + 1) as u32, pair);
        gone_orders_are_forgotten(e1, id, pair, other, other_pair);
    } else {
        gone_orders_are_forgotten(e, id, pair, other, other_pair);
    }
}

/// The order of a complete fill is no longer tracked and its side is no longer quoted; the order of a
/// partial one stays. All other orders stay either way, and so does the other side.
pub proof fn complete_fills_close_their_order(
    e: EngineView,
    fill: FillView,
    other: Seq<char>,
)
    requires
        distinct_keys(e.state.open_orders),
        other != fill.cl_ord_id,
    ensures
        ({
            let f = e.closed_by(fill);
            let id = fill.cl_ord_id;
            &&& fill.is_fully_filled ==> lookup(f.state.open_orders, id) is None
            &&& !fill.is_fully_filled ==> f == e
            &&& lookup(f.state.open_orders, other) == lookup(e.state.open_orders, other)
            &&& fill.is_fully_filled ==> (lookup(e.quoters, fill.pair) matches Some(q) ==> (lookup(
                f.quoters,
                fill.pair,
            ) matches Some(r) && match fill.side {
                OrderSide::Buy => r.bid is None && r.ask == q.ask,
                OrderSide::Sell => r.ask is None && r.bid == q.bid,
            }))
        }),
{
    reveal(EngineView::closed_by);
    without_then_lookup(e.state.open_orders, fill.cl_ord_id, fill.cl_ord_id);
    without_then_lookup(e.state.open_orders, fill.cl_ord_id, other);
    if fill.is_fully_filled {
        let e1 = e.with_orders(without(e.state.open_orders, fill.cl_ord_id));
        if let Some(q) = lookup(e.quoters, fill.pair) {
            let r = match fill.side {
                OrderSide::Buy => q.bid_filled(),
                OrderSide::Sell => q.ask_filled(),
            };
            stored_then_lookup(e.quoters, fill.pair, r, fill.pair);
            lemma_settle(e1.with_quoter(fill.pair, r), fill.pair);
        } else {
            lemma_settle(e1, fill.pair);
        }
    }
}

/// A fill closes its order at once: with a pair that is not quoted again, a complete fill leaves all
/// orders but its own, and a partial one leaves all.
pub proof fn fills_close_their_order(e: EngineView, fill: FillView, id: Seq<char>)
    requires
        distinct_keys(e.state.open_orders),
        keyed(e.state.disabled_pairs, fill.pair),
        e.on_fill(fill) is Some,
    ensures
        ({
            let f = e.on_fill(fill).unwrap().0;
            lookup(f.state.open_orders, id) == (if fill.is_fully_filled && id == fill.cl_ord_id {
                None
            } else {
                lookup(e.state.open_orders, id)
            })
        }),
{
    reveal(EngineView::on_fill);
    reveal(EngineView::quoted);
    let (e1, pnl) = e.booked(fill).unwrap();
    assert(e1.state.open_orders == e.state.open_orders && e1.state.disabled_pairs
        == e.state.disabled_pairs) by {
        reveal(EngineView::booked);
    }
    let e2 = e1.closed_by(fill);
    let far: Seq<char> = fill.cl_ord_id.push('x');
    assert(far.len() != fill.cl_ord_id.len());
    complete_fills_close_their_order(
        e1,
        fill,
        if id != fill.cl_ord_id {
            id
        } else {
            far
        },
    );
    crate::engine_laws::lemma_closed_keeps(e1, fill);
    assert(e2.state.disabled_pairs == e1.state.disabled_pairs) by {
        reveal(EngineView::closed_by);
        reveal(EngineView::settle);
    }
}

/// A pair that is being liquidated and whose holding a sale has used up is no longer being
/// liquidated: it cools down for the configured time and is then free again. A sale that leaves some
/// of it, or a pair that is not being liquidated, starts no cooldown.
pub proof fn sold_off_pairs_cool_down(e: EngineView, fill: FillView)
    requires
        fill.side == OrderSide::Sell,
        distinct_keys(e.liquidating),
        distinct_keys(e.disabled),
        distinct_keys(e.state.positions),
        e.booked(fill) is Some,
    ensures
        ({
            let f = e.booked(fill).unwrap().0;
            let left = lookup(f.state.positions, fill.pair);
            let end = crate::time::later_by(
                fill.timestamp,
                e.config.risk.cooldown_after_liquidation_secs,
            );
            &&& left is None && keyed(e.liquidating, fill.pair) ==> !keyed(f.liquidating, fill.pair)
                && !keyed(f.disabled, fill.pair) && lookup(f.state.cooldown_until, fill.pair) == end
                && end is Some
            &&& left is Some || !keyed(e.liquidating, fill.pair) ==> f.liquidating == e.liquidating
                && f.disabled == e.disabled && f.state.cooldown_until == e.state.cooldown_until
        }),
{
    reveal(EngineView::booked);
    let f = e.booked(fill).unwrap().0;
    let held = e.position(fill.pair);
    let p = crate::position::sold(held, fill.qty).unwrap();
    stored_then_lookup(e.state.positions, fill.pair, p, fill.pair);
    without_then_lookup(e.state.positions, fill.pair, fill.pair);
    without_then_lookup(e.liquidating, fill.pair, fill.pair);
    without_then_lookup(e.disabled, fill.pair, fill.pair);
    if let Some(end) = e.cooldown_end(fill.timestamp) {
        stored_then_lookup(e.state.cooldown_until, fill.pair, end, fill.pair);
    }
}

/// Shutting down on request cancels everything, saves the state and stops; no order is tracked any
/// more, and what is held stays on the books.
pub proof fn shutdown_leaves_nothing_open(e: EngineView, i: int)
    requires
        0 <= i < e.quoters.len(),
    ensures
        ({
            let (f, c) = e.on_api(ApiAction::Shutdown);
            &&& f.state.open_orders.len() == 0
            &&& f.quoters[i].0 == e.quoters[i].0
            &&& f.quoters[i].1.state is Idle && f.quoters[i].1.bid is None && f.quoters[i].1.ask is None
            &&& f.state.positions == e.state.positions
            &&& c.len() == 3 && c[0] is CancelAll && c[1] == CommandView::PersistState(f.state)
            &&& c[2] is Shutdown
        }),
{
}

/// An order that is cancelled on request is no longer tracked, a cancellation for it goes out, and no
/// other order is touched.
pub proof fn requested_cancels_hit_one_order(e: EngineView, cl_ord_id: String, other: Seq<char>)
    requires
        distinct_keys(e.state.open_orders),
        other != cl_ord_id@,
    ensures
        ({
            let (f, c) = e.on_api(ApiAction::CancelOrder { cl_ord_id });
            &&& c == seq![CommandView::CancelOrders(seq![cl_ord_id@])]
            &&& lookup(f.state.open_orders, cl_ord_id@) is None
            &&& lookup(f.state.open_orders, other) == lookup(e.state.open_orders, other)
        }),
{
    without_then_lookup(e.state.open_orders, cl_ord_id@, cl_ord_id@);
    without_then_lookup(e.state.open_orders, cl_ord_id@, other);
}

/// A disabled pair has no tracked order left, each that it had is cancelled, and it is barred from
/// quoting now and after a restart. The orders of other pairs stay. The same goes for a pair that the
/// state store removes.
pub proof fn disabled_pairs_have_no_orders(e: EngineView, pair: String, id: Seq<char>)
    requires
        distinct_keys(e.state.open_orders),
    ensures
        ({
            let (f, c) = e.on_api(ApiAction::DisablePair { pair });
            let before = lookup(e.state.open_orders, id);
            &&& keyed(f.disabled, pair@) && keyed(f.state.disabled_pairs, pair@)
            &&& none_of(f.state.open_orders, pair@)
            &&& (before matches Some(o) && o.pair == pair@) ==> is_cancelled(c, id)
            &&& (before matches Some(o) && o.pair != pair@) ==> lookup(f.state.open_orders, id)
                == before
            &&& e.on_state_store(StateStoreAction::PairRemoved { pair }) == (f, c)
        }),
{
    let p = pair@;
    let orders = e.state.open_orders;
    let ids = ids_where(orders, of_pair(p));
    stored_then_lookup(e.disabled, p, (), p);
    stored_then_lookup(e.state.disabled_pairs, p, (), p);
    let (f, c) = e.disable(p);
    let left = f.state.open_orders;
    assert forall|j: int| 0 <= j < left.len() implies (#[trigger] left[j]).1.pair != p by {
        crate::engine_laws::lemma_without_all(orders, ids, j);
        let i = choose|i: int| 0 <= i < orders.len() && orders[i] == left[j];
        if orders[i].1.pair == p {
            crate::engine_laws::lemma_ids_where(orders, of_pair(p), i);
        }
    }
    if let Some(o) = lookup(orders, id) {
        lemma_slot(orders, id);
        if o.pair == p {
            crate::engine_laws::lemma_ids_where(orders, of_pair(p), slot(orders, id));
            assert(c[0] == CommandView::CancelOrders(ids));
        } else {
            crate::tick_laws::lemma_kept_order(orders, of_pair(p), id);
        }
    }
}

/// A removed pair is barred from quoting for good; what is held of it is liquidated.
pub proof fn removed_pairs_are_sold_off(e: EngineView, pair: String)
    requires
        distinct_keys(e.state.open_orders),
    ensures
        ({
            let f = e.on_api(ApiAction::RemovePair { pair }).0;
            &&& keyed(f.disabled, pair@) && keyed(f.state.disabled_pairs, pair@)
            &&& positive(e.position(pair@).qty) ==> keyed(f.liquidating, pair@)
            &&& !positive(e.position(pair@).qty) ==> f.liquidating == e.liquidating && none_of(
                f.state.open_orders,
                pair@,
            )
            &&& e.on_api(ApiAction::Liquidate { pair }).0.state.positions == e.state.positions
            &&& positive(e.position(pair@).qty) ==> keyed(
                e.on_api(ApiAction::Liquidate { pair }).0.liquidating,
                pair@,
            )
        }),
{
    let p = pair@;
    let f1 = e.liquidate(p).0;
    stored_then_lookup(e.liquidating, p, (), p);
    stored_then_lookup(f1.disabled, p, (), p);
    stored_then_lookup(f1.state.disabled_pairs, p, (), p);
    disabled_pairs_have_no_orders(e, pair, Seq::empty());
}

/// A pair that is added has a quoter: the one it had, or an idle one; other pairs keep theirs.
pub proof fn added_pairs_have_quoters(e: EngineView, pair: String, other: Seq<char>)
    requires
        other != pair@,
    ensures
        ({
            let (f, c) = e.on_api(ApiAction::AddPair { pair });
            &&& c.len() == 0
            &&& keyed(e.quoters, pair@) ==> f == e
            &&& !keyed(e.quoters, pair@) ==> (lookup(f.quoters, pair@) matches Some(q) && q.state is Idle
                && q.bid is None && q.ask is None && q.pair == pair@)
            &&& lookup(f.quoters, other) == lookup(e.quoters, other)
        }),
{
    stored_then_lookup(e.quoters, pair@, QuoterView::idle(pair@), pair@);
    stored_then_lookup(e.quoters, pair@, QuoterView::idle(pair@), other);
}

/// Pair data that becomes known is known from then on, the last of a pair if there are several, and
/// each pair it is about has a quoter; what is known of other pairs stays.
pub proof fn pair_data_becomes_known(e: EngineView, info: Entries<PairInfoView>, k: Seq<char>)
    ensures
        ({
            let f = e.informed(info);
            &&& keyed(e.quoters, k) ==> lookup(f.quoters, k) == lookup(e.quoters, k)
            &&& distinct_keys(info) && keyed(info, k) ==> lookup(f.pair_info, k) == lookup(info, k)
            &&& keyed(info, k) ==> keyed(f.quoters, k)
            &&& !keyed(info, k) ==> lookup(f.pair_info, k) == lookup(e.pair_info, k)
        }),
    decreases info.len(),
{
    lemma_slot(info, k);
    if info.len() > 0 {
        let front = info.drop_last();
        let last = info.len() - 1;
        let (p, i) = info.last();
        let e1 = e.informed(front);
        pair_data_becomes_known(e, front, k);
        stored_then_lookup(e1.pair_info, p, i, k);
        let e2 = EngineView { pair_info: stored(e1.pair_info, p, i), ..e1 };
        stored_then_lookup(e2.quoters, p, QuoterView::idle(p), k);
        lemma_slot(front, k);
        assert(info[last] == (p, i));
        if distinct_keys(info) {
            assert(distinct_keys(front)) by {
                assert forall|a: int, b: int| 0 <= a < b < front.len() implies front[a].0
                    != front[b].0 by {
                    assert(info[a].0 != info[b].0);
                }
            }
        }
        if keyed(front, k) {
            let s = slot(front, k);
            assert(info[s] == front[s]);
            crate::collections::lemma_keyed(info, k, s);
            if distinct_keys(info) {
                assert(info[s].0 != info[last].0);
            }
        } else if p == k {
            crate::collections::lemma_keyed(info, k, last);
        } else if keyed(info, k) {
            assert(front[slot(info, k)].0 != k);
        }
    }
}

/// Each event reaches its own part of the engine: an acknowledged order is marked, a cancelled one
/// forgotten, balances correct holdings, and pair data becomes known, all without a command.
pub proof fn news_are_taken_in_silently(e: EngineEvent, s: EngineView)
    requires
        e is OrderAcknowledged || e is OrderCancelled || e is PairInfoFetched || e is BalanceUpdate,
    ensures
        s.on_event(e) matches Some((f, c)) && c.len() == 0 && f.config == s.config && f.books == s.books
            && f.liquidating == s.liquidating && f.sell_only == s.sell_only,
{
    reveal(EngineView::order_gone);
    reveal(EngineView::settle);
    if let EngineEvent::PairInfoFetched { info } = e {
        lemma_informed_keeps(s, info@);
    }
}

proof fn lemma_informed_keeps(e: EngineView, info: Entries<PairInfoView>)
    ensures
        e.informed(info).config == e.config,
        e.informed(info).books == e.books,
        e.informed(info).liquidating == e.liquidating,
        e.informed(info).sell_only == e.sell_only,
    decreases info.len(),
{
    if info.len() > 0 {
        lemma_informed_keeps(e, info.drop_last());
    }
}

/// What is carried out of a list of commands is all of it up to the first shutdown, that one
/// included, and all of it if there is none.
pub proof fn nothing_follows_a_shutdown(c: Seq<CommandView>)
    ensures
        ({
            let done = until_shutdown(c);
            &&& done.len() <= c.len()
            &&& done == c.take(done.len() as int)
            &&& forall|i: int| 0 <= i < done.len() - 1 ==> !(#[trigger] done[i] is Shutdown)
            &&& done.len() < c.len() ==> done.len() > 0 && done.last() is Shutdown
        }),
    decreases c.len(),
{
    let done = until_shutdown(c);
    if c.len() > 0 {
        let t = c.drop_first();
        nothing_follows_a_shutdown(t);
        let rest = until_shutdown(t);
        if c[0] is Shutdown {
            assert(done =~= c.take(1));
        } else {
            assert(done =~= seq![c[0]] + rest);
            assert(done =~= c.take(done.len() as int)) by {
                assert forall|i: int| 0 <= i < done.len() implies done[i] == c[i] by {
                    if i > 0 {
                        assert(rest[i - 1] == t.take(rest.len() as int)[i - 1]);
                    }
                }
            }
            assert forall|i: int| 0 <= i < done.len() - 1 implies !(#[trigger] done[i] is Shutdown) by {
                if i > 0 {
                    assert(done[i] == rest[i - 1]);
                }
            }
        }
    } else {
        assert(done =~= c.take(0));
    }
}

/// At the start nothing is quoted, and nothing is known but the pairs, the configuration and what was
/// saved: every pair has an idle quoter, the kill switch has not fired, and the rate limit is unused.
pub proof fn engines_start_idle(
    config: Config,
    pair_info: Entries<PairInfoView>,
    state: BotStateView,
    i: int,
)
    requires
        0 <= i < pair_info.len(),
    ensures
        ({
            let e = EngineView::start(config, pair_info, state);
            &&& e.config == config && e.pair_info == pair_info && e.state == state
            &&& e.books.len() == 0 && e.prices.len() == 0
            &&& e.disabled.len() == 0 && e.sell_only.len() == 0 && e.liquidating.len() == 0
            &&& e.quoters.len() == pair_info.len()
            &&& e.quoters[i].0 == pair_info[i].0 && e.quoters[i].1.pair == pair_info[i].0
            &&& e.quoters[i].1.state is Idle && e.quoters[i].1.bid is None && e.quoters[i].1.ask is None
            &&& !e.kill_switch.triggered
            &&& e.rate_limiter.counter.m() == 0 && e.rate_limiter.max
                == config.risk.rate_limit_max_counter
            &&& e.last_dms is None && e.counter == 0
        }),
{
    crate::decimal::lemma_of(0, 0);
}

/// A liquidation waits while one of its sells is out; otherwise it first cancels all other orders of
/// the pair, and sells only once there are none.
pub proof fn liquidations_cancel_before_they_sell(e: EngineView, pair: Seq<char>, at: Timestamp)
    requires
        distinct_keys(e.state.open_orders),
    ensures
        ({
            let orders = e.state.open_orders;
            let selling = exists|i: int|
                0 <= i < orders.len() && (#[trigger] orders[i]).1.pair == pair && begins_with(
                    orders[i].1.cl_ord_id,
                    "liq"@,
                );
            &&& selling ==> e.liquidation_step(pair, at) == Some((e, Seq::<CommandView>::empty()))
            &&& !selling && none_of(orders, pair) ==> e.liquidation_step(pair, at)
                == e.liquidation_sell(pair, at)
            &&& !selling && !none_of(orders, pair) ==> (e.liquidation_step(pair, at) matches Some(
                (f, c),
            ) && none_of(f.state.open_orders, pair) && f.liquidating == e.liquidating && forall|i: int|
                0 <= i < orders.len() && (#[trigger] orders[i]).1.pair == pair ==> is_cancelled(
                    c,
                    orders[i].0,
                ))
        }),
{
    reveal(EngineView::liquidation_step);
    let orders = e.state.open_orders;
    let out = liquidation_of_pair(pair);
    let plain = plain_of_pair(pair);
    let left = ids_where(orders, plain);
    if exists|i: int|
        0 <= i < orders.len() && (#[trigger] orders[i]).1.pair == pair && begins_with(
            orders[i].1.cl_ord_id,
            "liq"@,
        ) {
        let i = choose|i: int|
            0 <= i < orders.len() && (#[trigger] orders[i]).1.pair == pair && begins_with(
                orders[i].1.cl_ord_id,
                "liq"@,
            );
        lemma_ids_where(orders, out, i);
    } else {
        assert forall|i: int| 0 <= i < orders.len() implies !out(#[trigger] orders[i].1) by {
            let o = orders[i].1;
            assert(out(o) == (o.pair == pair && crate::engine_model::is_liquidation(o)));
        }
        lemma_ids_where_empty(orders, out);
        if none_of(orders, pair) {
            assert forall|i: int| 0 <= i < orders.len() implies !plain(#[trigger] orders[i].1) by {
                assert(orders[i].1.pair != pair);
            }
            lemma_ids_where_empty(orders, plain);
        } else {
            let j = choose|j: int| 0 <= j < orders.len() && (#[trigger] orders[j]).1.pair == pair;
            assert(plain(orders[j].1));
            lemma_ids_where(orders, plain, j);
            let after = crate::engine_model::without_all(orders, left);
            assert forall|k: int| 0 <= k < after.len() implies (#[trigger] after[k]).1.pair != pair by {
                lemma_without_all(orders, left, k);
                let i = choose|i: int| 0 <= i < orders.len() && orders[i] == after[k];
                if orders[i].1.pair == pair {
                    assert(plain(orders[i].1));
                    lemma_ids_where(orders, plain, i);
                }
            }
            let c = crate::engine_model::cancel(left);
            assert forall|i: int|
                0 <= i < orders.len() && (#[trigger] orders[i]).1.pair == pair implies is_cancelled(
                c,
                orders[i].0,
            ) by {
                assert(plain(orders[i].1));
                lemma_ids_where(orders, plain, i);
                assert(c[0] == CommandView::CancelOrders(left));
            }
        }
    }
}

/// A tick goes on with every liquidation that is running: its commands begin with those of the
/// liquidation steps of the pairs that are being liquidated, one after the other.
pub proof fn ticks_go_on_with_liquidations(e: EngineView, at: Timestamp, pair: Seq<char>)
    requires
        e.on_tick(at) is Some,
        e.liquidating == seq![(pair, ())],
    ensures
        ({
            let c = e.on_tick(at).unwrap().1;
            e.thawed(at).liquidation_step(pair, at) matches Some((f, first)) && first.len() <= c.len()
                && c.take(first.len() as int) == first
        }),
{
    reveal(EngineView::on_tick);
    let e0 = e.thawed(at);
    let pairs = keys_of(e0.liquidating);
    assert(pairs =~= seq![pair]);
    let none = pairs.drop_last();
    assert(none.len() == 0);
    let (e1, c1) = e0.liquidation_steps(none, at).unwrap();
    let (e2, c2) = e1.liquidation_step(pairs.last(), at).unwrap();
    assert(c1 + c2 =~= c2);
    let c = e.on_tick(at).unwrap().1;
    assert(c.take(c2.len() as int) =~= c2);
}

/// Every event reaches the part of the engine that it concerns, with all that it says.
pub proof fn events_reach_their_part(e: EngineView, event: EngineEvent)
    ensures
        event matches EngineEvent::BookSnapshot { pair, bids, asks, timestamp } ==> e.on_event(event)
            == e.on_book_snapshot(pair@, bids@, asks@, timestamp),
        event matches EngineEvent::BookUpdate { pair, bid_updates, ask_updates, timestamp }
            ==> e.on_event(event) == e.on_book_update(pair@, bid_updates@, ask_updates@, timestamp),
        event matches EngineEvent::Fill(fill) ==> e.on_event(event) == e.on_fill(fill@),
        event matches EngineEvent::OrderAcknowledged { cl_ord_id, order_id } ==> (e.on_event(
            event,
        ) matches Some((f, c)) && f == e.on_ack(cl_ord_id@)),
        event matches EngineEvent::OrderCancelled { cl_ord_id, pair, reason } ==> (e.on_event(
            event,
        ) matches Some((f, c)) && f == e.order_gone(cl_ord_id@, pair@)),
        event matches EngineEvent::OrderRejected { cl_ord_id, pair, reason } ==> e.on_event(event)
            == e.on_reject(cl_ord_id@, pair@, reason@),
        event matches EngineEvent::Tick { timestamp } ==> e.on_event(event) == e.on_tick(timestamp),
        event matches EngineEvent::ApiCommand(action) ==> e.on_event(event) == Some(
            e.on_api(action),
        ),
        event matches EngineEvent::StateStoreCommand(action) ==> e.on_event(event) == Some(
            e.on_state_store(action),
        ),
        event matches EngineEvent::PairInfoFetched { info } ==> (e.on_event(event) matches Some((f, c))
            && f == e.informed(info@)),
        event matches EngineEvent::BalanceUpdate { balances } ==> (e.on_event(event) matches Some(
            (f, c),
        ) && f == e.on_balances(balances@)),
{
}

/// Whether a pair waits only while one of its orders is not acknowledged.
pub open spec fn waits_for_a_reason(e: EngineView, pair: Seq<char>) -> bool {
    lookup(e.quoters, pair) matches Some(q) ==> (q.state is Pending ==> {
        ||| q.bid matches Some(id) && !(lookup(e.state.open_orders, id) matches Some(o) && o.acked)
        ||| q.ask matches Some(id) && !(lookup(e.state.open_orders, id) matches Some(o) && o.acked)
    })
}

proof fn lemma_settled(e: EngineView, pair: Seq<char>)
    ensures
        waits_for_a_reason(e.settle(pair), pair),
{
    reveal(EngineView::settle);
    if let Some(q) = lookup(e.quoters, pair) {
        let r = q.settled(e.acked(q.bid) && e.acked(q.ask));
        stored_then_lookup(e.quoters, pair, r, pair);
    }
}

/// A pair stops waiting as soon as nothing keeps it: after an acknowledgement, after an order is gone
/// and after a complete fill, it waits only if one of its orders is not acknowledged.
pub proof fn pairs_wait_for_a_reason(e: EngineView, id: Seq<char>, pair: Seq<char>, fill: FillView)
    ensures
        lookup(e.state.open_orders, id) matches Some(o) ==> waits_for_a_reason(e.on_ack(id), o.pair),
        waits_for_a_reason(e.order_gone(id, pair), pair),
        fill.is_fully_filled ==> waits_for_a_reason(e.closed_by(fill), fill.pair),
{
    reveal(EngineView::order_gone);
    reveal(EngineView::closed_by);
    if let Some(o) = lookup(e.state.open_orders, id) {
        lemma_settled(
            e.with_orders(
                stored(e.state.open_orders, id, TrackedOrderView { acked: true, ..o }),
            ),
            o.pair,
        );
    }
    let e1 = e.with_orders(without(e.state.open_orders, id));
    let e2 = match lookup(e1.quoters, pair) {
        Some(q) => e1.with_quoter(pair, q.cancelled(id)),
        None => e1,
    };
    lemma_settled(e2, pair);
    if fill.is_fully_filled {
        let f1 = e.with_orders(without(e.state.open_orders, fill.cl_ord_id));
        let f2 = match lookup(f1.quoters, fill.pair) {
            Some(q) => f1.with_quoter(
                fill.pair,
                match fill.side {
                    OrderSide::Buy => q.bid_filled(),
                    OrderSide::Sell => q.ask_filled(),
                },
            ),
            None => f1,
        };
        lemma_settled(f2, fill.pair);
    }
}

/// A pair that is disabled, removed or liquidated is not quoted any more, and neither is an order that
/// is cancelled on request.
pub proof fn stopped_pairs_are_not_quoted(e: EngineView, pair: String, cl_ord_id: String)
    requires
        keyed(e.quoters, pair@),
    ensures
        lookup(e.on_api(ApiAction::DisablePair { pair }).0.quoters, pair@) matches Some(q)
            && q.state is Idle && q.bid is None && q.ask is None,
        positive(e.position(pair@).qty) && !keyed(e.liquidating, pair@) ==> (lookup(
            e.on_api(ApiAction::Liquidate { pair }).0.quoters,
            pair@,
        ) matches Some(q) && q.state is Idle && q.bid is None && q.ask is None),
        lookup(e.state.open_orders, cl_ord_id@) matches Some(o) ==> is_not_quoted(
            e.on_api(ApiAction::CancelOrder { cl_ord_id }).0,
            o.pair,
            cl_ord_id@,
        ),
{
    let q = lookup(e.quoters, pair@).unwrap();
    stored_then_lookup(e.quoters, pair@, q.reset(), pair@);
    if let Some(o) = lookup(e.state.open_orders, cl_ord_id@) {
        if let Some(r) = lookup(e.quoters, o.pair) {
            stored_then_lookup(e.quoters, o.pair, r.cancelled(cl_ord_id@), o.pair);
        }
    }
}

} // verus!
