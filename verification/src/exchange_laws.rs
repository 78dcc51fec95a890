//! What passes between the bot and the exchange: orders and commands that go out, and amounts, pairs
//! and trades that come in.
use crate::bot::{active_count, exposure_sum, pair_report};
use crate::collections::{lookup, stored_then_lookup, Entries};
use crate::decimal::{difference, lemma_of, magnitude, pow10, product, quotient, Decimal};
use crate::decimal_error::{
    apart, differences_are_near, lemma_one, one, products_are_near, quotients_are_off_little,
    sums_are_near,
};
use crate::decimal_laws::{less_is_by_units, results_are_valid, units};
use crate::decimal_order::units_have_the_sign;
use crate::engine_model::EngineView;
use crate::events::{CommandView, EngineEvent};
use crate::history::{fill_in, fill_reported, ExecReport, HistoryTrade};
use crate::market::{
    amount, balances_of, change_percent, infos_of, pair_with_key, record_named, tickers_of,
    AssetPairRecord, BalanceRecord, TickerRecord,
};
use crate::order_tracking::ProxyPosition;
use crate::pairs::{resolved, GlobalDefaults, ManagedPair, PairConfig};
use crate::pnl::PnlView;
use crate::position::Position;
use crate::proxy::{outgoing, tells_book, tells_order, ProxyCommandView, ProxyEventView};
use crate::state::position_of;
use crate::state_store::PairReportView;
use crate::text::opt_text;
use crate::tick_laws::lemma_share;
use crate::time::Timestamp;
use crate::types::{FillView, OrderRequestView, PairInfoView};
use vstd::prelude::*;

verus! {

/// An order goes out with its own pair, price, quantity and id, as a limit order or as a market
/// order; only a limit order may be one that only rests, and only an urgent one is sent as such.
pub proof fn orders_go_out_as_they_are(o: OrderRequestView, req_id: u64, dms_timeout: u64)
    ensures
        ({
            let sent = outgoing(CommandView::PlaceOrder(o), req_id, dms_timeout);
            &&& sent.len() == 1
            &&& sent[0] matches ProxyCommandView::PlaceOrder {
                req_id: n,
                symbol,
                side,
                order_type,
                price,
                qty,
                cl_ord_id,
                post_only,
                priority,
                market,
            }
            &&& n == req_id && symbol == o.pair && price == o.price && qty == o.qty && cl_ord_id
                == o.cl_ord_id
            &&& o.side is Buy ==> side == "buy"@
            &&& o.side is Sell ==> side == "sell"@
            &&& o.market ==> order_type == "market"@ && !post_only && market
            &&& !o.market ==> order_type == "limit"@ && post_only == o.post_only && !market
            &&& priority is Urgent <==> o.urgent
        }),
{
}

/// Changes and cancellations go out as they are, each as one request; refreshing the dead man's switch
/// sets it to its time; shutting down cancels everything and turns the switch off; what concerns
/// storage and logs is not sent.
pub proof fn commands_go_out_as_they_are(c: CommandView, req_id: u64, dms_timeout: u64)
    requires
        req_id < u64::MAX,
    ensures
        ({
            let sent = outgoing(c, req_id, dms_timeout);
            &&& c matches CommandView::AmendOrder { cl_ord_id, new_price, new_qty } ==> sent == seq![
                ProxyCommandView::AmendOrder { req_id, cl_ord_id, price: new_price, qty: new_qty },
            ]
            &&& c matches CommandView::CancelOrders(ids) ==> sent == seq![
                ProxyCommandView::CancelOrders { req_id, cl_ord_ids: ids },
            ]
            &&& c is CancelAll ==> sent == seq![ProxyCommandView::CancelAll { req_id }]
            &&& c is RefreshDms ==> sent == seq![
                ProxyCommandView::SetDms { req_id, timeout_secs: dms_timeout },
            ]
            &&& c is Shutdown ==> sent.len() == 2 && sent[0] == (ProxyCommandView::CancelAll {
                req_id,
            }) && (sent[1] matches ProxyCommandView::SetDms { req_id: n, timeout_secs } && timeout_secs
                == 0 && n == req_id + 1)
            &&& c is PersistState || c is LogTrade ==> sent.len() == 0
        }),
{
}

/// The change of a price is its move from the opening price, in hundredths of the opening price; none
/// if there is no opening price.
pub proof fn changes_are_in_percent(open: Decimal, close: Decimal)
    requires
        open.valid() && close.valid(),
        units(open) >= 0,
    ensures
        units(open) == 0 ==> (change_percent(open, close) matches Some(c) && units(c) == 0),
        units(open) > 0 ==> (change_percent(open, close) matches Some(c) ==> apart(
            units(c) * units(open),
            100 * ((units(close) - units(open)) * one()),
        ) <= 20_000 * (units(open) + magnitude(units(close) - units(open)))),
{
    lemma_one();
    units_have_the_sign(open);
    lemma_of(0, 0);
    assert(0 * pow10(28) == 0);
    let hundred = Decimal::of(100, 0);
    lemma_of(100, 0);
    assert(units(hundred) == 100 * one()) by {
        assert(100 * pow10(28) == 100 * one());
    }
    if units(open) > 0 {
        if let Some(g) = difference(close, open) {
            differences_are_near(close, open);
            results_are_valid(close, open);
            if let Some(q) = quotient(g, open) {
                quotients_are_off_little(g, open);
                results_are_valid(g, open);
                lemma_share(units(close), units(open), units(g), units(q), one());
                if let Some(c) = product(q, hundred) {
                    products_are_near(q, hundred);
                    lemma_hundredfold(
                        units(q),
                        units(c),
                        units(open),
                        units(close) - units(open),
                        one(),
                    );
                }
            }
        }
    }
}

proof fn lemma_hundredfold(q: int, c: int, o: int, d: int, z: int)
    requires
        z >= 1_000_000,
        o > 0,
        apart(q * o, d * z) <= 100 * (o + magnitude(d)),
        apart(c * z, q * (100 * z)) <= z + 10 * magnitude(c),
    ensures
        apart(c * o, 100 * (d * z)) <= 20_000 * (o + magnitude(d)),
{
    let e = apart(c, 100 * q);
    let mc = magnitude(c);
    let mq = magnitude(q);
    let md = magnitude(d);
    assert(e * z <= z + 10 * mc) by {
        let w = c - 100 * q;
        assert(c * z - q * (100 * z) == w * z) by (nonlinear_arith)
            requires
                w == c - 100 * q,
        ;
        assert(e * z <= apart(c * z, q * (100 * z))) by (nonlinear_arith)
            requires
                c * z - q * (100 * z) == w * z,
                e == w || e == -w,
                apart(c * z, q * (100 * z)) >= c * z - q * (100 * z),
                apart(c * z, q * (100 * z)) >= -(c * z - q * (100 * z)),
        ;
    }
    assert(mc <= 100 * mq + e);
    assert(1000 * e <= 2000 + 2 * mq) by (nonlinear_arith)
        requires
            e * z <= z + 10 * mc,
            mc <= 100 * mq + e,
            z >= 1_000_000,
            e >= 0,
            mq >= 0,
    ;
    assert(e * z <= 2 * z + 1001 * mq) by (nonlinear_arith)
        requires
            e * z <= z + 10 * mc,
            mc <= 100 * mq + e,
            1000 * e <= 2000 + 2 * mq,
            z >= 1_000_000,
            e >= 0,
            mq >= 0,
    ;
    let qo = q * o;
    let mqo = mq * o;
    assert(mqo == qo || mqo == -qo) by (nonlinear_arith)
        requires
            qo == q * o,
            mqo == mq * o,
            mq == q || mq == -q,
    ;
    let dz = d * z;
    assert(dz <= md * z && -dz <= md * z) by (nonlinear_arith)
        requires
            dz == d * z,
            md >= d,
            md >= -d,
            z > 0,
    ;
    assert(mqo <= md * z + 100 * (o + md));
    let eo = e * o;
    assert(eo <= 3 * o + 1100 * md) by (nonlinear_arith)
        requires
            e * z <= 2 * z + 1001 * mq,
            eo == e * o,
            mqo == mq * o,
            mqo <= md * z + 100 * (o + md),
            o > 0,
            md >= 0,
            z >= 1_000_000,
    ;
    let co = c * o;
    assert(co - 100 * qo <= eo && 100 * qo - co <= eo) by (nonlinear_arith)
        requires
            co == c * o,
            qo == q * o,
            eo == e * o,
            c - 100 * q <= e,
            100 * q - c <= e,
            o > 0,
    ;
}

/// Of the records of the exchange the last one with a pair's name counts; a pair that none names has
/// none.
pub proof fn records_are_found_by_name(records: Seq<AssetPairRecord>, name: Seq<char>)
    ensures
        record_named(records, name) matches Some(r) ==> opt_text(r.wsname) == Some(name)
            && records.contains(r),
        record_named(records, name) is None ==> forall|i: int|
            0 <= i < records.len() ==> opt_text((#[trigger] records[i]).wsname) != Some(name),
    decreases records.len(),
{
    if records.len() > 0 {
        let front = records.drop_last();
        let last = records.len() - 1;
        records_are_found_by_name(front, name);
        if opt_text(records.last().wsname) == Some(name) {
            assert(records[last] == records.last());
        } else if let Some(r) = record_named(front, name) {
            let i = choose|i: int| 0 <= i < front.len() && front[i] == r;
            assert(records[i] == r);
        } else {
            assert forall|i: int| 0 <= i < records.len() implies opt_text(
                (#[trigger] records[i]).wsname,
            ) != Some(name) by {
                if i < last {
                    assert(front[i] == records[i]);
                }
            }
        }
    }
}

/// Whether pair data says what a record of the exchange says: minimum quantity and cost as amounts,
/// decimals of prices and of quantities, each from its own field.
pub open spec fn is_read_from(info: PairInfoView, r: AssetPairRecord, pair: Seq<char>) -> bool {
    &&& info.pair == pair
    &&& info.rest_key == r.rest_key@
    &&& (r.base matches Some(b) ==> info.exchange_base_asset == b@)
    &&& info.min_order_qty == amount(opt_text(r.ordermin))
    &&& info.min_cost == amount(opt_text(r.costmin))
    &&& (r.pair_decimals matches Some(n) ==> (n < 0x1_0000_0000 ==> info.price_decimals == n))
    &&& (r.lot_decimals matches Some(n) ==> (n < 0x1_0000_0000 ==> info.qty_decimals == n))
    &&& (r.pair_decimals is None ==> info.price_decimals == 8)
    &&& (r.lot_decimals is None ==> info.qty_decimals == 8)
    &&& info.maker_fee_pct == r.maker_fee_pct
}

/// Each pair that is asked for and that a record names gets the data of its record; no other pair gets
/// any.
pub proof fn pair_data_is_read(
    records: Seq<AssetPairRecord>,
    pairs: Seq<Seq<char>>,
    pair: Seq<char>,
)
    ensures
        pairs.contains(pair) ==> (record_named(records, pair) matches Some(r) ==> (lookup(
            infos_of(records, pairs),
            pair,
        ) matches Some(info) && is_read_from(info, r, pair))),
        !pairs.contains(pair) || record_named(records, pair) is None ==> lookup(
            infos_of(records, pairs),
            pair,
        ) is None,
    decreases pairs.len(),
{
    if pairs.len() > 0 {
        let front = pairs.drop_last();
        let last = pairs.last();
        pair_data_is_read(records, front, pair);
        if let Some(r) = record_named(records, last) {
            stored_then_lookup(
                infos_of(records, front),
                last,
                crate::market::info_of(r, last),
                pair,
            );
        }
        assert(pairs[pairs.len() - 1] == last);
        if front.contains(pair) {
            let i = choose|i: int| 0 <= i < front.len() && front[i] == pair;
            assert(pairs[i] == pair);
        }
        if pairs.contains(pair) && pair != last {
            let i = choose|i: int| 0 <= i < pairs.len() && pairs[i] == pair;
            assert(front[i] == pair);
        }
    }
}

/// A balance that is a number is that of its asset from then on, and no other balance is touched; one
/// that is no number is passed over.
pub proof fn balances_are_read_one_by_one(
    records: Seq<BalanceRecord>,
    r: BalanceRecord,
    asset: Seq<char>,
)
    ensures
        ({
            let before = balances_of(records);
            let after = balances_of(records.push(r));
            let read = match r.balance {
                Some(t) => crate::decimal::assembled(crate::decimal::parsed_decimal(t@)),
                None => None,
            };
            &&& read is None ==> after == before
            &&& read is Some && asset == r.asset@ ==> lookup(after, asset) == read
            &&& read is Some && asset != r.asset@ ==> lookup(after, asset) == lookup(before, asset)
        }),
{
    let all = records.push(r);
    assert(all.drop_last() =~= records);
    assert(all.last() == r);
    let read = match r.balance {
        Some(t) => crate::decimal::assembled(crate::decimal::parsed_decimal(t@)),
        None => None,
    };
    if let Some(d) = read {
        stored_then_lookup(balances_of(records), r.asset@, d, asset);
    }
}

/// A trade of the history is a complete fill of the pair that its name stands for, on its own side,
/// with its own price, volume and fee; trades of unknown pairs or without a side are passed over.
pub proof fn historical_trades_are_fills(t: HistoryTrade, mapping: Entries<Seq<char>>)
    ensures
        ({
            let name = match t.pair {
                Some(p) => p@,
                None => Seq::empty(),
            };
            let f = fill_in(t, mapping);
            &&& f is Some <==> lookup(mapping, name) is Some && (opt_text(t.side) == Some("buy"@)
                || opt_text(t.side) == Some("sell"@))
            &&& f matches Some(x) ==> lookup(mapping, name) == Some(x.pair) && x.is_fully_filled
                && x.price == amount(opt_text(t.price)) && x.qty == amount(opt_text(t.vol)) && x.fee
                == amount(opt_text(t.fee)) && x.timestamp == t.timestamp && x.cl_ord_id == t.txid@
                && (opt_text(t.side) == Some("buy"@) <==> x.side is Buy) && (opt_text(t.order_type)
                == Some("limit"@) <==> x.is_maker)
        }),
{
    reveal_strlit("buy");
    reveal_strlit("sell");
    assert("buy"@.len() != "sell"@.len());
}

/// An execution report is a fill if and only if it reports a trade; the fill is of the reported
/// quantity at the reported price, and complete if and only if the order is reported as filled.
pub proof fn reported_trades_are_fills(e: ExecReport)
    ensures
        ({
            let f = fill_reported(e);
            &&& f is Some <==> e.exec_type@ == "trade"@
            &&& f matches Some(x) ==> x.qty == e.last_qty && x.price == e.last_price && x.fee == e.fee
                && x.pair == e.symbol@ && x.cl_ord_id == e.cl_ord_id@ && x.order_id == e.order_id@
                && x.timestamp == e.timestamp && x.is_maker == e.is_maker && (x.is_fully_filled
                <==> e.order_status@ == "filled"@)
        }),
{
}

/// Whether a setting is the pair's own where it has one, and the default where it has none.
pub open spec fn is_resolved<T>(r: T, own: Option<T>, default: T) -> bool {
    (own matches Some(v) ==> r == v) && (own is None ==> r == default)
}

/// Each setting of a pair is its own where it has one, and the default of the same setting where it
/// has none.
pub proof fn own_settings_come_first(c: PairConfig, d: GlobalDefaults)
    ensures
        ({
            let r = resolved(c, d);
            &&& is_resolved(r.order_size_usd, c.order_size_usd, d.order_size_usd)
            &&& is_resolved(r.max_inventory_usd, c.max_inventory_usd, d.max_inventory_usd)
            &&& is_resolved(r.min_spread_bps, c.min_spread_bps, d.min_spread_bps)
            &&& is_resolved(r.spread_capture_pct, c.spread_capture_pct, d.spread_capture_pct)
            &&& is_resolved(r.min_profit_pct, c.min_profit_pct, d.min_profit_pct)
            &&& is_resolved(r.stop_loss_pct, c.stop_loss_pct, d.stop_loss_pct)
            &&& is_resolved(r.take_profit_pct, c.take_profit_pct, d.take_profit_pct)
            &&& is_resolved(r.max_buys_before_sell, c.max_buys_before_sell, d.max_buys_before_sell)
            &&& is_resolved(
                r.use_winddown_for_stoploss,
                c.use_winddown_for_stoploss,
                d.use_winddown_for_stoploss,
            )
            &&& is_resolved(
                r.limit_unwind_on_stoploss,
                c.limit_unwind_on_stoploss,
                d.limit_unwind_on_stoploss,
            )
        }),
{
}

/// What is reported of a pair is what is held of it, at its average cost, and whether it has orders
/// out.
pub proof fn reports_say_what_is_held(mp: ManagedPair, positions: Entries<Position>)
    requires
        position_of(positions, mp.pair@).qty.valid(),
        position_of(positions, mp.pair@).avg_cost.valid(),
    ensures
        pair_report(mp, positions) matches Some(r) ==> {
            let p = position_of(positions, mp.pair@);
            &&& r.pair == mp.pair@
            &&& r.position_qty == p.qty && r.position_avg_cost == p.avg_cost
            &&& apart(units(r.exposure_usd) * one(), units(p.qty) * units(p.avg_cost)) <= one() + 10
                * magnitude(units(r.exposure_usd))
            &&& r.has_open_orders <==> mp.quoter@.bid is Some || mp.quoter@.ask is Some
        },
{
    let p = position_of(positions, mp.pair@);
    products_are_near(p.qty, p.avg_cost);
}

/// One more report adds its exposure to the total, and one more pair adds one to the number of active
/// pairs if it may be quoted, and nothing otherwise.
pub proof fn snapshots_add_up(
    reports: Seq<PairReportView>,
    r: PairReportView,
    pairs: Seq<ManagedPair>,
    mp: ManagedPair,
)
    requires
        exposure_sum(reports) matches Some(s) ==> s.valid(),
        r.exposure_usd.valid(),
    ensures
        exposure_sum(reports.push(r)) matches Some(t) ==> (exposure_sum(reports) matches Some(s)
            && apart(units(t), units(s) + units(r.exposure_usd)) * one() <= 11 * magnitude(units(t))),
        exposure_sum(Seq::<PairReportView>::empty()) matches Some(s) && units(s) == 0,
        active_count(pairs.push(mp)) == active_count(pairs) + (if mp.state is Active
            || mp.state is WindDown {
            1int
        } else {
            0
        }),
        active_count(Seq::<ManagedPair>::empty()) == 0,
{
    assert(reports.push(r).drop_last() =~= reports);
    assert(pairs.push(mp).drop_last() =~= pairs);
    lemma_of(0, 0);
    assert(0 * pow10(28) == 0);
    if let Some(s) = exposure_sum(reports) {
        sums_are_near(s, r.exposure_usd);
    }
}

/// What the proxy says about a fill is what the engine is told: the same order, pair, price, quantity
/// and fee, bought or sold.
pub proof fn fills_are_passed_on(v: ProxyEventView, at: Timestamp, r: Option<EngineEvent>)
    requires
        tells_order(v, at, r),
    ensures
        v matches ProxyEventView::Fill {
            order_id,
            cl_ord_id,
            symbol,
            side,
            qty,
            price,
            fee,
            is_maker,
            timestamp,
            is_fully_filled,
        } ==> (r matches Some(EngineEvent::Fill(f)) && f@.cl_ord_id == cl_ord_id && f@.pair == symbol
            && f@.qty == qty && f@.price == price && f@.fee == fee && f@.is_fully_filled
            == is_fully_filled && f@.is_maker == is_maker && (side == "buy"@ <==> f@.side is Buy)),
        v matches ProxyEventView::OrderAccepted { req_id, cl_ord_id, order_id } ==> (
        r matches Some(EngineEvent::OrderAcknowledged { cl_ord_id: c, order_id: o }) && c@
            == cl_ord_id),
        v matches ProxyEventView::OrderCancelled { cl_ord_id, reason, symbol } ==> (r matches Some(
            EngineEvent::OrderCancelled { cl_ord_id: c, pair, reason: w },
        ) && c@ == cl_ord_id && (symbol matches Some(s) ==> pair@ == s)),
        v matches ProxyEventView::OrderRejected { req_id, cl_ord_id, error, symbol } ==> (
        r matches Some(EngineEvent::OrderRejected { cl_ord_id: c, pair, reason }) && c@ == cl_ord_id
            && reason@ == error && (symbol matches Some(s) ==> pair@ == s)),
        v is BookSnapshot || v is BookUpdate ==> r is None,
{
}

/// What the proxy says about a book is what the engine is told: bids as bids and asks as asks, each
/// level with its own price and quantity, a snapshot as one and an update as one.
pub proof fn books_are_passed_on(v: ProxyEventView, at: Timestamp, r: Option<EngineEvent>, i: int)
    requires
        tells_book(v, at, r),
    ensures
        v matches ProxyEventView::BookSnapshot { symbol, bids, asks } ==> (r matches Some(
            EngineEvent::BookSnapshot { pair, bids: b, asks: a, timestamp },
        ) && pair@ == symbol && b@.len() == bids.len() && a@.len() == asks.len() && (0 <= i < bids.len()
            ==> b@[i].price == bids[i].price && b@[i].qty == bids[i].qty) && (0 <= i < asks.len()
            ==> a@[i].price == asks[i].price && a@[i].qty == asks[i].qty)),
        v matches ProxyEventView::BookUpdate { symbol, bids, asks } ==> (r matches Some(
            EngineEvent::BookUpdate { pair, bid_updates: b, ask_updates: a, timestamp },
        ) && pair@ == symbol && b@.len() == bids.len() && a@.len() == asks.len() && (0 <= i < bids.len()
            ==> b@[i].price == bids[i].price && b@[i].qty == bids[i].qty) && (0 <= i < asks.len()
            ==> a@[i].price == asks[i].price && a@[i].qty == asks[i].qty)),
        v is Fill || v is OrderAccepted || v is OrderCancelled || v is OrderRejected ==> r is None,
{
}

/// One more ticker is noted for the pair that goes by its key, with its own opening and closing price
/// and volume; a ticker that no pair goes by is passed over.
pub proof fn tickers_are_noted_by_key(
    records: Seq<TickerRecord>,
    r: TickerRecord,
    infos: Entries<PairInfoView>,
    pair: Seq<char>,
)
    ensures
        tickers_of(records.push(r), infos) matches Some(m) ==> {
            let before = tickers_of(records, infos).unwrap();
            let hit = pair_with_key(infos, r.rest_key@);
            &&& tickers_of(records, infos) is Some
            &&& hit != Some(pair) ==> lookup(m, pair) == lookup(before, pair)
            &&& hit == Some(pair) ==> (lookup(m, pair) matches Some(t) && t.open == amount(
                opt_text(r.open),
            ) && t.close == amount(opt_text(r.close)) && t.volume_24h == amount(
                opt_text(r.volume_24h),
            ) && Some(t.change_pct) == change_percent(t.open, t.close))
        },
{
    let all = records.push(r);
    assert(all.drop_last() =~= records);
    assert(all.last() == r);
    if let (Some(before), Some(p), Some(t)) = (
        tickers_of(records, infos),
        pair_with_key(infos, r.rest_key@),
        crate::market::ticker_of(r),
    ) {
        stored_then_lookup(before, p, t, pair);
    }
}

/// The pair that a key is found under goes by that key.
pub proof fn keys_lead_to_their_pair(infos: Entries<PairInfoView>, key: Seq<char>)
    ensures
        pair_with_key(infos, key) matches Some(p) ==> exists|i: int|
            0 <= i < infos.len() && (#[trigger] infos[i]).0 == p && infos[i].1.rest_key == key,
        pair_with_key(infos, key) is None ==> forall|i: int|
            0 <= i < infos.len() ==> (#[trigger] infos[i]).1.rest_key != key,
    decreases infos.len(),
{
    if infos.len() > 0 {
        let front = infos.drop_last();
        let last = infos.len() - 1;
        keys_lead_to_their_pair(front, key);
        if infos.last().1.rest_key == key {
            assert(infos[last].0 == infos.last().0);
        } else if let Some(p) = pair_with_key(front, key) {
            let i = choose|i: int|
                0 <= i < front.len() && (#[trigger] front[i]).0 == p && front[i].1.rest_key == key;
            assert(infos[i] == front[i]);
        } else {
            assert forall|i: int| 0 <= i < infos.len() implies (#[trigger] infos[i]).1.rest_key
                != key by {
                if i < last {
                    assert(front[i] == infos[i]);
                }
            }
        }
    }
}

/// For a sell of more than is held, and only for such a one, a purchase is made up: of what is
/// missing, at the price of the sell, and free of charge.
pub proof fn missing_purchases_are_made_up(t: PnlView, fill: FillView)
    requires
        fill.qty.valid(),
        position_of(t.positions, fill.pair).qty.valid(),
    ensures
        ({
            let held = position_of(t.positions, fill.pair).qty;
            let short = fill.side is Sell && units(held) < units(fill.qty);
            &&& !short <==> t.made_up(fill) == Some(None::<FillView>)
            &&& t.made_up(fill) matches Some(Some(seed)) ==> seed.side is Buy && seed.pair == fill.pair
                && seed.price == fill.price && units(seed.fee) == 0 && seed.timestamp
                == fill.timestamp && apart(units(seed.qty), units(fill.qty) - units(held)) * one()
                <= 11 * magnitude(units(seed.qty))
        }),
{
    let held = position_of(t.positions, fill.pair).qty;
    less_is_by_units(held, fill.qty);
    differences_are_near(fill.qty, held);
    lemma_of(0, 0);
    assert(0 * pow10(28) == 0);
}

/// The positions that the proxy has kept are restored with their quantity and cost, unless nothing is
/// held of them; all others stay.
pub proof fn kept_positions_are_restored(
    positions: Entries<Position>,
    kept: Entries<ProxyPosition>,
    pair: Seq<char>,
    p: ProxyPosition,
    other: Seq<char>,
)
    requires
        other != pair,
    ensures
        ({
            let before = EngineView::restored(positions, kept);
            let after = EngineView::restored(positions, kept.push((pair, p)));
            &&& lookup(after, other) == lookup(before, other)
            &&& p.qty.m() > 0 ==> (lookup(after, pair) matches Some(q) && q.qty == p.qty && q.avg_cost
                == p.avg_cost)
            &&& p.qty.m() <= 0 ==> after == before
            &&& kept.len() == 0 ==> before == positions
        }),
{
    let all = kept.push((pair, p));
    assert(all.drop_last() =~= kept);
    assert(all.last() == (pair, p));
    let before = EngineView::restored(positions, kept);
    let q = Position { qty: p.qty, avg_cost: p.avg_cost };
    stored_then_lookup(before, pair, q, pair);
    stored_then_lookup(before, pair, q, other);
}

} // verus!
