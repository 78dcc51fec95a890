//! Trade history and execution reports, as the exchange gives them.
use crate::collections::{lookup, stored, Entries, StrMap};
use crate::decimal::{product, times, Decimal};
use crate::market::{amount, read_amount, AssetPairRecord};
use crate::position::{sale_pnl, Position};
use crate::text::{digits, number_text, opt_is, opt_text, signed_digits, signed_text, str_eq};
use crate::time::Timestamp;
use crate::types::{side_of, Fill, FillView, OrderSide};
use vstd::prelude::*;

verus! {

/// The names by which the history may call pairs, and the WebSocket names they stand for: the REST
/// key, and the alternative name where it differs.
pub open spec fn mapping_of(records: Seq<AssetPairRecord>) -> Entries<Seq<char>>
    decreases records.len(),
{
    if records.len() == 0 {
        Seq::empty()
    } else {
        let rest = mapping_of(records.drop_last());
        let last = records.last();
        match last.wsname {
            Some(w) => {
                let with_key = stored(rest, last.rest_key@, w@);
                match last.altname {
                    Some(alt) => if alt@ != last.rest_key@ {
                        stored(with_key, alt@, w@)
                    } else {
                        with_key
                    },
                    None => with_key,
                }
            },
            None => rest,
        }
    }
}

/// Builds the mapping from names in the history to WebSocket names.
pub fn build_pair_mapping(records: &Vec<AssetPairRecord>) -> (r: StrMap<String>)
    ensures
        r@ == mapping_of(records@),
{
    let mut r: StrMap<String> = StrMap::new();
    let mut i: usize = 0;
    while i < records.len()
        invariant
            i <= records.len(),
            r@ == mapping_of(records@.take(i as int)),
        decreases records.len() - i,
    {
        proof {
            assert(records@.take(i + 1).drop_last() =~= records@.take(i as int));
            assert(records@.take(i + 1).last() == records@[i as int]);
        }
        let record = &records[i];
        if let Some(w) = &record.wsname {
            r.insert(record.rest_key.clone(), w.clone());
            if let Some(alt) = &record.altname {
                if !str_eq(alt.as_str(), record.rest_key.as_str()) {
                    r.insert(alt.clone(), w.clone());
                }
            }
        }
        i = i + 1;
    }
    assert(records@.take(i as int) =~= records@);
    r
}

/// The body of a request for a page of the history.
pub open spec fn page_body(offset: u64, start: Option<i64>, end: Option<i64>) -> Seq<char> {
    let head = "ofs="@ + digits(offset as nat);
    let from = match start {
        Some(t) => head + "&start="@ + signed_digits(t as int),
        None => head,
    };
    match end {
        Some(t) => from + "&end="@ + signed_digits(t as int),
        None => from,
    }
}

/// The body of a request for a page of the history.
pub fn history_body(offset: u64, start: Option<i64>, end: Option<i64>) -> (r: String)
    ensures
        r@ == page_body(offset, start, end),
{
    let mut r = String::from_str("ofs=").concat(number_text(offset).as_str());
    if let Some(t) = start {
        r = r.concat("&start=").concat(signed_text(t).as_str());
    }
    if let Some(t) = end {
        r = r.concat("&end=").concat(signed_text(t).as_str());
    }
    r
}

/// Where the next page of the history begins, if there is one: the history ends with an empty page
/// or with its last trade.
pub fn next_page(offset: u64, fetched: u64, count: u64) -> (r: Option<u64>)
    requires
        offset + fetched <= u64::MAX,
    ensures
        r == (if fetched == 0 || offset + fetched >= count {
            None::<u64>
        } else {
            Some((offset + fetched) as u64)
        }),
{
    if fetched == 0 || offset + fetched >= count {
        None
    } else {
        Some(offset + fetched)
    }
}

/// A trade in the history.
#[derive(Debug)]
pub struct HistoryTrade {
    pub txid: String,
    pub pair: Option<String>,
    pub side: Option<String>,
    pub price: Option<String>,
    pub vol: Option<String>,
    pub fee: Option<String>,
    pub order_txid: Option<String>,
    pub order_type: Option<String>,
    pub timestamp: Timestamp,
}

/// The side that a word of the history names, if it does.
pub open spec fn history_side(word: Option<Seq<char>>) -> Option<OrderSide> {
    if word == Some("buy"@) {
        Some(OrderSide::Buy)
    } else if word == Some("sell"@) {
        Some(OrderSide::Sell)
    } else {
        None
    }
}

/// The text, or nothing.
pub open spec fn text_or_empty(t: Option<Seq<char>>) -> Seq<char> {
    match t {
        Some(s) => s,
        None => Seq::empty(),
    }
}

/// The fill that a trade of the history stands for; `None` if its pair or side is not known.
pub open spec fn fill_in(t: HistoryTrade, mapping: Entries<Seq<char>>) -> Option<FillView> {
    match (
        lookup(mapping, text_or_empty(opt_text(t.pair))),
        history_side(opt_text(t.side)),
    ) {
        (Some(pair), Some(side)) => Some(
            FillView {
                order_id: text_or_empty(opt_text(t.order_txid)),
                cl_ord_id: t.txid@,
                pair,
                side,
                price: amount(opt_text(t.price)),
                qty: amount(opt_text(t.vol)),
                fee: amount(opt_text(t.fee)),
                is_maker: opt_text(t.order_type) == Some("limit"@),
                is_fully_filled: true,
                timestamp: t.timestamp,
            },
        ),
        _ => None,
    }
}

fn text_of(t: &Option<String>) -> (r: String)
    ensures
        r@ == text_or_empty(opt_text(*t)),
{
    match t {
        Some(s) => s.clone(),
        None => String::new(),
    }
}

/// The fill that a trade of the history stands for; `None` if its pair or side is not known.
pub fn historical_fill(t: &HistoryTrade, mapping: &StrMap<String>) -> (r: Option<Fill>)
    ensures
        match fill_in(*t, mapping@) {
            Some(f) => r is Some && r.unwrap()@ == f,
            None => r is None,
        },
{
    let name = text_of(&t.pair);
    let pair = match mapping.get(name.as_str()) {
        Some(p) => p.clone(),
        None => return None,
    };
    proof {
        reveal_strlit("buy");
        reveal_strlit("sell");
        assert("buy"@.len() != "sell"@.len());
    }
    let side = if opt_is(&t.side, "buy") {
        OrderSide::Buy
    } else if opt_is(&t.side, "sell") {
        OrderSide::Sell
    } else {
        return None;
    };
    let f = Fill {
        order_id: text_of(&t.order_txid),
        cl_ord_id: t.txid.clone(),
        pair,
        side,
        price: read_amount(&t.price),
        qty: read_amount(&t.vol),
        fee: read_amount(&t.fee),
        is_maker: opt_is(&t.order_type, "limit"),
        is_fully_filled: true,
        timestamp: t.timestamp,
    };
    assert(f@ =~= fill_in(*t, mapping@).unwrap());
    Some(f)
}

/// An execution report.
#[derive(Clone, Debug)]
pub struct ExecReport {
    pub exec_type: String,
    pub order_id: String,
    pub cl_ord_id: String,
    pub symbol: String,
    pub side: String,
    pub last_qty: Decimal,
    pub last_price: Decimal,
    pub fee: Decimal,
    pub is_maker: bool,
    pub order_status: String,
    pub timestamp: Timestamp,
}

/// The fill that a report stands for: one on a trade stands for a fill, others for none.
pub open spec fn fill_reported(e: ExecReport) -> Option<FillView> {
    if e.exec_type@ == "trade"@ {
        Some(
            FillView {
                order_id: e.order_id@,
                cl_ord_id: e.cl_ord_id@,
                pair: e.symbol@,
                side: side_of(e.side@),
                price: e.last_price,
                qty: e.last_qty,
                fee: e.fee,
                is_maker: e.is_maker,
                is_fully_filled: e.order_status@ == "filled"@,
                timestamp: e.timestamp,
            },
        )
    } else {
        None
    }
}

/// The fill that a report stands for, if it does.
pub fn reported_fill(e: &ExecReport) -> (r: Option<Fill>)
    ensures
        match fill_reported(*e) {
            Some(f) => r is Some && r.unwrap()@ == f,
            None => r is None,
        },
{
    if !str_eq(e.exec_type.as_str(), "trade") {
        return None;
    }
    let f = Fill {
        order_id: e.order_id.clone(),
        cl_ord_id: e.cl_ord_id.clone(),
        pair: e.symbol.clone(),
        side: OrderSide::from_word(e.side.as_str()),
        price: e.last_price,
        qty: e.last_qty,
        fee: e.fee,
        is_maker: e.is_maker,
        is_fully_filled: str_eq(e.order_status.as_str(), "filled"),
        timestamp: e.timestamp,
    };
    assert(f@ =~= fill_reported(*e).unwrap());
    Some(f)
}

/// What a holding is worth at the last price, zero if none is known.
#[derive(Clone, Copy, Debug)]
pub struct PositionReport {
    pub qty: Decimal,
    pub avg_cost: Decimal,
    pub current_price: Decimal,
    pub current_value: Decimal,
    pub unrealized_pnl: Decimal,
}

/// Reports on a holding at the last known price of its pair. `None` on overflow.
pub fn position_report(p: &Position, price: Option<Decimal>) -> (r: Option<PositionReport>)
    ensures
        ({
            let at = match price {
                Some(d) => d,
                None => Decimal::of(0, 0),
            };
            let value = product(p.qty, at);
            let pnl = sale_pnl(*p, p.qty, at);
            r == (if value is Some && pnl is Some {
                Some(
                    PositionReport {
                        qty: p.qty,
                        avg_cost: p.avg_cost,
                        current_price: at,
                        current_value: value.unwrap(),
                        unrealized_pnl: pnl.unwrap(),
                    },
                )
            } else {
                None
            })
        }),
{
    let at = match price {
        Some(d) => d,
        None => Decimal::zero(),
    };
    match (p.qty.checked_mul(at), times(Some(p.qty), at.checked_sub(p.avg_cost))) {
        (Some(current_value), Some(unrealized_pnl)) => Some(
            PositionReport {
                qty: p.qty,
                avg_cost: p.avg_cost,
                current_price: at,
                current_value,
                unrealized_pnl,
            },
        ),
        _ => None,
    }
}

} // verus!
