//! What the exchange's REST replies say of pairs, tickers and balances.
use crate::collections::{stored, texts, Entries, StrMap};
use crate::decimal::{
    assembled, difference, lemma_of, minus, over, parsed_decimal, times, Decimal,
};
use crate::text::{opt_is, opt_text, str_eq};
use crate::types::{PairInfo, PairInfoView, TickerData};
use vstd::prelude::*;

verus! {

/// A pair in the exchange's list of pairs.
#[derive(Debug)]
pub struct AssetPairRecord {
    pub rest_key: String,
    pub altname: Option<String>,
    pub wsname: Option<String>,
    pub base: Option<String>,
    pub ordermin: Option<String>,
    pub costmin: Option<String>,
    pub pair_decimals: Option<u64>,
    pub lot_decimals: Option<u64>,
    /// The maker fee as a fraction.
    pub maker_fee_pct: Decimal,
}

/// The number in an optional text, or zero.
pub open spec fn amount(text: Option<Seq<char>>) -> Decimal {
    match text {
        Some(t) => match assembled(parsed_decimal(t)) {
            Some(d) => d,
            None => Decimal::of(0, 0),
        },
        None => Decimal::of(0, 0),
    }
}

/// The number in an optional text, or zero.
pub fn read_amount(text: &Option<String>) -> (r: Decimal)
    ensures
        r == amount(opt_text(*text)),
{
    match text {
        Some(t) => match Decimal::parse(t.as_str()) {
            Some(d) => d,
            None => Decimal::zero(),
        },
        None => Decimal::zero(),
    }
}

/// A number of decimals: eight if none is given, its low 32 bits if it is larger.
pub open spec fn decimals(n: Option<u64>) -> u32 {
    match n {
        Some(k) => (k % 0x1_0000_0000) as u32,
        None => 8,
    }
}

fn read_decimals(n: Option<u64>) -> (r: u32)
    ensures
        r == decimals(n),
{
    match n {
        Some(k) => (k % 0x1_0000_0000) as u32,
        None => 8,
    }
}

/// The last record with a given WebSocket name.
pub open spec fn record_named(records: Seq<AssetPairRecord>, name: Seq<char>) -> Option<
    AssetPairRecord,
>
    decreases records.len(),
{
    if records.len() == 0 {
        None
    } else if opt_text(records.last().wsname) == Some(name) {
        Some(records.last())
    } else {
        record_named(records.drop_last(), name)
    }
}

/// What a record says of a pair.
pub open spec fn info_of(record: AssetPairRecord, pair: Seq<char>) -> PairInfoView {
    PairInfoView {
        pair,
        rest_key: record.rest_key@,
        exchange_base_asset: match record.base {
            Some(b) => b@,
            None => Seq::empty(),
        },
        price_decimals: decimals(record.pair_decimals),
        qty_decimals: decimals(record.lot_decimals),
        min_order_qty: amount(opt_text(record.ordermin)),
        min_cost: amount(opt_text(record.costmin)),
        maker_fee_pct: record.maker_fee_pct,
    }
}

/// What the records say of some pairs; pairs that are not listed are left out.
pub open spec fn infos_of(records: Seq<AssetPairRecord>, pairs: Seq<Seq<char>>) -> Entries<
    PairInfoView,
>
    decreases pairs.len(),
{
    if pairs.len() == 0 {
        Seq::empty()
    } else {
        let rest = infos_of(records, pairs.drop_last());
        match record_named(records, pairs.last()) {
            Some(record) => stored(rest, pairs.last(), info_of(record, pairs.last())),
            None => rest,
        }
    }
}

fn find_record<'a>(records: &'a Vec<AssetPairRecord>, name: &str) -> (r: Option<&'a AssetPairRecord>)
    ensures
        match r {
            Some(x) => record_named(records@, name@) == Some(*x),
            None => record_named(records@, name@) is None,
        },
{
    let mut i: usize = records.len();
    assert(records@.take(i as int) =~= records@);
    while i > 0
        invariant
            i <= records.len(),
            record_named(records@.take(i as int), name@) == record_named(records@, name@),
        decreases i,
    {
        proof {
            assert(records@.take(i as int).drop_last() =~= records@.take(i - 1));
            assert(records@.take(i as int).last() == records@[i - 1]);
        }
        if opt_is(&records[i - 1].wsname, name) {
            return Some(&records[i - 1]);
        }
        i = i - 1;
    }
    None
}

/// Finds the data of some pairs in the exchange's list.
pub fn pair_infos(records: &Vec<AssetPairRecord>, pairs: &Vec<String>) -> (r: StrMap<PairInfo>)
    ensures
        r@ == infos_of(records@, texts(pairs@)),
{
    let ghost all = texts(pairs@);
    let mut r: StrMap<PairInfo> = StrMap::new();
    let mut i: usize = 0;
    while i < pairs.len()
        invariant
            i <= pairs.len(),
            all == texts(pairs@),
            r@ == infos_of(records@, all.take(i as int)),
        decreases pairs.len() - i,
    {
        proof {
            assert(all.take(i + 1).drop_last() =~= all.take(i as int));
            assert(all.take(i + 1).last() == all[i as int]);
        }
        let pair = &pairs[i];
        if let Some(record) = find_record(records, pair.as_str()) {
            let base = match &record.base {
                Some(b) => b.clone(),
                None => String::new(),
            };
            let info = PairInfo {
                pair: pair.clone(),
                rest_key: record.rest_key.clone(),
                exchange_base_asset: base,
                price_decimals: read_decimals(record.pair_decimals),
                qty_decimals: read_decimals(record.lot_decimals),
                min_order_qty: read_amount(&record.ordermin),
                min_cost: read_amount(&record.costmin),
                maker_fee_pct: record.maker_fee_pct,
            };
            assert(info@ =~= info_of(*record, pair@));
            r.insert(pair.clone(), info);
        }
        i = i + 1;
    }
    assert(all.take(i as int) =~= all);
    r
}

/// The keys to ask tickers for, between commas.
pub open spec fn joined(keys: Seq<Seq<char>>) -> Seq<char>
    decreases keys.len(),
{
    if keys.len() == 0 {
        Seq::empty()
    } else if keys.len() == 1 {
        keys[0]
    } else {
        joined(keys.drop_last()) + ","@ + keys.last()
    }
}

/// The REST keys of some pairs.
pub open spec fn rest_keys(infos: Entries<PairInfoView>) -> Seq<Seq<char>> {
    infos.map_values(|e: (Seq<char>, PairInfoView)| e.1.rest_key)
}

/// The list of REST keys to ask tickers for.
pub fn ticker_param(infos: &StrMap<PairInfo>) -> (r: String)
    ensures
        r@ == joined(rest_keys(infos@)),
{
    let ghost keys = rest_keys(infos@);
    let n: usize = infos.len();
    let mut r = String::new();
    let mut i: usize = 0;
    assert(r@ =~= joined(keys.take(0)));
    while i < n
        invariant
            i <= n == infos@.len(),
            keys == rest_keys(infos@),
            r@ == joined(keys.take(i as int)),
        decreases n - i,
    {
        proof {
            assert(keys.take(i + 1).drop_last() =~= keys.take(i as int));
            assert(keys.take(i + 1).last() == keys[i as int]);
        }
        if i > 0 {
            r.append(",");
        } else {
            assert(joined(keys.take(0)) =~= Seq::empty());
        }
        r.append(infos.value_at(i).rest_key.as_str());
        proof {
            if i == 0 {
                assert(r@ =~= keys.take(1)[0]);
            }
        }
        i = i + 1;
    }
    assert(keys.take(i as int) =~= keys);
    r
}

/// A pair in a reply on tickers: the opening price, the last price and the volume of a day.
#[derive(Debug)]
pub struct TickerRecord {
    pub rest_key: String,
    pub open: Option<String>,
    pub close: Option<String>,
    pub volume_24h: Option<String>,
}

/// The pair with a REST key: the last one, should several have it.
pub open spec fn pair_with_key(infos: Entries<PairInfoView>, key: Seq<char>) -> Option<Seq<char>>
    decreases infos.len(),
{
    if infos.len() == 0 {
        None
    } else if infos.last().1.rest_key == key {
        Some(infos.last().0)
    } else {
        pair_with_key(infos.drop_last(), key)
    }
}

/// The change from one price to another, in percent; zero if there is no first one. `None` on
/// overflow.
pub open spec fn change_percent(open: Decimal, close: Decimal) -> Option<Decimal> {
    if open.m() == 0 {
        Some(Decimal::of(0, 0))
    } else {
        times(over(difference(close, open), Some(open)), Some(Decimal::of(100, 0)))
    }
}

/// What a ticker record says. `None` on overflow.
pub open spec fn ticker_of(record: TickerRecord) -> Option<TickerData> {
    let open = amount(opt_text(record.open));
    let close = amount(opt_text(record.close));
    match change_percent(open, close) {
        Some(change_pct) => Some(
            TickerData {
                open,
                close,
                volume_24h: amount(opt_text(record.volume_24h)),
                change_pct,
            },
        ),
        None => None,
    }
}

/// What some ticker records say of known pairs. `None` on overflow.
pub open spec fn tickers_of(records: Seq<TickerRecord>, infos: Entries<PairInfoView>) -> Option<
    Entries<TickerData>,
>
    decreases records.len(),
{
    if records.len() == 0 {
        Some(Seq::empty())
    } else {
        match tickers_of(records.drop_last(), infos) {
            Some(rest) => match pair_with_key(infos, records.last().rest_key@) {
                Some(pair) => match ticker_of(records.last()) {
                    Some(t) => Some(stored(rest, pair, t)),
                    None => None,
                },
                None => Some(rest),
            },
            None => None,
        }
    }
}

proof fn lemma_tickers_stop(records: Seq<TickerRecord>, infos: Entries<PairInfoView>, i: int)
    requires
        0 <= i <= records.len(),
        tickers_of(records.take(i), infos) is None,
    ensures
        tickers_of(records, infos) is None,
    decreases records.len() - i,
{
    if i == records.len() {
        assert(records.take(i) =~= records);
    } else {
        assert(records.take(i + 1).drop_last() =~= records.take(i));
        lemma_tickers_stop(records, infos, i + 1);
    }
}

fn find_pair<'a>(infos: &'a StrMap<PairInfo>, key: &str) -> (r: Option<&'a String>)
    ensures
        match r {
            Some(x) => pair_with_key(infos@, key@) == Some(x@),
            None => pair_with_key(infos@, key@) is None,
        },
{
    let mut i: usize = infos.len();
    assert(infos@.take(i as int) =~= infos@);
    while i > 0
        invariant
            i <= infos@.len(),
            pair_with_key(infos@.take(i as int), key@) == pair_with_key(infos@, key@),
        decreases i,
    {
        proof {
            assert(infos@.take(i as int).drop_last() =~= infos@.take(i - 1));
            assert(infos@.take(i as int).last() == infos@[i - 1]);
        }
        if str_eq(infos.value_at(i - 1).rest_key.as_str(), key) {
            return Some(infos.key_at(i - 1));
        }
        i = i - 1;
    }
    None
}

/// The tickers of known pairs. `None` on overflow.
pub fn tickers(records: &Vec<TickerRecord>, infos: &StrMap<PairInfo>) -> (r: Option<
    StrMap<TickerData>,
>)
    ensures
        match tickers_of(records@, infos@) {
            Some(s) => r is Some && r.unwrap()@ == s,
            None => r is None,
        },
{
    let mut r: StrMap<TickerData> = StrMap::new();
    let mut i: usize = 0;
    assert(records@.take(0).len() == 0);
    while i < records.len()
        invariant
            i <= records.len(),
            tickers_of(records@.take(i as int), infos@) == Some(r@),
        decreases records.len() - i,
    {
        proof {
            assert(records@.take(i + 1).drop_last() =~= records@.take(i as int));
            assert(records@.take(i + 1).last() == records@[i as int]);
        }
        let record = &records[i];
        if let Some(pair) = find_pair(infos, record.rest_key.as_str()) {
            let open = read_amount(&record.open);
            let close = read_amount(&record.close);
            let volume_24h = read_amount(&record.volume_24h);
            let change = if open.is_zero() {
                Some(Decimal::zero())
            } else {
                times(
                    over(minus(Some(close), Some(open)), Some(open)),
                    Some(Decimal::new(100, 0)),
                )
            };
            match change {
                Some(change_pct) => {
                    r.insert(pair.clone(), TickerData { open, close, volume_24h, change_pct });
                },
                None => {
                    proof {
                        lemma_tickers_stop(records@, infos@, i + 1);
                    }
                    return None;
                },
            }
        }
        i = i + 1;
    }
    assert(records@.take(i as int) =~= records@);
    Some(r)
}

/// An asset and the text of its balance.
#[derive(Debug)]
pub struct BalanceRecord {
    pub asset: String,
    pub balance: Option<String>,
}

/// The balances in a reply; what is no number is passed over.
pub open spec fn balances_of(records: Seq<BalanceRecord>) -> Entries<Decimal>
    decreases records.len(),
{
    if records.len() == 0 {
        Seq::empty()
    } else {
        let rest = balances_of(records.drop_last());
        match records.last().balance {
            Some(t) => match assembled(parsed_decimal(t@)) {
                Some(d) => stored(rest, records.last().asset@, d),
                None => rest,
            },
            None => rest,
        }
    }
}

/// The balances in a reply; what is no number is passed over.
pub fn balances(records: &Vec<BalanceRecord>) -> (r: StrMap<Decimal>)
    ensures
        r@ == balances_of(records@),
{
    let mut r: StrMap<Decimal> = StrMap::new();
    let mut i: usize = 0;
    while i < records.len()
        invariant
            i <= records.len(),
            r@ == balances_of(records@.take(i as int)),
        decreases records.len() - i,
    {
        proof {
            assert(records@.take(i + 1).drop_last() =~= records@.take(i as int));
            assert(records@.take(i + 1).last() == records@[i as int]);
        }
        if let Some(t) = &records[i].balance {
            if let Some(d) = Decimal::parse(t.as_str()) {
                r.insert(records[i].asset.clone(), d);
            }
        }
        i = i + 1;
    }
    assert(records@.take(i as int) =~= records@);
    r
}

/// A price that has not moved has not changed.
pub proof fn no_move_no_change(price: Decimal)
    requires
        price.valid(),
    ensures
        change_percent(price, price) is Some,
        change_percent(price, price).unwrap().m() == 0,
{
    lemma_of(0, 0);
    lemma_of(0, price.s());
}

} // verus!
