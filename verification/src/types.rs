//! Orders, fills, pairs and the other values that pass through the engine.
use crate::collections::Dup;
use crate::decimal::Decimal;
use crate::text::str_eq;
use crate::time::Timestamp;
use vstd::prelude::*;

verus! {

/// Side of an order.
#[derive(Clone, Copy, Debug, PartialEq, Eq, Structural)]
pub enum OrderSide {
    Buy,
    Sell,
}

/// How a side is written: `buy` or `sell`.
pub open spec fn side_text(side: OrderSide) -> Seq<char> {
    match side {
        OrderSide::Buy => "buy"@,
        OrderSide::Sell => "sell"@,
    }
}

/// The side a word stands for: anything but `buy` is a sell.
pub open spec fn side_of(word: Seq<char>) -> OrderSide {
    if word == "buy"@ {
        OrderSide::Buy
    } else {
        OrderSide::Sell
    }
}

impl OrderSide {
    /// The side as a word.
    pub fn as_str(&self) -> (r: &'static str)
        ensures
            r@ == side_text(*self),
    {
        match self {
            OrderSide::Buy => "buy",
            OrderSide::Sell => "sell",
        }
    }

    /// The side a word stands for.
    pub fn from_word(word: &str) -> (r: OrderSide)
        ensures
            r == side_of(word@),
    {
        if str_eq(word, "buy") {
            OrderSide::Buy
        } else {
            OrderSide::Sell
        }
    }
}

/// A side survives being written and read back.
pub proof fn side_words_round_trip(side: OrderSide)
    ensures
        side_of(side_text(side)) == side,
{
    reveal_strlit("buy");
    reveal_strlit("sell");
    assert("buy"@.len() == 3);
    assert("sell"@.len() == 4);
}

/// One price level of a book message; quantity zero removes the level.
#[derive(Clone, Copy, Debug)]
pub struct LevelUpdate {
    pub price: Decimal,
    pub qty: Decimal,
}

/// 24h ticker data for a trading pair.
#[derive(Clone, Copy, Debug)]
pub struct TickerData {
    pub open: Decimal,
    pub close: Decimal,
    pub volume_24h: Decimal,
    pub change_pct: Decimal,
}

impl View for TickerData {
    type V = TickerData;

    open spec fn view(&self) -> TickerData {
        *self
    }
}

/// What the exchange says of a trading pair.
#[derive(Clone, Debug)]
pub struct PairInfo {
    pub pair: String,
    pub rest_key: String,
    pub exchange_base_asset: String,
    pub price_decimals: u32,
    pub qty_decimals: u32,
    pub min_order_qty: Decimal,
    pub min_cost: Decimal,
    pub maker_fee_pct: Decimal,
}

/// Model of [`PairInfo`].
#[verifier::ext_equal]
pub struct PairInfoView {
    pub pair: Seq<char>,
    pub rest_key: Seq<char>,
    pub exchange_base_asset: Seq<char>,
    pub price_decimals: u32,
    pub qty_decimals: u32,
    pub min_order_qty: Decimal,
    pub min_cost: Decimal,
    pub maker_fee_pct: Decimal,
}

impl View for PairInfo {
    type V = PairInfoView;

    open spec fn view(&self) -> PairInfoView {
        PairInfoView {
            pair: self.pair@,
            rest_key: self.rest_key@,
            exchange_base_asset: self.exchange_base_asset@,
            price_decimals: self.price_decimals,
            qty_decimals: self.qty_decimals,
            min_order_qty: self.min_order_qty,
            min_cost: self.min_cost,
            maker_fee_pct: self.maker_fee_pct,
        }
    }
}

impl Dup for PairInfo {
    fn dup(&self) -> (r: PairInfo) {
        PairInfo {
            pair: self.pair.clone(),
            rest_key: self.rest_key.clone(),
            exchange_base_asset: self.exchange_base_asset.clone(),
            price_decimals: self.price_decimals,
            qty_decimals: self.qty_decimals,
            min_order_qty: self.min_order_qty,
            min_cost: self.min_cost,
            maker_fee_pct: self.maker_fee_pct,
        }
    }
}

/// An execution of (part of) an order.
#[derive(Clone, Debug)]
pub struct Fill {
    pub order_id: String,
    pub cl_ord_id: String,
    pub pair: String,
    pub side: OrderSide,
    pub price: Decimal,
    pub qty: Decimal,
    pub fee: Decimal,
    pub is_maker: bool,
    pub is_fully_filled: bool,
    pub timestamp: Timestamp,
}

/// Model of [`Fill`].
#[verifier::ext_equal]
pub struct FillView {
    pub order_id: Seq<char>,
    pub cl_ord_id: Seq<char>,
    pub pair: Seq<char>,
    pub side: OrderSide,
    pub price: Decimal,
    pub qty: Decimal,
    pub fee: Decimal,
    pub is_maker: bool,
    pub is_fully_filled: bool,
    pub timestamp: Timestamp,
}

impl View for Fill {
    type V = FillView;

    open spec fn view(&self) -> FillView {
        FillView {
            order_id: self.order_id@,
            cl_ord_id: self.cl_ord_id@,
            pair: self.pair@,
            side: self.side,
            price: self.price,
            qty: self.qty,
            fee: self.fee,
            is_maker: self.is_maker,
            is_fully_filled: self.is_fully_filled,
            timestamp: self.timestamp,
        }
    }
}

impl Dup for Fill {
    fn dup(&self) -> (r: Fill) {
        Fill {
            order_id: self.order_id.clone(),
            cl_ord_id: self.cl_ord_id.clone(),
            pair: self.pair.clone(),
            side: self.side,
            price: self.price,
            qty: self.qty,
            fee: self.fee,
            is_maker: self.is_maker,
            is_fully_filled: self.is_fully_filled,
            timestamp: self.timestamp,
        }
    }
}

/// A line of the trade log.
#[derive(Clone, Debug)]
pub struct TradeRecord {
    pub timestamp: Timestamp,
    pub pair: String,
    pub side: String,
    pub price: Decimal,
    pub qty: Decimal,
    pub value_usd: Decimal,
    pub fee: Decimal,
    pub pnl: Decimal,
    pub cumulative_pnl: Decimal,
}

/// Model of [`TradeRecord`].
#[verifier::ext_equal]
pub struct TradeRecordView {
    pub timestamp: Timestamp,
    pub pair: Seq<char>,
    pub side: Seq<char>,
    pub price: Decimal,
    pub qty: Decimal,
    pub value_usd: Decimal,
    pub fee: Decimal,
    pub pnl: Decimal,
    pub cumulative_pnl: Decimal,
}

impl View for TradeRecord {
    type V = TradeRecordView;

    open spec fn view(&self) -> TradeRecordView {
        TradeRecordView {
            timestamp: self.timestamp,
            pair: self.pair@,
            side: self.side@,
            price: self.price,
            qty: self.qty,
            value_usd: self.value_usd,
            fee: self.fee,
            pnl: self.pnl,
            cumulative_pnl: self.cumulative_pnl,
        }
    }
}

/// An order to be placed.
#[derive(Clone, Debug)]
pub struct OrderRequest {
    pub cl_ord_id: String,
    pub pair: String,
    pub side: OrderSide,
    pub price: Decimal,
    pub qty: Decimal,
    pub post_only: bool,
    pub market: bool,
    /// Whether the order may pass by the rate limit, as liquidations do.
    pub urgent: bool,
}

/// Model of [`OrderRequest`].
#[verifier::ext_equal]
pub struct OrderRequestView {
    pub cl_ord_id: Seq<char>,
    pub pair: Seq<char>,
    pub side: OrderSide,
    pub price: Decimal,
    pub qty: Decimal,
    pub post_only: bool,
    pub market: bool,
    pub urgent: bool,
}

impl View for OrderRequest {
    type V = OrderRequestView;

    open spec fn view(&self) -> OrderRequestView {
        OrderRequestView {
            cl_ord_id: self.cl_ord_id@,
            pair: self.pair@,
            side: self.side,
            price: self.price,
            qty: self.qty,
            post_only: self.post_only,
            market: self.market,
            urgent: self.urgent,
        }
    }
}

} // verus!
