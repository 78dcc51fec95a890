//! The state the bot keeps between events.
use crate::collections::{lookup, Dup, Entries, StrMap, StrSet};
use crate::decimal::{plus, product, Decimal};
use crate::position::{no_position, Position};
use crate::time::Timestamp;
use crate::types::OrderSide;
use vstd::prelude::*;

verus! {

/// An order the engine is tracking.
#[derive(Clone, Debug)]
pub struct TrackedOrder {
    pub cl_ord_id: String,
    pub pair: String,
    pub side: OrderSide,
    pub price: Decimal,
    pub qty: Decimal,
    pub placed_at: Timestamp,
    /// Whether the exchange has acknowledged this order (safe to amend).
    pub acked: bool,
}

/// Model of [`TrackedOrder`].
#[verifier::ext_equal]
pub struct TrackedOrderView {
    pub cl_ord_id: Seq<char>,
    pub pair: Seq<char>,
    pub side: OrderSide,
    pub price: Decimal,
    pub qty: Decimal,
    pub placed_at: Timestamp,
    pub acked: bool,
}

impl View for TrackedOrder {
    type V = TrackedOrderView;

    open spec fn view(&self) -> TrackedOrderView {
        TrackedOrderView {
            cl_ord_id: self.cl_ord_id@,
            pair: self.pair@,
            side: self.side,
            price: self.price,
            qty: self.qty,
            placed_at: self.placed_at,
            acked: self.acked,
        }
    }
}

impl Dup for TrackedOrder {
    fn dup(&self) -> (r: TrackedOrder) {
        TrackedOrder {
            cl_ord_id: self.cl_ord_id.clone(),
            pair: self.pair.clone(),
            side: self.side,
            price: self.price,
            qty: self.qty,
            placed_at: self.placed_at,
            acked: self.acked,
        }
    }
}

/// Full bot state, kept across restarts.
pub struct BotState {
    pub positions: StrMap<Position>,
    pub open_orders: StrMap<TrackedOrder>,
    pub realized_pnl: Decimal,
    pub total_fees: Decimal,
    pub trade_count: u64,
    pub started_at: Timestamp,
    pub paused: bool,
    /// Pairs on post-liquidation cooldown and when it ends.
    pub cooldown_until: StrMap<Timestamp>,
    /// Pairs explicitly disabled.
    pub disabled_pairs: StrSet,
}

/// Model of [`BotState`].
#[verifier::ext_equal]
pub struct BotStateView {
    pub positions: Entries<Position>,
    pub open_orders: Entries<TrackedOrderView>,
    pub realized_pnl: Decimal,
    pub total_fees: Decimal,
    pub trade_count: u64,
    pub started_at: Timestamp,
    pub paused: bool,
    pub cooldown_until: Entries<Timestamp>,
    pub disabled_pairs: Entries<()>,
}

impl View for BotState {
    type V = BotStateView;

    open spec fn view(&self) -> BotStateView {
        BotStateView {
            positions: self.positions@,
            open_orders: self.open_orders@,
            realized_pnl: self.realized_pnl,
            total_fees: self.total_fees,
            trade_count: self.trade_count,
            started_at: self.started_at,
            paused: self.paused,
            cooldown_until: self.cooldown_until@,
            disabled_pairs: self.disabled_pairs@,
        }
    }
}

impl Dup for BotState {
    fn dup(&self) -> (r: BotState) {
        BotState {
            positions: self.positions.dup(),
            open_orders: self.open_orders.dup(),
            realized_pnl: self.realized_pnl,
            total_fees: self.total_fees,
            trade_count: self.trade_count,
            started_at: self.started_at,
            paused: self.paused,
            cooldown_until: self.cooldown_until.dup(),
            disabled_pairs: self.disabled_pairs.dup(),
        }
    }
}

/// The holding in a pair: the empty one if none is recorded.
pub open spec fn position_of(positions: Entries<Position>, pair: Seq<char>) -> Position {
    match lookup(positions, pair) {
        Some(p) => p,
        None => no_position(),
    }
}

/// What the holdings `positions` are worth at the known prices; pairs without a price count
/// nothing. `None` on overflow.
pub open spec fn exposure(positions: Entries<Position>, prices: Entries<Decimal>) -> Option<Decimal>
    decreases positions.len(),
{
    if positions.len() == 0 {
        Some(Decimal::of(0, 0))
    } else {
        let before = exposure(positions.drop_last(), prices);
        match lookup(prices, positions.last().0) {
            Some(price) => plus(before, product(positions.last().1.qty, price)),
            None => before,
        }
    }
}

impl BotState {
    /// The holding in a pair.
    pub fn position(&self, pair: &str) -> (r: Position)
        ensures
            r == position_of(self@.positions, pair@),
    {
        match self.positions.get(pair) {
            Some(p) => *p,
            None => Position::new(),
        }
    }

    /// What the holding in a pair is worth at a price. `None` on overflow.
    pub fn pair_exposure_usd(&self, pair: &str, price: Decimal) -> (r: Option<Decimal>)
        ensures
            r == product(position_of(self@.positions, pair@).qty, price),
    {
        self.position(pair).value_at(price)
    }

    /// What all holdings are worth at the known prices. `None` on overflow.
    pub fn total_exposure_usd(&self, prices: &StrMap<Decimal>) -> (r: Option<Decimal>)
        ensures
            r == exposure(self@.positions, prices@),
    {
        let n: usize = self.positions.len();
        let mut total: Option<Decimal> = Some(Decimal::zero());
        let mut i: usize = 0;
        let ghost all = self.positions@;
        assert(all.take(0).len() == 0);
        while i < n
            invariant
                i <= n == all.len(),
                all == self.positions@,
                total == exposure(all.take(i as int), prices@),
            decreases n - i,
        {
            proof {
                assert(all.take(i + 1).drop_last() =~= all.take(i as int));
                assert(all.take(i + 1).last() == all[i as int]);
            }
            if let Some(price) = prices.get(self.positions.key_at(i).as_str()) {
                total = plus(total, self.positions.value_at(i).value_at(*price));
            }
            i = i + 1;
        }
        assert(all.take(n as int) =~= all);
        total
    }
}

impl Default for BotState {
    fn default() -> (r: BotState)
        ensures
            r@ == (BotStateView {
                positions: Seq::empty(),
                open_orders: Seq::empty(),
                realized_pnl: Decimal::of(0, 0),
                total_fees: Decimal::of(0, 0),
                trade_count: 0,
                started_at: Timestamp::of(0, 0),
                paused: false,
                cooldown_until: Seq::empty(),
                disabled_pairs: Seq::empty(),
            }),
    {
        BotState {
            positions: StrMap::new(),
            open_orders: StrMap::new(),
            realized_pnl: Decimal::zero(),
            total_fees: Decimal::zero(),
            trade_count: 0,
            started_at: Timestamp::epoch(),
            paused: false,
            cooldown_until: StrMap::new(),
            disabled_pairs: StrMap::new(),
        }
    }
}

} // verus!
