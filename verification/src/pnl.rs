//! Profit and loss over a history of fills.
use crate::collections::{
    dup_all, lookup, push_value, stored, stored_then_lookup, views, without, Dup, Entries, StrMap,
};
use crate::decimal::{
    difference, lemma_at_own_scale, lemma_of, less, lifted, minus, negated, plus, pow10, sum, times,
    Decimal,
};
use crate::position::{
    bought, exact_value, first_purchase_costs_its_price, no_position, positive, sale_pnl, sold,
    Position,
};
use crate::state::position_of;
use crate::time::Timestamp;
use crate::types::{side_text, Fill, FillView, OrderSide};
use vstd::prelude::*;

verus! {

/// How many trades are kept in memory.
pub const MAX_TRADES: usize = 1000;

/// A recorded trade.
#[derive(Clone, Debug)]
pub struct PnlTrade {
    pub timestamp: Timestamp,
    pub pair: String,
    pub side: String,
    pub price: Decimal,
    pub qty: Decimal,
    pub fee: Decimal,
    pub pnl: Decimal,
}

/// Model of [`PnlTrade`].
#[verifier::ext_equal]
pub struct PnlTradeView {
    pub timestamp: Timestamp,
    pub pair: Seq<char>,
    pub side: Seq<char>,
    pub price: Decimal,
    pub qty: Decimal,
    pub fee: Decimal,
    pub pnl: Decimal,
}

impl View for PnlTrade {
    type V = PnlTradeView;

    open spec fn view(&self) -> PnlTradeView {
        PnlTradeView {
            timestamp: self.timestamp,
            pair: self.pair@,
            side: self.side@,
            price: self.price,
            qty: self.qty,
            fee: self.fee,
            pnl: self.pnl,
        }
    }
}

impl Dup for PnlTrade {
    fn dup(&self) -> (r: PnlTrade) {
        PnlTrade {
            timestamp: self.timestamp,
            pair: self.pair.clone(),
            side: self.side.clone(),
            price: self.price,
            qty: self.qty,
            fee: self.fee,
            pnl: self.pnl,
        }
    }
}

/// Summary of the results.
pub struct PnlSummary {
    pub realized_pnl: Decimal,
    pub unrealized_pnl: Decimal,
    pub total_fees: Decimal,
    pub net_pnl: Decimal,
    pub trade_count: u64,
    pub positions: StrMap<Position>,
}

/// Maintains positions, results and trade history.
pub struct PnlTracker {
    pub positions: StrMap<Position>,
    pub realized_pnl: Decimal,
    pub total_fees: Decimal,
    pub trade_count: u64,
    pub recent_trades: Vec<PnlTrade>,
    /// How many recent trades are kept.
    pub max_trades: usize,
}

/// Model of [`PnlTracker`].
#[verifier::ext_equal]
pub struct PnlView {
    pub positions: Entries<Position>,
    pub realized_pnl: Decimal,
    pub total_fees: Decimal,
    pub trade_count: u64,
    pub trades: Seq<PnlTradeView>,
    pub max_trades: usize,
}

impl View for PnlTracker {
    type V = PnlView;

    open spec fn view(&self) -> PnlView {
        PnlView {
            positions: self.positions@,
            realized_pnl: self.realized_pnl,
            total_fees: self.total_fees,
            trade_count: self.trade_count,
            trades: views(self.recent_trades@),
            max_trades: self.max_trades,
        }
    }
}

/// The last `n` items of a list, or all of it if it is shorter.
pub open spec fn last_of<T>(s: Seq<T>, n: int) -> Seq<T> {
    if s.len() > n {
        s.skip(s.len() - n)
    } else {
        s
    }
}

/// What the holdings have gained at the known prices; pairs without a price count nothing.
/// `None` on overflow.
pub open spec fn unrealized(positions: Entries<Position>, prices: Entries<Decimal>) -> Option<
    Decimal,
>
    decreases positions.len(),
{
    if positions.len() == 0 {
        Some(Decimal::of(0, 0))
    } else {
        let before = unrealized(positions.drop_last(), prices);
        let p = positions.last().1;
        match lookup(prices, positions.last().0) {
            Some(price) => plus(before, times(Some(p.qty), difference(price, p.avg_cost))),
            None => before,
        }
    }
}

impl PnlView {
    /// A tracker without history.
    pub open spec fn fresh() -> PnlView {
        PnlView {
            positions: Seq::empty(),
            realized_pnl: Decimal::of(0, 0),
            total_fees: Decimal::of(0, 0),
            trade_count: 0,
            trades: Seq::empty(),
            max_trades: MAX_TRADES,
        }
    }

    /// The profit a fill realizes, after its fee; zero for a buy. `None` on overflow.
    pub open spec fn gain(self, fill: FillView) -> Option<Decimal> {
        match fill.side {
            OrderSide::Buy => Some(Decimal::of(0, 0)),
            OrderSide::Sell => minus(
                sale_pnl(position_of(self.positions, fill.pair), fill.qty, fill.price),
                Some(fill.fee),
            ),
        }
    }

    /// The holdings after a fill; a holding that is sold off is forgotten. `None` on overflow.
    pub open spec fn held_after(self, fill: FillView) -> Option<Entries<Position>> {
        let held = position_of(self.positions, fill.pair);
        match fill.side {
            OrderSide::Buy => match bought(held, fill.qty, fill.price) {
                Some(p) => Some(stored(self.positions, fill.pair, p)),
                None => None,
            },
            OrderSide::Sell => match sold(held, fill.qty) {
                Some(p) => Some(
                    if positive(p.qty) {
                        stored(self.positions, fill.pair, p)
                    } else {
                        without(self.positions, fill.pair)
                    },
                ),
                None => None,
            },
        }
    }

    /// The tracker after a fill. `None` on overflow.
    pub open spec fn after(self, fill: FillView) -> Option<PnlView> {
        let realized = match fill.side {
            OrderSide::Buy => Some(self.realized_pnl),
            OrderSide::Sell => plus(Some(self.realized_pnl), self.gain(fill)),
        };
        match (
            self.gain(fill),
            self.held_after(fill),
            realized,
            sum(self.total_fees, fill.fee),
        ) {
            (Some(pnl), Some(positions), Some(realized_pnl), Some(total_fees)) => if self.trade_count
                == u64::MAX {
                None
            } else {
                let trade = PnlTradeView {
                    timestamp: fill.timestamp,
                    pair: fill.pair,
                    side: side_text(fill.side),
                    price: fill.price,
                    qty: fill.qty,
                    fee: fill.fee,
                    pnl,
                };
                Some(
                    PnlView {
                        positions,
                        realized_pnl,
                        total_fees,
                        trade_count: (self.trade_count + 1) as u64,
                        trades: last_of(self.trades.push(trade), self.max_trades as int),
                        max_trades: self.max_trades,
                    },
                )
            },
            _ => None,
        }
    }

    /// The purchase that is made up for a sell of more than is held: the missing quantity at the
    /// sell's own price, free of charge, so that it realizes nothing. `Some(None)` if enough is
    /// held; `None` on overflow.
    pub open spec fn made_up(self, fill: FillView) -> Option<Option<FillView>> {
        let held = position_of(self.positions, fill.pair).qty;
        if fill.side == OrderSide::Sell && less(held, fill.qty) {
            match difference(fill.qty, held) {
                Some(missing) => Some(
                    Some(
                        FillView {
                            order_id: Seq::empty(),
                            cl_ord_id: Seq::empty(),
                            pair: fill.pair,
                            side: OrderSide::Buy,
                            price: fill.price,
                            qty: missing,
                            fee: Decimal::of(0, 0),
                            is_maker: false,
                            is_fully_filled: true,
                            timestamp: fill.timestamp,
                        },
                    ),
                ),
                None => None,
            }
        } else {
            Some(None)
        }
    }

    /// The tracker after a fill of which an earlier purchase may be missing. `None` on overflow.
    pub open spec fn after_seeded(self, fill: FillView) -> Option<PnlView> {
        match self.made_up(fill) {
            Some(Some(seed)) => match self.after(seed) {
                Some(t) => t.after(fill),
                None => None,
            },
            Some(None) => self.after(fill),
            None => None,
        }
    }

    /// The tracker after a history of fills. `None` on overflow.
    pub open spec fn after_history(self, fills: Seq<FillView>) -> Option<PnlView>
        decreases fills.len(),
    {
        if fills.len() == 0 {
            Some(self)
        } else {
            match self.after_history(fills.drop_last()) {
                Some(t) => t.after_seeded(fills.last()),
                None => None,
            }
        }
    }
}

proof fn lemma_history_prefix(t: PnlView, fills: Seq<FillView>, i: int)
    requires
        0 <= i <= fills.len(),
        t.after_history(fills.take(i)) is None,
    ensures
        t.after_history(fills) is None,
    decreases fills.len() - i,
{
    if i < fills.len() {
        assert(fills.take(i + 1).drop_last() =~= fills.take(i));
        lemma_history_prefix(t, fills, i + 1);
    } else {
        assert(fills.take(i) =~= fills);
    }
}

impl PnlTracker {
    /// A tracker without history.
    pub fn new() -> (r: PnlTracker)
        ensures
            r@ == PnlView::fresh(),
    {
        let r = PnlTracker {
            positions: StrMap::new(),
            realized_pnl: Decimal::zero(),
            total_fees: Decimal::zero(),
            trade_count: 0,
            recent_trades: Vec::new(),
            max_trades: MAX_TRADES,
        };
        assert(r@ =~= PnlView::fresh());
        r
    }

    /// Applies a fill. `None`, with nothing changed, if an amount overflows.
    pub fn apply_fill(&mut self, fill: &Fill) -> (r: Option<()>)
        ensures
            match old(self)@.after(fill@) {
                Some(t) => r is Some && final(self)@ == t,
                None => r is None && final(self)@ == old(self)@,
            },
    {
        let mut held = match self.positions.get(fill.pair.as_str()) {
            Some(p) => *p,
            None => Position::new(),
        };
        let mut pnl = Decimal::zero();
        let mut realized_pnl = self.realized_pnl;
        match fill.side {
            OrderSide::Buy => {
                held.apply_buy(fill.qty, fill.price)?;
            },
            OrderSide::Sell => {
                let gain = held.apply_sell(fill.qty, fill.price)?;
                pnl = gain.checked_sub(fill.fee)?;
                realized_pnl = self.realized_pnl.checked_add(pnl)?;
            },
        }
        let total_fees = self.total_fees.checked_add(fill.fee)?;
        if self.trade_count == u64::MAX {
            return None;
        }
        let forget = match fill.side {
            OrderSide::Buy => false,
            OrderSide::Sell => held.is_empty(),
        };
        if forget {
            self.positions.remove(fill.pair.as_str());
        } else {
            self.positions.insert(fill.pair.clone(), held);
        }
        self.realized_pnl = realized_pnl;
        self.total_fees = total_fees;
        self.trade_count = self.trade_count + 1;
        push_value(
            &mut self.recent_trades,
            PnlTrade {
                timestamp: fill.timestamp,
                pair: fill.pair.clone(),
                side: fill.side.as_str().to_owned(),
                price: fill.price,
                qty: fill.qty,
                fee: fill.fee,
                pnl,
            },
        );
        let ghost all = views(self.recent_trades@);
        if self.recent_trades.len() > self.max_trades {
            let excess: usize = self.recent_trades.len() - self.max_trades;
            let kept = self.recent_trades.split_off(excess);
            self.recent_trades = kept;
        }
        assert(views(self.recent_trades@) =~= last_of(all, self.max_trades as int));
        Some(())
    }

    /// What the holdings have gained at the given prices. `None` on overflow.
    pub fn unrealized_pnl(&self, prices: &StrMap<Decimal>) -> (r: Option<Decimal>)
        ensures
            r == unrealized(self@.positions, prices@),
    {
        let n: usize = self.positions.len();
        let mut total: Option<Decimal> = Some(Decimal::zero());
        let mut i: usize = 0;
        let ghost all = self.positions@;
        assert(all.take(0).len() == 0);
        while i < n
            invariant
                i <= n == all.len(),
                all == self.positions@,
                total == unrealized(all.take(i as int), prices@),
            decreases n - i,
        {
            proof {
                assert(all.take(i + 1).drop_last() =~= all.take(i as int));
                assert(all.take(i + 1).last() == all[i as int]);
            }
            let p = self.positions.value_at(i);
            if let Some(price) = prices.get(self.positions.key_at(i).as_str()) {
                total = plus(total, times(Some(p.qty), price.checked_sub(p.avg_cost)));
            }
            i = i + 1;
        }
        assert(all.take(n as int) =~= all);
        total
    }

    /// A full summary at the given prices. `None` on overflow.
    pub fn summary(&self, prices: &StrMap<Decimal>) -> (r: Option<PnlSummary>)
        ensures
            match (
                unrealized(self@.positions, prices@),
                plus(Some(self@.realized_pnl), unrealized(self@.positions, prices@)),
            ) {
                (Some(unrealized_pnl), Some(net_pnl)) => {
                    &&& r matches Some(s)
                    &&& s.realized_pnl == self@.realized_pnl
                    &&& s.unrealized_pnl == unrealized_pnl
                    &&& s.total_fees == self@.total_fees
                    &&& s.net_pnl == net_pnl
                    &&& s.trade_count == self@.trade_count
                    &&& s.positions@ == self@.positions
                },
                _ => r is None,
            },
    {
        let unrealized_pnl = self.unrealized_pnl(prices)?;
        let net_pnl = self.realized_pnl.checked_add(unrealized_pnl)?;
        Some(
            PnlSummary {
                realized_pnl: self.realized_pnl,
                unrealized_pnl,
                total_fees: self.total_fees,
                net_pnl,
                trade_count: self.trade_count,
                positions: self.positions.dup(),
            },
        )
    }

    fn apply_seeded(&mut self, fill: &Fill) -> (r: Option<()>)
        ensures
            match old(self)@.after_seeded(fill@) {
                Some(t) => r is Some && final(self)@ == t,
                None => r is None,
            },
    {
        if fill.side == OrderSide::Sell {
            let held = match self.positions.get(fill.pair.as_str()) {
                Some(p) => p.qty,
                None => Decimal::zero(),
            };
            if held < fill.qty {
                let missing = fill.qty.checked_sub(held)?;
                let seed = Fill {
                    order_id: String::new(),
                    cl_ord_id: String::new(),
                    pair: fill.pair.clone(),
                    side: OrderSide::Buy,
                    price: fill.price,
                    qty: missing,
                    fee: Decimal::zero(),
                    is_maker: false,
                    is_fully_filled: true,
                    timestamp: fill.timestamp,
                };
                self.apply_fill(&seed)?;
            }
        }
        self.apply_fill(fill)
    }

    /// The tracker a trade history leads to, oldest trade first. A sell of more than was bought
    /// before is taken to break even: a purchase of the missing quantity at its price is made up.
    /// `None` if an amount overflows.
    pub fn from_history(fills: &Vec<Fill>) -> (r: Option<PnlTracker>)
        ensures
            match PnlView::fresh().after_history(views(fills@)) {
                Some(t) => r matches Some(tracker) && tracker@ == t,
                None => r is None,
            },
    {
        let mut tracker = PnlTracker::new();
        let mut i: usize = 0;
        let ghost all = views(fills@);
        let ghost t0 = PnlView::fresh();
        assert(all.take(0).len() == 0);
        while i < fills.len()
            invariant
                i <= fills.len(),
                all == views(fills@),
                t0 == PnlView::fresh(),
                t0.after_history(all.take(i as int)) == Some(tracker@),
            decreases fills.len() - i,
        {
            proof {
                assert(all.take(i + 1).drop_last() =~= all.take(i as int));
                assert(all.take(i + 1).last() == all[i as int]);
            }
            if tracker.apply_seeded(&fills[i]).is_none() {
                proof {
                    lemma_history_prefix(t0, all, i + 1);
                }
                return None;
            }
            i = i + 1;
        }
        assert(all.take(fills.len() as int) =~= all);
        Some(tracker)
    }
}

impl Dup for PnlTracker {
    fn dup(&self) -> (r: PnlTracker) {
        PnlTracker {
            positions: self.positions.dup(),
            realized_pnl: self.realized_pnl,
            total_fees: self.total_fees,
            trade_count: self.trade_count,
            recent_trades: dup_all(&self.recent_trades),
            max_trades: self.max_trades,
        }
    }
}

impl Default for PnlTracker {
    fn default() -> (r: PnlTracker)
        ensures
            r@ == PnlView::fresh(),
    {
        PnlTracker::new()
    }
}

/// No more trades are kept than the tracker is set up for, and the latest is always among them.
pub proof fn trade_history_is_bounded(t: PnlView, fill: FillView)
    requires
        t.trades.len() <= t.max_trades,
        t.max_trades > 0,
    ensures
        t.after(fill) matches Some(u) ==> {
            &&& 0 < u.trades.len() <= u.max_trades
            &&& u.max_trades == t.max_trades
            &&& u.trades.last().pair == fill.pair
            &&& u.trades.last().price == fill.price
            &&& u.trades.last().qty == fill.qty
            &&& u.trade_count == t.trade_count + 1
        },
{
}

/// Whether fills come in the order of their timestamps.
pub open spec fn in_time_order(s: Seq<FillView>) -> bool {
    forall|i: int, j: int| 0 <= i < j < s.len() ==> s[i].timestamp.order() <= s[j].timestamp.order()
}

/// How many of the leading fills are not later than `x`.
pub open spec fn not_later(s: Seq<FillView>, x: FillView) -> int
    decreases s.len(),
{
    if s.len() > 0 && s[0].timestamp.order() <= x.timestamp.order() {
        1 + not_later(s.drop_first(), x)
    } else {
        0
    }
}

/// The fills sorted by time, equal times in the order they came.
pub open spec fn by_time(s: Seq<FillView>) -> Seq<FillView>
    decreases s.len(),
{
    if s.len() == 0 {
        s
    } else {
        let t = by_time(s.drop_last());
        t.insert(not_later(t, s.last()), s.last())
    }
}

proof fn lemma_not_later(s: Seq<FillView>, x: FillView)
    ensures
        0 <= not_later(s, x) <= s.len(),
        forall|j: int|
            0 <= j < not_later(s, x) ==> (#[trigger] s[j]).timestamp.order() <= x.timestamp.order(),
        not_later(s, x) < s.len() ==> s[not_later(s, x)].timestamp.order() > x.timestamp.order(),
    decreases s.len(),
{
    if s.len() > 0 && s[0].timestamp.order() <= x.timestamp.order() {
        let t = s.drop_first();
        lemma_not_later(t, x);
        assert forall|j: int| 0 <= j < not_later(s, x) implies (#[trigger] s[j]).timestamp.order()
            <= x.timestamp.order() by {
            if j > 0 {
                assert(t[j - 1] == s[j]);
            }
        }
        if not_later(s, x) < s.len() {
            assert(t[not_later(t, x)] == s[not_later(s, x)]);
        }
    }
}

/// Sorting by time puts fills in time order and neither adds nor drops one.
pub proof fn sorting_orders_and_keeps(s: Seq<FillView>)
    ensures
        in_time_order(by_time(s)),
        by_time(s).len() == s.len(),
        by_time(s).to_multiset() =~= s.to_multiset(),
    decreases s.len(),
{
    broadcast use vstd::seq_lib::group_to_multiset_ensures;

    if s.len() > 0 {
        let t = by_time(s.drop_last());
        let x = s.last();
        let at = not_later(t, x);
        sorting_orders_and_keeps(s.drop_last());
        lemma_not_later(t, x);
        let r = t.insert(at, x);
        assert forall|i: int, j: int| 0 <= i < j < r.len() implies r[i].timestamp.order()
            <= r[j].timestamp.order() by {
            if j < at {
                assert(t[i].timestamp.order() <= t[j].timestamp.order());
            } else if i > at {
                assert(t[i - 1].timestamp.order() <= t[j - 1].timestamp.order());
            } else if j == at {
                assert(t[i].timestamp.order() <= x.timestamp.order());
            } else {
                if j - 1 > at {
                    assert(t[at].timestamp.order() <= t[j - 1].timestamp.order());
                }
                if i < at {
                    assert(t[i].timestamp.order() <= t[j - 1].timestamp.order());
                }
            }
        }
        assert(s =~= s.drop_last().push(x));
        assert(r.remove(at) =~= t);
        assert(r[at] == x);
        assert(r.contains(x));
        assert(r.to_multiset().remove(x) =~= t.to_multiset());
        assert(r.to_multiset() =~= t.to_multiset().insert(x));
    }
}

/// Sorts fills by time; fills of the same time stay in the order they came.
pub fn sort_by_time(fills: &Vec<Fill>) -> (r: Vec<Fill>)
    ensures
        views(r@) == by_time(views(fills@)),
{
    let mut r: Vec<Fill> = Vec::new();
    let mut i: usize = 0;
    let ghost all = views(fills@);
    assert(views(r@) =~= by_time(all.take(0)));
    while i < fills.len()
        invariant
            i <= fills.len(),
            all == views(fills@),
            views(r@) == by_time(all.take(i as int)),
        decreases fills.len() - i,
    {
        let x = fills[i].dup();
        proof {
            assert(all.take(i + 1).drop_last() =~= all.take(i as int));
            assert(all.take(i + 1).last() == all[i as int]);
        }
        let ghost t = views(r@);
        let mut at: usize = 0;
        assert(t.skip(0) =~= t);
        while at < r.len() && !x.timestamp.before(&r[at].timestamp)
            invariant
                at <= r.len(),
                t == views(r@),
                not_later(t, x@) == at + not_later(t.skip(at as int), x@),
            decreases r.len() - at,
        {
            proof {
                assert(t.skip(at as int)[0] == t[at as int]);
                assert(t.skip(at as int).drop_first() =~= t.skip(at + 1));
            }
            at = at + 1;
        }
        proof {
            if at < r.len() {
                assert(t.skip(at as int)[0] == t[at as int]);
            }
        }
        let ghost want = t.insert(at as int, x@);
        r.insert(at, x);
        assert(views(r@) =~= want);
        i = i + 1;
    }
    assert(all.take(fills.len() as int) =~= all);
    r
}

/// A sell of something that was never seen bought breaks even: it realizes the loss of its fee and
/// nothing else, as long as its value is computed without rounding.
pub proof fn unknown_costs_break_even(t: PnlView, fill: FillView)
    requires
        fill.side == OrderSide::Sell,
        fill.qty.valid(),
        fill.price.valid(),
        fill.fee.valid(),
        positive(fill.qty),
        exact_value(fill.qty, fill.price),
        lookup(t.positions, fill.pair) is None,
    ensures
        t.after_seeded(fill) matches Some(u) ==> sum(t.realized_pnl, negated(fill.fee)) == Some(
            u.realized_pnl,
        ),
{
    let zero = Decimal::of(0, 0);
    lemma_of(0, 0);
    assert(pow10(0) == 1);
    assert(less(zero, fill.qty)) by {
        assert(lifted(zero, fill.qty) == 0);
        assert(lifted(fill.qty, zero) == fill.qty.m());
    }
    if let Some(u) = t.after_seeded(fill) {
        let seed = t.made_up(fill).unwrap().unwrap();
        assert(seed.qty == fill.qty);
        let t1 = t.after(seed).unwrap();
        first_purchase_costs_its_price(fill.qty, fill.price);
        let p = bought(no_position(), fill.qty, fill.price).unwrap();
        stored_then_lookup(t.positions, fill.pair, p, fill.pair);
        assert(position_of(t1.positions, fill.pair) == p);
        if fill.price.m() != 0 {
            lemma_at_own_scale(fill.price);
            assert(difference(fill.price, p.avg_cost) == Some(Decimal::of(0, fill.price.s())));
            lemma_of(0, fill.price.s());
        } else {
            assert(p.avg_cost.m() == 0);
            lemma_of(-p.avg_cost.m(), p.avg_cost.s());
        }
        assert(t1.gain(fill) == Some(negated(fill.fee)));
    }
}

} // verus!
