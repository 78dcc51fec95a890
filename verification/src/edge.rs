//! Per-pair edge: what a pair earns for the volume it turns over, in a rolling window.
use crate::collections::{keys_of, lookup, push_value, stored, views, Dup, Entries, StrMap};
use crate::decimal::{plus, product, quotient, sum, Decimal};
use crate::pnl::{PnlTrade, PnlTradeView};
use crate::position::positive;
use crate::text::{as_signed, signed, str_eq};
use crate::time::{lies_before, longer_ago_is_before, Timestamp};
use std::collections::VecDeque;
use vstd::prelude::*;

verus! {

/// Edge metrics of a pair over a rolling window.
#[derive(Clone, Debug)]
pub struct PairEdge {
    pub symbol: String,
    /// Realized profit after fees over the window.
    pub realized_pnl: Decimal,
    /// Traded value, buys and sells, over the window.
    pub total_volume: Decimal,
    /// Fees paid over the window.
    pub total_fees: Decimal,
    /// Number of trades in the window.
    pub trade_count: u64,
    /// Realized profit per traded value; zero if nothing was traded.
    pub edge: Decimal,
    /// When the pair was last traded, in the window or not.
    pub last_trade_at: Option<Timestamp>,
}

/// Model of [`PairEdge`].
#[verifier::ext_equal]
pub struct PairEdgeView {
    pub symbol: Seq<char>,
    pub realized_pnl: Decimal,
    pub total_volume: Decimal,
    pub total_fees: Decimal,
    pub trade_count: u64,
    pub edge: Decimal,
    pub last_trade_at: Option<Timestamp>,
}

impl View for PairEdge {
    type V = PairEdgeView;

    open spec fn view(&self) -> PairEdgeView {
        PairEdgeView {
            symbol: self.symbol@,
            realized_pnl: self.realized_pnl,
            total_volume: self.total_volume,
            total_fees: self.total_fees,
            trade_count: self.trade_count,
            edge: self.edge,
            last_trade_at: self.last_trade_at,
        }
    }
}

impl PairEdge {
    /// A pair without trades.
    pub fn empty(symbol: String) -> (r: PairEdge)
        ensures
            r@ == (PairEdgeView {
                symbol: symbol@,
                realized_pnl: Decimal::of(0, 0),
                total_volume: Decimal::of(0, 0),
                total_fees: Decimal::of(0, 0),
                trade_count: 0,
                edge: Decimal::of(0, 0),
                last_trade_at: None,
            }),
    {
        PairEdge {
            symbol,
            realized_pnl: Decimal::zero(),
            total_volume: Decimal::zero(),
            total_fees: Decimal::zero(),
            trade_count: 0,
            edge: Decimal::zero(),
            last_trade_at: None,
        }
    }
}

/// Overall summary of the analyzer state.
#[derive(Clone, Copy, Debug)]
pub struct AnalyzerSummary {
    pub total_realized_pnl: Decimal,
    pub total_fees: Decimal,
    pub total_volume: Decimal,
    pub total_trade_count: u64,
    pub overall_edge: Decimal,
    pub pair_count: usize,
    pub uptime_secs: u64,
}

/// All-time totals of a pair.
#[derive(Clone, Copy, Debug)]
pub struct CumulativeStats {
    pub realized_pnl: Decimal,
    pub total_volume: Decimal,
    pub total_fees: Decimal,
    pub trade_count: u64,
}

impl View for CumulativeStats {
    type V = CumulativeStats;

    open spec fn view(&self) -> CumulativeStats {
        *self
    }
}

/// Totals of nothing.
pub open spec fn no_stats() -> CumulativeStats {
    CumulativeStats {
        realized_pnl: Decimal::of(0, 0),
        total_volume: Decimal::of(0, 0),
        total_fees: Decimal::of(0, 0),
        trade_count: 0,
    }
}

/// Totals with one more trade. `None` on overflow.
pub open spec fn counted(s: CumulativeStats, t: PnlTradeView) -> Option<CumulativeStats> {
    match (
        sum(s.realized_pnl, t.pnl),
        plus(Some(s.total_volume), product(t.price, t.qty)),
        sum(s.total_fees, t.fee),
    ) {
        (Some(realized_pnl), Some(total_volume), Some(total_fees)) => if s.trade_count == u64::MAX {
            None
        } else {
            Some(
                CumulativeStats {
                    realized_pnl,
                    total_volume,
                    total_fees,
                    trade_count: (s.trade_count + 1) as u64,
                },
            )
        },
        _ => None,
    }
}

/// Adds a trade to totals. `None` on overflow.
fn count_trade(s: &CumulativeStats, t: &PnlTrade) -> (r: Option<CumulativeStats>)
    ensures
        r == counted(*s, t@),
{
    let realized_pnl = s.realized_pnl.checked_add(t.pnl)?;
    let total_volume = plus(Some(s.total_volume), t.price.checked_mul(t.qty))?;
    let total_fees = s.total_fees.checked_add(t.fee)?;
    if s.trade_count == u64::MAX {
        return None;
    }
    Some(
        CumulativeStats { realized_pnl, total_volume, total_fees, trade_count: s.trade_count + 1 },
    )
}

/// Stores trades and computes windowed edge metrics per pair.
pub struct EdgeTracker {
    /// Trades in the order they came, for as long as they are kept.
    pub trades: VecDeque<PnlTrade>,
    /// How many hours trades are kept.
    pub max_history_hours: u64,
    /// When each pair was last traded, whether or not the trade is still kept.
    pub last_trade_per_pair: StrMap<Timestamp>,
    /// All-time totals per pair.
    pub cumulative: StrMap<CumulativeStats>,
}

/// Model of [`EdgeTracker`].
#[verifier::ext_equal]
pub struct EdgeView {
    pub trades: Seq<PnlTradeView>,
    pub max_history_hours: u64,
    pub last_trade: Entries<Timestamp>,
    pub cumulative: Entries<CumulativeStats>,
}

impl View for EdgeTracker {
    type V = EdgeView;

    open spec fn view(&self) -> EdgeView {
        EdgeView {
            trades: views(self.trades@),
            max_history_hours: self.max_history_hours,
            last_trade: self.last_trade_per_pair@,
            cumulative: self.cumulative@,
        }
    }
}

/// How long trades are kept if nothing else is configured, in hours.
pub fn default_max_history() -> (r: u64)
    ensures
        r == 48,
{
    48
}

/// Whether a point in time lies more than some hours before another. The hours are taken as a signed
/// number.
pub open spec fn long_ago(t: Timestamp, hours: u64, now: Timestamp) -> bool {
    lies_before(t, as_signed(hours), now)
}

fn is_long_ago(t: &Timestamp, hours: u64, now: &Timestamp) -> (r: bool)
    ensures
        r == long_ago(*t, hours, *now),
{
    t.is_hours_before(signed(hours) as i64, now)
}

/// What is left of a list of trades once those at the front that are too old are dropped.
pub open spec fn pruned(trades: Seq<PnlTradeView>, hours: u64, now: Timestamp) -> Seq<PnlTradeView>
    decreases trades.len(),
{
    if trades.len() > 0 && long_ago(trades[0].timestamp, hours, now) {
        pruned(trades.drop_first(), hours, now)
    } else {
        trades
    }
}

/// Whether a trade counts for a pair in a window.
pub open spec fn in_window(t: PnlTradeView, symbol: Seq<char>, hours: u64, now: Timestamp) -> bool {
    t.pair == symbol && !long_ago(t.timestamp, hours, now)
}

/// The totals of a pair's trades in a window. `None` on overflow.
pub open spec fn window_totals(
    trades: Seq<PnlTradeView>,
    symbol: Seq<char>,
    hours: u64,
    now: Timestamp,
) -> Option<CumulativeStats>
    decreases trades.len(),
{
    if trades.len() == 0 {
        Some(no_stats())
    } else {
        match window_totals(trades.drop_last(), symbol, hours, now) {
            Some(s) => if in_window(trades.last(), symbol, hours, now) {
                counted(s, trades.last())
            } else {
                Some(s)
            },
            None => None,
        }
    }
}

proof fn lemma_totals_prefix(
    trades: Seq<PnlTradeView>,
    symbol: Seq<char>,
    hours: u64,
    now: Timestamp,
    i: int,
)
    requires
        0 <= i <= trades.len(),
        window_totals(trades.take(i), symbol, hours, now) is None,
    ensures
        window_totals(trades, symbol, hours, now) is None,
    decreases trades.len() - i,
{
    if i < trades.len() {
        assert(trades.take(i + 1).drop_last() =~= trades.take(i));
        lemma_totals_prefix(trades, symbol, hours, now, i + 1);
    } else {
        assert(trades.take(i) =~= trades);
    }
}

/// Profit per traded value; zero if nothing was traded. `None` on overflow.
pub open spec fn edge_of(pnl: Decimal, volume: Decimal) -> Option<Decimal> {
    if positive(volume) {
        quotient(pnl, volume)
    } else {
        Some(Decimal::of(0, 0))
    }
}

impl EdgeView {
    /// A tracker without trades.
    pub open spec fn fresh() -> EdgeView {
        EdgeView {
            trades: Seq::empty(),
            max_history_hours: 48,
            last_trade: Seq::empty(),
            cumulative: Seq::empty(),
        }
    }

    /// The all-time totals of a pair.
    pub open spec fn totals(self, symbol: Seq<char>) -> CumulativeStats {
        match lookup(self.cumulative, symbol) {
            Some(s) => s,
            None => no_stats(),
        }
    }

    /// The tracker after a trade: it is kept and counted, and trades that are too old are dropped.
    /// `None` on overflow.
    pub open spec fn recorded(self, t: PnlTradeView, now: Timestamp) -> Option<EdgeView> {
        match counted(self.totals(t.pair), t) {
            Some(s) => Some(
                EdgeView {
                    trades: pruned(self.trades.push(t), self.max_history_hours, now),
                    max_history_hours: self.max_history_hours,
                    last_trade: stored(self.last_trade, t.pair, t.timestamp),
                    cumulative: stored(self.cumulative, t.pair, s),
                },
            ),
            None => None,
        }
    }

    /// The edge metrics of a pair over a window. `None` on overflow.
    pub open spec fn pair_edge(self, symbol: Seq<char>, hours: u64, now: Timestamp) -> Option<
        PairEdgeView,
    > {
        match window_totals(self.trades, symbol, hours, now) {
            Some(s) => match edge_of(s.realized_pnl, s.total_volume) {
                Some(edge) => Some(
                    PairEdgeView {
                        symbol,
                        realized_pnl: s.realized_pnl,
                        total_volume: s.total_volume,
                        total_fees: s.total_fees,
                        trade_count: s.trade_count,
                        edge,
                        last_trade_at: lookup(self.last_trade, symbol),
                    },
                ),
                None => None,
            },
            None => None,
        }
    }

    /// The edge metrics of a list of pairs. `None` on overflow.
    pub open spec fn edges(self, symbols: Seq<Seq<char>>, hours: u64, now: Timestamp) -> Option<
        Seq<PairEdgeView>,
    >
        decreases symbols.len(),
    {
        if symbols.len() == 0 {
            Some(Seq::empty())
        } else {
            match (
                self.edges(symbols.drop_last(), hours, now),
                self.pair_edge(symbols.last(), hours, now),
            ) {
                (Some(before), Some(e)) => Some(before.push(e)),
                _ => None,
            }
        }
    }
}

/// The totals over a list of edges. `None` on overflow.
pub open spec fn edge_totals(edges: Seq<PairEdgeView>) -> Option<CumulativeStats>
    decreases edges.len(),
{
    if edges.len() == 0 {
        Some(no_stats())
    } else {
        let e = edges.last();
        match edge_totals(edges.drop_last()) {
            Some(s) => match (
                sum(s.realized_pnl, e.realized_pnl),
                sum(s.total_volume, e.total_volume),
                sum(s.total_fees, e.total_fees),
            ) {
                (Some(realized_pnl), Some(total_volume), Some(total_fees)) => if s.trade_count
                    + e.trade_count > u64::MAX {
                    None
                } else {
                    Some(
                        CumulativeStats {
                            realized_pnl,
                            total_volume,
                            total_fees,
                            trade_count: (s.trade_count + e.trade_count) as u64,
                        },
                    )
                },
                _ => None,
            },
            None => None,
        }
    }
}

proof fn lemma_edges_prefix(
    t: EdgeView,
    symbols: Seq<Seq<char>>,
    hours: u64,
    now: Timestamp,
    i: int,
)
    requires
        0 <= i <= symbols.len(),
        t.edges(symbols.take(i), hours, now) is None,
    ensures
        t.edges(symbols, hours, now) is None,
    decreases symbols.len() - i,
{
    if i < symbols.len() {
        assert(symbols.take(i + 1).drop_last() =~= symbols.take(i));
        lemma_edges_prefix(t, symbols, hours, now, i + 1);
    } else {
        assert(symbols.take(i) =~= symbols);
    }
}

proof fn lemma_edge_totals_prefix(edges: Seq<PairEdgeView>, i: int)
    requires
        0 <= i <= edges.len(),
        edge_totals(edges.take(i)) is None,
    ensures
        edge_totals(edges) is None,
    decreases edges.len() - i,
{
    if i < edges.len() {
        assert(edges.take(i + 1).drop_last() =~= edges.take(i));
        lemma_edge_totals_prefix(edges, i + 1);
    } else {
        assert(edges.take(i) =~= edges);
    }
}

fn total_edges(edges: &Vec<PairEdge>) -> (r: Option<CumulativeStats>)
    ensures
        r == edge_totals(views(edges@)),
{
    let mut s = CumulativeStats {
        realized_pnl: Decimal::zero(),
        total_volume: Decimal::zero(),
        total_fees: Decimal::zero(),
        trade_count: 0,
    };
    let mut i: usize = 0;
    let ghost all = views(edges@);
    assert(all.take(0).len() == 0);
    while i < edges.len()
        invariant
            i <= edges.len(),
            all == views(edges@),
            edge_totals(all.take(i as int)) == Some(s),
        decreases edges.len() - i,
    {
        proof {
            assert(all.take(i + 1).drop_last() =~= all.take(i as int));
            assert(all.take(i + 1).last() == all[i as int]);
        }
        let e = &edges[i];
        let pnl = s.realized_pnl.checked_add(e.realized_pnl);
        let volume = s.total_volume.checked_add(e.total_volume);
        let fees = s.total_fees.checked_add(e.total_fees);
        let count = s.trade_count.checked_add(e.trade_count);
        match (pnl, volume, fees, count) {
            (Some(realized_pnl), Some(total_volume), Some(total_fees), Some(trade_count)) => {
                s = CumulativeStats { realized_pnl, total_volume, total_fees, trade_count };
            },
            _ => {
                proof {
                    lemma_edge_totals_prefix(all, i + 1);
                }
                return None;
            },
        }
        i = i + 1;
    }
    assert(all.take(edges.len() as int) =~= all);
    Some(s)
}

fn ratio(pnl: Decimal, volume: Decimal) -> (r: Option<Decimal>)
    ensures
        r == edge_of(pnl, volume),
{
    if volume.mantissa() > 0 {
        pnl.checked_div(volume)
    } else {
        Some(Decimal::zero())
    }
}

impl EdgeTracker {
    /// A tracker without trades.
    pub fn new() -> (r: EdgeTracker)
        ensures
            r@ == EdgeView::fresh(),
    {
        let r = EdgeTracker {
            trades: VecDeque::new(),
            max_history_hours: default_max_history(),
            last_trade_per_pair: StrMap::new(),
            cumulative: StrMap::new(),
        };
        assert(r@ =~= EdgeView::fresh());
        r
    }

    /// Records a trade, as of `now`. `None`, with nothing changed, if a total overflows.
    pub fn record_trade(&mut self, trade: &PnlTrade, now: Timestamp) -> (r: Option<()>)
        ensures
            match old(self)@.recorded(trade@, now) {
                Some(t) => r is Some && final(self)@ == t,
                None => r is None && final(self)@ == old(self)@,
            },
    {
        let before = match self.cumulative.get(trade.pair.as_str()) {
            Some(s) => *s,
            None => CumulativeStats {
                realized_pnl: Decimal::zero(),
                total_volume: Decimal::zero(),
                total_fees: Decimal::zero(),
                trade_count: 0,
            },
        };
        let stats = count_trade(&before, trade)?;
        let ghost all = views(self.trades@).push(trade@);
        self.trades.push_back(trade.dup());
        assert(views(self.trades@) =~= all);
        self.last_trade_per_pair.insert(trade.pair.clone(), trade.timestamp);
        self.cumulative.insert(trade.pair.clone(), stats);
        self.prune(now);
        Some(())
    }

    /// Drops trades that are too old, oldest first.
    fn prune(&mut self, now: Timestamp)
        ensures
            final(self)@ == (EdgeView {
                trades: pruned(old(self)@.trades, old(self)@.max_history_hours, now),
                ..old(self)@
            }),
    {
        let ghost all = views(self.trades@);
        let hours: u64 = self.max_history_hours;
        while self.trades.len() > 0 && is_long_ago(&self.trades[0].timestamp, hours, &now)
            invariant
                self@ == (EdgeView { trades: views(self.trades@), ..old(self)@ }),
                hours == old(self)@.max_history_hours,
                all == old(self)@.trades,
                pruned(views(self.trades@), hours, now) == pruned(all, hours, now),
            decreases self.trades.len(),
        {
            let ghost before = views(self.trades@);
            self.trades.pop_front();
            assert(views(self.trades@) =~= before.drop_first());
        }
    }

    /// The edge metrics of a pair over a rolling window that ends `now`. `None` on overflow.
    pub fn pair_edge(&self, symbol: &str, window_hours: u64, now: Timestamp) -> (r: Option<PairEdge>)
        ensures
            match self@.pair_edge(symbol@, window_hours, now) {
                Some(e) => r matches Some(v) && v@ == e,
                None => r is None,
            },
    {
        let mut s = CumulativeStats {
            realized_pnl: Decimal::zero(),
            total_volume: Decimal::zero(),
            total_fees: Decimal::zero(),
            trade_count: 0,
        };
        let n: usize = self.trades.len();
        let mut i: usize = 0;
        let ghost all = views(self.trades@);
        assert(all.take(0).len() == 0);
        while i < n
            invariant
                i <= n == self.trades@.len(),
                all == views(self.trades@),
                window_totals(all.take(i as int), symbol@, window_hours, now) == Some(s),
            decreases n - i,
        {
            proof {
                assert(all.take(i + 1).drop_last() =~= all.take(i as int));
                assert(all.take(i + 1).last() == all[i as int]);
            }
            let t = &self.trades[i];
            if str_eq(t.pair.as_str(), symbol) && !is_long_ago(&t.timestamp, window_hours, &now) {
                match count_trade(&s, t) {
                    Some(more) => {
                        s = more;
                    },
                    None => {
                        proof {
                            lemma_totals_prefix(all, symbol@, window_hours, now, i + 1);
                        }
                        return None;
                    },
                }
            }
            i = i + 1;
        }
        assert(all.take(n as int) =~= all);
        let mut edge = PairEdge::empty(symbol.to_owned());
        edge.last_trade_at = self.last_trade_time(symbol);
        edge.realized_pnl = s.realized_pnl;
        edge.total_volume = s.total_volume;
        edge.total_fees = s.total_fees;
        edge.trade_count = s.trade_count;
        edge.edge = ratio(s.realized_pnl, s.total_volume)?;
        Some(edge)
    }

    /// The edge metrics of all known pairs over a rolling window. `None` on overflow.
    pub fn all_pair_edges(&self, window_hours: u64, now: Timestamp) -> (r: Option<Vec<PairEdge>>)
        ensures
            match self@.edges(keys_of(self@.last_trade), window_hours, now) {
                Some(e) => r matches Some(v) && views(v@) == e,
                None => r is None,
            },
    {
        let symbols = self.known_pairs();
        let mut r: Vec<PairEdge> = Vec::new();
        let mut i: usize = 0;
        let ghost all = crate::collections::texts(symbols@);
        proof {
            assert(all.take(0).len() == 0);
            assert(views(r@) =~= Seq::empty());
        }
        while i < symbols.len()
            invariant
                i <= symbols.len(),
                all == crate::collections::texts(symbols@),
                all == keys_of(self@.last_trade),
                self@.edges(all.take(i as int), window_hours, now) == Some(views(r@)),
            decreases symbols.len() - i,
        {
            proof {
                assert(all.take(i + 1).drop_last() =~= all.take(i as int));
                assert(all.take(i + 1).last() == all[i as int]);
            }
            match self.pair_edge(symbols[i].as_str(), window_hours, now) {
                Some(e) => push_value(&mut r, e),
                None => {
                    proof {
                        lemma_edges_prefix(self@, all, window_hours, now, i + 1);
                    }
                    return None;
                },
            }
            i = i + 1;
        }
        assert(all.take(symbols.len() as int) =~= all);
        Some(r)
    }

    /// The edge metrics of one pair over several windows. `None` on overflow.
    pub fn pair_edge_multi_window(&self, symbol: &str, windows: &Vec<u64>, now: Timestamp) -> (r:
        Option<Vec<(u64, PairEdge)>>)
        ensures
            r is Some <==> forall|i: int|
                0 <= i < windows@.len() ==> self@.pair_edge(
                    symbol@,
                    #[trigger] windows@[i],
                    now,
                ) is Some,
            r matches Some(v) ==> {
                &&& v@.len() == windows@.len()
                &&& forall|i: int|
                    #![trigger v@[i]]
                    0 <= i < v@.len() ==> v@[i].0 == windows@[i] && self@.pair_edge(
                        symbol@,
                        windows@[i],
                        now,
                    ) == Some(v@[i].1@)
            },
    {
        let mut r: Vec<(u64, PairEdge)> = Vec::new();
        let mut i: usize = 0;
        while i < windows.len()
            invariant
                i <= windows.len(),
                r@.len() == i,
                forall|j: int|
                    #![trigger r@[j]]
                    0 <= j < i ==> r@[j].0 == windows@[j] && self@.pair_edge(
                        symbol@,
                        windows@[j],
                        now,
                    ) == Some(r@[j].1@),
                forall|j: int|
                    0 <= j < i ==> self@.pair_edge(symbol@, #[trigger] windows@[j], now) is Some,
            decreases windows.len() - i,
        {
            let w: u64 = windows[i];
            let e = self.pair_edge(symbol, w, now)?;
            r.push((w, e));
            i = i + 1;
        }
        Some(r)
    }

    /// When a pair was last traded.
    pub fn last_trade_time(&self, symbol: &str) -> (r: Option<Timestamp>)
        ensures
            r == lookup(self@.last_trade, symbol@),
    {
        match self.last_trade_per_pair.get(symbol) {
            Some(t) => Some(*t),
            None => None,
        }
    }

    /// The totals over all pairs and a rolling window. `None` on overflow.
    pub fn summary(&self, window_hours: u64, uptime_secs: u64, now: Timestamp) -> (r: Option<
        AnalyzerSummary,
    >)
        ensures
            match self@.edges(keys_of(self@.last_trade), window_hours, now) {
                Some(edges) => match edge_totals(edges) {
                    Some(s) => match edge_of(s.realized_pnl, s.total_volume) {
                        Some(overall_edge) => {
                            &&& r matches Some(v)
                            &&& v.total_realized_pnl == s.realized_pnl
                            &&& v.total_fees == s.total_fees
                            &&& v.total_volume == s.total_volume
                            &&& v.total_trade_count == s.trade_count
                            &&& v.overall_edge == overall_edge
                            &&& v.pair_count == edges.len()
                            &&& v.uptime_secs == uptime_secs
                        },
                        None => r is None,
                    },
                    None => r is None,
                },
                None => r is None,
            },
    {
        let edges = self.all_pair_edges(window_hours, now)?;
        let s = total_edges(&edges)?;
        let overall_edge = ratio(s.realized_pnl, s.total_volume)?;
        Some(
            AnalyzerSummary {
                total_realized_pnl: s.realized_pnl,
                total_fees: s.total_fees,
                total_volume: s.total_volume,
                total_trade_count: s.trade_count,
                overall_edge,
                pair_count: edges.len(),
                uptime_secs,
            },
        )
    }

    /// All pairs that were ever traded.
    pub fn known_pairs(&self) -> (r: Vec<String>)
        ensures
            crate::collections::texts(r@) == keys_of(self@.last_trade),
    {
        self.last_trade_per_pair.keys()
    }
}

impl Default for EdgeTracker {
    fn default() -> (r: EdgeTracker)
        ensures
            r@ == EdgeView::fresh(),
    {
        EdgeTracker::new()
    }
}

/// Whether trades are ordered by their times.
pub open spec fn in_time_order(trades: Seq<PnlTradeView>) -> bool {
    forall|i: int, j: int|
        0 <= i < j < trades.len() ==> (#[trigger] trades[i]).timestamp.order() <= (
        #[trigger] trades[j]).timestamp.order()
}

/// Trades that come in the order of their times are kept in that order, and pruning drops just
/// those that are too old: none that is kept is too old, and all that are not too old are kept.
pub proof fn ordered_trades_are_pruned_exactly(
    trades: Seq<PnlTradeView>,
    t: PnlTradeView,
    hours: u64,
    now: Timestamp,
)
    requires
        in_time_order(trades),
        trades.len() > 0 ==> trades.last().timestamp.order() <= t.timestamp.order(),
    ensures
        in_time_order(pruned(trades.push(t), hours, now)),
        forall|x: PnlTradeView|
            #[trigger] pruned(trades.push(t), hours, now).contains(x) <==> trades.push(t).contains(x)
                && !long_ago(x.timestamp, hours, now),
{
    let all = trades.push(t);
    assert forall|i: int, j: int| 0 <= i < j < all.len() implies (#[trigger] all[i]).timestamp.order()
        <= (#[trigger] all[j]).timestamp.order() by {
        if j == trades.len() && i < trades.len() - 1 {
            assert(trades[i].timestamp.order() <= trades[trades.len() - 1].timestamp.order());
        }
    }
    lemma_pruned_exactly(all, hours, now);
}

proof fn lemma_pruned_exactly(trades: Seq<PnlTradeView>, hours: u64, now: Timestamp)
    requires
        in_time_order(trades),
    ensures
        in_time_order(pruned(trades, hours, now)),
        forall|x: PnlTradeView|
            #[trigger] pruned(trades, hours, now).contains(x) <==> trades.contains(x) && !long_ago(
                x.timestamp,
                hours,
                now,
            ),
    decreases trades.len(),
{
    if trades.len() > 0 && long_ago(trades[0].timestamp, hours, now) {
        let rest = trades.drop_first();
        assert(in_time_order(rest)) by {
            assert forall|i: int, j: int| 0 <= i < j < rest.len() implies (
            #[trigger] rest[i]).timestamp.order() <= (#[trigger] rest[j]).timestamp.order() by {
                assert(trades[i + 1].timestamp.order() <= trades[j + 1].timestamp.order());
            }
        }
        lemma_pruned_exactly(rest, hours, now);
        assert forall|x: PnlTradeView| trades.contains(x) implies x == trades[0] || rest.contains(
            x,
        ) by {
            let i = choose|i: int| 0 <= i < trades.len() && trades[i] == x;
            if i > 0 {
                assert(rest[i - 1] == x);
            }
        }
        assert forall|x: PnlTradeView| rest.contains(x) implies trades.contains(x) by {
            let i = choose|i: int| 0 <= i < rest.len() && rest[i] == x;
            assert(trades[i + 1] == x);
        }
    } else {
        assert forall|x: PnlTradeView| trades.contains(x) implies !long_ago(
            x.timestamp,
            hours,
            now,
        ) by {
            let i = choose|i: int| 0 <= i < trades.len() && trades[i] == x;
            if i > 0 {
                assert(trades[0].timestamp.order() <= trades[i].timestamp.order());
            }
        }
    }
}

/// Dropping trades that are too old for a window does not change what the window shows: pruning
/// to a history that is at least as long as the window leaves its totals alone.
pub proof fn pruning_keeps_window_totals(
    trades: Seq<PnlTradeView>,
    kept: u64,
    hours: u64,
    now: Timestamp,
    symbol: Seq<char>,
)
    requires
        now.valid(),
        as_signed(hours) <= as_signed(kept),
    ensures
        window_totals(pruned(trades, kept, now), symbol, hours, now) == window_totals(
            trades,
            symbol,
            hours,
            now,
        ),
    decreases trades.len(),
{
    if trades.len() > 0 && long_ago(trades[0].timestamp, kept, now) {
        longer_ago_is_before(trades[0].timestamp, as_signed(kept), as_signed(hours), now);
        pruning_keeps_window_totals(trades.drop_first(), kept, hours, now, symbol);
        lemma_first_out_of_window(trades, symbol, hours, now);
    }
}

proof fn lemma_first_out_of_window(
    trades: Seq<PnlTradeView>,
    symbol: Seq<char>,
    hours: u64,
    now: Timestamp,
)
    requires
        trades.len() > 0,
        !in_window(trades[0], symbol, hours, now),
    ensures
        window_totals(trades.drop_first(), symbol, hours, now) == window_totals(
            trades,
            symbol,
            hours,
            now,
        ),
    decreases trades.len(),
{
    if trades.len() == 1 {
        assert(trades.drop_first().len() == 0);
        assert(trades.drop_last().len() == 0);
        assert(window_totals(trades.drop_last(), symbol, hours, now) == Some(no_stats()));
        assert(trades.last() == trades[0]);
    } else {
        let t = trades.drop_last();
        lemma_first_out_of_window(t, symbol, hours, now);
        assert(trades.drop_first().drop_last() =~= t.drop_first());
        assert(trades.drop_first().last() == trades.last());
    }
}

} // verus!
