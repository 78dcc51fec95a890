//! What the analyzer makes of the edge of each pair: promotion, demotion, wind-down, disabling.
use crate::collections::{keyed, lookup, push_value, stored, views, Dup, Entries, StrMap};
use crate::decimal::{assembled, less, minus, parsed_decimal, Decimal};
use crate::edge::{EdgeTracker, EdgeView, PairEdge, PairEdgeView};
use crate::net::{bearer, bears};
use crate::pnl::{last_of, PnlTrade, PnlTradeView, PnlTracker, PnlView};
use crate::position::sale_pnl;
use crate::state::position_of;
use crate::text::{
    as_signed, decimal_text, digits, number_in, number_text, opt_text, parse_number, replace,
    replaced, signed, signed_digits, signed_text, str_eq,
};
use crate::time::{hours_between, time_of, Timestamp};
use crate::types::{side_text, Fill, FillView, OrderSide};
use vstd::prelude::*;

verus! {

/// Thresholds of the evaluation and where the state store is.
#[derive(Clone, Debug)]
pub struct AnalyzerConfig {
    /// How often the evaluation runs, in seconds.
    pub eval_interval_secs: u64,
    /// Edge from which on a pair is promoted.
    pub high_edge_threshold: Decimal,
    /// Edge down from which a pair is demoted.
    pub low_edge_threshold: Decimal,
    /// Edge down from which a pair is wound down.
    pub negative_edge_threshold: Decimal,
    /// Hours without trades before a pair is disabled.
    pub zero_trades_disable_hours: u64,
    /// Inventory limit of promoted pairs.
    pub promoted_max_inventory_usd: Decimal,
    /// Inventory limit of demoted pairs.
    pub demoted_max_inventory_usd: Decimal,
    /// Minimum spread of promoted pairs.
    pub promoted_min_spread_bps: Decimal,
    /// Minimum spread of demoted pairs.
    pub demoted_min_spread_bps: Decimal,
    /// The rolling window the evaluation looks at, in hours.
    pub eval_window_hours: u64,
    /// Base URL of the state store.
    pub state_store_url: String,
    /// Bearer token of the state store.
    pub state_store_token: String,
}

impl Default for AnalyzerConfig {
    fn default() -> (r: AnalyzerConfig)
        ensures
            r.eval_interval_secs == 60,
            r.high_edge_threshold == Decimal::of(5, 3),
            r.low_edge_threshold == Decimal::of(0, 1),
            r.negative_edge_threshold == Decimal::of(-2, 3),
            r.zero_trades_disable_hours == 12,
            r.promoted_max_inventory_usd == Decimal::of(500, 0),
            r.demoted_max_inventory_usd == Decimal::of(50, 0),
            r.promoted_min_spread_bps == Decimal::of(50, 0),
            r.demoted_min_spread_bps == Decimal::of(200, 0),
            r.eval_window_hours == 6,
            r.state_store_url@ == "http://localhost:3040"@,
            r.state_store_token@ == ""@,
    {
        AnalyzerConfig {
            eval_interval_secs: 60,
            high_edge_threshold: Decimal::new(5, 3),
            low_edge_threshold: Decimal::new(0, 1),
            negative_edge_threshold: Decimal::new(-2, 3),
            zero_trades_disable_hours: 12,
            promoted_max_inventory_usd: Decimal::new(500, 0),
            demoted_max_inventory_usd: Decimal::new(50, 0),
            promoted_min_spread_bps: Decimal::new(50, 0),
            demoted_min_spread_bps: Decimal::new(200, 0),
            eval_window_hours: 6,
            state_store_url: "http://localhost:3040".to_owned(),
            state_store_token: "".to_owned(),
        }
    }
}

/// A whole number under a name in some settings, or a default.
pub open spec fn setting_number(settings: Entries<Seq<char>>, key: Seq<char>, default: u64) -> u64 {
    match lookup(settings, key) {
        Some(t) => match number_in(t) {
            Some(n) => n,
            None => default,
        },
        None => default,
    }
}

/// A number under a name in some settings, or a default.
pub open spec fn setting_decimal(
    settings: Entries<Seq<char>>,
    key: Seq<char>,
    default: Decimal,
) -> Decimal {
    match lookup(settings, key) {
        Some(t) => match assembled(parsed_decimal(t)) {
            Some(d) => d,
            None => default,
        },
        None => default,
    }
}

fn read_number(settings: &StrMap<String>, key: &str, default: u64) -> (r: u64)
    ensures
        r == setting_number(settings@, key@, default),
{
    match settings.get(key) {
        Some(t) => match parse_number(t.as_str()) {
            Some(n) => n,
            None => default,
        },
        None => default,
    }
}

fn read_decimal(settings: &StrMap<String>, key: &str, default: Decimal) -> (r: Decimal)
    ensures
        r == setting_decimal(settings@, key@, default),
{
    match settings.get(key) {
        Some(t) => match Decimal::parse(t.as_str()) {
            Some(d) => d,
            None => default,
        },
        None => default,
    }
}

fn read_text(settings: &StrMap<String>, key: &str, default: &str) -> (r: String)
    ensures
        r@ == (match lookup(settings@, key@) {
            Some(t) => t,
            None => default@,
        }),
{
    match settings.get(key) {
        Some(t) => t.clone(),
        None => default.to_owned(),
    }
}

impl AnalyzerConfig {
    /// The configuration that some settings make up. What is not set, or not a number where one is
    /// wanted, has its default.
    pub fn from_settings(s: &StrMap<String>) -> (r: AnalyzerConfig)
        ensures
            r.eval_interval_secs == setting_number(s@, "EVAL_INTERVAL_SECS"@, 60),
            r.high_edge_threshold == setting_decimal(
                s@,
                "HIGH_EDGE_THRESHOLD"@,
                Decimal::of(5, 3),
            ),
            r.low_edge_threshold == setting_decimal(s@, "LOW_EDGE_THRESHOLD"@, Decimal::of(0, 1)),
            r.negative_edge_threshold == setting_decimal(
                s@,
                "NEGATIVE_EDGE_THRESHOLD"@,
                Decimal::of(-2, 3),
            ),
            r.zero_trades_disable_hours == setting_number(s@, "ZERO_TRADES_DISABLE_HOURS"@, 12),
            r.promoted_max_inventory_usd == setting_decimal(
                s@,
                "PROMOTED_MAX_INVENTORY_USD"@,
                Decimal::of(500, 0),
            ),
            r.demoted_max_inventory_usd == setting_decimal(
                s@,
                "DEMOTED_MAX_INVENTORY_USD"@,
                Decimal::of(50, 0),
            ),
            r.promoted_min_spread_bps == setting_decimal(
                s@,
                "PROMOTED_MIN_SPREAD_BPS"@,
                Decimal::of(50, 0),
            ),
            r.demoted_min_spread_bps == setting_decimal(
                s@,
                "DEMOTED_MIN_SPREAD_BPS"@,
                Decimal::of(200, 0),
            ),
            r.eval_window_hours == setting_number(s@, "EVAL_WINDOW_HOURS"@, 6),
            r.state_store_url@ == (match lookup(s@, "STATE_STORE_URL"@) {
                Some(t) => t,
                None => "http://localhost:3040"@,
            }),
            r.state_store_token@ == (match lookup(s@, "STATE_STORE_TOKEN"@) {
                Some(t) => t,
                None => ""@,
            }),
    {
        AnalyzerConfig {
            eval_interval_secs: read_number(s, "EVAL_INTERVAL_SECS", 60),
            high_edge_threshold: read_decimal(s, "HIGH_EDGE_THRESHOLD", Decimal::new(5, 3)),
            low_edge_threshold: read_decimal(s, "LOW_EDGE_THRESHOLD", Decimal::new(0, 1)),
            negative_edge_threshold: read_decimal(
                s,
                "NEGATIVE_EDGE_THRESHOLD",
                Decimal::new(-2, 3),
            ),
            zero_trades_disable_hours: read_number(s, "ZERO_TRADES_DISABLE_HOURS", 12),
            promoted_max_inventory_usd: read_decimal(
                s,
                "PROMOTED_MAX_INVENTORY_USD",
                Decimal::new(500, 0),
            ),
            demoted_max_inventory_usd: read_decimal(
                s,
                "DEMOTED_MAX_INVENTORY_USD",
                Decimal::new(50, 0),
            ),
            promoted_min_spread_bps: read_decimal(
                s,
                "PROMOTED_MIN_SPREAD_BPS",
                Decimal::new(50, 0),
            ),
            demoted_min_spread_bps: read_decimal(
                s,
                "DEMOTED_MIN_SPREAD_BPS",
                Decimal::new(200, 0),
            ),
            eval_window_hours: read_number(s, "EVAL_WINDOW_HOURS", 6),
            state_store_url: read_text(s, "STATE_STORE_URL", "http://localhost:3040"),
            state_store_token: read_text(s, "STATE_STORE_TOKEN", ""),
        }
    }
}

/// The settings of a pair in the state store.
#[derive(Clone, Copy, Debug)]
pub struct StorePairConfig {
    pub order_size_usd: Option<Decimal>,
    pub max_inventory_usd: Option<Decimal>,
    pub min_spread_bps: Option<Decimal>,
    pub spread_capture_pct: Option<Decimal>,
    pub min_profit_pct: Option<Decimal>,
    pub stop_loss_pct: Option<Decimal>,
    pub take_profit_pct: Option<Decimal>,
}

/// A pair as the state store reports it.
#[derive(Clone, Debug)]
pub struct StorePairRecord {
    pub symbol: String,
    pub state: String,
    pub config: StorePairConfig,
    pub disabled_reason: Option<String>,
    pub auto_enable_at: Option<String>,
    pub created_at: Option<String>,
    pub updated_at: Option<String>,
}

/// The pairs in the state store.
#[derive(Clone, Debug)]
pub struct PairsResponse {
    pub pairs: Vec<StorePairRecord>,
}

/// Model of [`StorePairRecord`].
#[verifier::ext_equal]
pub struct StorePairView {
    pub symbol: Seq<char>,
    pub state: Seq<char>,
    pub config: StorePairConfig,
    pub disabled_reason: Option<Seq<char>>,
    pub auto_enable_at: Option<Seq<char>>,
    pub created_at: Option<Seq<char>>,
    pub updated_at: Option<Seq<char>>,
}

impl View for StorePairRecord {
    type V = StorePairView;

    open spec fn view(&self) -> StorePairView {
        StorePairView {
            symbol: self.symbol@,
            state: self.state@,
            config: self.config,
            disabled_reason: opt_text(self.disabled_reason),
            auto_enable_at: opt_text(self.auto_enable_at),
            created_at: opt_text(self.created_at),
            updated_at: opt_text(self.updated_at),
        }
    }
}

/// Settings to be changed for a pair; what is not set stays as it is.
#[derive(Clone, Copy, Debug)]
pub struct PatchPairConfig {
    pub order_size_usd: Option<Decimal>,
    pub max_inventory_usd: Option<Decimal>,
    pub min_spread_bps: Option<Decimal>,
}

/// A partial update of a pair in the state store.
#[derive(Clone, Debug)]
pub struct PatchPairBody {
    pub state: Option<String>,
    pub config: Option<PatchPairConfig>,
    pub disabled_reason: Option<String>,
}

/// Model of [`PatchPairBody`].
#[verifier::ext_equal]
pub struct PatchView {
    pub state: Option<Seq<char>>,
    pub config: Option<PatchPairConfig>,
    pub disabled_reason: Option<Seq<char>>,
}

impl View for PatchPairBody {
    type V = PatchView;

    open spec fn view(&self) -> PatchView {
        PatchView {
            state: opt_text(self.state),
            config: self.config,
            disabled_reason: opt_text(self.disabled_reason),
        }
    }
}

/// A pair and the update it is due.
pub struct PairAction {
    pub symbol: String,
    pub patch: PatchPairBody,
}

impl View for PairAction {
    type V = (Seq<char>, PatchView);

    open spec fn view(&self) -> (Seq<char>, PatchView) {
        (self.symbol@, self.patch@)
    }
}

/// The update that moves a pair to a state for a reason.
pub open spec fn move_to(state: Seq<char>, reason: Seq<char>) -> PatchView {
    PatchView { state: Some(state), config: None, disabled_reason: Some(reason) }
}

/// The update that gives a pair an inventory limit and a minimum spread.
pub open spec fn retune(max_inventory: Decimal, min_spread: Decimal) -> PatchView {
    PatchView {
        state: None,
        config: Some(
            PatchPairConfig {
                order_size_usd: None,
                max_inventory_usd: Some(max_inventory),
                min_spread_bps: Some(min_spread),
            },
        ),
        disabled_reason: None,
    }
}

/// Why a pair that is no longer traded is disabled.
pub open spec fn silence_reason(hours: int) -> Seq<char> {
    "No trades for "@ + signed_digits(hours) + " hours"@
}

/// Why a pair that was never traded is disabled.
pub open spec fn never_traded_reason(hours: int) -> Seq<char> {
    "Zero trades for "@ + signed_digits(hours) + " hours since creation"@
}

/// Why a pair is wound down.
pub open spec fn losing_reason(edge: Decimal, window: u64) -> Seq<char> {
    "Negative edge: "@ + decimal_text(edge.m(), edge.s()) + " over "@ + digits(window as nat)
        + "h window"@
}

/// Whether a point in time is at least the configured number of hours ago.
pub open spec fn silent_since(t: Timestamp, now: Timestamp, cfg: AnalyzerConfig) -> bool {
    hours_between(t, now) >= as_signed(cfg.zero_trades_disable_hours)
}

/// What is due for a pair that was traded before. Pairs that are not active are left alone; an
/// active pair is disabled after a long silence, promoted for a high edge, wound down for a
/// negative one and demoted for a low one.
pub open spec fn verdict(
    state: Seq<char>,
    e: PairEdgeView,
    now: Timestamp,
    cfg: AnalyzerConfig,
) -> Option<PatchView> {
    if state != "active"@ {
        None
    } else if e.last_trade_at matches Some(t) && silent_since(t, now, cfg) {
        Some(move_to("disabled"@, silence_reason(hours_between(e.last_trade_at.unwrap(), now))))
    } else if e.trade_count == 0 {
        None
    } else if !less(e.edge, cfg.high_edge_threshold) {
        Some(retune(cfg.promoted_max_inventory_usd, cfg.promoted_min_spread_bps))
    } else if !less(cfg.negative_edge_threshold, e.edge) {
        Some(move_to("wind_down"@, losing_reason(e.edge, cfg.eval_window_hours)))
    } else if !less(cfg.low_edge_threshold, e.edge) {
        Some(retune(cfg.demoted_max_inventory_usd, cfg.demoted_min_spread_bps))
    } else {
        None
    }
}

/// What is due for a pair that was never traded: an active one is disabled once it is old enough.
pub open spec fn verdict_untraded(
    r: StorePairView,
    last_trade: Entries<Timestamp>,
    now: Timestamp,
    cfg: AnalyzerConfig,
) -> Option<PatchView> {
    if r.state != "active"@ || keyed(last_trade, r.symbol) {
        None
    } else {
        match r.created_at {
            Some(text) => match time_of(text) {
                Some(created) => if silent_since(created, now, cfg) {
                    Some(
                        move_to("disabled"@, never_traded_reason(hours_between(created, now))),
                    )
                } else {
                    None
                },
                None => None,
            },
            None => None,
        }
    }
}

/// The record of a pair; the last one if there are several.
pub open spec fn record_of(records: Seq<StorePairView>, symbol: Seq<char>) -> Option<StorePairView>
    decreases records.len(),
{
    if records.len() == 0 {
        None
    } else if records.last().symbol == symbol {
        Some(records.last())
    } else {
        record_of(records.drop_last(), symbol)
    }
}

/// What is due for the pairs that were traded, in order. Pairs the state store does not know are
/// left alone.
pub open spec fn traded_actions(
    edges: Seq<PairEdgeView>,
    records: Seq<StorePairView>,
    now: Timestamp,
    cfg: AnalyzerConfig,
) -> Seq<(Seq<char>, PatchView)>
    decreases edges.len(),
{
    if edges.len() == 0 {
        Seq::empty()
    } else {
        let before = traded_actions(edges.drop_last(), records, now, cfg);
        let e = edges.last();
        match record_of(records, e.symbol) {
            Some(r) => match verdict(r.state, e, now, cfg) {
                Some(p) => before.push((e.symbol, p)),
                None => before,
            },
            None => before,
        }
    }
}

/// What is due for the pairs that were never traded, in order.
pub open spec fn untraded_actions(
    records: Seq<StorePairView>,
    last_trade: Entries<Timestamp>,
    now: Timestamp,
    cfg: AnalyzerConfig,
) -> Seq<(Seq<char>, PatchView)>
    decreases records.len(),
{
    if records.len() == 0 {
        Seq::empty()
    } else {
        let before = untraded_actions(records.drop_last(), last_trade, now, cfg);
        match verdict_untraded(records.last(), last_trade, now, cfg) {
            Some(p) => before.push((records.last().symbol, p)),
            None => before,
        }
    }
}

fn moving(state: &str, reason: String) -> (r: PatchPairBody)
    ensures
        r@ == move_to(state@, reason@),
{
    PatchPairBody { state: Some(state.to_owned()), config: None, disabled_reason: Some(reason) }
}

fn retuning(max_inventory: Decimal, min_spread: Decimal) -> (r: PatchPairBody)
    ensures
        r@ == retune(max_inventory, min_spread),
{
    PatchPairBody {
        state: None,
        config: Some(
            PatchPairConfig {
                order_size_usd: None,
                max_inventory_usd: Some(max_inventory),
                min_spread_bps: Some(min_spread),
            },
        ),
        disabled_reason: None,
    }
}

/// The update a pair that was traded before is due, if any.
pub fn judge(state: &str, e: &PairEdge, now: Timestamp, cfg: &AnalyzerConfig) -> (r: Option<
    PatchPairBody,
>)
    ensures
        match verdict(state@, e@, now, *cfg) {
            Some(p) => r matches Some(v) && v@ == p,
            None => r is None,
        },
{
    if !str_eq(state, "active") {
        return None;
    }
    if let Some(t) = e.last_trade_at {
        let hours: i64 = now.hours_since(&t);
        if hours as i128 >= signed(cfg.zero_trades_disable_hours) {
            let reason = String::from_str("No trades for ").concat(
                signed_text(hours).as_str(),
            ).concat(" hours");
            return Some(moving("disabled", reason));
        }
    }
    if e.trade_count == 0 {
        return None;
    }
    if e.edge >= cfg.high_edge_threshold {
        Some(retuning(cfg.promoted_max_inventory_usd, cfg.promoted_min_spread_bps))
    } else if e.edge <= cfg.negative_edge_threshold {
        let reason = String::from_str("Negative edge: ").concat(e.edge.to_text().as_str()).concat(
            " over ",
        ).concat(number_text(cfg.eval_window_hours).as_str()).concat("h window");
        Some(moving("wind_down", reason))
    } else if e.edge <= cfg.low_edge_threshold {
        Some(retuning(cfg.demoted_max_inventory_usd, cfg.demoted_min_spread_bps))
    } else {
        None
    }
}

/// The update a pair that was never traded is due, if any.
pub fn judge_untraded(
    record: &StorePairRecord,
    last_trade: &StrMap<Timestamp>,
    now: Timestamp,
    cfg: &AnalyzerConfig,
) -> (r: Option<PatchPairBody>)
    ensures
        match verdict_untraded(record@, last_trade@, now, *cfg) {
            Some(p) => r matches Some(v) && v@ == p,
            None => r is None,
        },
{
    if !str_eq(record.state.as_str(), "active") || last_trade.contains_key(record.symbol.as_str()) {
        return None;
    }
    match &record.created_at {
        Some(text) => {
            let created = Timestamp::parse(text.as_str())?;
            let hours: i64 = now.hours_since(&created);
            if hours as i128 >= signed(cfg.zero_trades_disable_hours) {
                let reason = String::from_str("Zero trades for ").concat(
                    signed_text(hours).as_str(),
                ).concat(" hours since creation");
                Some(moving("disabled", reason))
            } else {
                None
            }
        },
        None => None,
    }
}

fn find_record<'a>(records: &'a Vec<StorePairRecord>, symbol: &str) -> (r: Option<
    &'a StorePairRecord,
>)
    ensures
        match r {
            Some(v) => record_of(views(records@), symbol@) == Some(v@),
            None => record_of(views(records@), symbol@) is None,
        },
{
    let mut i: usize = records.len();
    let ghost all = views(records@);
    assert(all.take(i as int) =~= all);
    while i > 0
        invariant
            i <= records.len(),
            all == views(records@),
            record_of(all, symbol@) == record_of(all.take(i as int), symbol@),
        decreases i,
    {
        proof {
            assert(all.take(i as int).last() == all[i - 1]);
            assert(all.take(i as int).drop_last() =~= all.take(i - 1));
        }
        i = i - 1;
        if str_eq(records[i].symbol.as_str(), symbol) {
            return Some(&records[i]);
        }
    }
    None
}

/// The updates that are due after an evaluation: first for the pairs that were traded, then for
/// the active ones that never were. `None` if an amount overflows.
pub fn evaluate(
    records: &Vec<StorePairRecord>,
    tracker: &EdgeTracker,
    now: Timestamp,
    cfg: &AnalyzerConfig,
) -> (r: Option<Vec<PairAction>>)
    ensures
        match tracker@.edges(
            crate::collections::keys_of(tracker@.last_trade),
            cfg.eval_window_hours,
            now,
        ) {
            Some(edges) => r matches Some(v) && views(v@) == traded_actions(
                edges,
                views(records@),
                now,
                *cfg,
            ) + untraded_actions(views(records@), tracker@.last_trade, now, *cfg),
            None => r is None,
        },
{
    let edges = tracker.all_pair_edges(cfg.eval_window_hours, now)?;
    let mut r: Vec<PairAction> = Vec::new();
    let mut i: usize = 0;
    let ghost es = views(edges@);
    let ghost rs = views(records@);
    proof {
        assert(es.take(0).len() == 0);
        assert(views(r@) =~= Seq::empty());
    }
    while i < edges.len()
        invariant
            i <= edges.len(),
            es == views(edges@),
            rs == views(records@),
            views(r@) == traded_actions(es.take(i as int), rs, now, *cfg),
        decreases edges.len() - i,
    {
        proof {
            assert(es.take(i + 1).drop_last() =~= es.take(i as int));
            assert(es.take(i + 1).last() == es[i as int]);
        }
        let e = &edges[i];
        if let Some(record) = find_record(records, e.symbol.as_str()) {
            if let Some(patch) = judge(record.state.as_str(), e, now, cfg) {
                push_value(&mut r, PairAction { symbol: e.symbol.clone(), patch });
            }
        }
        i = i + 1;
    }
    assert(es.take(edges.len() as int) =~= es);
    let ghost first = views(r@);
    let mut k: usize = 0;
    proof {
        assert(rs.take(0).len() == 0);
        assert(first =~= first + untraded_actions(rs.take(0), tracker@.last_trade, now, *cfg));
    }
    while k < records.len()
        invariant
            k <= records.len(),
            rs == views(records@),
            views(r@) == first + untraded_actions(
                rs.take(k as int),
                tracker@.last_trade,
                now,
                *cfg,
            ),
        decreases records.len() - k,
    {
        proof {
            assert(rs.take(k + 1).drop_last() =~= rs.take(k as int));
            assert(rs.take(k + 1).last() == rs[k as int]);
        }
        let ghost before = untraded_actions(rs.take(k as int), tracker@.last_trade, now, *cfg);
        let record = &records[k];
        if let Some(patch) = judge_untraded(record, &tracker.last_trade_per_pair, now, cfg) {
            let ghost p = (record.symbol@, patch@);
            push_value(&mut r, PairAction { symbol: record.symbol.clone(), patch });
            assert((first + before).push(p) =~= first + before.push(p));
        }
        k = k + 1;
    }
    assert(rs.take(records.len() as int) =~= rs);
    Some(r)
}

/// How the edge of a pair is classified.
#[derive(Clone, Copy, Debug, PartialEq, Eq, Structural)]
pub enum EdgeClass {
    NoData,
    HighEdge,
    NegativeEdge,
    LowEdge,
    Neutral,
}

/// The class of an edge.
pub open spec fn class_of(e: PairEdgeView, cfg: AnalyzerConfig) -> EdgeClass {
    if e.trade_count == 0 {
        EdgeClass::NoData
    } else if !less(e.edge, cfg.high_edge_threshold) {
        EdgeClass::HighEdge
    } else if !less(cfg.negative_edge_threshold, e.edge) {
        EdgeClass::NegativeEdge
    } else if !less(cfg.low_edge_threshold, e.edge) {
        EdgeClass::LowEdge
    } else {
        EdgeClass::Neutral
    }
}

/// Classifies the edge of a pair.
pub fn classify(e: &PairEdge, cfg: &AnalyzerConfig) -> (r: EdgeClass)
    ensures
        r == class_of(e@, *cfg),
{
    if e.trade_count == 0 {
        EdgeClass::NoData
    } else if e.edge >= cfg.high_edge_threshold {
        EdgeClass::HighEdge
    } else if e.edge <= cfg.negative_edge_threshold {
        EdgeClass::NegativeEdge
    } else if e.edge <= cfg.low_edge_threshold {
        EdgeClass::LowEdge
    } else {
        EdgeClass::Neutral
    }
}

impl EdgeClass {
    /// The class as a word.
    pub fn as_str(&self) -> (r: &'static str)
        ensures
            r@ == (match *self {
                EdgeClass::NoData => "no_data"@,
                EdgeClass::HighEdge => "high_edge"@,
                EdgeClass::NegativeEdge => "negative_edge"@,
                EdgeClass::LowEdge => "low_edge"@,
                EdgeClass::Neutral => "neutral"@,
            }),
    {
        match self {
            EdgeClass::NoData => "no_data",
            EdgeClass::HighEdge => "high_edge",
            EdgeClass::NegativeEdge => "negative_edge",
            EdgeClass::LowEdge => "low_edge",
            EdgeClass::Neutral => "neutral",
        }
    }
}

/// A pair symbol as it stands in a URL path: `OMG/USD` becomes `OMG-USD`.
pub fn encode_symbol(symbol: &str) -> (r: String)
    ensures
        r@ == replaced(symbol@, '/', "-"@),
{
    replace(symbol, '/', "-")
}

/// A pair symbol read from a URL path: `OMG-USD` becomes `OMG/USD`.
pub fn decode_symbol(symbol: &str) -> (r: String)
    ensures
        r@ == replaced(symbol@, '-', "/"@),
{
    replace(symbol, '-', "/")
}

/// A symbol without dashes survives being put into a URL path and read back.
pub proof fn symbols_survive_urls(s: Seq<char>)
    requires
        !s.contains('-'),
    ensures
        replaced(replaced(s, '/', "-"@), '-', "/"@) == s,
    decreases s.len(),
{
    reveal_strlit("-");
    reveal_strlit("/");
    assert("-"@ =~= seq!['-']);
    assert("/"@ =~= seq!['/']);
    if s.len() > 0 {
        let t = s.drop_last();
        assert(!t.contains('-')) by {
            if t.contains('-') {
                let i = choose|i: int| 0 <= i < t.len() && t[i] == '-';
                assert(s[i] == '-');
            }
        }
        symbols_survive_urls(t);
        let u = replaced(t, '/', "-"@);
        assert(s[s.len() - 1] == s.last());
        if s.last() == '/' {
            let v = u + "-"@;
            assert(v.drop_last() =~= u);
            assert(v.last() == '-');
            assert(t + "/"@ =~= s);
        } else {
            let v = u.push(s.last());
            assert(v.drop_last() =~= u);
            assert(s.last() != '-');
            assert(t.push(s.last()) =~= s);
        }
    }
}

/// Everything the analyzer keeps of the fills it has seen.
pub struct Analyzer {
    pub tracker: PnlTracker,
    pub edges: EdgeTracker,
    pub prices: StrMap<Decimal>,
}

/// Model of [`Analyzer`].
#[verifier::ext_equal]
pub struct AnalyzerView {
    pub tracker: PnlView,
    pub edges: EdgeView,
    pub prices: Entries<Decimal>,
}

impl View for Analyzer {
    type V = AnalyzerView;

    open spec fn view(&self) -> AnalyzerView {
        AnalyzerView { tracker: self.tracker@, edges: self.edges@, prices: self.prices@ }
    }
}

/// What a fill earns in the eyes of the analyzer: a buy costs its fee, a sell earns what it gains
/// over the average cost of the holding, less its fee. `None` on overflow.
pub open spec fn edge_pnl(t: PnlView, fill: FillView) -> Option<Decimal> {
    match fill.side {
        OrderSide::Sell => minus(
            sale_pnl(position_of(t.positions, fill.pair), fill.qty, fill.price),
            Some(fill.fee),
        ),
        OrderSide::Buy => minus(Some(Decimal::of(0, 0)), Some(fill.fee)),
    }
}

impl AnalyzerView {
    /// After a fill: booked, its price noted, and recorded for the edge. `None` on overflow.
    pub open spec fn after(self, fill: FillView, now: Timestamp) -> Option<AnalyzerView> {
        match (edge_pnl(self.tracker, fill), self.tracker.after(fill)) {
            (Some(pnl), Some(tracker)) => {
                let trade = PnlTradeView {
                    timestamp: fill.timestamp,
                    pair: fill.pair,
                    side: side_text(fill.side),
                    price: fill.price,
                    qty: fill.qty,
                    fee: fill.fee,
                    pnl,
                };
                match self.edges.recorded(trade, now) {
                    Some(edges) => Some(
                        AnalyzerView {
                            tracker,
                            edges,
                            prices: stored(self.prices, fill.pair, fill.price),
                        },
                    ),
                    None => None,
                }
            },
            _ => None,
        }
    }
}

impl Analyzer {
    /// Takes a fill into account. `None`, with nothing changed, if an amount overflows.
    pub fn on_fill(&mut self, fill: &Fill, now: Timestamp) -> (r: Option<()>)
        ensures
            match old(self)@.after(fill@, now) {
                Some(a) => r is Some && final(self)@ == a,
                None => r is None && final(self)@ == old(self)@,
            },
    {
        let held = match self.tracker.positions.get(fill.pair.as_str()) {
            Some(p) => *p,
            None => crate::position::Position::new(),
        };
        let pnl = match fill.side {
            OrderSide::Sell => minus(
                crate::decimal::times(Some(fill.qty), fill.price.checked_sub(held.avg_cost)),
                Some(fill.fee),
            ),
            OrderSide::Buy => minus(Some(Decimal::zero()), Some(fill.fee)),
        }?;
        let mut tracker = self.tracker.dup();
        tracker.apply_fill(fill)?;
        let trade = PnlTrade {
            timestamp: fill.timestamp,
            pair: fill.pair.clone(),
            side: fill.side.as_str().to_owned(),
            price: fill.price,
            qty: fill.qty,
            fee: fill.fee,
            pnl,
        };
        self.edges.record_trade(&trade, now)?;
        self.tracker = tracker;
        self.prices.insert(fill.pair.clone(), fill.price);
        Some(())
    }
}

/// The latest trades, newest first, at most `limit` of them.
pub fn newest_first(trades: &Vec<PnlTrade>, limit: usize) -> (r: Vec<PnlTrade>)
    ensures
        views(r@) == last_of(views(trades@), limit as int).reverse(),
{
    let mut r: Vec<PnlTrade> = Vec::new();
    let mut i: usize = trades.len();
    let ghost want = last_of(views(trades@), limit as int).reverse();
    while i > 0 && r.len() < limit
        invariant
            i <= trades.len(),
            r.len() == trades.len() - i,
            r.len() <= limit,
            want == last_of(views(trades@), limit as int).reverse(),
            forall|j: int| 0 <= j < r.len() ==> (#[trigger] r@[j])@ == want[j],
        decreases i,
    {
        i = i - 1;
        r.push(trades[i].dup());
    }
    assert(views(r@) =~= want);
    r
}

/// Whether a request may pass: no token is configured, or it bears the right one.
pub fn authorized(header: &str, token: &str) -> (r: bool)
    ensures
        r == (token@.len() == 0 || header@ == bearer(token@)),
{
    token.is_empty() || bears(header, token)
}

} // verus!
