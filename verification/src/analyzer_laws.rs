//! What the analyzer does about a pair, by the numbers: its edge, the thresholds and the time since
//! its last trade.
use crate::analyzer::{
    class_of, record_of, traded_actions, untraded_actions, verdict, verdict_untraded,
    AnalyzerConfig, PatchView, StorePairView,
};
use crate::collections::{keyed, Entries};
use crate::decimal::Decimal;
use crate::decimal_laws::{less_is_by_units, units};
use crate::edge::PairEdgeView;
use crate::text::{decimal_text, digits, signed_digits};
use crate::time::{hours_between, nanos_between, time_of, Timestamp, NANOS_PER_HOUR};
use vstd::prelude::*;

verus! {

/// Whether a configuration holds proper numbers, and a number of hours that is above zero as a
/// signed one.
pub open spec fn is_proper(cfg: AnalyzerConfig) -> bool {
    &&& cfg.high_edge_threshold.valid()
    &&& cfg.low_edge_threshold.valid()
    &&& cfg.negative_edge_threshold.valid()
    &&& 0 < cfg.zero_trades_disable_hours <= i64::MAX
}

/// Whether so many hours have passed between two points in time.
pub open spec fn hours_have_passed(since: Timestamp, now: Timestamp, hours: int) -> bool {
    nanos_between(since, now) >= hours * NANOS_PER_HOUR
}

/// Whether the last trade of a pair is at least the configured number of hours ago.
pub open spec fn is_silent(e: PairEdgeView, now: Timestamp, cfg: AnalyzerConfig) -> bool {
    e.last_trade_at matches Some(t) && hours_have_passed(
        t,
        now,
        cfg.zero_trades_disable_hours as int,
    )
}

/// Whether an update changes an inventory limit and a minimum spread to these, and nothing else.
pub open spec fn sets_limits(p: PatchView, max_inventory: Decimal, min_spread: Decimal) -> bool {
    &&& p.state is None
    &&& p.disabled_reason is None
    &&& p.config matches Some(c) && c.max_inventory_usd == Some(max_inventory) && c.min_spread_bps
        == Some(min_spread) && c.order_size_usd is None
}

/// Whether an update changes the state to this one, and no limit.
pub open spec fn sets_state(p: PatchView, state: Seq<char>) -> bool {
    p.state == Some(state) && p.config is None && p.disabled_reason is Some
}

proof fn lemma_hours(since: Timestamp, now: Timestamp, hours: int)
    requires
        hours > 0,
    ensures
        hours_between(since, now) >= hours <==> hours_have_passed(since, now, hours),
{
    let n = nanos_between(since, now);
    let d = NANOS_PER_HOUR as int;
    if n >= 0 {
        let q = n / d;
        assert(n == d * q + n % d && 0 <= n % d < d) by (nonlinear_arith)
            requires
                q == n / d,
                d > 0,
        ;
        assert(q >= hours <==> n >= hours * d) by (nonlinear_arith)
            requires
                n == d * q + n % d,
                0 <= n % d < d,
        ;
    } else {
        assert((-n) / d >= 0) by (nonlinear_arith)
            requires
                n < 0,
                d > 0,
        ;
        assert(hours * d > 0) by (nonlinear_arith)
            requires
                hours > 0,
                d > 0,
        ;
    }
}

/// Only active pairs are changed, and of those that were traded lately only such that were traded in
/// the window.
pub proof fn only_active_pairs_are_changed(
    state: Seq<char>,
    e: PairEdgeView,
    now: Timestamp,
    cfg: AnalyzerConfig,
)
    requires
        is_proper(cfg),
    ensures
        state != "active"@ ==> verdict(state, e, now, cfg) is None,
        !is_silent(e, now, cfg) && e.trade_count == 0 ==> verdict(state, e, now, cfg) is None,
{
    if let Some(t) = e.last_trade_at {
        lemma_hours(t, now, cfg.zero_trades_disable_hours as int);
    }
}

/// An active pair is disabled if and only if its last trade is at least the configured number of
/// hours ago, whatever its edge is; the reason names the hours.
pub proof fn silence_disables(e: PairEdgeView, now: Timestamp, cfg: AnalyzerConfig)
    requires
        is_proper(cfg),
    ensures
        ({
            let v = verdict("active"@, e, now, cfg);
            &&& is_silent(e, now, cfg) ==> v is Some && sets_state(v.unwrap(), "disabled"@)
                && v.unwrap().disabled_reason == Some(
                "No trades for "@ + signed_digits(hours_between(e.last_trade_at.unwrap(), now))
                    + " hours"@,
            )
            &&& (v matches Some(p) && p.state == Some("disabled"@)) ==> is_silent(e, now, cfg)
        }),
{
    if let Some(t) = e.last_trade_at {
        lemma_hours(t, now, cfg.zero_trades_disable_hours as int);
    }
    reveal_strlit("disabled");
    reveal_strlit("wind_down");
    assert("disabled"@.len() != "wind_down"@.len());
}

/// What an active pair that was traded lately, and in the window, is due goes by its edge alone. It
/// gets the limits of promoted pairs if and only if the edge has reached the high threshold. Short
/// of that, it is wound down if the edge is down at the negative threshold, and gets the limits of
/// demoted pairs if it is down at the low one but above the negative one. Otherwise nothing is
/// changed.
pub proof fn limits_follow_the_edge(e: PairEdgeView, now: Timestamp, cfg: AnalyzerConfig)
    requires
        is_proper(cfg),
        e.edge.valid(),
        e.trade_count > 0,
        !is_silent(e, now, cfg),
    ensures
        ({
            let v = verdict("active"@, e, now, cfg);
            let edge = units(e.edge);
            let high = units(cfg.high_edge_threshold);
            let low = units(cfg.low_edge_threshold);
            let negative = units(cfg.negative_edge_threshold);
            &&& edge >= high ==> v is Some && sets_limits(
                v.unwrap(),
                cfg.promoted_max_inventory_usd,
                cfg.promoted_min_spread_bps,
            )
            &&& edge < high && edge <= negative ==> v is Some && sets_state(
                v.unwrap(),
                "wind_down"@,
            ) && v.unwrap().disabled_reason == Some(
                "Negative edge: "@ + decimal_text(e.edge.m(), e.edge.s()) + " over "@ + digits(
                    cfg.eval_window_hours as nat,
                ) + "h window"@,
            )
            &&& negative < edge <= low && edge < high ==> v is Some && sets_limits(
                v.unwrap(),
                cfg.demoted_max_inventory_usd,
                cfg.demoted_min_spread_bps,
            )
            &&& negative < edge < high && low < edge ==> v is None
        }),
{
    less_is_by_units(e.edge, cfg.high_edge_threshold);
    less_is_by_units(cfg.negative_edge_threshold, e.edge);
    less_is_by_units(cfg.low_edge_threshold, e.edge);
    if let Some(t) = e.last_trade_at {
        lemma_hours(t, now, cfg.zero_trades_disable_hours as int);
    }
}

/// No pair gets a larger inventory limit for a smaller edge, nor a wider minimum spread for a larger
/// one, as long as the limits of promoted pairs are the generous ones.
pub proof fn better_edges_get_better_limits(
    a: PairEdgeView,
    b: PairEdgeView,
    now: Timestamp,
    cfg: AnalyzerConfig,
)
    requires
        is_proper(cfg),
        a.edge.valid() && b.edge.valid(),
        a.trade_count > 0 && b.trade_count > 0,
        !is_silent(a, now, cfg) && !is_silent(b, now, cfg),
        units(a.edge) <= units(b.edge),
        units(cfg.demoted_max_inventory_usd) <= units(cfg.promoted_max_inventory_usd),
        units(cfg.promoted_min_spread_bps) <= units(cfg.demoted_min_spread_bps),
    ensures
        ({
            let va = verdict("active"@, a, now, cfg);
            let vb = verdict("active"@, b, now, cfg);
            va is Some && vb is Some && va.unwrap().config is Some && vb.unwrap().config is Some
                ==> {
                let ca = va.unwrap().config.unwrap();
                let cb = vb.unwrap().config.unwrap();
                &&& units(ca.max_inventory_usd.unwrap()) <= units(cb.max_inventory_usd.unwrap())
                &&& units(cb.min_spread_bps.unwrap()) <= units(ca.min_spread_bps.unwrap())
            }
        }),
{
    limits_follow_the_edge(a, now, cfg);
    limits_follow_the_edge(b, now, cfg);
}

/// A pair that was never traded is disabled if and only if it is active and was created at least the
/// configured number of hours ago, as far as its record says when; nothing else is ever done to it.
pub proof fn pairs_never_traded_are_disabled_in_time(
    r: StorePairView,
    last_trade: Entries<Timestamp>,
    now: Timestamp,
    cfg: AnalyzerConfig,
)
    requires
        is_proper(cfg),
    ensures
        ({
            let v = verdict_untraded(r, last_trade, now, cfg);
            let due = r.state == "active"@ && !keyed(last_trade, r.symbol) && r.created_at is Some
                && (time_of(r.created_at.unwrap()) matches Some(t) && hours_have_passed(
                t,
                now,
                cfg.zero_trades_disable_hours as int,
            ));
            &&& due ==> v is Some && sets_state(v.unwrap(), "disabled"@)
            &&& !due ==> v is None
        }),
{
    if let Some(text) = r.created_at {
        if let Some(t) = time_of(text) {
            lemma_hours(t, now, cfg.zero_trades_disable_hours as int);
        }
    }
}

/// An edge is called high, negative or low by the same thresholds as the limits follow.
pub proof fn classes_follow_the_edge(e: PairEdgeView, cfg: AnalyzerConfig)
    requires
        is_proper(cfg),
        e.edge.valid(),
    ensures
        ({
            let c = class_of(e, cfg);
            let edge = units(e.edge);
            let high = units(cfg.high_edge_threshold);
            let low = units(cfg.low_edge_threshold);
            let negative = units(cfg.negative_edge_threshold);
            &&& c is NoData <==> e.trade_count == 0
            &&& c is HighEdge <==> e.trade_count > 0 && edge >= high
            &&& c is NegativeEdge <==> e.trade_count > 0 && edge < high && edge <= negative
            &&& c is LowEdge <==> e.trade_count > 0 && negative < edge <= low && edge < high
            &&& c is Neutral <==> e.trade_count > 0 && negative < edge < high && low < edge
        }),
{
    less_is_by_units(e.edge, cfg.high_edge_threshold);
    less_is_by_units(cfg.negative_edge_threshold, e.edge);
    less_is_by_units(cfg.low_edge_threshold, e.edge);
}

/// Of the records of the state store the last one of a pair counts.
pub proof fn last_records_count(records: Seq<StorePairView>, symbol: Seq<char>)
    ensures
        record_of(records, symbol) matches Some(r) ==> exists|i: int|
            0 <= i < records.len() && #[trigger] records[i] == r && r.symbol == symbol && (forall|
                k: int,
            |
                i < k < records.len() ==> (#[trigger] records[k]).symbol != symbol),
        record_of(records, symbol) is None ==> forall|i: int|
            0 <= i < records.len() ==> (#[trigger] records[i]).symbol != symbol,
    decreases records.len(),
{
    if records.len() > 0 {
        if records.last().symbol == symbol {
            assert(records[records.len() - 1] == records.last());
        } else {
            let front = records.drop_last();
            last_records_count(front, symbol);
            if let Some(r) = record_of(front, symbol) {
                let i = choose|i: int|
                    0 <= i < front.len() && #[trigger] front[i] == r && r.symbol == symbol && (
                    forall|k: int| i < k < front.len() ==> (#[trigger] front[k]).symbol != symbol);
                assert(records[i] == r);
                assert forall|k: int| i < k < records.len() implies (#[trigger] records[k]).symbol
                    != symbol by {
                    if k < front.len() {
                        assert(front[k] == records[k]);
                    }
                }
            } else {
                assert forall|i: int| 0 <= i < records.len() implies (#[trigger] records[i]).symbol
                    != symbol by {
                    if i < front.len() {
                        assert(front[i] == records[i]);
                    }
                }
            }
        }
    }
}

/// Whether an update is what one of these pairs is due.
pub open spec fn is_due(
    action: (Seq<char>, PatchView),
    e: PairEdgeView,
    records: Seq<StorePairView>,
    now: Timestamp,
    cfg: AnalyzerConfig,
) -> bool {
    &&& action.0 == e.symbol
    &&& record_of(records, e.symbol) matches Some(r) && verdict(r.state, e, now, cfg) == Some(
        action.1,
    )
}

/// Every traded pair with a record gets the update it is due, under its own symbol, and there is no
/// update that no pair is due.
pub proof fn traded_pairs_get_what_they_are_due(
    edges: Seq<PairEdgeView>,
    records: Seq<StorePairView>,
    now: Timestamp,
    cfg: AnalyzerConfig,
)
    ensures
        ({
            let all = traded_actions(edges, records, now, cfg);
            &&& forall|i: int, a: (Seq<char>, PatchView)|
                0 <= i < edges.len() && is_due(a, #[trigger] edges[i], records, now, cfg)
                    ==> #[trigger] all.contains(a)
            &&& forall|a: (Seq<char>, PatchView)| #[trigger]
                all.contains(a) ==> exists|i: int|
                    0 <= i < edges.len() && is_due(a, #[trigger] edges[i], records, now, cfg)
        }),
    decreases edges.len(),
{
    let all = traded_actions(edges, records, now, cfg);
    if edges.len() > 0 {
        let front = edges.drop_last();
        let before = traded_actions(front, records, now, cfg);
        traded_pairs_get_what_they_are_due(front, records, now, cfg);
        assert(forall|k: int| 0 <= k < before.len() ==> all[k] == before[k]);
        assert forall|i: int, a: (Seq<char>, PatchView)|
            0 <= i < edges.len() && is_due(
                a,
                #[trigger] edges[i],
                records,
                now,
                cfg,
            ) implies #[trigger] all.contains(a) by {
            if i < front.len() {
                assert(front[i] == edges[i]);
                assert(before.contains(a));
                let k = choose|k: int| 0 <= k < before.len() && before[k] == a;
                assert(all[k] == a);
            } else {
                assert(all[all.len() - 1] == a);
            }
        }
        assert forall|a: (Seq<char>, PatchView)| #[trigger] all.contains(a) implies exists|i: int|
            0 <= i < edges.len() && is_due(a, #[trigger] edges[i], records, now, cfg) by {
            let k = choose|k: int| 0 <= k < all.len() && all[k] == a;
            if k < before.len() {
                assert(before[k] == a);
                assert(before.contains(a));
                let i = choose|i: int|
                    0 <= i < front.len() && is_due(a, #[trigger] front[i], records, now, cfg);
                assert(front[i] == edges[i]);
            } else {
                assert(is_due(a, edges[edges.len() - 1], records, now, cfg));
            }
        }
    }
}

/// Every pair of the state store that was never traded gets the update it is due, under its own
/// symbol, and there is no other update among them.
pub proof fn untraded_pairs_get_what_they_are_due(
    records: Seq<StorePairView>,
    last_trade: Entries<Timestamp>,
    now: Timestamp,
    cfg: AnalyzerConfig,
)
    ensures
        ({
            let all = untraded_actions(records, last_trade, now, cfg);
            &&& forall|i: int|
                #![trigger records[i]]
                0 <= i < records.len() && verdict_untraded(records[i], last_trade, now, cfg) is Some
                    ==> all.contains(
                    (
                        records[i].symbol,
                        verdict_untraded(records[i], last_trade, now, cfg).unwrap(),
                    ),
                )
            &&& forall|a: (Seq<char>, PatchView)| #[trigger]
                all.contains(a) ==> exists|i: int|
                    0 <= i < records.len() && (#[trigger] records[i]).symbol == a.0
                        && verdict_untraded(records[i], last_trade, now, cfg) == Some(a.1)
        }),
    decreases records.len(),
{
    let all = untraded_actions(records, last_trade, now, cfg);
    if records.len() > 0 {
        let front = records.drop_last();
        let before = untraded_actions(front, last_trade, now, cfg);
        untraded_pairs_get_what_they_are_due(front, last_trade, now, cfg);
        assert(forall|k: int| 0 <= k < before.len() ==> all[k] == before[k]);
        assert forall|i: int|
            #![trigger records[i]]
            0 <= i < records.len() && verdict_untraded(
                records[i],
                last_trade,
                now,
                cfg,
            ) is Some implies all.contains(
            (records[i].symbol, verdict_untraded(records[i], last_trade, now, cfg).unwrap()),
        ) by {
            let a = (
                records[i].symbol,
                verdict_untraded(records[i], last_trade, now, cfg).unwrap(),
            );
            if i < front.len() {
                assert(front[i] == records[i]);
                assert(before.contains(a));
                let k = choose|k: int| 0 <= k < before.len() && before[k] == a;
                assert(all[k] == a);
            } else {
                assert(all[all.len() - 1] == a);
            }
        }
        assert forall|a: (Seq<char>, PatchView)| #[trigger] all.contains(a) implies exists|i: int|
            0 <= i < records.len() && (#[trigger] records[i]).symbol == a.0 && verdict_untraded(
                records[i],
                last_trade,
                now,
                cfg,
            ) == Some(a.1) by {
            let k = choose|k: int| 0 <= k < all.len() && all[k] == a;
            if k < before.len() {
                assert(before[k] == a);
                assert(before.contains(a));
                let i = choose|i: int|
                    0 <= i < front.len() && (#[trigger] front[i]).symbol == a.0 && verdict_untraded(
                        front[i],
                        last_trade,
                        now,
                        cfg,
                    ) == Some(a.1);
                assert(front[i] == records[i]);
            } else {
                assert(records[records.len() - 1].symbol == a.0);
            }
        }
    }
}

} // verus!
