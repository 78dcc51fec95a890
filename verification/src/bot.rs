//! What the bot decides around the engine: reports, new pairs and start-up checks.
use crate::collections::{
    keyed, lookup, push_value, stored, stored_then_lookup, views, Dup, Entries, StrMap, StrSet,
};
use crate::decimal::{plus, product, Decimal};
use crate::engine::Engine;
use crate::events::{CommandView, EngineCommand, PairRecord};
use crate::pairs::{unset_config, ManagedPair, PairConfig, PairState};
use crate::position::Position;
use crate::proxy::{outgoing, to_proxy, ProxyCommand, ProxyCommandView};
use crate::quoter::{QuoteState, QuoterView};
use crate::state::{position_of, BotState};
use crate::state_store::{EngineSnapshot, PairReportData, PairReportView, StateStoreCommand};
use vstd::prelude::*;

verus! {

/// How a quoting state is reported.
pub open spec fn quote_word(state: QuoteState) -> Seq<char> {
    match state {
        QuoteState::Idle => "idle"@,
        QuoteState::Pending => "pending"@,
        QuoteState::Quoting => "quoting"@,
        QuoteState::BidFilled => "bid_filled"@,
        QuoteState::AskFilled => "ask_filled"@,
    }
}

fn quote_state_word(state: QuoteState) -> (r: &'static str)
    ensures
        r@ == quote_word(state),
{
    match state {
        QuoteState::Idle => "idle",
        QuoteState::Pending => "pending",
        QuoteState::Quoting => "quoting",
        QuoteState::BidFilled => "bid_filled",
        QuoteState::AskFilled => "ask_filled",
    }
}

/// The report on a pair. The average cost stands in for a price. `None` on overflow.
pub open spec fn pair_report(mp: ManagedPair, positions: Entries<Position>) -> Option<PairReportView> {
    let p = position_of(positions, mp.pair@);
    match product(p.qty, p.avg_cost) {
        Some(exposure_usd) => Some(
            PairReportView {
                pair: mp.pair@,
                position_qty: p.qty,
                position_avg_cost: p.avg_cost,
                exposure_usd,
                quoter_state: quote_word(mp.quoter@.state),
                has_open_orders: mp.quoter@.bid is Some || mp.quoter@.ask is Some,
            },
        ),
        None => None,
    }
}

/// The reports on some pairs. `None` on overflow.
pub open spec fn pair_reports(pairs: Seq<ManagedPair>, positions: Entries<Position>) -> Option<
    Seq<PairReportView>,
>
    decreases pairs.len(),
{
    if pairs.len() == 0 {
        Some(Seq::empty())
    } else {
        match (
            pair_reports(pairs.drop_last(), positions),
            pair_report(pairs.last(), positions),
        ) {
            (Some(s), Some(r)) => Some(s.push(r)),
            _ => None,
        }
    }
}

/// The sum of the exposures in some reports. `None` on overflow.
pub open spec fn exposure_sum(reports: Seq<PairReportView>) -> Option<Decimal>
    decreases reports.len(),
{
    if reports.len() == 0 {
        Some(Decimal::of(0, 0))
    } else {
        plus(exposure_sum(reports.drop_last()), Some(reports.last().exposure_usd))
    }
}

/// Whether a pair counts as active: it trades, or is being wound down.
pub open spec fn counts_as_active(mp: ManagedPair) -> bool {
    mp.state == PairState::Active || mp.state == PairState::WindDown
}

/// The number of active pairs.
pub open spec fn active_count(pairs: Seq<ManagedPair>) -> nat
    decreases pairs.len(),
{
    if pairs.len() == 0 {
        0
    } else {
        active_count(pairs.drop_last()) + (if counts_as_active(pairs.last()) {
            1nat
        } else {
            0
        })
    }
}

proof fn lemma_reports_stop(pairs: Seq<ManagedPair>, positions: Entries<Position>, i: int)
    requires
        0 <= i <= pairs.len(),
        pair_reports(pairs.take(i), positions) is None,
    ensures
        pair_reports(pairs, positions) is None,
    decreases pairs.len() - i,
{
    if i == pairs.len() {
        assert(pairs.take(i) =~= pairs);
    } else {
        assert(pairs.take(i + 1).drop_last() =~= pairs.take(i));
        lemma_reports_stop(pairs, positions, i + 1);
    }
}

/// Builds a snapshot of the managed pairs for heartbeats and reports. `None` on overflow.
pub fn build_engine_snapshot(pairs: &Vec<ManagedPair>, state: &BotState) -> (r: Option<
    EngineSnapshot,
>)
    requires
        pairs@.len() <= u32::MAX,
    ensures
        match pair_reports(pairs@, state@.positions) {
            Some(reports) => match exposure_sum(reports) {
                Some(total) => r is Some && r.unwrap().active_pairs == active_count(pairs@)
                    && r.unwrap().total_exposure_usd == total && views(r.unwrap().pair_reports@)
                    == reports,
                None => r is None,
            },
            None => r is None,
        },
{
    let ghost positions = state@.positions;
    let mut reports: Vec<PairReportData> = Vec::new();
    let mut active_pairs: u32 = 0;
    let mut total: Option<Decimal> = Some(Decimal::zero());
    let mut i: usize = 0;
    assert(views(reports@) =~= Seq::<PairReportView>::empty());
    while i < pairs.len()
        invariant
            i <= pairs.len() <= u32::MAX,
            active_pairs <= i,
            positions == state@.positions,
            active_pairs == active_count(pairs@.take(i as int)),
            pair_reports(pairs@.take(i as int), positions) == Some(views(reports@)),
            total == exposure_sum(views(reports@)),
        decreases pairs.len() - i,
    {
        let mp = &pairs[i];
        proof {
            assert(pairs@.take(i + 1).drop_last() =~= pairs@.take(i as int));
            assert(pairs@.take(i + 1).last() == pairs@[i as int]);
        }
        if mp.state == PairState::Active || mp.state == PairState::WindDown {
            active_pairs = active_pairs + 1;
        }
        let p = state.position(mp.pair.as_str());
        match p.qty.checked_mul(p.avg_cost) {
            Some(exposure_usd) => {
                let ghost before = views(reports@);
                push_value(
                    &mut reports,
                    PairReportData {
                        pair: mp.pair.clone(),
                        position_qty: p.qty,
                        position_avg_cost: p.avg_cost,
                        exposure_usd,
                        quoter_state: quote_state_word(mp.quoter.state).to_owned(),
                        has_open_orders: mp.quoter.bid_cl_ord_id.is_some()
                            || mp.quoter.ask_cl_ord_id.is_some(),
                    },
                );
                total = plus(total, Some(exposure_usd));
                assert(views(reports@).drop_last() =~= before);
            },
            None => {
                proof {
                    lemma_reports_stop(pairs@, positions, i + 1);
                }
                return None;
            },
        }
        i = i + 1;
    }
    assert(pairs@.take(i as int) =~= pairs@);
    match total {
        Some(total_exposure_usd) => Some(
            EngineSnapshot { active_pairs, total_exposure_usd, pair_reports: reports },
        ),
        None => None,
    }
}

/// The state of a pair as the engine's sets have it.
pub open spec fn engine_pair_state(e: Engine, pair: Seq<char>) -> PairState {
    if keyed(e.pending_liquidation@, pair) {
        PairState::Liquidating
    } else if keyed(e.disabled_pairs@, pair) || keyed(e.state@.disabled_pairs, pair) {
        PairState::Disabled
    } else if keyed(e.sell_only_pairs@, pair) {
        PairState::WindDown
    } else {
        PairState::Active
    }
}

/// Whether a managed pair stands for an entry of the engine's quoters: with the state, pair data and
/// number of liquidation attempts that the engine has for it. The engine keeps no settings of single
/// pairs, counts no buys and winds nothing down, so there are none.
pub open spec fn stands_for(mp: ManagedPair, e: Engine, entry: (Seq<char>, QuoterView)) -> bool {
    &&& mp.pair@ == entry.0
    &&& mp.quoter@ == entry.1
    &&& mp.state == engine_pair_state(e, entry.0)
    &&& match mp.pair_info {
        Some(i) => lookup(e.pair_info@, entry.0) == Some(i@),
        None => lookup(e.pair_info@, entry.0) is None,
    }
    &&& mp.liq_retry_count == (match lookup(e.liq_retry_count@, entry.0) {
        Some(n) => n,
        None => 0,
    })
    &&& mp.config == unset_config()
    &&& mp.buys_without_sell == 0
    &&& mp.winddown_since is None
}

/// The pairs that the engine quotes, each with its state, quoter and pair data.
pub fn managed_pairs(engine: &Engine) -> (r: Vec<ManagedPair>)
    ensures
        r@.len() == engine.quoters@.len(),
        forall|i: int|
            0 <= i < r@.len() ==> stands_for(#[trigger] r@[i], *engine, engine.quoters@[i]),
{
    let mut r: Vec<ManagedPair> = Vec::new();
    let mut i: usize = 0;
    let n: usize = engine.quoters.len();
    while i < n
        invariant
            i <= n == engine.quoters@.len(),
            r@.len() == i,
            forall|j: int|
                0 <= j < i ==> stands_for(#[trigger] r@[j], *engine, engine.quoters@[j]),
        decreases n - i,
    {
        let pair = engine.quoters.key_at(i);
        let p = pair.as_str();
        let state = if engine.pending_liquidation.contains_key(p) {
            PairState::Liquidating
        } else if engine.disabled_pairs.contains_key(p) || engine.state.disabled_pairs.contains_key(
            p,
        ) {
            PairState::Disabled
        } else if engine.sell_only_pairs.contains_key(p) {
            PairState::WindDown
        } else {
            PairState::Active
        };
        let mut mp = ManagedPair::with_state_and_config(
            pair.clone(),
            state,
            PairConfig::default(),
            match engine.pair_info.get(p) {
                Some(info) => Some(info.dup()),
                None => None,
            },
        );
        mp.quoter = engine.quoters.value_at(i).dup();
        if let Some(n) = engine.liq_retry_count.get(p) {
            mp.liq_retry_count = *n;
        }
        r.push(mp);
        i = i + 1;
    }
    r
}

/// The pairs of some records that are not known.
pub open spec fn unknown_pairs(known: Entries<()>, records: Seq<PairRecord>) -> Seq<Seq<char>>
    decreases records.len(),
{
    if records.len() == 0 {
        Seq::empty()
    } else {
        let rest = unknown_pairs(known, records.drop_last());
        if keyed(known, records.last().pair@) {
            rest
        } else {
            rest.push(records.last().pair@)
        }
    }
}

/// The pairs that a command of the state store names for the first time.
pub open spec fn new_in(known: Entries<()>, cmd: StateStoreCommand) -> Seq<Seq<char>> {
    match cmd {
        StateStoreCommand::Snapshot { pairs, defaults } => unknown_pairs(known, pairs@),
        StateStoreCommand::PairUpdated(record) => unknown_pairs(known, seq![record]),
        _ => Seq::empty(),
    }
}

/// The known pairs after some more are learned.
pub open spec fn learned(known: Entries<()>, pairs: Seq<Seq<char>>) -> Entries<()>
    decreases pairs.len(),
{
    if pairs.len() == 0 {
        known
    } else {
        stored(learned(known, pairs.drop_last()), pairs.last(), ())
    }
}

/// The pairs that the bot has met.
pub struct KnownPairs {
    pub pairs: StrSet,
}

impl View for KnownPairs {
    type V = Entries<()>;

    open spec fn view(&self) -> Entries<()> {
        self.pairs@
    }
}

impl KnownPairs {
    /// The pairs known at the start.
    pub fn new(pairs: &Vec<String>) -> (r: KnownPairs)
        ensures
            r@ == learned(Seq::empty(), views(pairs@)),
    {
        let mut r = KnownPairs { pairs: StrMap::new() };
        r.learn(pairs);
        r
    }

    /// Adds pairs to the known ones.
    pub fn learn(&mut self, pairs: &Vec<String>)
        ensures
            final(self)@ == learned(old(self)@, views(pairs@)),
    {
        let ghost before = self@;
        let ghost all = views(pairs@);
        let mut i: usize = 0;
        while i < pairs.len()
            invariant
                i <= pairs.len(),
                all == views(pairs@),
                self@ == learned(before, all.take(i as int)),
            decreases pairs.len() - i,
        {
            proof {
                assert(all.take(i + 1).drop_last() =~= all.take(i as int));
                assert(all.take(i + 1).last() == all[i as int]);
            }
            self.pairs.insert(pairs[i].clone(), ());
            i = i + 1;
        }
        assert(all.take(i as int) =~= all);
    }

    fn unknown(&self, records: &Vec<PairRecord>) -> (r: Vec<String>)
        ensures
            views(r@) == unknown_pairs(self@, records@),
    {
        let mut r: Vec<String> = Vec::new();
        let mut i: usize = 0;
        assert(views(r@) =~= unknown_pairs(self@, records@.take(0)));
        while i < records.len()
            invariant
                i <= records.len(),
                views(r@) == unknown_pairs(self@, records@.take(i as int)),
            decreases records.len() - i,
        {
            proof {
                assert(records@.take(i + 1).drop_last() =~= records@.take(i as int));
                assert(records@.take(i + 1).last() == records@[i as int]);
            }
            if !self.pairs.contains_key(records[i].pair.as_str()) {
                push_value(&mut r, records[i].pair.clone());
            }
            i = i + 1;
        }
        assert(records@.take(i as int) =~= records@);
        r
    }

    /// The pairs that a command names for the first time: their data has to be fetched and their
    /// books subscribed to.
    pub fn new_pairs(&self, cmd: &StateStoreCommand) -> (r: Vec<String>)
        ensures
            views(r@) == new_in(self@, *cmd),
    {
        match cmd {
            StateStoreCommand::Snapshot { pairs, defaults: _ } => self.unknown(pairs),
            StateStoreCommand::PairUpdated(record) => {
                let mut r: Vec<String> = Vec::new();
                proof {
                    assert(seq![*record].drop_last() =~= Seq::empty());
                    assert(unknown_pairs(self@, seq![*record].drop_last()) =~= Seq::empty());
                    assert(views(r@) =~= Seq::empty());
                }
                if !self.pairs.contains_key(record.pair.as_str()) {
                    push_value(&mut r, record.pair.clone());
                }
                r
            },
            _ => {
                let r: Vec<String> = Vec::new();
                assert(views(r@) =~= Seq::empty());
                r
            },
        }
    }
}

/// A learned pair is known, and a known pair stays known.
pub proof fn learned_pairs_are_known(known: Entries<()>, pairs: Seq<Seq<char>>, p: Seq<char>)
    ensures
        keyed(learned(known, pairs), p) == (keyed(known, p) || pairs.contains(p)),
    decreases pairs.len(),
{
    if pairs.len() > 0 {
        let before = pairs.drop_last();
        learned_pairs_are_known(known, before, p);
        stored_then_lookup(learned(known, before), pairs.last(), (), p);
        assert(keyed(learned(known, pairs), p) == (lookup(learned(known, pairs), p) is Some));
        assert(keyed(learned(known, before), p) == (lookup(learned(known, before), p) is Some));
        if before.contains(p) {
            let j = choose|j: int| 0 <= j < before.len() && before[j] == p;
            assert(pairs[j] == p);
        }
        if pairs.contains(p) && p != pairs.last() {
            let j = choose|j: int| 0 <= j < pairs.len() && pairs[j] == p;
            assert(before[j] == p);
        }
        if p == pairs.last() {
            assert(pairs[pairs.len() - 1] == p);
        }
    }
}

proof fn lemma_unknown(known: Entries<()>, records: Seq<PairRecord>, p: Seq<char>)
    ensures
        unknown_pairs(known, records).contains(p) ==> !keyed(known, p),
        !keyed(known, p) && (exists|i: int|
            0 <= i < records.len() && (#[trigger] records[i]).pair@ == p) ==> unknown_pairs(
            known,
            records,
        ).contains(p),
    decreases records.len(),
{
    if records.len() > 0 {
        let init = records.drop_last();
        let rest = unknown_pairs(known, init);
        let all = unknown_pairs(known, records);
        let last = records.last().pair@;
        lemma_unknown(known, init, p);
        if all.contains(p) {
            let j = choose|j: int| 0 <= j < all.len() && all[j] == p;
            if j < rest.len() {
                assert(rest[j] == p);
                assert(rest.contains(p));
            }
        }
        if !keyed(known, p) && (exists|i: int|
            0 <= i < records.len() && (#[trigger] records[i]).pair@ == p) {
            let i = choose|i: int| 0 <= i < records.len() && (#[trigger] records[i]).pair@ == p;
            if i < init.len() {
                assert(init[i].pair@ == p);
                let j = choose|j: int| 0 <= j < rest.len() && rest[j] == p;
                assert(all[j] == p);
            } else {
                assert(all[all.len() - 1] == p);
            }
        }
    }
}

/// Every pair is met as new once: a command that is seen again, after its new pairs were learned,
/// has no new pairs.
pub proof fn pairs_are_new_once(known: Entries<()>, cmd: StateStoreCommand)
    ensures
        new_in(learned(known, new_in(known, cmd)), cmd) == Seq::<Seq<char>>::empty(),
{
    let then = learned(known, new_in(known, cmd));
    let records = match cmd {
        StateStoreCommand::Snapshot { pairs, defaults } => pairs@,
        StateStoreCommand::PairUpdated(record) => seq![record],
        _ => Seq::empty(),
    };
    if new_in(then, cmd).len() > 0 {
        let p = new_in(then, cmd)[0];
        assert(new_in(then, cmd).contains(p));
        lemma_unknown(then, records, p);
        learned_pairs_are_known(known, new_in(known, cmd), p);
        lemma_came_from(then, records, 0);
        lemma_unknown(known, records, p);
    }
}

proof fn lemma_came_from(known: Entries<()>, records: Seq<PairRecord>, k: int)
    requires
        0 <= k < unknown_pairs(known, records).len(),
    ensures
        exists|i: int|
            0 <= i < records.len() && (#[trigger] records[i]).pair@ == unknown_pairs(
                known,
                records,
            )[k],
    decreases records.len(),
{
    let init = records.drop_last();
    let rest = unknown_pairs(known, init);
    if k < rest.len() {
        lemma_came_from(known, init, k);
        let i = choose|i: int| 0 <= i < init.len() && (#[trigger] init[i]).pair@ == rest[k];
        assert(records[i].pair@ == unknown_pairs(known, records)[k]);
    } else {
        assert(records[records.len() - 1].pair@ == unknown_pairs(known, records)[k]);
    }
}

/// What is missing for the bot to start.
#[derive(Clone, Copy, Debug, PartialEq, Eq, Structural)]
pub enum MissingSetting {
    ProxyUrl,
    StateStoreUrl,
}

/// Checks that the settings without which the bot cannot run are there.
pub fn check_settings(proxy_url: &str, state_store_url: &str) -> (r: Result<(), MissingSetting>)
    ensures
        r == (if proxy_url@.len() == 0 {
            Err::<(), MissingSetting>(MissingSetting::ProxyUrl)
        } else if state_store_url@.len() == 0 {
            Err(MissingSetting::StateStoreUrl)
        } else {
            Ok(())
        }),
{
    if proxy_url.is_empty() {
        Err(MissingSetting::ProxyUrl)
    } else if state_store_url.is_empty() {
        Err(MissingSetting::StateStoreUrl)
    } else {
        Ok(())
    }
}

/// How often a snapshot of the engine is pushed to the state store client, in milliseconds.
pub const SNAPSHOT_INTERVAL_MS: u64 = 5000;

/// Whether the next snapshot is due.
pub fn snapshot_due(elapsed_ms: u64) -> (r: bool)
    ensures
        r == (elapsed_ms >= 5000),
{
    elapsed_ms >= SNAPSHOT_INTERVAL_MS
}

/// Whether a command of the engine concerns the exchange; the others save state and log trades.
pub open spec fn to_exchange(c: CommandView) -> bool {
    match c {
        CommandView::PlaceOrder(_) => true,
        CommandView::AmendOrder { .. } => true,
        CommandView::CancelOrders(_) => true,
        CommandView::CancelAll => true,
        CommandView::RefreshDms => true,
        CommandView::PersistState(_) => false,
        CommandView::LogTrade(_) => false,
        CommandView::Shutdown { .. } => true,
    }
}

/// Whether a command of the engine is sent to the exchange. In a dry run none is.
pub fn goes_to_exchange(dry_run: bool, cmd: &EngineCommand) -> (r: bool)
    ensures
        r == (!dry_run && to_exchange(cmd@)),
{
    !dry_run && match cmd {
        EngineCommand::PersistState(_) => false,
        EngineCommand::LogTrade(_) => false,
        _ => true,
    }
}

/// What is sent to the proxy for a command of the engine, by the next request numbers: nothing in a
/// dry run.
pub open spec fn dispatched(dry_run: bool, c: CommandView, req_id: u64, dms_timeout: u64) -> Seq<
    ProxyCommandView,
> {
    if !dry_run && to_exchange(c) {
        outgoing(c, req_id, dms_timeout)
    } else {
        Seq::empty()
    }
}

/// What is sent to the proxy for a command of the engine. The requests are numbered from `req_id`
/// on; at most two numbers are used.
pub fn dispatch(dry_run: bool, cmd: &EngineCommand, req_id: u64, dms_timeout: u64) -> (r: Vec<
    ProxyCommand,
>)
    requires
        req_id < u64::MAX,
    ensures
        views(r@) == dispatched(dry_run, cmd@, req_id, dms_timeout),
{
    if goes_to_exchange(dry_run, cmd) {
        to_proxy(cmd, req_id, dms_timeout)
    } else {
        let r: Vec<ProxyCommand> = Vec::new();
        assert(views(r@) =~= Seq::empty());
        r
    }
}

/// A dry run sends nothing. Any other run sends something for just those commands that concern the
/// exchange.
pub proof fn dry_runs_send_nothing(c: CommandView, req_id: u64, dms_timeout: u64)
    ensures
        dispatched(true, c, req_id, dms_timeout).len() == 0,
        dispatched(false, c, req_id, dms_timeout) == outgoing(c, req_id, dms_timeout),
        dispatched(false, c, req_id, dms_timeout).len() > 0 <==> to_exchange(c),
{
}

} // verus!
