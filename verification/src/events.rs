//! What goes into the engine and what comes out of it.
use crate::decimal::Decimal;
use crate::pairs::{GlobalDefaults, PairConfig, PairState};
use crate::state::{BotState, BotStateView};
use crate::time::Timestamp;
use crate::types::{
    Fill, LevelUpdate, OrderRequest, OrderRequestView, PairInfo, TradeRecord, TradeRecordView,
};
use crate::collections::{texts, StrMap};
use vstd::prelude::*;

verus! {

/// A pair record as the state store keeps it.
#[derive(Clone, Debug)]
pub struct PairRecord {
    pub pair: String,
    pub state: PairState,
    pub config: PairConfig,
    pub disabled_reason: Option<String>,
    pub auto_enable_at: Option<Timestamp>,
    pub created_at: Timestamp,
    pub updated_at: Timestamp,
}

/// Events flowing into the engine. All timestamps come from the event source, which makes the
/// engine deterministic.
#[allow(inconsistent_fields)]
pub enum EngineEvent {
    BookSnapshot {
        pair: String,
        bids: Vec<LevelUpdate>,
        asks: Vec<LevelUpdate>,
        timestamp: Timestamp,
    },
    BookUpdate {
        pair: String,
        bid_updates: Vec<LevelUpdate>,
        ask_updates: Vec<LevelUpdate>,
        timestamp: Timestamp,
    },
    Fill(Fill),
    OrderAcknowledged { cl_ord_id: String, order_id: String },
    OrderCancelled {
        cl_ord_id: String,
        pair: String,
        /// Reason for the cancellation, if the exchange gives one.
        reason: Option<String>,
    },
    OrderRejected { cl_ord_id: String, pair: String, reason: String },
    /// Periodic heartbeat for stale order checks and the dead man's switch.
    Tick { timestamp: Timestamp },
    /// Command from the control API.
    ApiCommand(ApiAction),
    /// Command from the state store.
    StateStoreCommand(StateStoreAction),
    /// Pair data fetched for newly discovered pairs.
    PairInfoFetched { info: StrMap<PairInfo> },
    /// Periodic balance snapshot from the exchange, by asset. It corrects the holdings, should
    /// fills have been lost.
    BalanceUpdate { balances: StrMap<Decimal> },
}

/// What the control API can ask for.
#[derive(Clone, Debug)]
pub enum ApiAction {
    CancelAll,
    CancelOrder { cl_ord_id: String },
    Pause,
    Resume,
    Shutdown,
    Liquidate { pair: String },
    /// Disable a pair: cancel its orders, stop quoting.
    DisablePair { pair: String },
    /// Re-enable a disabled pair (clears its cooldown too).
    EnablePair { pair: String },
    /// Add a new pair at runtime.
    AddPair { pair: String },
    /// Remove a pair: liquidate its position and disable it for good.
    RemovePair { pair: String },
}

/// What the state store tells the engine.
#[derive(Clone, Debug)]
pub enum StateStoreAction {
    /// All pairs and the defaults.
    Snapshot { pairs: Vec<PairRecord>, defaults: GlobalDefaults },
    /// A single pair was created or updated.
    PairUpdated(PairRecord),
    /// A pair was removed: cancel its orders and stop quoting it.
    PairRemoved { pair: String },
    /// The defaults were updated.
    DefaultsUpdated(GlobalDefaults),
}

/// Commands flowing out of the engine; each is a side effect for someone else to carry out.
pub enum EngineCommand {
    PlaceOrder(OrderRequest),
    AmendOrder { cl_ord_id: String, new_price: Option<Decimal>, new_qty: Option<Decimal> },
    CancelOrders(Vec<String>),
    CancelAll,
    RefreshDms,
    PersistState(BotState),
    LogTrade(TradeRecord),
    Shutdown { reason: String },
}

/// Model of [`EngineCommand`].
pub enum CommandView {
    PlaceOrder(OrderRequestView),
    AmendOrder { cl_ord_id: Seq<char>, new_price: Option<Decimal>, new_qty: Option<Decimal> },
    CancelOrders(Seq<Seq<char>>),
    CancelAll,
    RefreshDms,
    PersistState(BotStateView),
    LogTrade(TradeRecordView),
    Shutdown { reason: Seq<char> },
}

impl View for EngineCommand {
    type V = CommandView;

    open spec fn view(&self) -> CommandView {
        match *self {
            EngineCommand::PlaceOrder(r) => CommandView::PlaceOrder(r@),
            EngineCommand::AmendOrder { cl_ord_id, new_price, new_qty } => CommandView::AmendOrder {
                cl_ord_id: cl_ord_id@,
                new_price,
                new_qty,
            },
            EngineCommand::CancelOrders(ids) => CommandView::CancelOrders(texts(ids@)),
            EngineCommand::CancelAll => CommandView::CancelAll,
            EngineCommand::RefreshDms => CommandView::RefreshDms,
            EngineCommand::PersistState(s) => CommandView::PersistState(s@),
            EngineCommand::LogTrade(t) => CommandView::LogTrade(t@),
            EngineCommand::Shutdown { reason } => CommandView::Shutdown { reason: reason@ },
        }
    }
}

/// The model of a list of commands.
pub open spec fn commands(s: Seq<EngineCommand>) -> Seq<CommandView> {
    Seq::new(s.len(), |i: int| s[i]@)
}

/// Appends a string to a list.
pub fn push_text(v: &mut Vec<String>, s: String)
    ensures
        texts(final(v)@) == texts(old(v)@).push(s@),
{
    let ghost want = texts(v@).push(s@);
    v.push(s);
    assert(texts(v@) =~= want);
}

/// Appends a command to a list.
pub fn push_command(v: &mut Vec<EngineCommand>, c: EngineCommand)
    ensures
        commands(final(v)@) == commands(old(v)@).push(c@),
{
    let ghost want = commands(v@).push(c@);
    v.push(c);
    assert(commands(v@) =~= want);
}

/// Appends a list of commands to another.
pub fn append_commands(v: &mut Vec<EngineCommand>, more: Vec<EngineCommand>)
    ensures
        commands(final(v)@) == commands(old(v)@) + commands(more@),
{
    let mut more = more;
    let ghost want = commands(v@) + commands(more@);
    v.append(&mut more);
    assert(commands(v@) =~= want);
}

/// No commands.
pub fn no_commands() -> (r: Vec<EngineCommand>)
    ensures
        commands(r@) == Seq::<CommandView>::empty(),
{
    let r: Vec<EngineCommand> = Vec::new();
    assert(commands(r@) =~= Seq::<CommandView>::empty());
    r
}

/// A single command.
pub fn one_command(c: EngineCommand) -> (r: Vec<EngineCommand>)
    ensures
        commands(r@) == seq![c@],
{
    let mut r = no_commands();
    push_command(&mut r, c);
    assert(commands(r@) =~= seq![c@]);
    r
}

} // verus!
