//! The conversation with the state store, an outside service that keeps pair settings.
use crate::collections::{push_value, views, Dup};
use crate::decimal::Decimal;
use crate::events::{EngineEvent, PairRecord, StateStoreAction};
use crate::pairs::GlobalDefaults;
use crate::time::Timestamp;
use vstd::prelude::*;

verus! {

/// Commands that the state store client sends to the engine.
#[derive(Clone, Debug)]
pub enum StateStoreCommand {
    /// Full snapshot of pairs and defaults received on connect.
    Snapshot { pairs: Vec<PairRecord>, defaults: GlobalDefaults },
    /// A single pair was updated.
    PairUpdated(PairRecord),
    /// A pair was removed: the engine cancels its orders and stops quoting it.
    PairRemoved { pair: String },
    /// Global defaults changed.
    DefaultsUpdated(GlobalDefaults),
}

/// Messages sent from the state store to the bot.
#[derive(Clone, Debug)]
pub enum StateStoreMessage {
    /// Initial snapshot of all pairs and defaults.
    Snapshot { pairs: Vec<PairRecord>, defaults: GlobalDefaults },
    /// A pair was created or updated.
    PairUpdated { pair: PairRecord },
    /// A pair was removed.
    PairRemoved { pair: String },
    /// Global defaults were updated.
    DefaultsUpdated { defaults: GlobalDefaults },
}

/// Configuration of the connection to the state store. Times are in seconds.
#[derive(Clone, Debug)]
pub struct StateStoreConfig {
    pub url: String,
    pub token: String,
    pub heartbeat_interval: u64,
    pub report_interval: u64,
    pub reconnect_base_delay: u64,
    pub reconnect_max_delay: u64,
}

impl Default for StateStoreConfig {
    fn default() -> (r: StateStoreConfig)
        ensures
            r.url@.len() == 0,
            r.token@.len() == 0,
            r.heartbeat_interval == 30,
            r.report_interval == 10,
            r.reconnect_base_delay == 1,
            r.reconnect_max_delay == 60,
    {
        StateStoreConfig {
            url: String::new(),
            token: String::new(),
            heartbeat_interval: 30,
            report_interval: 10,
            reconnect_base_delay: 1,
            reconnect_max_delay: 60,
        }
    }
}

impl StateStoreConfig {
    /// Whether a state store is configured at all.
    pub fn is_configured(&self) -> (r: bool)
        ensures
            r == (self.url@.len() != 0),
    {
        !self.url.as_str().is_empty()
    }
}

/// Data for a single pair report, collected from the engine.
#[derive(Clone, Debug)]
pub struct PairReportData {
    pub pair: String,
    pub position_qty: Decimal,
    pub position_avg_cost: Decimal,
    pub exposure_usd: Decimal,
    pub quoter_state: String,
    pub has_open_orders: bool,
}

/// Model of [`PairReportData`].
#[verifier::ext_equal]
pub struct PairReportView {
    pub pair: Seq<char>,
    pub position_qty: Decimal,
    pub position_avg_cost: Decimal,
    pub exposure_usd: Decimal,
    pub quoter_state: Seq<char>,
    pub has_open_orders: bool,
}

impl View for PairReportData {
    type V = PairReportView;

    open spec fn view(&self) -> PairReportView {
        PairReportView {
            pair: self.pair@,
            position_qty: self.position_qty,
            position_avg_cost: self.position_avg_cost,
            exposure_usd: self.exposure_usd,
            quoter_state: self.quoter_state@,
            has_open_orders: self.has_open_orders,
        }
    }
}

impl Dup for PairReportData {
    fn dup(&self) -> (r: PairReportData) {
        PairReportData {
            pair: self.pair.clone(),
            position_qty: self.position_qty,
            position_avg_cost: self.position_avg_cost,
            exposure_usd: self.exposure_usd,
            quoter_state: self.quoter_state.clone(),
            has_open_orders: self.has_open_orders,
        }
    }
}

/// Snapshot of engine state, from which heartbeats and pair reports are built.
#[derive(Clone, Debug)]
pub struct EngineSnapshot {
    pub active_pairs: u32,
    pub total_exposure_usd: Decimal,
    pub pair_reports: Vec<PairReportData>,
}

/// Messages sent from the bot to the state store.
#[derive(Clone, Debug)]
#[allow(inconsistent_fields)]
pub enum BotMessage {
    /// Periodic heartbeat with summary figures.
    Heartbeat { timestamp: Timestamp, active_pairs: u32, total_exposure_usd: Decimal },
    /// Position and status of one pair.
    PairReport(PairReportData),
}

/// Model of [`BotMessage`].
#[allow(inconsistent_fields)]
pub enum BotMessageView {
    Heartbeat { timestamp: Timestamp, active_pairs: u32, total_exposure_usd: Decimal },
    PairReport(PairReportView),
}

impl View for BotMessage {
    type V = BotMessageView;

    open spec fn view(&self) -> BotMessageView {
        match *self {
            BotMessage::Heartbeat { timestamp, active_pairs, total_exposure_usd } =>
                BotMessageView::Heartbeat { timestamp, active_pairs, total_exposure_usd },
            BotMessage::PairReport(r) => BotMessageView::PairReport(r@),
        }
    }
}

/// The command that a message of the state store stands for.
pub fn command_for(message: StateStoreMessage) -> (r: StateStoreCommand)
    ensures
        r == (match message {
            StateStoreMessage::Snapshot { pairs, defaults } => StateStoreCommand::Snapshot {
                pairs,
                defaults,
            },
            StateStoreMessage::PairUpdated { pair } => StateStoreCommand::PairUpdated(pair),
            StateStoreMessage::PairRemoved { pair } => StateStoreCommand::PairRemoved { pair },
            StateStoreMessage::DefaultsUpdated { defaults } =>
                StateStoreCommand::DefaultsUpdated(defaults),
        }),
{
    match message {
        StateStoreMessage::Snapshot { pairs, defaults } => StateStoreCommand::Snapshot {
            pairs,
            defaults,
        },
        StateStoreMessage::PairUpdated { pair } => StateStoreCommand::PairUpdated(pair),
        StateStoreMessage::PairRemoved { pair } => StateStoreCommand::PairRemoved { pair },
        StateStoreMessage::DefaultsUpdated { defaults } => StateStoreCommand::DefaultsUpdated(
            defaults,
        ),
    }
}

/// Converts a command of the state store into an event for the engine.
pub fn state_store_cmd_to_event(cmd: StateStoreCommand) -> (r: EngineEvent)
    ensures
        r == EngineEvent::StateStoreCommand(
            match cmd {
                StateStoreCommand::Snapshot { pairs, defaults } => StateStoreAction::Snapshot {
                    pairs,
                    defaults,
                },
                StateStoreCommand::PairUpdated(record) => StateStoreAction::PairUpdated(record),
                StateStoreCommand::PairRemoved { pair } => StateStoreAction::PairRemoved { pair },
                StateStoreCommand::DefaultsUpdated(defaults) => StateStoreAction::DefaultsUpdated(
                    defaults,
                ),
            },
        ),
{
    match cmd {
        StateStoreCommand::Snapshot { pairs, defaults } => EngineEvent::StateStoreCommand(
            StateStoreAction::Snapshot { pairs, defaults },
        ),
        StateStoreCommand::PairUpdated(record) => EngineEvent::StateStoreCommand(
            StateStoreAction::PairUpdated(record),
        ),
        StateStoreCommand::PairRemoved { pair } => EngineEvent::StateStoreCommand(
            StateStoreAction::PairRemoved { pair },
        ),
        StateStoreCommand::DefaultsUpdated(defaults) => EngineEvent::StateStoreCommand(
            StateStoreAction::DefaultsUpdated(defaults),
        ),
    }
}

/// What the client sends when a heartbeat is due: nothing before the first snapshot.
pub fn heartbeat(latest: &Option<EngineSnapshot>, now: Timestamp) -> (r: Option<BotMessage>)
    ensures
        match latest {
            Some(s) => r matches Some(m) && m@ == (BotMessageView::Heartbeat {
                timestamp: now,
                active_pairs: s.active_pairs,
                total_exposure_usd: s.total_exposure_usd,
            }),
            None => r is None,
        },
{
    match latest {
        Some(s) => Some(
            BotMessage::Heartbeat {
                timestamp: now,
                active_pairs: s.active_pairs,
                total_exposure_usd: s.total_exposure_usd,
            },
        ),
        None => None,
    }
}

/// The messages that report on pairs.
pub open spec fn report_messages(s: Seq<PairReportView>) -> Seq<BotMessageView> {
    s.map_values(|r: PairReportView| BotMessageView::PairReport(r))
}

/// What the client sends when reports are due: one for each pair of the latest snapshot.
pub fn reports(latest: &Option<EngineSnapshot>) -> (r: Vec<BotMessage>)
    ensures
        views(r@) == (match latest {
            Some(s) => report_messages(views(s.pair_reports@)),
            None => Seq::empty(),
        }),
{
    let mut r: Vec<BotMessage> = Vec::new();
    match latest {
        Some(s) => {
            let ghost all = views(s.pair_reports@);
            let mut i: usize = 0;
            assert(views(r@) =~= report_messages(all.take(0)));
            while i < s.pair_reports.len()
                invariant
                    i <= s.pair_reports.len(),
                    all == views(s.pair_reports@),
                    views(r@) == report_messages(all.take(i as int)),
                decreases s.pair_reports.len() - i,
            {
                let ghost before = views(r@);
                push_value(&mut r, BotMessage::PairReport(s.pair_reports[i].dup()));
                assert(views(r@) =~= report_messages(all.take(i + 1)));
                i = i + 1;
            }
            assert(all.take(i as int) =~= all);
        },
        None => {
            assert(views(r@) =~= Seq::empty());
        },
    }
    r
}

/// A frame on a WebSocket connection, or its end.
#[derive(Debug)]
pub enum Frame {
    Text,
    Ping,
    Close,
    /// Reading failed, with this message.
    Failed(String),
    Ended,
    /// Any other kind of frame.
    Other,
}

/// What the client does about a frame.
#[derive(Debug)]
pub enum FrameAction {
    /// Handle the text.
    Handle,
    /// Answer with a pong.
    Pong,
    Ignore,
    /// Give up the connection, for this reason.
    Disconnect(String),
}

/// What the state store client does about a frame.
pub fn on_frame(frame: Frame) -> (r: FrameAction)
    ensures
        match frame {
            Frame::Text => r is Handle,
            Frame::Ping => r is Pong,
            Frame::Close => r matches FrameAction::Disconnect(s) && s@
                == "Server sent close frame"@,
            Frame::Failed(e) => r matches FrameAction::Disconnect(s) && s@ == "WebSocket error: "@
                + e@,
            Frame::Ended => r matches FrameAction::Disconnect(s) && s@
                == "WebSocket stream ended"@,
            Frame::Other => r is Ignore,
        },
{
    match frame {
        Frame::Text => FrameAction::Handle,
        Frame::Ping => FrameAction::Pong,
        Frame::Close => FrameAction::Disconnect(String::from_str("Server sent close frame")),
        Frame::Failed(e) => FrameAction::Disconnect(
            String::from_str("WebSocket error: ").concat(e.as_str()),
        ),
        Frame::Ended => FrameAction::Disconnect(String::from_str("WebSocket stream ended")),
        Frame::Other => FrameAction::Ignore,
    }
}

} // verus!
