//! Managed pairs: their state, their own settings and the defaults behind them.
use crate::decimal::Decimal;
use crate::quoter::{Quoter, QuoterView};
use crate::text::str_eq;
use crate::time::Timestamp;
use crate::types::PairInfo;
use vstd::prelude::*;

verus! {

/// Life cycle of a managed pair.
#[derive(Clone, Copy, Debug, PartialEq, Eq, Structural)]
pub enum PairState {
    Active,
    WindDown,
    Liquidating,
    Disabled,
}

/// How a pair state is written.
pub open spec fn state_text(state: PairState) -> Seq<char> {
    match state {
        PairState::Active => "active"@,
        PairState::WindDown => "wind_down"@,
        PairState::Liquidating => "liquidating"@,
        PairState::Disabled => "disabled"@,
    }
}

impl PairState {
    /// Whether new buys may be placed.
    pub fn allows_buys(&self) -> (r: bool)
        ensures
            r == (*self == PairState::Active),
    {
        *self == PairState::Active
    }

    /// Whether sells may be placed.
    pub fn allows_sells(&self) -> (r: bool)
        ensures
            r == (*self == PairState::Active || *self == PairState::WindDown),
    {
        *self == PairState::Active || *self == PairState::WindDown
    }

    /// Whether the pair is quoted at all.
    pub fn allows_quoting(&self) -> (r: bool)
        ensures
            r == (*self == PairState::Active || *self == PairState::WindDown),
    {
        *self == PairState::Active || *self == PairState::WindDown
    }

    /// The state as a word.
    pub fn as_str(&self) -> (r: &'static str)
        ensures
            r@ == state_text(*self),
    {
        match self {
            PairState::Active => "active",
            PairState::WindDown => "wind_down",
            PairState::Liquidating => "liquidating",
            PairState::Disabled => "disabled",
        }
    }

    /// The state a word stands for, if it is one.
    pub fn from_word(word: &str) -> (r: Option<PairState>)
        ensures
            match r {
                Some(state) => word@ == state_text(state),
                None => forall|state: PairState| word@ != #[trigger] state_text(state),
            },
    {
        if str_eq(word, "active") {
            Some(PairState::Active)
        } else if str_eq(word, "wind_down") {
            Some(PairState::WindDown)
        } else if str_eq(word, "liquidating") {
            Some(PairState::Liquidating)
        } else if str_eq(word, "disabled") {
            Some(PairState::Disabled)
        } else {
            None
        }
    }
}

/// No two pair states are written alike.
pub proof fn state_words_are_distinct(a: PairState, b: PairState)
    requires
        state_text(a) == state_text(b),
    ensures
        a == b,
{
    reveal_strlit("active");
    reveal_strlit("wind_down");
    reveal_strlit("liquidating");
    reveal_strlit("disabled");
    assert("active"@.len() == 6);
    assert("wind_down"@.len() == 9);
    assert("liquidating"@.len() == 11);
    assert("disabled"@.len() == 8);
}

/// A pair's own settings; what is not set comes from the defaults.
#[derive(Clone, Copy, Debug)]
pub struct PairConfig {
    pub order_size_usd: Option<Decimal>,
    pub max_inventory_usd: Option<Decimal>,
    pub min_spread_bps: Option<Decimal>,
    pub spread_capture_pct: Option<Decimal>,
    pub min_profit_pct: Option<Decimal>,
    pub stop_loss_pct: Option<Decimal>,
    pub take_profit_pct: Option<Decimal>,
    pub max_buys_before_sell: Option<u32>,
    pub use_winddown_for_stoploss: Option<bool>,
    pub limit_unwind_on_stoploss: Option<bool>,
}

/// Settings for every pair that does not set its own.
#[derive(Clone, Copy, Debug)]
pub struct GlobalDefaults {
    pub order_size_usd: Decimal,
    pub max_inventory_usd: Decimal,
    pub min_spread_bps: Decimal,
    pub spread_capture_pct: Decimal,
    pub min_profit_pct: Decimal,
    pub stop_loss_pct: Decimal,
    pub take_profit_pct: Decimal,
    pub max_buys_before_sell: u32,
    pub use_winddown_for_stoploss: bool,
    pub limit_unwind_on_stoploss: bool,
}

/// The settings that hold for a pair.
#[derive(Clone, Copy, Debug)]
pub struct ResolvedConfig {
    pub order_size_usd: Decimal,
    pub max_inventory_usd: Decimal,
    pub min_spread_bps: Decimal,
    pub spread_capture_pct: Decimal,
    pub min_profit_pct: Decimal,
    pub stop_loss_pct: Decimal,
    pub take_profit_pct: Decimal,
    pub max_buys_before_sell: u32,
    pub use_winddown_for_stoploss: bool,
    pub limit_unwind_on_stoploss: bool,
}

/// Settings of which none is set.
pub open spec fn unset_config() -> PairConfig {
    PairConfig {
        order_size_usd: None,
        max_inventory_usd: None,
        min_spread_bps: None,
        spread_capture_pct: None,
        min_profit_pct: None,
        stop_loss_pct: None,
        take_profit_pct: None,
        max_buys_before_sell: None,
        use_winddown_for_stoploss: None,
        limit_unwind_on_stoploss: None,
    }
}

/// Each setting of `config` where it is set, the default where it is not.
pub open spec fn resolved(config: PairConfig, defaults: GlobalDefaults) -> ResolvedConfig {
    ResolvedConfig {
        order_size_usd: config.order_size_usd.unwrap_or(defaults.order_size_usd),
        max_inventory_usd: config.max_inventory_usd.unwrap_or(defaults.max_inventory_usd),
        min_spread_bps: config.min_spread_bps.unwrap_or(defaults.min_spread_bps),
        spread_capture_pct: config.spread_capture_pct.unwrap_or(defaults.spread_capture_pct),
        min_profit_pct: config.min_profit_pct.unwrap_or(defaults.min_profit_pct),
        stop_loss_pct: config.stop_loss_pct.unwrap_or(defaults.stop_loss_pct),
        take_profit_pct: config.take_profit_pct.unwrap_or(defaults.take_profit_pct),
        max_buys_before_sell: config.max_buys_before_sell.unwrap_or(defaults.max_buys_before_sell),
        use_winddown_for_stoploss: config.use_winddown_for_stoploss.unwrap_or(
            defaults.use_winddown_for_stoploss,
        ),
        limit_unwind_on_stoploss: config.limit_unwind_on_stoploss.unwrap_or(
            defaults.limit_unwind_on_stoploss,
        ),
    }
}

impl Default for PairConfig {
    fn default() -> (r: PairConfig)
        ensures
            r == unset_config(),
    {
        PairConfig {
            order_size_usd: None,
            max_inventory_usd: None,
            min_spread_bps: None,
            spread_capture_pct: None,
            min_profit_pct: None,
            stop_loss_pct: None,
            take_profit_pct: None,
            max_buys_before_sell: None,
            use_winddown_for_stoploss: None,
            limit_unwind_on_stoploss: None,
        }
    }
}

impl Default for GlobalDefaults {
    fn default() -> (r: GlobalDefaults)
        ensures
            r.order_size_usd == Decimal::of(100, 0),
            r.max_inventory_usd == Decimal::of(200, 0),
            r.min_spread_bps == Decimal::of(100, 0),
            r.spread_capture_pct == Decimal::of(50, 2),
            r.min_profit_pct == Decimal::of(1, 2),
            r.stop_loss_pct == Decimal::of(3, 2),
            r.take_profit_pct == Decimal::of(10, 2),
            r.max_buys_before_sell == 2,
            !r.use_winddown_for_stoploss,
            !r.limit_unwind_on_stoploss,
    {
        GlobalDefaults {
            order_size_usd: Decimal::new(100, 0),
            max_inventory_usd: Decimal::new(200, 0),
            min_spread_bps: Decimal::new(100, 0),
            spread_capture_pct: Decimal::new(50, 2),
            min_profit_pct: Decimal::new(1, 2),
            stop_loss_pct: Decimal::new(3, 2),
            take_profit_pct: Decimal::new(10, 2),
            max_buys_before_sell: 2,
            use_winddown_for_stoploss: false,
            limit_unwind_on_stoploss: false,
        }
    }
}

/// A self-contained managed pair with state, config, quoter and exchange data.
pub struct ManagedPair {
    pub pair: String,
    pub state: PairState,
    pub config: PairConfig,
    pub quoter: Quoter,
    pub pair_info: Option<PairInfo>,
    /// Retry counter for liquidation attempts.
    pub liq_retry_count: u32,
    /// Consecutive buy fills without any intervening sell fill.
    pub buys_without_sell: u32,
    /// When the pair entered wind-down for stop-loss.
    pub winddown_since: Option<Timestamp>,
}

impl ManagedPair {
    /// A fresh pair: its counters at zero, its quoter idle.
    pub open spec fn fresh(
        self,
        pair: Seq<char>,
        state: PairState,
        config: PairConfig,
        pair_info: Option<PairInfo>,
    ) -> bool {
        &&& self.pair@ == pair
        &&& self.state == state
        &&& self.config == config
        &&& self.quoter@ == QuoterView::idle(pair)
        &&& self.pair_info == pair_info
        &&& self.liq_retry_count == 0
        &&& self.buys_without_sell == 0
        &&& self.winddown_since is None
    }

    /// A new managed pair with no settings of its own, active.
    pub fn new(pair: String, pair_info: Option<PairInfo>) -> (r: ManagedPair)
        ensures
            r.fresh(pair@, PairState::Active, unset_config(), pair_info),
    {
        ManagedPair::with_state_and_config(pair, PairState::Active, PairConfig::default(), pair_info)
    }

    /// A new managed pair with a given state and settings.
    pub fn with_state_and_config(
        pair: String,
        state: PairState,
        config: PairConfig,
        pair_info: Option<PairInfo>,
    ) -> (r: ManagedPair)
        ensures
            r.fresh(pair@, state, config, pair_info),
    {
        let quoter = Quoter::new(pair.clone());
        ManagedPair {
            pair,
            state,
            config,
            quoter,
            pair_info,
            liq_retry_count: 0,
            buys_without_sell: 0,
            winddown_since: None,
        }
    }

    /// The settings that hold for this pair.
    pub fn resolved_config(&self, defaults: &GlobalDefaults) -> (r: ResolvedConfig)
        ensures
            r == resolved(self.config, *defaults),
    {
        ResolvedConfig {
            order_size_usd: self.config.order_size_usd.unwrap_or(defaults.order_size_usd),
            max_inventory_usd: self.config.max_inventory_usd.unwrap_or(defaults.max_inventory_usd),
            min_spread_bps: self.config.min_spread_bps.unwrap_or(defaults.min_spread_bps),
            spread_capture_pct: self.config.spread_capture_pct.unwrap_or(
                defaults.spread_capture_pct,
            ),
            min_profit_pct: self.config.min_profit_pct.unwrap_or(defaults.min_profit_pct),
            stop_loss_pct: self.config.stop_loss_pct.unwrap_or(defaults.stop_loss_pct),
            take_profit_pct: self.config.take_profit_pct.unwrap_or(defaults.take_profit_pct),
            max_buys_before_sell: self.config.max_buys_before_sell.unwrap_or(
                defaults.max_buys_before_sell,
            ),
            use_winddown_for_stoploss: self.config.use_winddown_for_stoploss.unwrap_or(
                defaults.use_winddown_for_stoploss,
            ),
            limit_unwind_on_stoploss: self.config.limit_unwind_on_stoploss.unwrap_or(
                defaults.limit_unwind_on_stoploss,
            ),
        }
    }

    /// The order size that holds for this pair.
    pub fn resolved_order_size(&self, defaults: &GlobalDefaults) -> (r: Decimal)
        ensures
            r == resolved(self.config, *defaults).order_size_usd,
    {
        self.config.order_size_usd.unwrap_or(defaults.order_size_usd)
    }

    /// The inventory limit that holds for this pair.
    pub fn resolved_max_inventory(&self, defaults: &GlobalDefaults) -> (r: Decimal)
        ensures
            r == resolved(self.config, *defaults).max_inventory_usd,
    {
        self.config.max_inventory_usd.unwrap_or(defaults.max_inventory_usd)
    }
}

/// A pair without settings of its own is run by the defaults.
pub proof fn unset_config_resolves_to_defaults(defaults: GlobalDefaults)
    ensures
        ({
            let r = resolved(unset_config(), defaults);
            &&& r.order_size_usd == defaults.order_size_usd
            &&& r.max_inventory_usd == defaults.max_inventory_usd
            &&& r.min_spread_bps == defaults.min_spread_bps
            &&& r.spread_capture_pct == defaults.spread_capture_pct
            &&& r.min_profit_pct == defaults.min_profit_pct
            &&& r.stop_loss_pct == defaults.stop_loss_pct
            &&& r.take_profit_pct == defaults.take_profit_pct
            &&& r.max_buys_before_sell == defaults.max_buys_before_sell
            &&& r.use_winddown_for_stoploss == defaults.use_winddown_for_stoploss
            &&& r.limit_unwind_on_stoploss == defaults.limit_unwind_on_stoploss
        }),
{
}

} // verus!
