//! Configuration.
use crate::decimal::Decimal;
use vstd::prelude::*;

verus! {

/// Everything that is configured.
#[derive(Clone, Debug)]
pub struct Config {
    pub exchange: ExchangeConfig,
    pub trading: TradingConfig,
    pub risk: RiskConfig,
    pub persistence: PersistenceConfig,
}

/// How to reach the exchange.
#[derive(Clone, Debug)]
pub struct ExchangeConfig {
    pub api_key: String,
    pub api_secret: String,
    pub ws_public_url: String,
    pub ws_private_url: String,
    pub rest_base_url: String,
    pub book_depth: u32,
    /// Run through a proxy instead of connecting directly to the exchange.
    pub proxy_mode: bool,
    /// Base URL of the proxy.
    pub proxy_url: String,
    /// Bearer token for authenticating with the proxy.
    pub proxy_token: String,
}

/// How to quote.
#[derive(Clone, Debug)]
pub struct TradingConfig {
    pub pairs: Vec<String>,
    pub order_size_usd: Decimal,
    pub min_spread_bps: Decimal,
    pub spread_capture_pct: Decimal,
    pub requote_threshold_pct: Decimal,
    pub maker_fee_pct: Decimal,
    /// Minimum profit margin on sells, as a fraction of the average cost: a sell is priced at
    /// `avg_cost * (1 + min_profit_pct)` or above.
    pub min_profit_pct: Decimal,
    pub dry_run: bool,
    pub downtrend_threshold_pct: Decimal,
    pub min_quote_interval_secs: u64,
}

/// Limits.
#[derive(Clone, Debug)]
pub struct RiskConfig {
    pub max_inventory_usd: Decimal,
    pub max_total_exposure_usd: Decimal,
    pub kill_switch_loss_usd: Decimal,
    pub stale_order_secs: u64,
    pub dms_timeout_secs: u64,
    pub dms_refresh_secs: u64,
    pub rate_limit_max_counter: u32,
    pub stop_loss_pct: Decimal,
    /// Liquidate if the price rises this far above the average cost.
    pub take_profit_pct: Decimal,
    /// Seconds to keep a pair disabled after a liquidation.
    pub cooldown_after_liquidation_secs: u64,
}

/// Where state and trades are kept.
#[derive(Clone, Debug)]
pub struct PersistenceConfig {
    pub state_file: String,
    pub trade_log_file: String,
}

/// The cooldown after a liquidation if none is configured, in seconds.
pub fn default_cooldown_secs() -> (r: u64)
    ensures
        r == 3600,
{
    3600
}

impl Default for Config {
    fn default() -> (r: Config)
        ensures
            r.exchange.api_key@ == ""@,
            r.exchange.api_secret@ == ""@,
            r.exchange.ws_public_url@ == "wss://ws.kraken.com/v2"@,
            r.exchange.ws_private_url@ == "wss://ws-auth.kraken.com/v2"@,
            r.exchange.rest_base_url@ == "https://api.kraken.com"@,
            r.exchange.book_depth == 10,
            !r.exchange.proxy_mode,
            r.exchange.proxy_url@ == ""@,
            r.exchange.proxy_token@ == ""@,
            r.trading.pairs@.len() == 0,
            r.trading.order_size_usd == Decimal::of(100, 0),
            r.trading.min_spread_bps == Decimal::of(100, 0),
            r.trading.spread_capture_pct == Decimal::of(50, 2),
            r.trading.requote_threshold_pct == Decimal::of(5, 3),
            r.trading.maker_fee_pct == Decimal::of(23, 4),
            r.trading.min_profit_pct == Decimal::of(1, 2),
            r.trading.dry_run,
            r.trading.downtrend_threshold_pct == Decimal::of(-50, 1),
            r.trading.min_quote_interval_secs == 5,
            r.risk.max_inventory_usd == Decimal::of(200, 0),
            r.risk.max_total_exposure_usd == Decimal::of(2000, 0),
            r.risk.kill_switch_loss_usd == Decimal::of(-100, 0),
            r.risk.stale_order_secs == 300,
            r.risk.dms_timeout_secs == 60,
            r.risk.dms_refresh_secs == 20,
            r.risk.rate_limit_max_counter == 60,
            r.risk.stop_loss_pct == Decimal::of(3, 2),
            r.risk.take_profit_pct == Decimal::of(10, 2),
            r.risk.cooldown_after_liquidation_secs == 3600,
            r.persistence.state_file@ == "state.json"@,
            r.persistence.trade_log_file@ == "logs/trades.csv"@,
    {
        Config {
            exchange: ExchangeConfig {
                api_key: "".to_owned(),
                api_secret: "".to_owned(),
                ws_public_url: "wss://ws.kraken.com/v2".to_owned(),
                ws_private_url: "wss://ws-auth.kraken.com/v2".to_owned(),
                rest_base_url: "https://api.kraken.com".to_owned(),
                book_depth: 10,
                proxy_mode: false,
                proxy_url: "".to_owned(),
                proxy_token: "".to_owned(),
            },
            trading: TradingConfig {
                pairs: Vec::new(),
                order_size_usd: Decimal::new(100, 0),
                min_spread_bps: Decimal::new(100, 0),
                spread_capture_pct: Decimal::new(50, 2),
                requote_threshold_pct: Decimal::new(5, 3),
                maker_fee_pct: Decimal::new(23, 4),
                min_profit_pct: Decimal::new(1, 2),
                dry_run: true,
                downtrend_threshold_pct: Decimal::new(-50, 1),
                min_quote_interval_secs: 5,
            },
            risk: RiskConfig {
                max_inventory_usd: Decimal::new(200, 0),
                max_total_exposure_usd: Decimal::new(2000, 0),
                kill_switch_loss_usd: Decimal::new(-100, 0),
                stale_order_secs: 300,
                dms_timeout_secs: 60,
                dms_refresh_secs: 20,
                rate_limit_max_counter: 60,
                stop_loss_pct: Decimal::new(3, 2),
                take_profit_pct: Decimal::new(10, 2),
                cooldown_after_liquidation_secs: default_cooldown_secs(),
            },
            persistence: PersistenceConfig {
                state_file: "state.json".to_owned(),
                trade_log_file: "logs/trades.csv".to_owned(),
            },
        }
    }
}

} // verus!
