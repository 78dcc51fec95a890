//! Market-making engine for Kraken spot pairs.
pub mod analyzer;
pub mod analyzer_laws;
pub mod api;
pub mod auth;
pub mod book;
pub mod book_laws;
pub mod bot;
pub mod collections;
pub mod config;
pub mod cost_laws;
pub mod decimal;
pub mod decimal_error;
pub mod decimal_laws;
pub mod decimal_nearest;
pub mod decimal_order;
pub mod edge;
pub mod engine;
pub mod engine_laws;
pub mod engine_model;
pub mod event_laws;
pub mod events;
pub mod exchange_laws;
pub mod exposure_laws;
pub mod fill_laws;
pub mod history;
pub mod inventory;
pub mod json;
pub mod ledger_laws;
pub mod market;
pub mod messages;
pub mod mock;
pub mod net;
pub mod order_bounds;
pub mod order_numbers;
pub mod order_tracking;
pub mod overflow_laws;
pub mod pairs;
pub mod placement_laws;
pub mod pnl;
pub mod position;
pub mod proxy;
pub mod quote_laws;
pub mod quoter;
pub mod registry_laws;
pub mod risk;
pub mod state;
pub mod state_store;
pub mod text;
pub mod text_laws;
pub mod tick_laws;
pub mod time;
pub mod trade_log;
pub mod types;
