//! A simulated exchange for trying the bot out: orders, books, commands and price scenarios.
//!
//! Prices and quantities are floating-point numbers outside. In here they are keys: integers in
//! the order of the numbers they stand for, with zero standing for zero.
pub mod book;
pub mod commands;
pub mod config;
pub mod exchange;
pub mod laws;
pub mod orders;
pub mod scenario;
pub mod sizes;
