//! A simplified continuous market: instruments, standing orders, and the
//! decisions taken by each stage of the trading pipeline.
//!
//! Prices are fixed-point numbers, held as a count of hundredths of a
//! currency unit. The stages themselves (selector, updaters, broadcaster,
//! brokers) are functions from the market's state and one incoming message to
//! the state that follows and the messages to pass on; running them on
//! threads, under locks and over channels is left to the caller.

pub mod broadcaster;
pub mod broker;
pub mod history;
pub mod loader;
pub mod model;
pub mod price;
pub mod selector;
pub mod state;
pub mod text;
pub mod updater;
