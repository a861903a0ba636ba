//! Order sizing, slippage bounding, quote reading, order outcomes and
//! balance reconciliation for a spot/perpetual trading bot, with every
//! computation stated and proved over exact decimal arithmetic.

pub mod decimal;
pub mod error;
pub mod sizing;
pub mod book;
pub mod order;
pub mod account;
pub mod config;
