//! Candles in, trading decisions out: a field scanner for exchange payloads,
//! the windowed indicators that only order their samples, and the position
//! engine that turns indicator readings into buy and sell signals.

pub mod exchange;
pub mod finder;
pub mod indicators;
pub mod number;
pub mod parser;
pub mod telegram;
pub mod time;
pub mod trading;
