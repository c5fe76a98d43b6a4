//! Replay of a price series through a trading signal, and the score each tick earns.
//!
//! The lines of a price file are read into a [`feed::TickFeed`], which numbers the prices
//! it finds from zero ([`price_text`] says what a price looks like). Every tick, together
//! with the indicator values that an analysis engine reports for it
//! ([`indicators::IndicatorSnapshot`]), is handed to a [`strategy::ScoringStrategy`], which
//! answers with one [`record::ScoreRecord`]; [`replay::backtest`] does so for a whole
//! series. A record is written as one line of text ([`price_print`]), into a file named
//! after the price file ([`names`]).
//!
//! All quantities are exact decimal numbers ([`fixed::Fixed`]); binary floating point
//! never enters the library.

pub mod fixed;
pub mod price_text;
pub mod price_print;
pub mod feed;
pub mod indicators;
pub mod record;
pub mod extrema;
pub mod trend_gate;
pub mod rise;
pub mod target;
pub mod strategy;
pub mod replay;
pub mod names;
pub mod config;
