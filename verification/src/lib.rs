//! A backtesting engine for crypto futures: k-line data, indicators, and a
//! simulated exchange with matching, leverage, margin and liquidation.
pub mod decimal;
pub mod level;
pub mod order;
pub mod time;
pub mod data;
pub mod margin;
pub mod book;
pub mod exchange;
pub mod matching;
pub mod account;
pub mod util;
pub mod series;
pub mod indicator;
pub mod engine;
pub mod download;
pub mod ids;
