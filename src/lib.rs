//! Tails tab-delimited game client logs, rebuilds structured entries and
//! decides which notification actions each entry triggers.

pub mod codec;
pub mod conf;
pub mod counter;
pub mod display;
pub mod error;
pub mod ngs_log;
pub mod parse;
pub mod request;
pub mod rules;
pub mod tail;
pub mod text;
