pub mod address;
pub mod config;
pub mod domain;
pub mod exchange;
pub mod market_data;
pub mod orm;
pub mod utils;

pub use crate::domain::{chain::Chain, pair::Pair, token::Token};
