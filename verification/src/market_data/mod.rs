pub mod coingecko;
pub mod provider;
