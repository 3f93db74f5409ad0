pub mod oneinch;
pub mod providers;

pub use crate::utils::process_pairs::TSimplePair;
