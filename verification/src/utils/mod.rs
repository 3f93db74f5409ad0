pub mod filters;
pub mod process_pairs;
pub mod text;
pub mod fetch;
