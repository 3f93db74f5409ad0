pub mod chain;
pub mod pair;
pub mod swap;
pub mod token;
