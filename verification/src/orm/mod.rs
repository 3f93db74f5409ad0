pub mod connection;
pub mod providers;
pub mod records;
pub mod stored;
