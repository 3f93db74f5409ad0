pub use super::oneinch::OneInchProvider;
