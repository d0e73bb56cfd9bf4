//! Provider implementations.

pub mod deepseek;

pub use deepseek::DeepSeekProvider;
