//! The tools that ship with the library.

pub mod calculator;
pub mod fs;
pub mod fs_steps;
pub mod fs_write;
pub mod shell;

pub use calculator::Calculator;
pub use fs::{FsConfig, ListDir, ReadFile, WriteFile, MAX_READ_BYTES};
pub use shell::{RunCommand, DEFAULT_TIMEOUT_SECS, MAX_OUTPUT_BYTES};
