//! Command-line handling of the tools: argument parsing and exit codes.

pub mod args;
pub mod fsck;
pub mod mkfs;
pub mod pf;
pub mod readiness;

pub use args::{parse_u64, ArgError};
