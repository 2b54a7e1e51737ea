//! Transactions-per-second figures for block chains.
//!
//! Blocks are walked from the newest one back through their predecessors; what
//! was walked is summed up in block runs, and runs or blocks are turned into a
//! transaction rate over the last week.

pub mod agreement;
pub mod blockrun;
pub mod blockrun_laws;
pub mod calculate;
pub mod chain;
pub mod client;
pub mod db;
pub mod error;
pub mod hashes;
pub mod merge;
pub mod pipeline;
pub mod solana;
pub mod text;
pub mod totals;

