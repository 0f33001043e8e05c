//! Scheduling core of a bot that pings a fixed set of subjects at random
//! moments, checks one day later whether each ping was answered, and keeps
//! a per-subject score that a periodic job writes out.
//!
//! What is decided here is proved against a contract. Suspending, calling
//! Slack and writing files are left to the caller, which feeds the
//! outcomes back in.

use vstd::prelude::*;

pub mod scoreboard;
pub mod session;
pub mod slack;
pub mod timeline;
pub mod utils;

pub use utils::cronjob;
pub use utils::retry;
pub use utils::time;

verus! {

/// Name of the environment variable that holds the bot token.
pub const SLACK_TOKEN_ENV: &'static str = "SLACK_BOT_TOKEN";

/// How often the scoreboard is written out, in milliseconds.
pub const SAVE_DATA_PERIOD_MS: u64 = 600_000;

/// How long a shutdown waits for the last write, in milliseconds.
pub const SAVE_DATA_TIMEOUT_MS: u64 = 5_000;

} // verus!
