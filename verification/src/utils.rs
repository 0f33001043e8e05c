//! Building blocks shared by the schedulers: retrying, periodic running, time.

pub mod cronjob;
pub mod retry;
pub mod time;
