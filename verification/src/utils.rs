//! Small helpers for the log.

use vstd::prelude::*;
use crate::text::{decimal, decimal_string};

verus! {

/// Name of the log file, in the user's home directory.
pub const LOG_FILE_NAME: &'static str = ".kai_fan_le_helper.log";

/// The time stamp of a log line: seconds since the Unix epoch in decimal.
pub fn now_string() -> (s: String)
    ensures
        exists|secs: u64| s@ == decimal(secs as nat),
{
    decimal_string(crate::config::unix_now_secs())
}

} // verus!
