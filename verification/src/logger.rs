//! Lines of the diagnostics log: `[<epoch seconds>] <LEVEL> <message>`.
//! The caller appends each line to the log file.

use vstd::prelude::*;
use crate::text::{decimal, decimal_string};

verus! {

/// The line logged at `timestamp` with `level` and `message`, newline included.
pub open spec fn log_line(timestamp: u64, level: Seq<char>, message: Seq<char>) -> Seq<char> {
    "["@ + decimal(timestamp as nat) + "] "@ + level + " "@ + message + "\n"@
}

fn line(timestamp: u64, level: &str, message: &str) -> (s: String)
    ensures
        s@ == log_line(timestamp, level@, message@),
{
    let mut s = String::from_str("[");
    s.append(decimal_string(timestamp).as_str());
    s.append("] ");
    s.append(level);
    s.append(" ");
    s.append(message);
    s.append("\n");
    s
}

/// The `INFO` line of `message` at `timestamp`.
pub fn info(timestamp: u64, message: &str) -> (s: String)
    ensures
        s@ == log_line(timestamp, "INFO"@, message@),
{
    line(timestamp, "INFO", message)
}

/// The `WARN` line of `message` at `timestamp`.
pub fn warn(timestamp: u64, message: &str) -> (s: String)
    ensures
        s@ == log_line(timestamp, "WARN"@, message@),
{
    line(timestamp, "WARN", message)
}

/// The `ERROR` line of `message` at `timestamp`.
pub fn error(timestamp: u64, message: &str) -> (s: String)
    ensures
        s@ == log_line(timestamp, "ERROR"@, message@),
{
    line(timestamp, "ERROR", message)
}

} // verus!
