//! Time-stamped log lines.

use vstd::prelude::*;

verus! {

/// Relies on `chrono::Local::now` and its `format` for the local time as
/// `%Y-%m-%d %H:%M:%S%.6f`; the result depends on the clock and the time zone.
#[verifier::external_body]
fn current_time() -> String {
    chrono::Local::now().format("%Y-%m-%d %H:%M:%S%.6f").to_string()
}

/// The log line of `msg` stamped with `time`: `[time]msg`.
pub fn log_line(time: &str, msg: &str) -> (r: String)
    ensures
        r@ == "["@ + time@ + "]"@ + msg@,
{
    let mut r = String::from_str("[");
    r.append(time);
    r.append("]");
    r.append(msg);
    r
}

/// `msg` stamped with the local time now: `[time]msg`.
pub fn format_log_msg(msg: &str) -> (r: String)
    ensures
        exists|time: Seq<char>| r@ == "["@ + time + "]"@ + msg@,
{
    let time = current_time();
    log_line(time.as_str(), msg)
}

} // verus!
