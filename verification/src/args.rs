//! Run configuration.
//!
//! `TesterArgs` carries the immutable parameters of one run; it is built
//! once at startup (command-line parsing itself lives with the binary) and
//! shared read-only by every component. `parse_header` turns one
//! `Key: Value` flag into a header pair.

use vstd::prelude::*;

use crate::metrics::MetricsRange;
use crate::parse::first_index_of;
use crate::parse::find_char;
use crate::parse::trim_copy;
use crate::parse::trimmed;

verus! {

/// The HTTP method of every request of the run.
#[derive(Clone, Copy, Debug, PartialEq, Eq, Structural)]
pub enum HttpMethod {
    Get,
    Post,
    Patch,
    Put,
    Delete,
}

/// The shape of the load ramp.
#[derive(Clone, Copy, Debug, PartialEq, Eq, Structural)]
pub enum LoadPattern {
    RampUp,
    Constant,
    Spike,
    Wave,
    Step,
}

/// Immutable parameters of one run.
#[derive(Clone, Debug)]
pub struct TesterArgs {
    /// HTTP method to use.
    pub method: HttpMethod,
    /// Target URL for the stress test.
    pub url: String,
    /// HTTP headers as key/value pairs, duplicates preserved, in flag order.
    pub headers: Vec<(String, String)>,
    /// Request body data.
    pub data: String,
    /// Duration of the test in seconds.
    pub target_duration: u64,
    /// Expected HTTP status code; anything else counts as an error.
    pub expected_status_code: u16,
    /// Directory the charts are written to.
    pub charts_path: String,
    /// Disable chart generation and history collection.
    pub no_charts: bool,
    /// Optional proxy URL.
    pub proxy_url: Option<String>,
    /// Cap on concurrently alive request workers.
    pub max_tasks: usize,
    /// Workers spawned per tick while below the cap.
    pub spawn_rate_per_tick: usize,
    /// Interval between spawn ticks, in milliseconds.
    pub tick_interval: u64,
    /// Optional inclusive range of run-relative seconds kept in the history.
    pub metrics_range: Option<MetricsRange>,
}

/// Parse one `Key: Value` header flag: everything before the first colon is
/// the key and everything after it the value, both trimmed of surrounding
/// whitespace. A string without a colon is rejected with a message naming
/// it.
pub fn parse_header(s: &str) -> (r: Result<(String, String), String>)
    ensures
        (r is Ok) == (exists|i: int| 0 <= i < s@.len() && s@[i] == ':'),
        (match r {
            Ok(kv) => kv.0@ == trimmed(s@.subrange(0, first_index_of(s@, ':'))) && kv.1@
                == trimmed(s@.subrange(first_index_of(s@, ':') + 1, s@.len() as int)),
            Err(e) => e@ == "Invalid header format: '"@ + s@ + "'. Expected 'Key: Value'"@,
        }),
{
    match find_char(s, ':') {
        Some(i) => {
            let len = s.unicode_len();
            let key = trim_copy(s.substring_char(0, i));
            let value = trim_copy(s.substring_char(i + 1, len));
            Ok((key, value))
        },
        None => {
            let mut msg = String::new();
            msg.append("Invalid header format: '");
            msg.append(s);
            msg.append("'. Expected 'Key: Value'");
            Err(msg)
        },
    }
}

} // verus!
