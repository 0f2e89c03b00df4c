use vstd::prelude::*;

verus! {

/// Seconds between the end of one refresh cycle and the start of the next,
/// where nothing else is configured.
pub const DEFAULT_UPDATE_INTERVAL_SECONDS: u64 = 900;

/// Seconds after which a gauge that was not updated is dropped, where
/// nothing else is configured.
pub const DEFAULT_METRIC_TIMEOUT_SECONDS: u64 = 86400;

/// The file that holds the persisted state, where nothing else is configured.
pub const DEFAULT_METRICS_FILE: &'static str = "/tmp/restic-metrics-exporter.json";

/// The file that holds the persisted state: the configured one, or the default.
pub fn get_file_name(configured: Option<String>) -> (r: String)
    ensures
        configured is Some ==> r@ == configured->0@,
        configured is None ==> r@ == DEFAULT_METRICS_FILE@,
{
    match configured {
        Some(name) => name,
        None => String::from_str(DEFAULT_METRICS_FILE),
    }
}

/// The interval between cycles in milliseconds, from one in seconds;
/// `None` where the milliseconds do not fit.
pub fn update_interval_millis(seconds: u64) -> (r: Option<u64>)
    ensures
        seconds * 1000 <= u64::MAX ==> r == Some((seconds * 1000) as u64),
        seconds * 1000 > u64::MAX ==> r is None,
{
    seconds.checked_mul(1000)
}

} // verus!
