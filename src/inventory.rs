use vstd::prelude::*;

use chrono::{DateTime, Utc};

use crate::model::{FetchError, ResticError, Snapshot};

verus! {

/// chrono's `ParseError`, carried as an opaque value out of
/// `iso_to_milliseconds`.
#[verifier::external_type_specification]
#[verifier::external_body]
pub struct ExParseError(chrono::ParseError);

/// One entry of the backup tool's snapshot listing, as decoded from it.
#[derive(Clone, Debug)]
pub struct InventoryEntry {
    pub time: String,
    pub hostname: String,
    pub paths: Vec<String>,
    pub short_id: String,
}

/// Milliseconds since the Unix epoch of an RFC 3339 time, or `None` where
/// the text is not one.
pub uninterp spec fn rfc3339_millis(text: Seq<char>) -> Option<i64>;

/// Relies on chrono's `DateTime::parse_from_rfc3339` and
/// `DateTime::timestamp_millis`: the result is a function of the text alone,
/// and the parse fails exactly where no time is given.
#[verifier::external_body]
fn iso_to_milliseconds(iso_time: &str) -> (r: Result<i64, chrono::ParseError>)
    ensures
        r is Ok <==> rfc3339_millis(iso_time@) is Some,
        r is Ok ==> rfc3339_millis(iso_time@) == Some(r->Ok_0),
{
    let datetime: DateTime<Utc> = DateTime::parse_from_rfc3339(iso_time)?.into();
    Ok(datetime.timestamp_millis())
}

/// The snapshot that an entry with parsed time `millis` stands for.
pub open spec fn snapshot_of(e: InventoryEntry, millis: i64) -> Snapshot {
    Snapshot { time: millis, host: e.hostname, path: e.paths@[0], id: e.short_id }
}

/// The result of converting entry `e` whose time parsed to `millis`: an
/// entry without a path, or whose time did not parse, is unusable.
pub open spec fn converted(e: InventoryEntry, millis: Option<i64>) -> Result<Snapshot, FetchError> {
    if e.paths@.len() == 0 {
        Err(FetchError::MissingPath(e.short_id))
    } else {
        match millis {
            Some(t) => Ok(snapshot_of(e, t)),
            None => Err(FetchError::InvalidTime(e.short_id)),
        }
    }
}

/// The conversion of `e`, with its time read by RFC 3339.
pub open spec fn entry_result(e: InventoryEntry) -> Result<Snapshot, FetchError> {
    converted(e, rfc3339_millis(e.time@))
}

impl InventoryEntry {
    /// The snapshot of this entry, given its time in milliseconds (`None`
    /// where the time did not parse); the first backup path is the
    /// snapshot's path.
    pub fn to_snapshot_with_time(&self, millis: Option<i64>) -> (r: Result<Snapshot, FetchError>)
        ensures
            r == converted(*self, millis),
    {
        if self.paths.len() == 0 {
            return Err(FetchError::MissingPath(self.short_id.clone()));
        }
        match millis {
            Some(t) => Ok(
                Snapshot {
                    time: t,
                    host: self.hostname.clone(),
                    path: self.paths[0].clone(),
                    id: self.short_id.clone(),
                },
            ),
            None => Err(FetchError::InvalidTime(self.short_id.clone())),
        }
    }

    /// The snapshot of this entry, its time read as RFC 3339.
    pub fn to_snapshot(&self) -> (r: Result<Snapshot, FetchError>)
        ensures
            r == entry_result(*self),
    {
        let millis = match iso_to_milliseconds(self.time.as_str()) {
            Ok(t) => Some(t),
            Err(_) => None,
        };
        self.to_snapshot_with_time(millis)
    }
}

/// The snapshots of a listing, in order; the first unusable entry fails the
/// whole listing with its error.
pub fn get_all_snapshots(entries: &Vec<InventoryEntry>) -> (r: Result<Vec<Snapshot>, FetchError>)
    ensures
        r is Ok <==> forall|i: int| 0 <= i < entries@.len() ==> #[trigger] entry_result(entries@[i]) is Ok,
        r is Ok ==> r->Ok_0@.len() == entries@.len() && forall|i: int|
            0 <= i < entries@.len() ==> Ok::<Snapshot, FetchError>(#[trigger] r->Ok_0@[i]) == entry_result(entries@[i]),
        r is Err ==> exists|i: int|
            0 <= i < entries@.len() && (forall|j: int| 0 <= j < i ==> #[trigger] entry_result(entries@[j]) is Ok)
                && entry_result(#[trigger] entries@[i]) == Err::<Snapshot, FetchError>(r->Err_0),
{
    let mut out: Vec<Snapshot> = Vec::new();
    let mut i: usize = 0;
    while i < entries.len()
        invariant
            i <= entries@.len(),
            out@.len() == i,
            forall|j: int| 0 <= j < i ==> #[trigger] entry_result(entries@[j]) is Ok,
            forall|j: int| 0 <= j < i ==> Ok::<Snapshot, FetchError>(#[trigger] out@[j]) == entry_result(entries@[j]),
        decreases entries@.len() - i,
    {
        match entries[i].to_snapshot() {
            Ok(s) => {
                out.push(s);
            },
            Err(e) => {
                return Err(e);
            },
        }
        i = i + 1;
    }
    Ok(out)
}

/// The error message of a command that failed without writing to its error
/// stream.
pub const EXIT_FAILURE_MESSAGE: &'static str = "the command exited with a failure status";

/// The outcome of one command of the backup tool from its exit status and
/// what it wrote: a failure status or any text on its error stream is a
/// failure, otherwise its output is the result.
pub fn restic_outcome(command: String, success: bool, stdout: String, stderr: String) -> (r: Result<
    String,
    ResticError,
>)
    ensures
        stderr@.len() > 0 ==> r == Err::<String, ResticError>(
            ResticError { command, error_message: stderr },
        ),
        !success && stderr@.len() == 0 ==> r is Err && r->Err_0.command == command
            && r->Err_0.error_message@ == EXIT_FAILURE_MESSAGE@,
        success && stderr@.len() == 0 ==> r == Ok::<String, ResticError>(stdout),
{
    if !stderr.as_str().is_empty() {
        Err(ResticError { command, error_message: stderr })
    } else if !success {
        Err(ResticError { command, error_message: String::from_str(EXIT_FAILURE_MESSAGE) })
    } else {
        Ok(stdout)
    }
}

} // verus!
