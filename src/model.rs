use vstd::prelude::*;

verus! {

/// One backup point in time of a host and a path; `time` is in milliseconds.
#[derive(Clone, Debug)]
pub struct Snapshot {
    pub time: i64,
    pub host: String,
    pub path: String,
    pub id: String,
}

/// All snapshots that share one host and one path.
#[derive(Clone, Debug)]
pub struct SnapshotGroup {
    pub host: String,
    pub path: String,
    pub snapshots: Vec<Snapshot>,
}

/// A group with the statistics derived for it in one refresh cycle.
#[derive(Clone, Debug)]
pub struct SnapshotGroupWithDetails {
    pub group: SnapshotGroup,
    pub latest_time: i64,
    pub earliest_time: i64,
    pub size: i64,
    pub count: usize,
}

/// Why deriving the statistics of a group failed.
#[derive(Clone, Debug)]
pub enum EnrichError {
    /// The size computation of the backup tool failed.
    ExternalCallFailed(ResticError),
    /// The group holds no snapshot.
    EmptyGroup,
}

/// A command of the backup tool that wrote to its error stream.
#[derive(Clone, Debug)]
pub struct ResticError {
    pub command: String,
    pub error_message: String,
}

impl ResticError {
    /// The message that reports this failure.
    pub fn describe(&self) -> (r: String)
        ensures
            r@ == "Restic command '"@ + self.command@ + "' failed with error message '"@
                + self.error_message@ + "'"@,
    {
        let mut r = String::from_str("Restic command '");
        r.append(self.command.as_str());
        r.append("' failed with error message '");
        r.append(self.error_message.as_str());
        r.append("'");
        r
    }
}

/// The grouping key of a snapshot.
pub open spec fn key_of(s: Snapshot) -> (Seq<char>, Seq<char>) {
    (s.host@, s.path@)
}

/// The grouping key of a group.
pub open spec fn group_key(g: SnapshotGroup) -> (Seq<char>, Seq<char>) {
    (g.host@, g.path@)
}

/// All snapshots of `g` carry the group's host and path, and there is one at least.
pub open spec fn group_wf(g: SnapshotGroup) -> bool {
    &&& g.snapshots@.len() > 0
    &&& forall|i: int| 0 <= i < g.snapshots@.len() ==> #[trigger] key_of(g.snapshots@[i]) == group_key(g)
}

/// Smallest time among `s`, which must not be empty.
pub open spec fn min_time(s: Seq<Snapshot>) -> int
    decreases s.len(),
{
    if s.len() <= 1 {
        s[0].time as int
    } else {
        let rest = min_time(s.drop_last());
        if (s.last().time as int) < rest { s.last().time as int } else { rest }
    }
}

/// Largest time among `s`, which must not be empty.
pub open spec fn max_time(s: Seq<Snapshot>) -> int
    decreases s.len(),
{
    if s.len() <= 1 {
        s[0].time as int
    } else {
        let rest = max_time(s.drop_last());
        if (s.last().time as int) > rest { s.last().time as int } else { rest }
    }
}

/// The enriched record that a group and a computed size give.
pub open spec fn enriched(d: SnapshotGroupWithDetails, g: SnapshotGroup, size: i64) -> bool {
    &&& d.group.host == g.host
    &&& d.group.path == g.path
    &&& d.group.snapshots@ == g.snapshots@
    &&& d.size == size
    &&& d.count == g.snapshots@.len()
    &&& d.earliest_time == min_time(g.snapshots@)
    &&& d.latest_time == max_time(g.snapshots@)
}

/// The invariant of an enriched record: its bounds are ordered and its count
/// is the size of its group.
pub open spec fn details_wf(d: SnapshotGroupWithDetails) -> bool {
    &&& d.earliest_time <= d.latest_time
    &&& d.count == d.group.snapshots@.len()
}

} // verus!

verus! {

/// Why the snapshot inventory could not be had.
#[derive(Clone, Debug)]
pub enum FetchError {
    /// The listing command of the backup tool failed.
    Command(ResticError),
    /// The listing could not be decoded.
    Unparsable(String),
    /// The snapshot of this id names no backup path.
    MissingPath(String),
    /// The snapshot of this id has a time that is not RFC 3339.
    InvalidTime(String),
}

/// Why a refresh cycle ended without publishing.
#[derive(Clone, Debug)]
pub enum CycleError {
    Fetch(FetchError),
    Enrich(EnrichError),
}

/// Why the persisted state could not be read or written.
#[derive(Clone, Debug)]
pub struct PersistError {
    pub message: String,
}

} // verus!
