use vstd::prelude::*;

use crate::model::SnapshotGroupWithDetails;

verus! {

/// The global gauges derived from one list of enriched records.
#[derive(Clone, Copy, Debug, PartialEq, Eq, Structural)]
pub struct MetricsSummary {
    pub group_count: usize,
    pub total_size: i128,
    pub total_count: u128,
    /// Oldest snapshot time over the groups, 0 without groups.
    pub min_time: i64,
    /// Largest latest-snapshot time over the groups, 0 without groups.
    pub max_time: i64,
}

pub open spec fn total_size(s: Seq<SnapshotGroupWithDetails>) -> int
    decreases s.len(),
{
    if s.len() == 0 {
        0
    } else {
        total_size(s.drop_last()) + s.last().size
    }
}

pub open spec fn total_count(s: Seq<SnapshotGroupWithDetails>) -> int
    decreases s.len(),
{
    if s.len() == 0 {
        0
    } else {
        total_count(s.drop_last()) + s.last().count
    }
}

/// Smallest `earliest_time` of `s`, 0 for an empty `s`.
pub open spec fn min_earliest(s: Seq<SnapshotGroupWithDetails>) -> int
    decreases s.len(),
{
    if s.len() == 0 {
        0
    } else if s.len() == 1 {
        s[0].earliest_time as int
    } else {
        let rest = min_earliest(s.drop_last());
        if (s.last().earliest_time as int) < rest { s.last().earliest_time as int } else { rest }
    }
}

/// Largest `latest_time` of `s`, 0 for an empty `s`.
pub open spec fn max_latest(s: Seq<SnapshotGroupWithDetails>) -> int
    decreases s.len(),
{
    if s.len() == 0 {
        0
    } else if s.len() == 1 {
        s[0].latest_time as int
    } else {
        let rest = max_latest(s.drop_last());
        if (s.last().latest_time as int) > rest { s.last().latest_time as int } else { rest }
    }
}

/// The global gauges of `details`: the number of groups, the sums of sizes
/// and of snapshot counts, the oldest snapshot time and the newest one.
pub fn summarize(details: &Vec<SnapshotGroupWithDetails>) -> (r: MetricsSummary)
    ensures
        r.group_count == details@.len(),
        r.total_size == total_size(details@),
        r.total_count == total_count(details@),
        r.min_time == min_earliest(details@),
        r.max_time == max_latest(details@),
{
    let mut size: i128 = 0;
    let mut count: u128 = 0;
    let mut lo: i64 = 0;
    let mut hi: i64 = 0;
    let mut i: usize = 0;
    while i < details.len()
        invariant
            i <= details@.len(),
            size == total_size(details@.take(i as int)),
            count == total_count(details@.take(i as int)),
            lo == min_earliest(details@.take(i as int)),
            hi == max_latest(details@.take(i as int)),
            -(i as int) * 0x8000_0000_0000_0000 <= size <= (i as int) * 0x8000_0000_0000_0000,
            0 <= count <= (i as int) * 0xFFFF_FFFF_FFFF_FFFF,
        decreases details@.len() - i,
    {
        let d = &details[i];
        proof {
            let next = details@.take(i as int + 1);
            assert(next.drop_last() =~= details@.take(i as int));
            assert(next.last() == details@[i as int]);
        }
        size = size + d.size as i128;
        count = count + d.count as u128;
        if i == 0 {
            lo = d.earliest_time;
            hi = d.latest_time;
        } else {
            if d.earliest_time < lo {
                lo = d.earliest_time;
            }
            if d.latest_time > hi {
                hi = d.latest_time;
            }
        }
        i = i + 1;
    }
    assert(details@.take(i as int) =~= details@);
    MetricsSummary { group_count: details.len(), total_size: size, total_count: count, min_time: lo, max_time: hi }
}

} // verus!
