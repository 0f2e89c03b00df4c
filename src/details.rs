use vstd::prelude::*;

use crate::grouping::copy_snapshots;
use crate::model::{
    details_wf, enriched, max_time, min_time, EnrichError, ResticError, Snapshot, SnapshotGroup,
    SnapshotGroupWithDetails,
};

verus! {

proof fn lemma_min_le_max(s: Seq<Snapshot>)
    requires
        s.len() > 0,
    ensures
        min_time(s) <= max_time(s),
    decreases s.len(),
{
    if s.len() > 1 {
        lemma_min_le_max(s.drop_last());
    }
}

impl SnapshotGroup {
    /// The smallest (`min`) or largest time among `snapshots`; an empty list
    /// has neither.
    pub fn get_snapshot_time(snapshots: &Vec<Snapshot>, min: bool) -> (r: Result<i64, EnrichError>)
        ensures
            snapshots@.len() == 0 <==> r is Err,
            r is Err ==> r == Err::<i64, EnrichError>(EnrichError::EmptyGroup),
            r is Ok && min ==> r->Ok_0 == min_time(snapshots@),
            r is Ok && !min ==> r->Ok_0 == max_time(snapshots@),
    {
        if snapshots.len() == 0 {
            return Err(EnrichError::EmptyGroup);
        }
        let mut best: i64 = snapshots[0].time;
        let mut i: usize = 1;
        while i < snapshots.len()
            invariant
                1 <= i <= snapshots@.len(),
                min ==> best == min_time(snapshots@.take(i as int)),
                !min ==> best == max_time(snapshots@.take(i as int)),
            decreases snapshots@.len() - i,
        {
            let t = snapshots[i].time;
            proof {
                let next = snapshots@.take(i as int + 1);
                assert(next.drop_last() =~= snapshots@.take(i as int));
                assert(next.last() == snapshots@[i as int]);
            }
            if min && t < best {
                best = t;
            } else if !min && t > best {
                best = t;
            }
            i = i + 1;
        }
        assert(snapshots@.take(i as int) =~= snapshots@);
        Ok(best)
    }

    /// The statistics of this group, given the outcome of the size
    /// computation for its host and path: a failed computation fails, an
    /// empty group fails, and otherwise the record holds the group, the size,
    /// the number of snapshots and their earliest and latest time.
    pub fn get_details(&self, stats: Result<i64, ResticError>) -> (r: Result<
        SnapshotGroupWithDetails,
        EnrichError,
    >)
        ensures
            stats is Err ==> r == Err::<SnapshotGroupWithDetails, EnrichError>(
                EnrichError::ExternalCallFailed(stats->Err_0),
            ),
            stats is Ok && self.snapshots@.len() == 0 ==> r == Err::<
                SnapshotGroupWithDetails,
                EnrichError,
            >(EnrichError::EmptyGroup),
            stats is Ok && self.snapshots@.len() > 0 ==> r is Ok && enriched(r->Ok_0, *self, stats->Ok_0),
            r is Ok ==> details_wf(r->Ok_0),
    {
        let size = match stats {
            Ok(n) => n,
            Err(e) => {
                return Err(EnrichError::ExternalCallFailed(e));
            },
        };
        let earliest = match Self::get_snapshot_time(&self.snapshots, true) {
            Ok(t) => t,
            Err(e) => {
                return Err(e);
            },
        };
        let latest = match Self::get_snapshot_time(&self.snapshots, false) {
            Ok(t) => t,
            Err(e) => {
                return Err(e);
            },
        };
        let group = SnapshotGroup {
            host: self.host.clone(),
            path: self.path.clone(),
            snapshots: copy_snapshots(&self.snapshots),
        };
        let d = SnapshotGroupWithDetails {
            group,
            count: self.snapshots.len(),
            size,
            earliest_time: earliest,
            latest_time: latest,
        };
        proof {
            lemma_enriched_wf(d, *self, size);
        }
        Ok(d)
    }
}

/// Every enriched record of a non-empty group has its earliest time no later
/// than its latest time, and counts the snapshots of its group.
pub proof fn lemma_enriched_wf(d: SnapshotGroupWithDetails, g: SnapshotGroup, size: i64)
    requires
        g.snapshots@.len() > 0,
        enriched(d, g, size),
    ensures
        details_wf(d),
{
    lemma_min_le_max(g.snapshots@);
}

} // verus!
