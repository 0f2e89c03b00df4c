use vstd::prelude::*;

use crate::grouping::{is_grouping_of, GroupSnapshots};
use crate::model::{
    details_wf, enriched, group_wf, EnrichError, ResticError, Snapshot, SnapshotGroup,
    SnapshotGroupWithDetails,
};

verus! {

/// One refresh cycle in progress: the groups of the inventory, and the
/// enriched records of the groups whose size is known so far, in order.
///
/// The caller performs the size computation that `next_request` names and
/// hands its outcome to `record_size`. A failure consumes the cycle, so its
/// partial results can never be published; only a complete cycle yields its
/// records.
pub struct Cycle {
    groups: Vec<SnapshotGroup>,
    done: Vec<SnapshotGroupWithDetails>,
    sizes: Ghost<Seq<i64>>,
}

impl Cycle {
    pub closed spec fn groups(&self) -> Seq<SnapshotGroup> {
        self.groups@
    }

    pub closed spec fn done(&self) -> Seq<SnapshotGroupWithDetails> {
        self.done@
    }

    /// The sizes reported so far, one for each record of `done`.
    pub closed spec fn sizes(&self) -> Seq<i64> {
        self.sizes@
    }

    pub open spec fn wf(&self) -> bool {
        &&& forall|k: int| 0 <= k < self.groups().len() ==> group_wf(#[trigger] self.groups()[k])
        &&& self.done().len() == self.sizes().len()
        &&& self.done().len() <= self.groups().len()
        &&& forall|i: int|
            0 <= i < self.done().len() ==> enriched(
                #[trigger] self.done()[i],
                self.groups()[i],
                self.sizes()[i],
            )
    }

    pub open spec fn is_complete(&self) -> bool {
        self.done().len() == self.groups().len()
    }

    /// A cycle over the groups of `snapshots`, with no size known yet.
    pub fn start(snapshots: &Vec<Snapshot>) -> (c: Cycle)
        ensures
            c.wf(),
            is_grouping_of(snapshots@, c.groups()),
            c.done().len() == 0,
    {
        let groups = snapshots.to_snapshot_groups();
        Cycle { groups, done: Vec::new(), sizes: Ghost(Seq::empty()) }
    }

    /// The host and path of the next group whose size is needed, or `None`
    /// once every group is enriched.
    pub fn next_request(&self) -> (r: Option<(String, String)>)
        requires
            self.wf(),
        ensures
            r is None <==> self.is_complete(),
            r is Some ==> (r->0).0@ == self.groups()[self.done().len() as int].host@ && (r->0).1@
                == self.groups()[self.done().len() as int].path@,
    {
        if self.done.len() == self.groups.len() {
            None
        } else {
            let g = &self.groups[self.done.len()];
            Some((g.host.clone(), g.path.clone()))
        }
    }

    /// Takes the outcome of the size computation for the next group. A
    /// failure ends the cycle with that error; a size enriches the group.
    pub fn record_size(self, stats: Result<i64, ResticError>) -> (r: Result<Cycle, EnrichError>)
        requires
            self.wf(),
            !self.is_complete(),
        ensures
            stats is Err ==> r == Err::<Cycle, EnrichError>(
                EnrichError::ExternalCallFailed(stats->Err_0),
            ),
            stats is Ok ==> {
                &&& r is Ok
                &&& r->Ok_0.wf()
                &&& r->Ok_0.groups() == self.groups()
                &&& r->Ok_0.sizes() == self.sizes().push(stats->Ok_0)
                &&& r->Ok_0.done().drop_last() == self.done()
            },
    {
        let Cycle { groups, mut done, sizes } = self;
        let k = done.len();
        let ghost g = groups@[k as int];
        match groups[k].get_details(stats) {
            Ok(d) => {
                let ghost size = d.size;
                done.push(d);
                let c = Cycle { groups, done, sizes: Ghost(sizes@.push(size)) };
                proof {
                    assert(c.done().drop_last() =~= self.done());
                    assert(enriched(c.done()[k as int], g, size));
                }
                Ok(c)
            },
            Err(e) => Err(e),
        }
    }

    /// The records of a complete cycle, one for each group, in order.
    pub fn finish(self) -> (r: Vec<SnapshotGroupWithDetails>)
        requires
            self.wf(),
            self.is_complete(),
        ensures
            r@ == self.done(),
            r@.len() == self.groups().len(),
            forall|i: int|
                0 <= i < r@.len() ==> enriched(#[trigger] r@[i], self.groups()[i], self.sizes()[i])
                    && details_wf(r@[i]),
    {
        proof {
            assert forall|i: int| 0 <= i < self.done().len() implies details_wf(#[trigger] self.done()[i]) by {
                crate::details::lemma_enriched_wf(self.done()[i], self.groups()[i], self.sizes()[i]);
            }
        }
        self.done
    }
}

} // verus!
