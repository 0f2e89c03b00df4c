use vstd::prelude::*;

use crate::model::{CycleError, PersistError, SnapshotGroupWithDetails};

verus! {

/// What the metrics sink shows after a new list (`Some`) or a failure (`None`):
/// a new list replaces the whole state, a failure leaves it as it was.
pub open spec fn shown_after(
    shown: Seq<SnapshotGroupWithDetails>,
    update: Option<Seq<SnapshotGroupWithDetails>>,
) -> Seq<SnapshotGroupWithDetails> {
    match update {
        Some(list) => list,
        None => shown,
    }
}

/// The list that an outcome carries, if it succeeded.
pub open spec fn list_of<E>(outcome: Result<Vec<SnapshotGroupWithDetails>, E>) -> Option<
    Seq<SnapshotGroupWithDetails>,
> {
    match outcome {
        Ok(list) => Some(list@),
        Err(_) => None,
    }
}

/// The set of enriched records that the metrics sink shows. It is only ever
/// replaced as a whole, so a scraper sees the records of one cycle, never a
/// mix of two.
pub struct MetricsState {
    shown: Vec<SnapshotGroupWithDetails>,
}

impl View for MetricsState {
    type V = Seq<SnapshotGroupWithDetails>;

    closed spec fn view(&self) -> Seq<SnapshotGroupWithDetails> {
        self.shown@
    }
}

impl MetricsState {
    /// The state before anything was restored or published.
    pub fn empty() -> (m: MetricsState)
        ensures
            m@ == Seq::<SnapshotGroupWithDetails>::empty(),
    {
        MetricsState { shown: Vec::new() }
    }

    /// Takes the state read from durable storage at startup; a read that
    /// failed leaves the state as it is.
    pub fn restore(&mut self, loaded: Result<Vec<SnapshotGroupWithDetails>, PersistError>)
        ensures
            final(self)@ == shown_after(old(self)@, list_of(loaded)),
    {
        if let Ok(list) = loaded {
            self.shown = list;
        }
    }

    /// Takes the outcome of a refresh cycle; a failed cycle publishes nothing
    /// and the previous records stay visible.
    pub fn publish(&mut self, outcome: Result<Vec<SnapshotGroupWithDetails>, CycleError>)
        ensures
            final(self)@ == shown_after(old(self)@, list_of(outcome)),
    {
        if let Ok(list) = outcome {
            self.shown = list;
        }
    }

    /// The records shown now.
    pub fn shown(&self) -> (r: &Vec<SnapshotGroupWithDetails>)
        ensures
            r@ == self@,
    {
        &self.shown
    }
}

/// A failed cycle changes nothing that a scraper sees: the records of the
/// last successful cycle, or the empty state if there was none, stay visible.
pub proof fn lemma_failed_cycle_keeps_state(
    shown: Seq<SnapshotGroupWithDetails>,
    failed: Result<Vec<SnapshotGroupWithDetails>, CycleError>,
)
    requires
        failed is Err,
    ensures
        shown_after(shown, list_of(failed)) == shown,
{
}

/// After a restart that restores a persisted list, and a first cycle that
/// fails, the sink shows the persisted list.
pub proof fn lemma_restart_shows_persisted(
    persisted: Vec<SnapshotGroupWithDetails>,
    failed: Result<Vec<SnapshotGroupWithDetails>, CycleError>,
)
    requires
        failed is Err,
    ensures
        shown_after(
            shown_after(Seq::<SnapshotGroupWithDetails>::empty(), list_of(Ok::<Vec<SnapshotGroupWithDetails>, PersistError>(persisted))),
            list_of(failed),
        ) == persisted@,
{
}

} // verus!
