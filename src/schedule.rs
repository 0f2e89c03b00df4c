use vstd::prelude::*;

verus! {

/// What the update loop does next.
#[derive(Clone, Copy, Debug, PartialEq, Eq, Structural)]
pub enum Tick {
    /// Run one refresh cycle now, then report its end with `cycle_finished`.
    StartCycle,
    /// Sleep this many milliseconds, then ask again.
    Wait(u64),
}

/// Decides when refresh cycles run. Times are milliseconds on a clock that
/// never goes back. A cycle starts at the earliest one interval after the
/// previous cycle ended; cycles never overlap and missed ones are not caught up.
#[derive(Clone, Copy, Debug)]
pub struct Scheduler {
    interval: u64,
    last_start: Option<u64>,
    not_before: u64,
    running: bool,
}

impl Scheduler {
    pub closed spec fn interval(&self) -> u64 {
        self.interval
    }

    /// When the last cycle started, if one did.
    pub closed spec fn last_start(&self) -> Option<u64> {
        self.last_start
    }

    /// The earliest time at which the next cycle may start.
    pub closed spec fn not_before(&self) -> u64 {
        self.not_before
    }

    pub closed spec fn running(&self) -> bool {
        self.running
    }

    /// A cycle runs only after one started; once it ended, the next may not
    /// start before one interval after that start.
    pub open spec fn wf(&self) -> bool {
        &&& self.running() ==> self.last_start() is Some
        &&& !self.running() && self.last_start() is Some ==> self.not_before() >= self.last_start()->0
            + self.interval()
    }

    /// Whether a poll at `now` starts a cycle.
    pub open spec fn starts_at(&self, now: u64) -> bool {
        !self.running() && now >= self.not_before()
    }

    /// A scheduler whose first cycle may start at once.
    pub fn new(interval: u64) -> (s: Scheduler)
        ensures
            s.wf(),
            s.interval() == interval,
            s.last_start() is None,
            !s.running(),
            s.not_before() == 0,
    {
        Scheduler { interval, last_start: None, not_before: 0, running: false }
    }

    /// The decision at time `now`: start a cycle, or wait until one may start.
    pub fn poll(&mut self, now: u64) -> (t: Tick)
        requires
            old(self).wf(),
        ensures
            final(self).wf(),
            final(self).interval() == old(self).interval(),
            (t == Tick::StartCycle) <==> old(self).starts_at(now),
            t == Tick::StartCycle ==> final(self).running() && final(self).last_start() == Some(now)
                && final(self).not_before() == old(self).not_before(),
            t != Tick::StartCycle ==> *final(self) == *old(self),
            old(self).running() ==> t == Tick::Wait(old(self).interval()),
            !old(self).running() && now < old(self).not_before() ==> t == Tick::Wait(
                (old(self).not_before() - now) as u64,
            ),
    {
        if self.running {
            Tick::Wait(self.interval)
        } else if now < self.not_before {
            Tick::Wait(self.not_before - now)
        } else {
            self.running = true;
            self.last_start = Some(now);
            Tick::StartCycle
        }
    }

    /// Records that the running cycle ended at `now`: the next may start one
    /// interval later.
    pub fn cycle_finished(&mut self, now: u64)
        requires
            old(self).wf(),
            old(self).running(),
            old(self).last_start()->0 <= now,
            now + old(self).interval() <= u64::MAX,
        ensures
            final(self).wf(),
            !final(self).running(),
            final(self).interval() == old(self).interval(),
            final(self).last_start() == old(self).last_start(),
            final(self).not_before() == now + old(self).interval(),
    {
        self.running = false;
        self.not_before = now + self.interval;
    }

    /// Whether a cycle is running.
    pub fn is_running(&self) -> (r: bool)
        ensures
            r == self.running(),
    {
        self.running
    }
}

/// Two cycles never start closer together than the interval: whenever a poll
/// of a well-formed scheduler starts a cycle, the previous cycle, if any,
/// started at least one interval earlier.
pub proof fn lemma_cycles_spaced(s: Scheduler, now: u64)
    requires
        s.wf(),
        s.starts_at(now),
    ensures
        s.last_start() is None || now >= s.last_start()->0 + s.interval(),
{
}

} // verus!
