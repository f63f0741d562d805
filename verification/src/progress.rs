//! A scan that reports its own speed.
//!
//! The scan cannot read a clock. Whoever drives it reads one when the scan
//! asks for it and passes the reading in; the scan decides whether a
//! throughput sample is due and hands that out in place of a trial.

use vstd::prelude::*;
use crate::curve::CurvePoint;
use crate::scan::{candidate, Scan, Seed};

verus! {

/// The number of trials between two looks at the clock.
pub const SAMPLE_EVERY: u64 = 1024;

/// One second: the time that has to pass between two samples unless the
/// caller asks for another interval.
pub const DEFAULT_INTERVAL_NANOS: u64 = 1_000_000_000;

/// What one step of a reporting scan hands out.
#[derive(Clone, Copy, Debug)]
pub enum ScanEvent {
    /// A count and the candidate point that belongs to it.
    Trial { count: u64, point: CurvePoint },
    /// The number of trials since the last sample and the nanoseconds they
    /// took.
    Progress { trials: u64, elapsed_nanos: u64 },
}

/// A scan together with the time and the trial count of its last sample.
pub struct ProgressScan {
    scan: Scan,
    interval_nanos: u64,
    last_count: u64,
    last_nanos: u64,
}

impl ProgressScan {
    /// The base scalar of the scan.
    pub closed spec fn base(&self) -> nat {
        self.scan.base()
    }

    /// The count of the next trial.
    pub closed spec fn counter(&self) -> nat {
        self.scan.counter()
    }

    /// The time that has to pass between two samples.
    pub closed spec fn interval_nanos(&self) -> nat {
        self.interval_nanos as nat
    }

    /// The trials handed out before the last sample.
    pub closed spec fn last_trials(&self) -> nat {
        self.last_count as nat / 8
    }

    /// The clock reading of the last sample.
    pub closed spec fn last_nanos(&self) -> nat {
        self.last_nanos as nat
    }

    /// The trials handed out so far.
    pub open spec fn trials(&self) -> nat {
        self.counter() / 8
    }

    /// The scan is valid and the last sample does not lie ahead of it.
    pub closed spec fn wf(&self) -> bool {
        &&& self.scan.wf()
        &&& self.last_count <= self.scan.counter()
        &&& self.last_count % 8 == 0
    }

    /// The next step looks at the clock.
    pub open spec fn wants_clock_spec(&self) -> bool {
        self.trials() % (SAMPLE_EVERY as nat) == 0
    }

    /// At the clock reading `now_nanos` a sample is due: the next step looks
    /// at the clock, and more than the interval has passed since the last
    /// sample.
    pub open spec fn sample_due(&self, now_nanos: nat) -> bool {
        self.wants_clock_spec() && now_nanos > self.last_nanos() + self.interval_nanos()
    }

    /// A reporting scan from `seed` whose first sample counts from the clock
    /// reading `now_nanos`.
    pub fn start(seed: &Seed, interval_nanos: u64, now_nanos: u64) -> (p: ProgressScan)
        requires
            seed.wf(),
        ensures
            p.wf(),
            p.base() == seed.base(),
            p.counter() == 0,
            p.interval_nanos() == interval_nanos,
            p.last_trials() == 0,
            p.last_nanos() == now_nanos,
    {
        ProgressScan { scan: seed.scan(), interval_nanos, last_count: 0, last_nanos: now_nanos }
    }

    /// Whether the next step looks at the clock. When it does not, the
    /// reading passed to `advance` is not used.
    pub fn wants_clock(&self) -> (r: bool)
        requires
            self.wf(),
        ensures
            r == self.wants_clock_spec(),
    {
        proof {
            self.scan.lemma_counter();
        }
        (self.scan.count() / 8) % SAMPLE_EVERY == 0
    }

    /// One step. When a sample is due it is handed out and the scan itself
    /// stays where it is, so the next step hands out the trial that was put
    /// off. Otherwise the step is a step of the scan.
    pub fn advance(&mut self, now_nanos: u64) -> (r: Option<ScanEvent>)
        requires
            old(self).wf(),
        ensures
            final(self).wf(),
            final(self).base() == old(self).base(),
            final(self).interval_nanos() == old(self).interval_nanos(),
            old(self).sample_due(now_nanos as nat) ==> {
                &&& r == Some(
                    ScanEvent::Progress {
                        trials: (old(self).trials() - old(self).last_trials()) as u64,
                        elapsed_nanos: (now_nanos - old(self).last_nanos()) as u64,
                    },
                )
                &&& final(self).counter() == old(self).counter()
                &&& final(self).last_trials() == old(self).trials()
                &&& final(self).last_nanos() == now_nanos
            },
            !old(self).sample_due(now_nanos as nat) ==> {
                &&& final(self).last_trials() == old(self).last_trials()
                &&& final(self).last_nanos() == old(self).last_nanos()
                &&& if old(self).counter() > crate::scan::SCAN_LIMIT {
                    r is None && final(self).counter() == old(self).counter()
                } else {
                    &&& r matches Some(ScanEvent::Trial { count, point })
                    &&& count == old(self).counter()
                    &&& point.wf()
                    &&& point@ == candidate(old(self).base(), old(self).counter())
                    &&& final(self).counter() == old(self).counter() + 8
                }
            },
    {
        proof {
            self.scan.lemma_counter();
        }
        let count: u64 = self.scan.count();
        if (count / 8) % SAMPLE_EVERY == 0 && now_nanos > self.last_nanos && now_nanos
            - self.last_nanos > self.interval_nanos {
            let trials: u64 = count / 8 - self.last_count / 8;
            let elapsed_nanos: u64 = now_nanos - self.last_nanos;
            self.last_count = count;
            self.last_nanos = now_nanos;
            return Some(ScanEvent::Progress { trials, elapsed_nanos });
        }
        match self.scan.advance() {
            None => None,
            Some((count, point)) => Some(ScanEvent::Trial { count, point }),
        }
    }
}

} // verus!
