//! The highest memory use of each half-day window.
use vstd::prelude::*;

use crate::snapshot::Snapshot;

verus! {

/// Seconds in a day.
pub const DAY_SECONDS: i64 = 86400;

/// Seconds in half a day.
pub const HALF_DAY_SECONDS: i64 = 43200;

/// How close, in seconds, a tick must come to midnight or midday to count
/// as being at it.
pub const TOLERANCE_SECONDS: i64 = 10;

/// `a` and `b` lie less than the tolerance apart.
pub open spec fn within_tolerance(a: int, b: int) -> bool {
    -TOLERANCE_SECONDS < a - b < TOLERANCE_SECONDS
}

/// The start of the day that holds the local instant `local`.
pub open spec fn day_start(local: int) -> int {
    local - local % (DAY_SECONDS as int)
}

/// `local` is close to the previous or the next midnight.
pub open spec fn near_midnight(local: int) -> bool {
    within_tolerance(day_start(local), local) || within_tolerance(
        day_start(local) + DAY_SECONDS,
        local,
    )
}

/// `local` is close to the midday of its day.
pub open spec fn near_midday(local: int) -> bool {
    within_tolerance(day_start(local) + HALF_DAY_SECONDS, local)
}

/// The largest value of `s`; zero for an empty `s`.
pub open spec fn max_of(s: Seq<u64>) -> u64
    decreases s.len(),
{
    if s.len() == 0 {
        0
    } else if s.last() > max_of(s.drop_last()) {
        s.last()
    } else {
        max_of(s.drop_last())
    }
}

/// `max_of` is the maximum: no value of `s` exceeds it, and a non-empty `s`
/// holds it.
pub proof fn lemma_max_of_is_maximum(s: Seq<u64>)
    ensures
        forall|i: int| 0 <= i < s.len() ==> s[i] <= max_of(s),
        s.len() > 0 ==> s.contains(max_of(s)),
    decreases s.len(),
{
    if s.len() > 0 {
        let rest = s.drop_last();
        lemma_max_of_is_maximum(rest);
        assert forall|i: int| 0 <= i < s.len() implies s[i] <= max_of(s) by {
            if i < rest.len() {
                assert(s[i] == rest[i]);
            }
        }
        if s.last() <= max_of(rest) && rest.len() > 0 {
            let j = choose|j: int| 0 <= j < rest.len() && rest[j] == max_of(rest);
            assert(s[j] == max_of(s));
        } else {
            assert(s[s.len() - 1] == max_of(s));
        }
    }
}

/// Of two snapshots, the one with the higher memory use; `b` on a tie.
pub fn snapshot_with_highest_mem_usage(a: Snapshot, b: Snapshot) -> (r: Snapshot)
    ensures
        r == if a.spec_used_memory() > b.spec_used_memory() {
            a
        } else {
            b
        },
{
    if a.used_memory() > b.used_memory() {
        a
    } else {
        b
    }
}

/// What a tick does, given whether this window's summary went out already
/// and the local instant of the tick.
pub enum PeakStep {
    /// Emit the summary of the window and start a new one.
    Report,
    /// Fold the sample in and re-arm the summary for the next midnight.
    Rearm,
    /// Fold the sample in.
    Fold,
}

/// The step a tick at local instant `local` takes.
pub open spec fn peak_step(reported: bool, local: int) -> PeakStep {
    if !reported && near_midnight(local) {
        PeakStep::Report
    } else if near_midday(local) {
        PeakStep::Rearm
    } else {
        PeakStep::Fold
    }
}

/// The highest memory use seen since the last summary, and whether the
/// summary of this window went out already.
pub struct PeakMemoryTracker {
    peak: Snapshot,
    reported: bool,
    utc_offset: i32,
    window: Ghost<Seq<u64>>,
}

impl PeakMemoryTracker {
    #[verifier::type_invariant]
    closed spec fn inv(&self) -> bool {
        &&& self.window@.len() > 0
        &&& self.peak.spec_used_memory() == max_of(self.window@)
    }

    /// The snapshot with the highest memory use of the window.
    pub closed spec fn spec_peak(&self) -> Snapshot {
        self.peak
    }

    /// Whether the summary of this window went out already.
    pub closed spec fn spec_reported(&self) -> bool {
        self.reported
    }

    /// Seconds east of UTC of the clock whose midnights and middays count.
    pub closed spec fn spec_utc_offset(&self) -> i32 {
        self.utc_offset
    }

    /// The used memory of each sample of the window, in the order folded in.
    pub closed spec fn spec_window(&self) -> Seq<u64> {
        self.window@
    }

    /// A tracker whose window starts with `first`, with midnight and midday
    /// taken on a clock `utc_offset` seconds east of UTC.
    pub fn new(first: Snapshot, utc_offset: i32) -> (t: PeakMemoryTracker)
        ensures
            t.spec_peak() == first,
            !t.spec_reported(),
            t.spec_utc_offset() == utc_offset,
            t.spec_window() == seq![first.spec_used_memory()],
    {
        let ghost w = seq![first.spec_used_memory()];
        assert(max_of(w) == first.spec_used_memory()) by {
            assert(w.drop_last() =~= Seq::<u64>::empty());
            assert(max_of(w.drop_last()) == 0);
        }
        PeakMemoryTracker { peak: first, reported: false, utc_offset, window: Ghost(w) }
    }

    /// The snapshot with the highest memory use of the window.
    pub fn peak(&self) -> (r: &Snapshot)
        ensures
            *r == self.spec_peak(),
            r.spec_used_memory() == max_of(self.spec_window()),
    {
        proof {
            use_type_invariant(self);
        }
        &self.peak
    }

    /// Whether the summary of this window went out already.
    pub fn reported(&self) -> (r: bool)
        ensures
            r == self.spec_reported(),
    {
        self.reported
    }

    /// One tick at `now`, in seconds since the Unix epoch, with the sample
    /// `current`. Near midnight, unless done already in this window, it hands
    /// out the window's peak snapshot and starts a new window at `current`.
    /// Otherwise `current` is folded in, keeping the snapshot with the higher
    /// memory use (the newer on a tie); near midday the summary is re-armed.
    pub fn tick(self, now: i64, current: Snapshot) -> (r: (PeakMemoryTracker, Option<Snapshot>))
        ensures
            r.0.spec_utc_offset() == self.spec_utc_offset(),
            r.0.spec_peak().spec_used_memory() == max_of(r.0.spec_window()),
            match peak_step(self.spec_reported(), now + self.spec_utc_offset()) {
                PeakStep::Report => {
                    &&& r.1 == Some(self.spec_peak())
                    &&& r.0.spec_peak() == current
                    &&& r.0.spec_reported()
                    &&& r.0.spec_window() == seq![current.spec_used_memory()]
                },
                PeakStep::Rearm => {
                    &&& r.1 is None
                    &&& r.0.spec_peak() == if self.spec_peak().spec_used_memory()
                        > current.spec_used_memory() {
                        self.spec_peak()
                    } else {
                        current
                    }
                    &&& !r.0.spec_reported()
                    &&& r.0.spec_window() == self.spec_window().push(current.spec_used_memory())
                },
                PeakStep::Fold => {
                    &&& r.1 is None
                    &&& r.0.spec_peak() == if self.spec_peak().spec_used_memory()
                        > current.spec_used_memory() {
                        self.spec_peak()
                    } else {
                        current
                    }
                    &&& r.0.spec_reported() == self.spec_reported()
                    &&& r.0.spec_window() == self.spec_window().push(current.spec_used_memory())
                },
            },
            match r.1 {
                Some(s) => {
                    &&& forall|i: int|
                        0 <= i < self.spec_window().len() ==> self.spec_window()[i]
                            <= s.spec_used_memory()
                    &&& self.spec_window().contains(s.spec_used_memory())
                },
                None => true,
            },
    {
        proof {
            use_type_invariant(&self);
            lemma_max_of_is_maximum(self.window@);
        }
        let local: i128 = now as i128 + self.utc_offset as i128;
        let second_of_day: i128 = match local.checked_rem_euclid(DAY_SECONDS as i128) {
            Some(s) => s,
            None => 0,
        };
        assert(second_of_day == (local as int) % (DAY_SECONDS as int));
        let at_midnight = second_of_day < TOLERANCE_SECONDS as i128 || second_of_day
            > (DAY_SECONDS - TOLERANCE_SECONDS) as i128;
        let at_midday = second_of_day > (HALF_DAY_SECONDS - TOLERANCE_SECONDS) as i128
            && second_of_day < (HALF_DAY_SECONDS + TOLERANCE_SECONDS) as i128;
        assert(at_midnight == near_midnight(local as int));
        assert(at_midday == near_midday(local as int));
        let PeakMemoryTracker { peak, reported, utc_offset, window } = self;
        if !reported && at_midnight {
            let ghost w = seq![current.spec_used_memory()];
            assert(max_of(w) == current.spec_used_memory()) by {
                assert(w.drop_last() =~= Seq::<u64>::empty());
                assert(max_of(w.drop_last()) == 0);
            }
            let next = PeakMemoryTracker { peak: current, reported: true, utc_offset, window: Ghost(w) };
            (next, Some(peak))
        } else {
            let ghost w = window@.push(current.spec_used_memory());
            assert(w.drop_last() =~= window@);
            let kept = snapshot_with_highest_mem_usage(peak, current);
            let next = PeakMemoryTracker {
                peak: kept,
                reported: if at_midday {
                    false
                } else {
                    reported
                },
                utc_offset,
                window: Ghost(w),
            };
            (next, None)
        }
    }
}

} // verus!
