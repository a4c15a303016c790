//! The OOM side of one monitoring tick: keep the snapshot, find new kill
//! lines, report each against the history.
use vstd::prelude::*;

use crate::correlator::{correlate, is_incident_for, Incident};
use crate::detector::{
    classify, extract_kill_lines, kill_lines, pid_of_line, string_views, unseen_lines, PidParseError,
    SeenKills,
};
use crate::history::{push_front_bounded, SnapshotHistory, DEFAULT_CAPACITY};
use crate::snapshot::Snapshot;

verus! {

/// A new kill line whose process id could not be read.
#[derive(Debug)]
pub struct UnreadableKillLine {
    /// The kernel-log line.
    pub line: String,
    /// Why no process id could be read from it.
    pub error: PidParseError,
}

/// What one poll of the kernel log found.
#[derive(Debug)]
pub struct PollOutcome {
    /// One report per new kill line, in log order, up to the first line
    /// whose process id could not be read.
    pub incidents: Vec<Incident>,
    /// That line and why its process id could not be read; `None` when
    /// every new line was reported.
    pub failure: Option<UnreadableKillLine>,
}

/// The first `m` of `fresh` have a readable process id, and the
/// `(m+1)`-th, if there is one, has not.
pub open spec fn readable_prefix(fresh: Seq<Seq<char>>, m: int) -> bool {
    &&& 0 <= m <= fresh.len()
    &&& forall|k: int| 0 <= k < m ==> (#[trigger] pid_of_line(fresh[k])) is Ok
    &&& m < fresh.len() ==> pid_of_line(fresh[m]) is Err
}

/// `out` reports the new kill lines `fresh` against `hist`: one incident per
/// line up to the first unreadable one, which it carries with its error.
pub open spec fn reports_lines(out: PollOutcome, fresh: Seq<Seq<char>>, hist: Seq<Snapshot>) -> bool {
    let m = out.incidents@.len() as int;
    &&& readable_prefix(fresh, m)
    &&& forall|k: int|
        0 <= k < m ==> is_incident_for(
            #[trigger] out.incidents@[k],
            fresh[k],
            pid_of_line(fresh[k])->Ok_0,
            hist,
        )
    &&& match out.failure {
        Some(f) => m < fresh.len() && f.line@ == fresh[m] && f.error == pid_of_line(fresh[m])->Err_0,
        None => m == fresh.len(),
    }
}

/// The snapshot history and the kill lines of the last successful read of
/// the kernel log.
pub struct OomWatch {
    history: SnapshotHistory,
    seen: SeenKills,
}

impl OomWatch {
    /// The retained snapshots, newest first.
    pub closed spec fn spec_history(&self) -> Seq<Snapshot> {
        self.history@
    }

    /// The largest number of snapshots kept.
    pub closed spec fn spec_capacity(&self) -> nat {
        self.history.spec_capacity()
    }

    /// The texts of the kill lines of the last successful read.
    pub closed spec fn spec_seen(&self) -> Set<Seq<char>> {
        self.seen@
    }

    /// A watch primed with the kill lines already in `initial_log`, which
    /// are taken as known and never reported; it keeps at most `capacity`
    /// snapshots.
    pub fn with_capacity(capacity: usize, initial_log: &str) -> (w: OomWatch)
        ensures
            w.spec_history() == Seq::<Snapshot>::empty(),
            w.spec_capacity() == capacity,
            w.spec_seen() == kill_lines(initial_log@).to_set(),
    {
        let lines = extract_kill_lines(initial_log);
        OomWatch { history: SnapshotHistory::with_capacity(capacity), seen: SeenKills::from_lines(lines) }
    }

    /// `with_capacity` with the default capacity.
    pub fn new(initial_log: &str) -> (w: OomWatch)
        ensures
            w.spec_history() == Seq::<Snapshot>::empty(),
            w.spec_capacity() == DEFAULT_CAPACITY,
            w.spec_seen() == kill_lines(initial_log@).to_set(),
    {
        Self::with_capacity(DEFAULT_CAPACITY, initial_log)
    }

    /// The snapshot history.
    pub fn history(&self) -> (r: &SnapshotHistory)
        ensures
            r@ == self.spec_history(),
            r.spec_capacity() == self.spec_capacity(),
    {
        &self.history
    }

    /// One tick: keeps `snapshot` as the newest in the history, then, when
    /// the kernel log could be read (`log` is `Some`), reports each kill line
    /// that the previous successful read did not hold and remembers the
    /// lines of this read in place of the earlier ones. When the log could
    /// not be read, nothing is reported and the known lines stay.
    pub fn observe(&mut self, snapshot: Snapshot, log: Option<&str>) -> (out: PollOutcome)
        ensures
            final(self).spec_capacity() == old(self).spec_capacity(),
            final(self).spec_history() == push_front_bounded(
                old(self).spec_history(),
                snapshot,
                old(self).spec_capacity(),
            ),
            match log {
                None => {
                    &&& final(self).spec_seen() == old(self).spec_seen()
                    &&& out.incidents@.len() == 0
                    &&& out.failure is None
                },
                Some(text) => {
                    &&& final(self).spec_seen() == kill_lines(text@).to_set()
                    &&& reports_lines(
                        out,
                        unseen_lines(kill_lines(text@), old(self).spec_seen()),
                        final(self).spec_history(),
                    )
                },
            },
    {
        self.history.insert(snapshot);
        let text = match log {
            None => {
                return PollOutcome { incidents: Vec::new(), failure: None };
            },
            Some(text) => text,
        };
        let lines = extract_kill_lines(text);
        let (fresh, now_seen) = classify(lines, &self.seen);
        self.seen = now_seen;
        let ghost fresh_views = string_views(fresh@);
        let mut incidents: Vec<Incident> = Vec::new();
        let n = fresh.len();
        let mut taken: usize = 0;
        while taken < n
            invariant
                log == Some(text),
                self.spec_capacity() == old(self).spec_capacity(),
                self.spec_history() == push_front_bounded(
                    old(self).spec_history(),
                    snapshot,
                    old(self).spec_capacity(),
                ),
                self.spec_seen() == kill_lines(text@).to_set(),
                fresh_views == unseen_lines(kill_lines(text@), old(self).spec_seen()),
                n == fresh@.len(),
                fresh_views == string_views(fresh@),
                taken <= n,
                incidents@.len() == taken,
                forall|k: int| 0 <= k < taken ==> (#[trigger] pid_of_line(fresh_views[k])) is Ok,
                forall|k: int|
                    0 <= k < taken ==> is_incident_for(
                        #[trigger] incidents@[k],
                        fresh_views[k],
                        pid_of_line(fresh_views[k])->Ok_0,
                        self.history@,
                    ),
            decreases n - taken,
        {
            let line = fresh[taken].clone();
            match correlate(line, &self.history) {
                Ok(incident) => {
                    incidents.push(incident);
                },
                Err(e) => {
                    let line = fresh[taken].clone();
                    return PollOutcome {
                        incidents,
                        failure: Some(UnreadableKillLine { line, error: e }),
                    };
                },
            }
            taken = taken + 1;
        }
        PollOutcome { incidents, failure: None }
    }
}

} // verus!
