//! Matching a killed process with the snapshot that best shows it.
use vstd::prelude::*;

use crate::detector::{extract_pid, pid_of_line, PidParseError};
use crate::history::{is_first_containing, SnapshotHistory};
use crate::snapshot::{has_pid, is_index_permutation, ordered_by_memory, Snapshot};
use crate::usage::hundredths_of_percent;

verus! {

/// Which retained snapshot an incident is reported against.
#[derive(Debug, Clone, Copy, PartialEq, Eq, Structural)]
pub enum Correlation {
    /// The freshest snapshot that still holds the killed process: its
    /// position in the history, newest first, and the position of the
    /// process in its table.
    Found { snapshot: usize, process: usize },
    /// No retained snapshot holds the killed process; the newest snapshot
    /// is given for context only.
    Fallback { snapshot: usize },
    /// The history holds no snapshot at all.
    NoSnapshot,
}

/// One detected OOM kill, with what the history shows of it.
#[derive(Debug)]
pub struct Incident {
    /// The kernel-log line that reported the kill.
    pub line: String,
    /// The id of the killed process.
    pub pid: i32,
    pub correlation: Correlation,
    /// Memory use of the chosen snapshot, in hundredths of a percent.
    pub memory_usage: Option<u128>,
    /// Swap use of the chosen snapshot, in hundredths of a percent.
    pub swap_usage: Option<u128>,
    /// The positions of the chosen snapshot's process table, by ascending
    /// resident memory; empty when there is no snapshot.
    pub processes_by_memory: Vec<usize>,
}

/// The position of the snapshot that `c` names, if any.
pub open spec fn chosen_snapshot(c: Correlation) -> Option<usize> {
    match c {
        Correlation::Found { snapshot, .. } => Some(snapshot),
        Correlation::Fallback { snapshot } => Some(snapshot),
        Correlation::NoSnapshot => None,
    }
}

/// The share of `total` taken by `used`, as `memory_percentage` gives it.
pub open spec fn usage_of(used: u64, total: u64) -> Option<u128> {
    if total == 0 {
        None
    } else {
        Some(hundredths_of_percent(used as nat, total as nat) as u128)
    }
}

/// `c` is the right correlation for a kill of `pid` against `hist`.
pub open spec fn correlates(c: Correlation, pid: i32, hist: Seq<Snapshot>) -> bool {
    match c {
        Correlation::Found { snapshot, process } => {
            &&& is_first_containing(hist, pid, snapshot as int)
            &&& process < hist[snapshot as int].spec_processes().len()
            &&& hist[snapshot as int].spec_processes()[process as int].pid == pid
        },
        Correlation::Fallback { snapshot } => {
            &&& snapshot == 0
            &&& hist.len() > 0
            &&& forall|j: int| 0 <= j < hist.len() ==> !(#[trigger] hist[j]).contains_pid(pid)
        },
        Correlation::NoSnapshot => hist.len() == 0,
    }
}

/// `inc` reports the kill line `line`, whose process id is `pid`, against
/// the history `hist`.
pub open spec fn is_incident_for(inc: Incident, line: Seq<char>, pid: i32, hist: Seq<Snapshot>) -> bool {
    &&& inc.line@ == line
    &&& inc.pid == pid
    &&& correlates(inc.correlation, pid, hist)
    &&& match chosen_snapshot(inc.correlation) {
        Some(i) => {
            let s = hist[i as int];
            &&& inc.memory_usage == usage_of(s.spec_used_memory(), s.spec_total_memory())
            &&& inc.swap_usage == usage_of(s.spec_used_swap(), s.spec_total_swap())
            &&& is_index_permutation(inc.processes_by_memory@, s.spec_processes().len())
            &&& ordered_by_memory(s.spec_processes(), inc.processes_by_memory@)
        },
        None => {
            &&& inc.memory_usage is None
            &&& inc.swap_usage is None
            &&& inc.processes_by_memory@.len() == 0
        },
    }
}

/// Builds the report of the kill of `pid` that `line` announced: the
/// freshest snapshot that still holds the process, else the newest snapshot
/// for context, else none; with the utilization of that snapshot and its
/// process table ordered by resident memory.
pub fn correlate_pid(line: String, pid: i32, history: &SnapshotHistory) -> (inc: Incident)
    ensures
        is_incident_for(inc, line@, pid, history@),
{
    let correlation = match history.find_containing(pid) {
        Some(i) => {
            let s = history.get(i);
            match s.find_process(pid) {
                Some(p) => Correlation::Found { snapshot: i, process: p },
                None => {
                    // cannot happen: find_containing saw `pid` in this table
                    proof {
                        assert(has_pid(s.spec_processes(), pid));
                    }
                    Correlation::NoSnapshot
                },
            }
        },
        None => {
            if history.len() == 0 {
                Correlation::NoSnapshot
            } else {
                Correlation::Fallback { snapshot: 0 }
            }
        },
    };
    match correlation {
        Correlation::Found { snapshot, .. } | Correlation::Fallback { snapshot } => {
            let s = history.get(snapshot);
            Incident {
                line,
                pid,
                correlation,
                memory_usage: s.memory_usage(),
                swap_usage: s.swap_usage(),
                processes_by_memory: s.processes_by_memory(),
            }
        },
        Correlation::NoSnapshot => Incident {
            line,
            pid,
            correlation,
            memory_usage: None,
            swap_usage: None,
            processes_by_memory: Vec::new(),
        },
    }
}

/// Reads the process id from the kill line `line` and reports the kill
/// against `history`. A line without a readable process id is an error.
pub fn correlate(line: String, history: &SnapshotHistory) -> (r: Result<Incident, PidParseError>)
    ensures
        match pid_of_line(line@) {
            Ok(pid) => r is Ok && is_incident_for(r->Ok_0, line@, pid, history@),
            Err(e) => r == Err::<Incident, PidParseError>(e),
        },
{
    match extract_pid(line.as_str()) {
        Ok(pid) => Ok(correlate_pid(line, pid, history)),
        Err(e) => Err(e),
    }
}

} // verus!
