//! Point-in-time records of system and process state.
use vstd::prelude::*;

use crate::usage::{hundredths_of_percent, memory_percentage};

verus! {

/// Facts about one process, captured within a snapshot.
#[derive(Debug)]
pub struct ProcessInfo {
    pub pid: i32,
    pub parent: Option<i32>,
    pub name: String,
    pub cmd: Vec<String>,
    /// Resident memory, in kB.
    pub memory: u64,
    /// CPU usage, in hundredths of a percent.
    pub cpu_usage_hundredths: u64,
    pub uid: u32,
    pub environ: Vec<String>,
    pub cwd: String,
    pub root: String,
    pub exe: String,
    pub status: String,
    /// Start time, in seconds.
    pub start_time: u64,
}

/// System state at one instant: memory and swap counters and the process
/// table. The table is filled through `insert_process`, which keeps each
/// process id at most once. It is a `Vec` rather than a map keyed by process
/// id, so that the table has a fixed order that `processes_by_memory` and the
/// positions in an `Incident` can refer to.
#[derive(Debug)]
pub struct Snapshot {
    pub(crate) timestamp: i64,
    pub(crate) total_memory: u64,
    pub(crate) used_memory: u64,
    pub(crate) total_swap: u64,
    pub(crate) used_swap: u64,
    pub(crate) processes: Vec<ProcessInfo>,
}

/// No two entries of `procs` share a process id.
pub open spec fn pids_unique(procs: Seq<ProcessInfo>) -> bool {
    forall|i: int, j: int|
        0 <= i < j < procs.len() ==> #[trigger] procs[i].pid != #[trigger] procs[j].pid
}

/// Some entry of `procs` has process id `pid`.
pub open spec fn has_pid(procs: Seq<ProcessInfo>, pid: i32) -> bool {
    exists|i: int| 0 <= i < procs.len() && #[trigger] procs[i].pid == pid
}

/// `order` lists each index of a table of `n` entries exactly once.
pub open spec fn is_index_permutation(order: Seq<usize>, n: nat) -> bool {
    &&& order.len() == n
    &&& forall|k: int| 0 <= k < order.len() ==> #[trigger] order[k] < n
    &&& order.no_duplicates()
}

/// Resident memory of the entry of `procs` that position `k` of `order` names.
pub open spec fn memory_at(procs: Seq<ProcessInfo>, order: Seq<usize>, k: int) -> u64 {
    procs[order[k] as int].memory
}

/// Following `order` visits the entries of `procs` by ascending resident memory.
pub open spec fn ordered_by_memory(procs: Seq<ProcessInfo>, order: Seq<usize>) -> bool {
    forall|a: int, b: int|
        0 <= a < b < order.len() ==> #[trigger] memory_at(procs, order, a) <= #[trigger] memory_at(
            procs,
            order,
            b,
        )
}

impl Snapshot {
    /// The instant of the snapshot, in seconds since the Unix epoch.
    pub closed spec fn spec_timestamp(&self) -> i64 {
        self.timestamp
    }

    pub closed spec fn spec_total_memory(&self) -> u64 {
        self.total_memory
    }

    pub closed spec fn spec_used_memory(&self) -> u64 {
        self.used_memory
    }

    pub closed spec fn spec_total_swap(&self) -> u64 {
        self.total_swap
    }

    pub closed spec fn spec_used_swap(&self) -> u64 {
        self.used_swap
    }

    /// The process table, in insertion order.
    pub closed spec fn spec_processes(&self) -> Seq<ProcessInfo> {
        self.processes@
    }

    /// The process table holds an entry with process id `pid`.
    pub open spec fn contains_pid(&self, pid: i32) -> bool {
        has_pid(self.spec_processes(), pid)
    }

    /// A snapshot with the given counters and an empty process table.
    pub fn new(
        timestamp: i64,
        total_memory: u64,
        used_memory: u64,
        total_swap: u64,
        used_swap: u64,
    ) -> (s: Snapshot)
        ensures
            s.timestamp() == timestamp,
            s.total_memory() == total_memory,
            s.used_memory() == used_memory,
            s.total_swap() == total_swap,
            s.used_swap() == used_swap,
            s.spec_processes() == Seq::<ProcessInfo>::empty(),
    {
        Snapshot {
            timestamp,
            total_memory,
            used_memory,
            total_swap,
            used_swap,
            processes: Vec::new(),
        }
    }

    /// Records `p` in the process table. An entry with the same process id
    /// is replaced in place and handed back; otherwise `p` is appended.
    pub fn insert_process(&mut self, p: ProcessInfo) -> (replaced: Option<ProcessInfo>)
        ensures
            final(self).timestamp() == old(self).timestamp(),
            final(self).total_memory() == old(self).total_memory(),
            final(self).used_memory() == old(self).used_memory(),
            final(self).total_swap() == old(self).total_swap(),
            final(self).used_swap() == old(self).used_swap(),
            pids_unique(old(self).spec_processes()) ==> pids_unique(final(self).spec_processes()),
            match replaced {
                Some(q) => exists|i: int|
                    0 <= i < old(self).spec_processes().len() && old(self).spec_processes()[i] == q && q.pid
                        == p.pid && final(self).spec_processes() == old(self).spec_processes().update(i, p),
                None => !has_pid(old(self).spec_processes(), p.pid) && final(self).spec_processes() == old(
                    self,
                ).spec_processes().push(p),
            },
    {
        match self.find_process(p.pid) {
            Some(i) => {
                let ghost before = self.processes@;
                let taken = replace_entry(&mut self.processes, i, p);
                proof {
                    assert forall|k: int| 0 <= k < before.len() implies #[trigger] self.processes@[k].pid
                        == before[k].pid by {}
                }
                Some(taken)
            },
            None => {
                let ghost before = self.processes@;
                self.processes.push(p);
                proof {
                    if pids_unique(before) {
                        assert forall|a: int, b: int|
                            0 <= a < b < self.processes@.len() implies #[trigger] self.processes@[a].pid
                            != #[trigger] self.processes@[b].pid by {
                            if b == before.len() {
                                assert(before[a].pid == self.processes@[a].pid);
                            } else {
                                assert(before[a].pid != before[b].pid);
                            }
                        }
                    }
                }
                None
            },
        }
    }

    /// The position in the process table of the entry with process id `pid`.
    pub fn find_process(&self, pid: i32) -> (r: Option<usize>)
        ensures
            match r {
                Some(i) => i < self.spec_processes().len() && self.spec_processes()[i as int].pid == pid,
                None => !self.contains_pid(pid),
            },
    {
        let n = self.processes.len();
        let mut i: usize = 0;
        while i < n
            invariant
                n == self.processes@.len(),
                i <= n,
                forall|k: int| 0 <= k < i ==> #[trigger] self.processes@[k].pid != pid,
            decreases n - i,
        {
            if self.processes[i].pid == pid {
                return Some(i);
            }
            i = i + 1;
        }
        None
    }

    /// The instant the snapshot was taken, in seconds since the Unix epoch.
    #[verifier::when_used_as_spec(spec_timestamp)]
    pub fn timestamp(&self) -> (r: i64)
        ensures
            r == self.spec_timestamp(),
    {
        self.timestamp
    }

    /// Total memory, in kB.
    #[verifier::when_used_as_spec(spec_total_memory)]
    pub fn total_memory(&self) -> (r: u64)
        ensures
            r == self.spec_total_memory(),
    {
        self.total_memory
    }

    /// Used memory, in kB.
    #[verifier::when_used_as_spec(spec_used_memory)]
    pub fn used_memory(&self) -> (r: u64)
        ensures
            r == self.spec_used_memory(),
    {
        self.used_memory
    }

    /// Total swap, in kB.
    #[verifier::when_used_as_spec(spec_total_swap)]
    pub fn total_swap(&self) -> (r: u64)
        ensures
            r == self.spec_total_swap(),
    {
        self.total_swap
    }

    /// Used swap, in kB.
    #[verifier::when_used_as_spec(spec_used_swap)]
    pub fn used_swap(&self) -> (r: u64)
        ensures
            r == self.spec_used_swap(),
    {
        self.used_swap
    }

    /// The process table.
    pub fn processes(&self) -> (r: &Vec<ProcessInfo>)
        ensures
            r@ == self.spec_processes(),
    {
        &self.processes
    }

    /// Used memory as a share of total memory, in hundredths of a percent.
    pub fn memory_usage(&self) -> (r: Option<u128>)
        ensures
            self.total_memory() == 0 ==> r is None,
            self.total_memory() > 0 ==> r == Some(
                hundredths_of_percent(self.used_memory() as nat, self.total_memory() as nat) as u128,
            ),
    {
        memory_percentage(self.used_memory, self.total_memory)
    }

    /// Used swap as a share of total swap, in hundredths of a percent.
    pub fn swap_usage(&self) -> (r: Option<u128>)
        ensures
            self.total_swap() == 0 ==> r is None,
            self.total_swap() > 0 ==> r == Some(
                hundredths_of_percent(self.used_swap() as nat, self.total_swap() as nat) as u128,
            ),
    {
        memory_percentage(self.used_swap, self.total_swap)
    }

    /// The positions of the process table, ordered by ascending resident
    /// memory. The table itself is left as it is.
    pub fn processes_by_memory(&self) -> (order: Vec<usize>)
        ensures
            is_index_permutation(order@, self.spec_processes().len()),
            ordered_by_memory(self.spec_processes(), order@),
    {
        let procs = &self.processes;
        let n = procs.len();
        let mut order: Vec<usize> = Vec::new();
        let mut k: usize = 0;
        while k < n
            invariant
                n == procs@.len(),
                k <= n,
                order@.len() == k,
                forall|m: int| 0 <= m < k ==> #[trigger] order@[m] == m,
            decreases n - k,
        {
            order.push(k);
            k = k + 1;
        }
        let mut i: usize = 1;
        while i < n
            invariant
                n == procs@.len(),
                is_index_permutation(order@, n as nat),
                n == 0 || 1 <= i <= n,
                forall|a: int, b: int|
                    0 <= a < b < i ==> #[trigger] memory_at(procs@, order@, a) <= #[trigger] memory_at(
                        procs@,
                        order@,
                        b,
                    ),
            decreases n - i,
        {
            let mut j: usize = i;
            while j > 0 && procs[order[j - 1]].memory > procs[order[j]].memory
                invariant
                    n == procs@.len(),
                    i < n,
                    j <= i,
                    is_index_permutation(order@, n as nat),
                    forall|a: int, b: int|
                        0 <= a < b <= i && a != j && b != j ==> #[trigger] memory_at(
                            procs@,
                            order@,
                            a,
                        ) <= #[trigger] memory_at(procs@, order@, b),
                    forall|b: int|
                        j < b <= i ==> memory_at(procs@, order@, j as int) <= #[trigger] memory_at(
                            procs@,
                            order@,
                            b,
                        ),
                decreases j,
            {
                let ghost before = order@;
                let lower = order[j - 1];
                let upper = order[j];
                order.set(j - 1, upper);
                order.set(j, lower);
                proof {
                    assert(order@ =~= before.update(j - 1, upper).update(j as int, lower));
                    assert forall|p: int, q: int|
                        0 <= p < order@.len() && 0 <= q < order@.len() && p != q implies order@[p]
                        != order@[q] by {
                        let sp = if p == j - 1 {
                            j as int
                        } else if p == j {
                            j - 1
                        } else {
                            p
                        };
                        let sq = if q == j - 1 {
                            j as int
                        } else if q == j {
                            j - 1
                        } else {
                            q
                        };
                        assert(order@[p] == before[sp]);
                        assert(order@[q] == before[sq]);
                    }
                    assert forall|a: int, b: int|
                        0 <= a < b <= i && a != j - 1 && b != j - 1 implies #[trigger] memory_at(
                            procs@,
                            order@,
                            a,
                        ) <= #[trigger] memory_at(procs@, order@, b) by {
                        if b == j {
                            assert(memory_at(procs@, before, a) <= memory_at(procs@, before, j - 1));
                        } else if a == j {
                            assert(memory_at(procs@, before, j - 1) <= memory_at(procs@, before, b));
                        } else {
                            assert(memory_at(procs@, before, a) <= memory_at(procs@, before, b));
                        }
                    }
                    assert forall|b: int| j - 1 < b <= i implies memory_at(
                        procs@,
                        order@,
                        j - 1,
                    ) <= #[trigger] memory_at(procs@, order@, b) by {
                        if b > j {
                            assert(memory_at(procs@, before, j as int) <= memory_at(
                                procs@,
                                before,
                                b,
                            ));
                        }
                    }
                }
                j = j - 1;
            }
            proof {
                assert forall|a: int, b: int|
                    0 <= a < b < i + 1 implies #[trigger] memory_at(procs@, order@, a)
                    <= #[trigger] memory_at(procs@, order@, b) by {
                    if a == j {
                        assert(memory_at(procs@, order@, j as int) <= memory_at(procs@, order@, b));
                    } else if b == j {
                        if a < j - 1 {
                            assert(memory_at(procs@, order@, a) <= memory_at(
                                procs@,
                                order@,
                                j - 1,
                            ));
                        }
                    }
                }
            }
            i = i + 1;
        }
        proof {
            if n > 0 {
                assert(ordered_by_memory(procs@, order@));
            }
        }
        order
    }
}

/// Puts `x` at position `i` of `v` and hands back what stood there.
fn replace_entry<T>(v: &mut Vec<T>, i: usize, x: T) -> (previous: T)
    requires
        i < old(v)@.len(),
    ensures
        previous == old(v)@[i as int],
        final(v)@ == old(v)@.update(i as int, x),
{
    let mut previous = x;
    std::mem::swap(&mut previous, &mut v[i]);
    previous
}

} // verus!
