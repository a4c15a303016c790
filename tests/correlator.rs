use oom_monitor::correlator::{correlate, correlate_pid, Correlation};
use oom_monitor::detector::PidParseError;
use oom_monitor::history::SnapshotHistory;
use oom_monitor::snapshot::{ProcessInfo, Snapshot};

fn process(pid: i32, memory: u64) -> ProcessInfo {
    ProcessInfo {
        pid,
        parent: None,
        name: format!("p{}", pid),
        cmd: vec![],
        memory,
        cpu_usage_hundredths: 0,
        uid: 0,
        environ: vec![],
        cwd: String::new(),
        root: String::new(),
        exe: String::new(),
        status: String::new(),
        start_time: 0,
    }
}

fn snapshot(timestamp: i64, used: u64, procs: &[(i32, u64)]) -> Snapshot {
    let mut s = Snapshot::new(timestamp, 200, used, 100, 25);
    for &(pid, mem) in procs {
        s.insert_process(process(pid, mem));
    }
    s
}

fn three_snapshots() -> SnapshotHistory {
    let mut h = SnapshotHistory::new();
    h.insert(snapshot(1, 50, &[(417, 90), (1, 5), (2, 40)]));
    h.insert(snapshot(2, 60, &[(1, 5), (2, 40)]));
    h.insert(snapshot(3, 70, &[(1, 5), (3, 8)]));
    h
}

#[test]
fn kill_is_matched_with_oldest_snapshot_holding_it() {
    let h = three_snapshots();
    let inc = correlate("Killed process 417 (java)".to_string(), &h).unwrap();
    assert_eq!(inc.pid, 417);
    assert_eq!(inc.correlation, Correlation::Found { snapshot: 2, process: 0 });
    assert_eq!(h.get(2).timestamp(), 1);
    assert_eq!(inc.memory_usage, Some(2500));
    assert_eq!(inc.swap_usage, Some(2500));
    assert_eq!(inc.processes_by_memory, vec![1, 2, 0]);
    assert_eq!(inc.line, "Killed process 417 (java)");
}

#[test]
fn kill_is_matched_with_freshest_snapshot_holding_it() {
    let h = three_snapshots();
    let inc = correlate_pid("l".to_string(), 2, &h);
    assert_eq!(inc.correlation, Correlation::Found { snapshot: 1, process: 1 });
    assert_eq!(inc.memory_usage, Some(3000));
}

#[test]
fn missing_process_falls_back_to_newest_snapshot() {
    let h = three_snapshots();
    let inc = correlate("Killed process 999".to_string(), &h).unwrap();
    assert_eq!(inc.correlation, Correlation::Fallback { snapshot: 0 });
    assert_eq!(inc.memory_usage, Some(3500));
    assert_eq!(inc.processes_by_memory, vec![0, 1]);
}

#[test]
fn empty_history_gives_no_snapshot() {
    let h = SnapshotHistory::new();
    let inc = correlate("Killed process 5".to_string(), &h).unwrap();
    assert_eq!(inc.correlation, Correlation::NoSnapshot);
    assert_eq!(inc.memory_usage, None);
    assert_eq!(inc.swap_usage, None);
    assert!(inc.processes_by_memory.is_empty());
}

#[test]
fn unreadable_pid_is_an_error() {
    let h = three_snapshots();
    assert_eq!(
        correlate("Killed process abc".to_string(), &h).unwrap_err(),
        PidParseError::MissingDigits
    );
}
