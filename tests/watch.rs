use oom_monitor::correlator::Correlation;
use oom_monitor::detector::PidParseError;
use oom_monitor::snapshot::{ProcessInfo, Snapshot};
use oom_monitor::watch::OomWatch;

fn process(pid: i32, memory: u64) -> ProcessInfo {
    ProcessInfo {
        pid,
        parent: None,
        name: format!("p{}", pid),
        cmd: vec![],
        memory,
        cpu_usage_hundredths: 0,
        uid: 0,
        environ: vec![],
        cwd: String::new(),
        root: String::new(),
        exe: String::new(),
        status: String::new(),
        start_time: 0,
    }
}

fn snapshot(timestamp: i64, pids: &[i32]) -> Snapshot {
    let mut s = Snapshot::new(timestamp, 100, 10, 0, 0);
    for &pid in pids {
        s.insert_process(process(pid, pid as u64));
    }
    s
}

const OLD: &str = "Out of memory: Killed process 11 (old)";
const NEW: &str = "Out of memory: Killed process 22 (new)";
const GONE: &str = "Out of memory: Killed process 33 (gone)";

#[test]
fn lines_present_at_start_are_never_reported() {
    let mut w = OomWatch::new(&format!("{}\n", OLD));
    let out = w.observe(snapshot(1, &[11]), Some(&format!("{}\n", OLD)));
    assert!(out.incidents.is_empty());
    assert!(out.failure.is_none());
    assert_eq!(w.history().len(), 1);
}

#[test]
fn new_line_is_reported_against_history() {
    let mut w = OomWatch::new(OLD);
    w.observe(snapshot(1, &[22, 5]), Some(OLD));
    let out = w.observe(snapshot(2, &[5]), Some(&format!("{}\n{}\n", OLD, NEW)));
    assert_eq!(out.incidents.len(), 1);
    let inc = &out.incidents[0];
    assert_eq!(inc.line, NEW);
    assert_eq!(inc.pid, 22);
    assert_eq!(inc.correlation, Correlation::Found { snapshot: 1, process: 0 });
    assert!(out.failure.is_none());
    let again = w.observe(snapshot(3, &[]), Some(&format!("{}\n{}\n", OLD, NEW)));
    assert!(again.incidents.is_empty());
}

#[test]
fn failed_log_read_keeps_known_lines() {
    let mut w = OomWatch::new(OLD);
    let out = w.observe(snapshot(1, &[]), None);
    assert!(out.incidents.is_empty());
    assert!(out.failure.is_none());
    assert_eq!(w.history().len(), 1);
    let out2 = w.observe(snapshot(2, &[]), Some(OLD));
    assert!(out2.incidents.is_empty());
}

#[test]
fn unreadable_kill_line_stops_the_poll_with_its_error() {
    let mut w = OomWatch::new("");
    let log = format!("{}\nKilled process ?\n{}\n", NEW, GONE);
    let out = w.observe(snapshot(1, &[]), Some(&log));
    assert_eq!(out.incidents.len(), 1);
    assert_eq!(out.incidents[0].pid, 22);
    assert_eq!(out.incidents[0].correlation, Correlation::Fallback { snapshot: 0 });
    let failure = out.failure.unwrap();
    assert_eq!(failure.line, "Killed process ?");
    assert_eq!(failure.error, PidParseError::MissingDigits);
}

#[test]
fn history_is_bounded_by_capacity() {
    let mut w = OomWatch::with_capacity(2, "");
    for t in 0..5 {
        w.observe(snapshot(t, &[]), Some(""));
    }
    assert_eq!(w.history().len(), 2);
    assert_eq!(w.history().capacity(), 2);
    assert_eq!(w.history().get(0).timestamp(), 4);
}
