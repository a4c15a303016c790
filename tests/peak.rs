use oom_monitor::peak::{snapshot_with_highest_mem_usage, PeakMemoryTracker, DAY_SECONDS};
use oom_monitor::snapshot::Snapshot;

const MIDNIGHT: i64 = 19675 * 86400;

fn sample(t: i64, used: u64) -> Snapshot {
    Snapshot::new(t, 1_000_000, used, 0, 0)
}

fn used_at(t: i64) -> u64 {
    ((t as u64).wrapping_mul(2654435761) >> 7) % 900_000
}

#[test]
fn a_day_of_ticks_from_midnight_gives_two_reports_of_the_true_maxima() {
    let start = MIDNIGHT;
    let mut tracker = PeakMemoryTracker::new(sample(start - 1, 123), 0);
    let mut window_max: u64 = 123;
    let mut reports: Vec<(i64, u64, u64)> = Vec::new();
    for t in start..start + DAY_SECONDS {
        let used = used_at(t);
        let (next, report) = tracker.tick(t, sample(t, used));
        tracker = next;
        match report {
            Some(peak) => {
                reports.push((t, peak.used_memory(), window_max));
                window_max = used;
            }
            None => {
                if used >= window_max {
                    window_max = used;
                }
            }
        }
    }
    assert_eq!(reports.len(), 2);
    assert_eq!(reports[0].0, start);
    assert_eq!(reports[1].0, start + DAY_SECONDS - 9);
    for (_, reported, expected) in &reports {
        assert_eq!(reported, expected);
    }
    assert_eq!(reports[0].1, 123);
}

#[test]
fn report_only_once_until_midday_rearms() {
    let mut tracker = PeakMemoryTracker::new(sample(0, 5), 0);
    let (t1, r1) = tracker.tick(MIDNIGHT - 3, sample(MIDNIGHT - 3, 7));
    assert_eq!(r1.unwrap().used_memory(), 5);
    assert!(t1.reported());
    let (t2, r2) = t1.tick(MIDNIGHT + 2, sample(MIDNIGHT + 2, 9));
    assert!(r2.is_none());
    assert_eq!(t2.peak().used_memory(), 9);
    let (t3, r3) = t2.tick(MIDNIGHT + 43200 + 5, sample(MIDNIGHT + 43200 + 5, 1));
    assert!(r3.is_none());
    assert!(!t3.reported());
    assert_eq!(t3.peak().used_memory(), 9);
    let (t4, r4) = t3.tick(MIDNIGHT + DAY_SECONDS, sample(MIDNIGHT + DAY_SECONDS, 2));
    assert_eq!(r4.unwrap().used_memory(), 9);
    assert_eq!(t4.peak().used_memory(), 2);
}

#[test]
fn tolerance_is_strictly_under_ten_seconds() {
    let tracker = PeakMemoryTracker::new(sample(0, 5), 0);
    let (t1, r1) = tracker.tick(MIDNIGHT + 10, sample(MIDNIGHT + 10, 1));
    assert!(r1.is_none());
    let (_, r2) = t1.tick(MIDNIGHT - 10, sample(MIDNIGHT - 10, 1));
    assert!(r2.is_none());
    let tracker = PeakMemoryTracker::new(sample(0, 5), 0);
    let (_, r3) = tracker.tick(MIDNIGHT + 9, sample(MIDNIGHT + 9, 1));
    assert!(r3.is_some());
}

#[test]
fn ties_keep_the_newer_snapshot() {
    let tracker = PeakMemoryTracker::new(sample(100, 50), 0);
    let (t1, _) = tracker.tick(MIDNIGHT + 3600, sample(MIDNIGHT + 3600, 50));
    assert_eq!(t1.peak().timestamp(), MIDNIGHT + 3600);
    let (t2, _) = t1.tick(MIDNIGHT + 3601, sample(MIDNIGHT + 3601, 49));
    assert_eq!(t2.peak().timestamp(), MIDNIGHT + 3600);
}

#[test]
fn utc_offset_moves_local_midnight() {
    let tracker = PeakMemoryTracker::new(sample(0, 5), 3600);
    let (_, r) = tracker.tick(MIDNIGHT, sample(MIDNIGHT, 1));
    assert!(r.is_none());
    let tracker = PeakMemoryTracker::new(sample(0, 5), 3600);
    let (_, r) = tracker.tick(MIDNIGHT - 3600, sample(MIDNIGHT - 3600, 1));
    assert!(r.is_some());
}

#[test]
fn negative_instants_use_the_day_they_fall_in() {
    let tracker = PeakMemoryTracker::new(sample(0, 5), 0);
    let (_, r) = tracker.tick(-86400 + 4, sample(-86396, 1));
    assert!(r.is_some());
    let tracker = PeakMemoryTracker::new(sample(0, 5), 0);
    let (_, r) = tracker.tick(-43200 + 4, sample(-43196, 1));
    assert!(r.is_none());
}

#[test]
fn highest_mem_usage_picks_larger_and_newer_on_tie() {
    assert_eq!(snapshot_with_highest_mem_usage(sample(1, 10), sample(2, 9)).timestamp(), 1);
    assert_eq!(snapshot_with_highest_mem_usage(sample(1, 9), sample(2, 10)).timestamp(), 2);
    assert_eq!(snapshot_with_highest_mem_usage(sample(1, 10), sample(2, 10)).timestamp(), 2);
}
