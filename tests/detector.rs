use oom_monitor::detector::{
    classify, extract_kill_lines, extract_pid, find_first, is_kill_line, read_pid_digits, PidParseError,
    SeenKills,
};

const A: &str = "[2024-01-01T10:00:00] Out of memory: Killed process 100 (a) total-vm:1kB";
const B: &str = "[2024-01-01T10:05:00] Out of memory: Killed process 200 (b) total-vm:1kB";
const C: &str = "[2024-01-01T10:09:00] Out of memory: Killed process 300 (c) total-vm:1kB";

fn log_of(lines: &[&str]) -> String {
    let mut text = String::from("[2024-01-01T09:00:00] kernel: boot\n");
    for l in lines {
        text.push_str(l);
        text.push('\n');
        text.push_str("[2024-01-01T10:10:00] some other message\n");
    }
    text
}

fn poll(text: &str, seen: &SeenKills) -> (Vec<String>, SeenKills) {
    classify(extract_kill_lines(text), seen)
}

#[test]
fn extract_kill_lines_keeps_only_kill_lines_in_order() {
    let text = log_of(&[A, B]);
    assert_eq!(extract_kill_lines(&text), vec![A.to_string(), B.to_string()]);
}

#[test]
fn extract_kill_lines_handles_line_endings() {
    let text = "x Killed process 1\r\nplain\r\nKilled process 2";
    assert_eq!(
        extract_kill_lines(text),
        vec!["x Killed process 1".to_string(), "Killed process 2".to_string()]
    );
    assert!(extract_kill_lines("").is_empty());
    assert!(extract_kill_lines("\n\n").is_empty());
    assert_eq!(extract_kill_lines("Killed process\n"), vec!["Killed process".to_string()]);
}

#[test]
fn extract_kill_lines_keeps_non_ascii_text() {
    let text = "é Killed process 5 (ü)\nnope";
    assert_eq!(extract_kill_lines(text), vec!["é Killed process 5 (ü)".to_string()]);
}

#[test]
fn kill_line_predicate() {
    assert!(is_kill_line(&"Out of memory: Killed process 9".chars().collect()));
    assert!(!is_kill_line(&"Killed proces 9".chars().collect()));
    assert!(!is_kill_line(&Vec::new()));
}

#[test]
fn find_first_gives_leftmost_position() {
    let s: Vec<char> = "abcabc".chars().collect();
    assert_eq!(find_first(&s, &"bc".chars().collect()), Some(1));
    assert_eq!(find_first(&s, &"cb".chars().collect()), None);
    assert_eq!(find_first(&s, &Vec::new()), Some(0));
    assert_eq!(find_first(&"ab".chars().collect(), &"abc".chars().collect()), None);
}

#[test]
fn second_poll_reports_only_the_new_line() {
    let seen = SeenKills::from_lines(extract_kill_lines(&log_of(&[A, B])));
    let (fresh, _) = poll(&log_of(&[A, B, C]), &seen);
    assert_eq!(fresh, vec![C.to_string()]);
}

#[test]
fn lines_that_left_the_log_are_forgotten() {
    let seen1 = SeenKills::from_lines(extract_kill_lines(&log_of(&[A, B])));
    let (fresh2, seen2) = poll(&log_of(&[A, B, C]), &seen1);
    assert_eq!(fresh2, vec![C.to_string()]);
    let (fresh3, seen3) = poll(&log_of(&[C]), &seen2);
    assert!(fresh3.is_empty());
    assert!(!seen3.contains(&A.to_string()));
    assert!(seen3.contains(&C.to_string()));
    let (fresh4, _) = poll(&log_of(&[A, C]), &seen3);
    assert_eq!(fresh4, vec![A.to_string()]);
}

#[test]
fn repeated_new_line_in_one_poll_is_reported_each_time() {
    let seen = SeenKills::new();
    let (fresh, now_seen) = classify(vec![A.to_string(), A.to_string()], &seen);
    assert_eq!(fresh, vec![A.to_string(), A.to_string()]);
    assert!(now_seen.contains(&A.to_string()));
}

#[test]
fn extract_pid_reads_digits_after_marker() {
    assert_eq!(extract_pid(A), Ok(100));
    assert_eq!(extract_pid("Killed process 0"), Ok(0));
    assert_eq!(extract_pid("Killed process 007x"), Ok(7));
    assert_eq!(extract_pid("Killed process 2147483647 (x)"), Ok(2147483647));
}

#[test]
fn extract_pid_uses_first_marker() {
    assert_eq!(extract_pid("Killed process 12 then Killed process 34"), Ok(12));
    assert_eq!(
        extract_pid("Killed process x then Killed process 34"),
        Err(PidParseError::MissingDigits)
    );
}

#[test]
fn extract_pid_fails_without_digits() {
    assert_eq!(
        extract_pid("Out of memory: Killed process (bash)"),
        Err(PidParseError::MissingDigits)
    );
    assert_eq!(extract_pid("Killed process "), Err(PidParseError::MissingDigits));
    assert_eq!(extract_pid("Killed process"), Err(PidParseError::MissingMarker));
    assert_eq!(extract_pid("nothing here"), Err(PidParseError::MissingMarker));
}

#[test]
fn extract_pid_fails_beyond_i32() {
    assert_eq!(extract_pid("Killed process 2147483648"), Err(PidParseError::OutOfRange));
    assert_eq!(
        extract_pid("Killed process 99999999999999999999999"),
        Err(PidParseError::OutOfRange)
    );
}

#[test]
fn extract_pid_rejects_non_ascii_decimal_digits() {
    assert_eq!(extract_pid("Killed process 1\u{661}"), Err(PidParseError::NonAsciiDigit));
    assert_eq!(extract_pid("Killed process \u{661}"), Err(PidParseError::NonAsciiDigit));
    assert_eq!(extract_pid("Killed process 12\u{ff13} (x)"), Err(PidParseError::NonAsciiDigit));
    assert_eq!(
        extract_pid("Killed process 99999999999\u{661}"),
        Err(PidParseError::OutOfRange)
    );
}

#[test]
fn extract_pid_stops_at_other_non_ascii_characters() {
    assert_eq!(extract_pid("Killed process 12\u{e9}"), Ok(12));
    assert_eq!(extract_pid("Killed process 12\u{bd}"), Ok(12));
    assert_eq!(extract_pid("Killed process \u{e9}"), Err(PidParseError::MissingDigits));
}

#[test]
fn read_pid_digits_orders_its_errors() {
    let digits = |s: &str| -> Vec<char> { s.chars().collect() };
    assert_eq!(read_pid_digits(&digits("417"), false), Ok(417));
    assert_eq!(read_pid_digits(&digits("417"), true), Err(PidParseError::NonAsciiDigit));
    assert_eq!(read_pid_digits(&digits(""), false), Err(PidParseError::MissingDigits));
    assert_eq!(read_pid_digits(&digits(""), true), Err(PidParseError::NonAsciiDigit));
    assert_eq!(read_pid_digits(&digits("2147483648"), true), Err(PidParseError::OutOfRange));
    assert_eq!(read_pid_digits(&digits("0002147483647"), false), Ok(2147483647));
}
