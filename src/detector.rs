//! Detection of OOM kill lines in the kernel log.
use vstd::prelude::*;

use crate::text::string_from_chars;

verus! {

/// The text that marks a kernel-log line as an OOM kill.
pub open spec fn kill_marker() -> Seq<char> {
    seq!['K', 'i', 'l', 'l', 'e', 'd', ' ', 'p', 'r', 'o', 'c', 'e', 's', 's']
}

/// `pat` occurs in `s` starting at position `i`.
pub open spec fn occurs_at(s: Seq<char>, pat: Seq<char>, i: int) -> bool {
    0 <= i && i + pat.len() <= s.len() && s.subrange(i, i + pat.len()) == pat
}

/// `pat` occurs somewhere in `s`.
pub open spec fn contains_chars(s: Seq<char>, pat: Seq<char>) -> bool {
    exists|i: int| occurs_at(s, pat, i)
}

/// `i` is the leftmost position at which `pat` occurs in `s`.
pub open spec fn is_first_occurrence(s: Seq<char>, pat: Seq<char>, i: int) -> bool {
    occurs_at(s, pat, i) && forall|j: int| 0 <= j < i ==> !occurs_at(s, pat, j)
}

/// A line reports an OOM kill when it holds the kill marker.
pub open spec fn is_kill_line_spec(line: Seq<char>) -> bool {
    contains_chars(line, kill_marker())
}

/// The pieces of `s` between line feeds, in order: always one more than
/// the number of line feeds.
pub open spec fn split_at_newlines(s: Seq<char>) -> Seq<Seq<char>>
    decreases s.len(),
{
    if s.len() == 0 {
        seq![Seq::<char>::empty()]
    } else {
        let before = split_at_newlines(s.drop_last());
        if s.last() == '\n' {
            before.push(Seq::<char>::empty())
        } else {
            before.update(before.len() - 1, before.last().push(s.last()))
        }
    }
}

/// `l` without one trailing carriage return.
pub open spec fn strip_cr(l: Seq<char>) -> Seq<char> {
    if l.len() > 0 && l.last() == '\r' {
        l.drop_last()
    } else {
        l
    }
}

/// The lines of a text: split at `\n` or `\r\n`; a final line ending adds
/// no empty line after it.
pub open spec fn log_lines(s: Seq<char>) -> Seq<Seq<char>> {
    let pieces = split_at_newlines(s);
    let ended = pieces.drop_last().map_values(|l: Seq<char>| strip_cr(l));
    if pieces.last().len() == 0 {
        ended
    } else {
        ended.push(pieces.last())
    }
}

/// The lines of `s` that report an OOM kill, in order.
pub open spec fn kill_lines(s: Seq<char>) -> Seq<Seq<char>> {
    log_lines(s).filter(|l: Seq<char>| is_kill_line_spec(l))
}

/// The character views of `v`.
pub open spec fn string_views(v: Seq<String>) -> Seq<Seq<char>> {
    v.map_values(|s: String| s@)
}

proof fn lemma_filter_push<A>(s: Seq<A>, x: A, pred: spec_fn(A) -> bool)
    ensures
        s.push(x).filter(pred) == if pred(x) {
            s.filter(pred).push(x)
        } else {
            s.filter(pred)
        },
{
    reveal(Seq::filter);
    assert(s.push(x).drop_last() =~= s);
}

/// The kill marker as characters.
fn kill_marker_chars() -> (r: Vec<char>)
    ensures
        r@ == kill_marker(),
{
    let r = vec!['K', 'i', 'l', 'l', 'e', 'd', ' ', 'p', 'r', 'o', 'c', 'e', 's', 's'];
    assert(r@ =~= kill_marker());
    r
}

/// `pat` occurs in `s` at position `i`.
fn occurs_at_exec(s: &Vec<char>, pat: &Vec<char>, i: usize) -> (r: bool)
    ensures
        r == occurs_at(s@, pat@, i as int),
{
    if i > s.len() || pat.len() > s.len() - i {
        return false;
    }
    let mut k: usize = 0;
    while k < pat.len()
        invariant
            i + pat@.len() <= s@.len(),
            s@.len() <= usize::MAX,
            k <= pat@.len(),
            s@.subrange(i as int, i + k) =~= pat@.subrange(0, k as int),
        decreases pat@.len() - k,
    {
        if s[i + k] != pat[k] {
            assert(s@.subrange(i as int, i + pat@.len())[k as int] != pat@[k as int]);
            return false;
        }
        k = k + 1;
    }
    assert(pat@.subrange(0, pat@.len() as int) =~= pat@);
    true
}

/// The leftmost position at which `pat` occurs in `s`.
pub fn find_first(s: &Vec<char>, pat: &Vec<char>) -> (r: Option<usize>)
    ensures
        match r {
            Some(i) => is_first_occurrence(s@, pat@, i as int),
            None => !contains_chars(s@, pat@),
        },
{
    if pat.len() > s.len() {
        return None;
    }
    let last = s.len() - pat.len();
    let mut i: usize = 0;
    loop
        invariant
            i <= last,
            last + pat@.len() == s@.len(),
            forall|j: int| 0 <= j < i ==> !occurs_at(s@, pat@, j),
        decreases last - i,
    {
        if occurs_at_exec(s, pat, i) {
            return Some(i);
        }
        if i == last {
            return None;
        }
        i = i + 1;
    }
}

/// Whether `line` reports an OOM kill.
pub fn is_kill_line(line: &Vec<char>) -> (r: bool)
    ensures
        r == is_kill_line_spec(line@),
{
    let marker = kill_marker_chars();
    find_first(line, &marker).is_some()
}

/// The lines of `log_text` that report an OOM kill, in order, each without
/// its line ending.
pub fn extract_kill_lines(log_text: &str) -> (r: Vec<String>)
    ensures
        string_views(r@) == kill_lines(log_text@),
{
    let mut found: Vec<String> = Vec::new();
    let mut cur: Vec<char> = Vec::new();
    let ghost mut ended: Seq<Seq<char>> = Seq::empty();
    let ghost text = log_text@;
    for c in it: log_text.chars()
        invariant
            it.seq() == text,
            split_at_newlines(text.take(it.index() as int)) == ended.push(cur@),
            string_views(found@) == ended.map_values(|l: Seq<char>| strip_cr(l)).filter(
                |l: Seq<char>| is_kill_line_spec(l),
            ),
    {
        proof {
            let k = it.index() as int;
            assert(text.take(k + 1).drop_last() =~= text.take(k));
        }
        if c == '\n' {
            let ghost piece = cur@;
            let mut line = cur;
            if line.len() > 0 && line[line.len() - 1] == '\r' {
                line.pop();
            }
            assert(line@ =~= strip_cr(piece));
            let ghost found_before = found@;
            if is_kill_line(&line) {
                let s = string_from_chars(&line);
                found.push(s);
            }
            proof {
                let f = |l: Seq<char>| strip_cr(l);
                assert(ended.push(piece).map_values(f) =~= ended.map_values(f).push(strip_cr(piece)));
                lemma_filter_push(ended.map_values(f), strip_cr(piece), |l: Seq<char>| is_kill_line_spec(l));
                assert(string_views(found@) =~= if is_kill_line_spec(strip_cr(piece)) {
                    string_views(found_before).push(strip_cr(piece))
                } else {
                    string_views(found_before)
                });
                ended = ended.push(piece);
            }
            cur = Vec::new();
        } else {
            cur.push(c);
        }
    }
    proof {
        assert(text.take(text.len() as int) =~= text);
        let pieces = ended.push(cur@);
        assert(pieces.drop_last() =~= ended);
    }
    if cur.len() > 0 {
        let ghost found_before = found@;
        if is_kill_line(&cur) {
            let s = string_from_chars(&cur);
            found.push(s);
        }
        proof {
            let f = |l: Seq<char>| strip_cr(l);
            lemma_filter_push(ended.map_values(f), cur@, |l: Seq<char>| is_kill_line_spec(l));
            assert(string_views(found@) =~= if is_kill_line_spec(cur@) {
                string_views(found_before).push(cur@)
            } else {
                string_views(found_before)
            });
        }
    }
    found
}

/// The text after which a kill line gives the killed process id.
pub open spec fn pid_marker() -> Seq<char> {
    kill_marker().push(' ')
}

/// Why no process id could be read from a kill line.
#[derive(Debug, Clone, Copy, PartialEq, Eq, Structural)]
pub enum PidParseError {
    /// The line does not hold `Killed process ` at all.
    MissingMarker,
    /// No decimal digit follows the first `Killed process `.
    MissingDigits,
    /// The digits name a number beyond the range of a process id.
    OutOfRange,
    /// A decimal digit from outside ASCII stands among the digits.
    NonAsciiDigit,
}

pub open spec fn is_ascii_digit(c: char) -> bool {
    '0' <= c <= '9'
}

/// The number of ASCII digits in `s` from position `start` on, up to the
/// first character that is not one.
pub open spec fn digit_run_len(s: Seq<char>, start: int) -> nat
    decreases s.len() - start,
{
    if 0 <= start < s.len() && is_ascii_digit(s[start]) {
        1 + digit_run_len(s, start + 1)
    } else {
        0
    }
}

/// The number that the decimal digits `d` spell.
pub open spec fn decimal_value(d: Seq<char>) -> nat
    decreases d.len(),
{
    if d.len() == 0 {
        0
    } else {
        decimal_value(d.drop_last()) * 10 + (d.last() as nat - '0' as nat) as nat
    }
}

/// Whether `c` is a decimal digit of Unicode (general category Nd), as the
/// regex class `\d` matches it.
pub uninterp spec fn unicode_decimal(c: char) -> bool;

/// Relies on the regex crate's `\d`, which with the crate's default Unicode
/// features is the class of Unicode decimal digits; `^\d$` always compiles
/// under those features, so the error arm is never taken.
#[verifier::external_body]
fn is_unicode_decimal(c: char) -> (r: bool)
    ensures
        r == unicode_decimal(c),
{
    let mut buf = [0u8; 4];
    match regex::Regex::new(r"^\d$") {
        Ok(re) => re.is_match(c.encode_utf8(&mut buf)),
        Err(_) => false,
    }
}

/// The process id that the ASCII digits `run` spell, given whether the
/// character right after them is a decimal digit of Unicode. As when such a
/// digit run is read as a decimal `i32`, a value beyond `i32::MAX` shows
/// first, then a digit from outside ASCII, then the lack of any digit.
pub open spec fn pid_from_digits(run: Seq<char>, next_is_decimal: bool) -> Result<
    i32,
    PidParseError,
> {
    if run.len() > 0 && decimal_value(run) > i32::MAX {
        Err(PidParseError::OutOfRange)
    } else if next_is_decimal {
        Err(PidParseError::NonAsciiDigit)
    } else if run.len() == 0 {
        Err(PidParseError::MissingDigits)
    } else {
        Ok(decimal_value(run) as i32)
    }
}

/// What a kill line gives as the killed process id: the decimal digits right
/// after its first `Killed process `, read as an `i32`.
pub open spec fn pid_of_line(line: Seq<char>) -> Result<i32, PidParseError> {
    if !contains_chars(line, pid_marker()) {
        Err(PidParseError::MissingMarker)
    } else {
        let at = choose|i: int| is_first_occurrence(line, pid_marker(), i);
        let start = at + pid_marker().len();
        let n = digit_run_len(line, start);
        pid_from_digits(
            line.subrange(start, start + n),
            start + n < line.len() && unicode_decimal(line[start + n]),
        )
    }
}

proof fn lemma_first_occurrence_unique(s: Seq<char>, pat: Seq<char>, i: int, j: int)
    requires
        is_first_occurrence(s, pat, i),
        is_first_occurrence(s, pat, j),
    ensures
        i == j,
{
}

proof fn lemma_decimal_grows(d: Seq<char>, k: int)
    requires
        0 <= k <= d.len(),
        forall|m: int| 0 <= m < d.len() ==> is_ascii_digit(#[trigger] d[m]),
    ensures
        decimal_value(d.take(k)) <= decimal_value(d),
    decreases d.len() - k,
{
    if k < d.len() {
        lemma_decimal_grows(d, k + 1);
        assert(d.take(k + 1).drop_last() =~= d.take(k));
    } else {
        assert(d.take(k) =~= d);
    }
}

/// The characters of `s`, in order.
pub fn chars_of(s: &str) -> (r: Vec<char>)
    ensures
        r@ == s@,
{
    let mut r: Vec<char> = Vec::new();
    let ghost text = s@;
    for c in it: s.chars()
        invariant
            it.seq() == text,
            r@ == text.take(it.index() as int),
    {
        proof {
            assert(text.take(it.index() + 1) =~= text.take(it.index() as int).push(c));
        }
        r.push(c);
    }
    assert(text.take(text.len() as int) =~= text);
    r
}

/// The process id that the ASCII digits `run` spell, given whether the
/// character right after them is a decimal digit of Unicode.
pub fn read_pid_digits(run: &Vec<char>, next_is_decimal: bool) -> (r: Result<i32, PidParseError>)
    requires
        forall|m: int| 0 <= m < run@.len() ==> is_ascii_digit(#[trigger] run@[m]),
    ensures
        r == pid_from_digits(run@, next_is_decimal),
{
    let n = run.len();
    let mut k: usize = 0;
    let mut value: u64 = 0;
    while k < n
        invariant
            n == run@.len(),
            k <= n,
            forall|m: int| 0 <= m < run@.len() ==> is_ascii_digit(#[trigger] run@[m]),
            value == decimal_value(run@.take(k as int)),
            value <= i32::MAX,
        decreases n - k,
    {
        let d = run[k];
        proof {
            assert(run@.take(k + 1).drop_last() =~= run@.take(k as int));
        }
        value = value * 10 + (d as u64 - '0' as u64);
        k = k + 1;
        if value > 0x7fff_ffff {
            proof {
                lemma_decimal_grows(run@, k as int);
            }
            return Err(PidParseError::OutOfRange);
        }
    }
    assert(run@.take(n as int) =~= run@);
    if next_is_decimal {
        return Err(PidParseError::NonAsciiDigit);
    }
    if n == 0 {
        return Err(PidParseError::MissingDigits);
    }
    Ok(value as i32)
}

/// The process id that a kill line names: the decimal digits right after
/// its first `Killed process `. A line without them, or with digits from
/// outside ASCII among them, is an error, which callers are to treat as
/// fatal.
pub fn extract_pid(line: &str) -> (r: Result<i32, PidParseError>)
    ensures
        r == pid_of_line(line@),
{
    let chars = chars_of(line);
    let mut marker = kill_marker_chars();
    marker.push(' ');
    let at = match find_first(&chars, &marker) {
        None => {
            return Err(PidParseError::MissingMarker);
        },
        Some(at) => at,
    };
    proof {
        assert(marker@ == pid_marker());
        let chosen = choose|i: int| is_first_occurrence(line@, pid_marker(), i);
        lemma_first_occurrence_unique(line@, pid_marker(), at as int, chosen);
    }
    let total = chars.len();
    assert(occurs_at(chars@, marker@, at as int) && total == chars@.len());
    let start = at + marker.len();
    let ghost s = chars@;
    let mut run: Vec<char> = Vec::new();
    let mut k: usize = start;
    while k < chars.len() && '0' <= chars[k] && chars[k] <= '9'
        invariant
            start <= k <= chars@.len(),
            s == chars@,
            digit_run_len(s, start as int) == (k - start) + digit_run_len(s, k as int),
            run@ == s.subrange(start as int, k as int),
        decreases chars@.len() - k,
    {
        proof {
            assert(digit_run_len(s, k as int) == 1 + digit_run_len(s, k + 1));
            assert(s.subrange(start as int, k + 1) =~= s.subrange(start as int, k as int).push(
                s[k as int],
            ));
        }
        run.push(chars[k]);
        k = k + 1;
    }
    proof {
        assert(digit_run_len(s, k as int) == 0);
        lemma_run_is_digits(s, start as int);
    }
    let next_is_decimal = k < chars.len() && is_unicode_decimal(chars[k]);
    read_pid_digits(&run, next_is_decimal)
}

proof fn lemma_run_is_digits(s: Seq<char>, start: int)
    requires
        0 <= start,
    ensures
        start + digit_run_len(s, start) <= s.len() || digit_run_len(s, start) == 0,
        forall|m: int|
            start <= m < start + digit_run_len(s, start) ==> is_ascii_digit(#[trigger] s[m]),
        forall|m: int|
            0 <= m < digit_run_len(s, start) ==> is_ascii_digit(
                #[trigger] s.subrange(start, start + digit_run_len(s, start))[m],
            ),
    decreases s.len() - start,
{
    if 0 <= start < s.len() && is_ascii_digit(s[start]) {
        lemma_run_is_digits(s, start + 1);
    }
}

/// The kill lines of one kernel-log read, keyed by their exact text. They
/// are kept in a `Vec` searched in full: a poll holds few of them, and
/// Verus proves nothing of a hash map keyed by `String`.
pub struct SeenKills {
    lines: Vec<String>,
}

/// The lines of `lines` that `seen` does not hold, in order.
pub open spec fn unseen_lines(lines: Seq<Seq<char>>, seen: Set<Seq<char>>) -> Seq<Seq<char>> {
    lines.filter(|l: Seq<char>| !seen.contains(l))
}

impl SeenKills {
    /// The texts of the lines held.
    pub closed spec fn view(&self) -> Set<Seq<char>> {
        string_views(self.lines@).to_set()
    }

    /// A set that holds no line.
    pub fn new() -> (r: SeenKills)
        ensures
            r@ == Set::<Seq<char>>::empty(),
    {
        let r = SeenKills { lines: Vec::new() };
        assert(r@ =~= Set::<Seq<char>>::empty());
        r
    }

    /// The set of the texts of `lines`.
    pub fn from_lines(lines: Vec<String>) -> (r: SeenKills)
        ensures
            r@ == string_views(lines@).to_set(),
    {
        SeenKills { lines }
    }

    /// Whether a line with the text of `line` is held.
    pub fn contains(&self, line: &String) -> (r: bool)
        ensures
            r == self@.contains(line@),
    {
        let n = self.lines.len();
        let mut i: usize = 0;
        while i < n
            invariant
                n == self.lines@.len(),
                i <= n,
                forall|j: int| 0 <= j < i ==> self.lines@[j]@ != line@,
            decreases n - i,
        {
            if self.lines[i] == *line {
                assert(string_views(self.lines@)[i as int] == line@);
                return true;
            }
            i = i + 1;
        }
        assert(!string_views(self.lines@).contains(line@));
        false
    }
}

/// Splits the kill lines of one read into those not seen in the previous
/// read, in order, and the set of all of them, which replaces the previous
/// set: a line that has left the log is forgotten.
pub fn classify(lines: Vec<String>, previously_seen: &SeenKills) -> (r: (Vec<String>, SeenKills))
    ensures
        string_views(r.0@) == unseen_lines(string_views(lines@), previously_seen@),
        r.1@ == string_views(lines@).to_set(),
{
    let mut fresh: Vec<String> = Vec::new();
    let n = lines.len();
    let mut i: usize = 0;
    while i < n
        invariant
            n == lines@.len(),
            i <= n,
            string_views(fresh@) == unseen_lines(string_views(lines@.take(i as int)), previously_seen@),
        decreases n - i,
    {
        let ghost before = fresh@;
        let line = &lines[i];
        if !previously_seen.contains(line) {
            fresh.push(line.clone());
        }
        proof {
            let pred = |l: Seq<char>| !previously_seen@.contains(l);
            assert(string_views(lines@.take(i + 1)) =~= string_views(lines@.take(i as int)).push(
                lines@[i as int]@,
            ));
            lemma_filter_push(string_views(lines@.take(i as int)), lines@[i as int]@, pred);
            assert(string_views(fresh@) =~= if pred(lines@[i as int]@) {
                string_views(before).push(lines@[i as int]@)
            } else {
                string_views(before)
            });
        }
        i = i + 1;
    }
    assert(lines@.take(n as int) =~= lines@);
    (fresh, SeenKills::from_lines(lines))
}

/// A kill line is new at a poll exactly when the poll's log holds it and
/// the log of the previous successful poll did not: lines seen earlier than
/// that play no part, so a line that left the log and comes back is new
/// again.
pub proof fn lemma_new_iff_absent_from_previous_poll(
    previous_log: Seq<char>,
    log: Seq<char>,
    line: Seq<char>,
)
    ensures
        unseen_lines(kill_lines(log), kill_lines(previous_log).to_set()).contains(line) <==> (
        kill_lines(log).contains(line) && !kill_lines(previous_log).contains(line)),
{
    let seen = kill_lines(previous_log).to_set();
    let pred = |l: Seq<char>| !seen.contains(l);
    let now = kill_lines(log);
    if now.filter(pred).contains(line) {
        now.lemma_filter_contains_rev(pred, line);
    }
    if now.contains(line) && !kill_lines(previous_log).contains(line) {
        let k = choose|k: int| 0 <= k < now.len() && now[k] == line;
        now.lemma_filter_contains(pred, k);
    }
}

} // verus!
