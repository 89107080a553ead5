//! What is read out of Factorio's benchmark log: the game version, the
//! texts of the timing lines and the allocator statistics.

use crate::common::error::{lines, lines_of, BenchmarkError, BenchmarkErrorKind};
use crate::common::output::csv_data::{parse_u32, u32_of};
use crate::common::text::{
    chars_of, contains_str, has_substring, is_whitespace, is_ws, last_occurrence, rfind_str, string_of, string_of_range,
    trim_start,
};
use vstd::prelude::*;

verus! {

/// The allocator statistics mimalloc prints at exit, as printed.
#[derive(Debug, Clone)]
pub struct MimallocStats {
    pub committed_peak: String,
    pub peak_rss: String,
    pub reserved_peak: String,
    pub committed_current: String,
    pub reserved_current: String,
    pub pages_current: String,
    pub pages_status: String,
    pub abandoned_current: String,
    pub abandoned_status: String,
    pub threads_peak: u32,
    pub threads_total: u32,
    pub mmaps: String,
    pub purges: String,
    pub resets: String,
    pub commit_efficiency: String,
    pub thread_churn: u32,
}

/// The index of the first white-space character of `s`, or its length.
pub open spec fn word_end(s: Seq<char>) -> int
    decreases s.len(),
{
    if s.len() == 0 {
        0
    } else if is_ws(s[0]) {
        0
    } else {
        1 + word_end(s.drop_first())
    }
}

pub proof fn lemma_word_end(s: Seq<char>)
    ensures
        0 <= word_end(s) <= s.len(),
        forall|i: int| 0 <= i < word_end(s) ==> !is_ws(#[trigger] s[i]),
        word_end(s) < s.len() ==> is_ws(s[word_end(s)]),
    decreases s.len(),
{
    if s.len() > 0 {
        lemma_word_end(s.drop_first());
        assert forall|i: int| 0 <= i < word_end(s) implies !is_ws(#[trigger] s[i]) by {
            if i > 0 {
                assert(s[i] == s.drop_first()[i - 1]);
            }
        }
    }
}

pub proof fn lemma_trim_start(s: Seq<char>)
    ensures
        trim_start(s).len() <= s.len(),
        trim_start(s).len() > 0 ==> !is_ws(trim_start(s)[0]),
        exists|k: int| 0 <= k <= s.len() && trim_start(s) == s.skip(k) && forall|i: int| 0 <= i < k ==> is_ws(#[trigger] s[i]),
    decreases s.len(),
{
    if s.len() > 0 && is_ws(s[0]) {
        lemma_trim_start(s.drop_first());
        let k = choose|k: int| 0 <= k <= s.drop_first().len() && trim_start(s.drop_first()) == s.drop_first().skip(k)
            && forall|i: int| 0 <= i < k ==> is_ws(#[trigger] s.drop_first()[i]);
        assert(s.drop_first().skip(k) =~= s.skip(k + 1));
        assert forall|i: int| 0 <= i < k + 1 implies is_ws(#[trigger] s[i]) by {
            if i > 0 {
                assert(s[i] == s.drop_first()[i - 1]);
            }
        }
    } else {
        assert(s.skip(0) =~= s);
    }
}

/// `str::split_whitespace`: the maximal runs of characters that are not
/// white space.
pub open spec fn words(s: Seq<char>) -> Seq<Seq<char>>
    decreases s.len(),
{
    let t = trim_start(s);
    if t.len() == 0 {
        Seq::empty()
    } else {
        proof {
            lemma_trim_start(s);
            lemma_word_end(t);
        }
        let e = word_end(t);
        if e == 0 {
            Seq::empty()
        } else {
            seq![t.take(e)] + words(t.skip(e))
        }
    }
}

/// The version Factorio reports: the fifth word of the first line naming
/// Factorio and its build, `unknown` when there is none.
pub open spec fn factorio_version_of(log: Seq<char>) -> Seq<char> {
    let ls = lines_of(log);
    if exists|i: int| 0 <= i < ls.len() && is_version_line(#[trigger] ls[i]) {
        let i = choose|i: int| 0 <= i < ls.len() && is_version_line(ls[i]) && forall|j: int| 0 <= j < i ==> !is_version_line(#[trigger] ls[j]);
        let w = words(ls[i]);
        if w.len() > 4 {
            w[4]
        } else {
            "unknown"@
        }
    } else {
        "unknown"@
    }
}

/// A line naming Factorio and its build.
pub open spec fn is_version_line(l: Seq<char>) -> bool {
    has_substring(l, "Factorio"@) && has_substring(l, "(build"@)
}

/// The words of a string.
pub fn split_whitespace(s: &str) -> (r: Vec<String>)
    ensures
        r@.map_values(|w: String| w@) == words(s@),
{
    let cs = chars_of(s);
    let n = cs.len();
    let mut out: Vec<String> = Vec::new();
    let mut i: usize = 0;
    proof {
        assert(cs@.skip(0) =~= cs@);
        assert(out@.map_values(|w: String| w@) + words(cs@) =~= words(cs@));
    }
    while i < n
        invariant
            i <= n,
            n == cs@.len(),
            cs@ == s@,
            words(s@) == out@.map_values(|w: String| w@) + words(cs@.skip(i as int)),
        ensures
            words(s@) == out@.map_values(|w: String| w@),
        decreases n - i,
    {
        let ghost rest = cs@.skip(i as int);
        let start = i;
        while i < n && is_whitespace(cs[i])
            invariant
                start <= i <= n,
                n == cs@.len(),
                rest == cs@.skip(start as int),
                trim_start(rest) == trim_start(cs@.skip(i as int)),
            decreases n - i,
        {
            proof {
                assert(cs@.skip(i as int).drop_first() =~= cs@.skip(i + 1));
            }
            i += 1;
        }
        proof {
            assert(trim_start(cs@.skip(i as int)) == cs@.skip(i as int));
        }
        if i == n {
            proof {
                assert(cs@.skip(i as int).len() == 0);
                assert(words(rest) =~= Seq::<Seq<char>>::empty());
                assert(cs@.skip(n as int) =~= Seq::<char>::empty());
                assert(words(cs@.skip(n as int)) =~= Seq::<Seq<char>>::empty());
                assert(out@.map_values(|w: String| w@) + words(rest) =~= out@.map_values(|w: String| w@));
            }
            break;
        }
        let word_start = i;
        let ghost t = cs@.skip(word_start as int);
        proof {
            lemma_word_end(t);
        }
        while i < n && !is_whitespace(cs[i])
            invariant
                word_start <= i <= n,
                n == cs@.len(),
                t == cs@.skip(word_start as int),
                i - word_start <= word_end(t),
                forall|k: int| 0 <= k < word_end(t) ==> !is_ws(#[trigger] t[k]),
                word_end(t) < t.len() ==> is_ws(t[word_end(t)]),
            decreases n - i,
        {
            assert(t[i - word_start] == cs@[i as int]);
            i += 1;
        }
        proof {
            if i < n {
                assert(t[i - word_start] == cs@[i as int]);
            }
            assert(i - word_start == word_end(t));
            assert(word_end(t) > 0) by {
                assert(!is_ws(t[0]));
            }
        }
        let w = string_of_range(&cs, word_start, i);
        let ghost before = out@.map_values(|x: String| x@);
        let ghost wv = w@;
        out.push(w);
        proof {
            assert(out@.map_values(|x: String| x@) =~= before.push(wv));
            assert(wv =~= t.take(word_end(t)));
            assert(t.skip(word_end(t)) =~= cs@.skip(i as int));
            assert(trim_start(rest) == t);
            assert(words(rest) == seq![wv] + words(cs@.skip(i as int)));
            assert(before + words(rest) =~= out@.map_values(|x: String| x@) + words(cs@.skip(i as int)));
            if i == n {
                assert(cs@.skip(n as int) =~= Seq::<char>::empty());
                assert(words(cs@.skip(n as int)) =~= Seq::<Seq<char>>::empty());
                assert(out@.map_values(|w: String| w@) + Seq::<Seq<char>>::empty() =~= out@.map_values(|w: String| w@));
            }
        }
    }
    out
}

/// The version Factorio reports in its log.
pub fn factorio_version(log: &str) -> (r: String)
    ensures
        r@ == factorio_version_of(log@),
{
    let ls = lines(log);
    let ghost lv = ls@.map_values(|l: String| l@);
    let mut i: usize = 0;
    while i < ls.len()
        invariant
            i <= ls@.len(),
            lv == ls@.map_values(|l: String| l@),
            lv == lines_of(log@),
            forall|j: int| 0 <= j < i ==> !is_version_line(#[trigger] lv[j]),
        decreases ls@.len() - i,
    {
        let l = ls[i].as_str();
        assert(lv[i as int] == l@);
        if contains_str(l, "Factorio") && contains_str(l, "(build") {
            let w = split_whitespace(l);
            proof {
                let k = choose|k: int| 0 <= k < lv.len() && is_version_line(lv[k]) && forall|j: int| 0 <= j < k ==> !is_version_line(#[trigger] lv[j]);
                if k < i {
                } else if k > i {
                    assert(!is_version_line(lv[i as int]));
                }
                assert(k == i);
            }
            if w.len() > 4 {
                return w[4].clone();
            }
            proof {
                reveal_strlit("unknown");
            }
            return "unknown".to_owned();
        }
        i += 1;
    }
    "unknown".to_owned()
}

// ---------------------------------------------------------------------------
// Timing lines and allocator statistics
// ---------------------------------------------------------------------------
/// What the pattern `^\s*Performed\s*(?P<ticks>[0-9]+)\s*updates\s*in\s*(?P<execution_time>[0-9]+(?:\.[0-9]+)?)\s*ms$`
/// captures of a line: the tick count and the execution time, as written.
pub uninterp spec fn performed_captures(line: Seq<char>) -> Option<(Seq<char>, Seq<char>)>;

/// What the pattern `^\s*avg:\s*(?P<avg>..)\s*ms,\s*min:\s*(?P<min>..)\s*ms,\s*max:\s*(?P<max>..)\s*ms\s*$`
/// (each number `[0-9]+(?:\.[0-9]+)?`) captures of a line: the average,
/// minimum and maximum frame times, as written.
pub uninterp spec fn ms_captures(line: Seq<char>) -> Option<(Seq<char>, Seq<char>, Seq<char>)>;

/// What the pattern of mimalloc's `heap stats:` block captures of a text,
/// in this order: committed peak, peak RSS, reserved peak, committed
/// current, reserved current, pages current, pages status, abandoned
/// current, abandoned status, threads peak, threads total, threads current,
/// mmaps, purges, resets.
pub uninterp spec fn mimalloc_captures(text: Seq<char>) -> Option<Seq<Seq<char>>>;

/// `regex::Regex::captures` with the `Performed` pattern, giving its two
/// captures as strings.
#[verifier::external_body]
fn performed_match(line: &str) -> (r: Option<(String, String)>)
    ensures
        match r {
            Some((t, x)) => performed_captures(line@) == Some((t@, x@)),
            None => performed_captures(line@) is None,
        },
{
    let re = regex::Regex::new(
        r"^\s*Performed\s*(?P<ticks>[0-9]+)\s*updates\s*in\s*(?P<execution_time>[0-9]+(?:\.[0-9]+)?)\s*ms$",
    ).expect("the pattern is valid");
    match re.captures(line) {
        Some(c) => Some((c["ticks"].to_string(), c["execution_time"].to_string())),
        None => None,
    }
}

/// `regex::Regex::captures` with the frame-time pattern, giving its three
/// captures as strings.
#[verifier::external_body]
fn ms_match(line: &str) -> (r: Option<(String, String, String)>)
    ensures
        match r {
            Some((a, b, c)) => ms_captures(line@) == Some((a@, b@, c@)),
            None => ms_captures(line@) is None,
        },
{
    let re = regex::Regex::new(
        r"^\s*avg:\s*(?P<avg>[0-9]+(?:\.[0-9]+)?)\s*ms,\s*min:\s*(?P<min>[0-9]+(?:\.[0-9]+)?)\s*ms,\s*max:\s*(?P<max>[0-9]+(?:\.[0-9]+)?)\s*ms\s*$",
    ).expect("the pattern is valid");
    match re.captures(line) {
        Some(c) => Some((c["avg"].to_string(), c["min"].to_string(), c["max"].to_string())),
        None => None,
    }
}

/// `regex::Regex::captures` with the pattern of mimalloc's `heap stats:`
/// block, giving its fifteen captures as strings in the order that
/// [`mimalloc_captures`] lists.
#[verifier::external_body]
fn mimalloc_match(text: &str) -> (r: Option<Vec<String>>)
    ensures
        match r {
            Some(v) => mimalloc_captures(text@) == Some(v@.map_values(|s: String| s@)) && v@.len() == 15,
            None => mimalloc_captures(text@) is None,
        },
{
    let re = regex::Regex::new(
        r"heap\sstats:\s*peak\s*total\s*current\s*block\s*total#\s*reserved:\s*(?P<reserved_peak>(?:\d+)(?:\.\d+\s[[:alpha:]]{2,3})?)\s*(?P<reserved_total>(?:\d+)(?:\.\d+\s[[:alpha:]]{2,3})?)\s*(?P<reserved_current>(?:\d+)(?:\.\d+\s[[:alpha:]]{2,3})?)\s*committed:\s*(?P<committed_peak>(?:\d+)(?:\.\d+\s[[:alpha:]]{2,3})?)\s*(?P<committed_total>(?:\d+)(?:\.\d+\s[[:alpha:]]{2,3})?)\s*(?P<committed_current>(?:\d+)(?:\.\d+\s[[:alpha:]]{2,3})?)\s*reset:\s*(?:\d+)\s*purged:\s*(?:\d+)\s*touched:\s*(?P<touched_peak>(?:\d+)(?:\.\d+\s[[:alpha:]]{2,3})?)\s*(?P<touched_total>(?:\d+)(?:\.\d+\s[[:alpha:]]{2,3})?)\s*(?P<touched_current>(?:\d+)(?:\.\d+\s[[:alpha:]]{2,3})?)\s*(?P<touched_status>(?:[[:alpha:]]+[[:blank:]]?)*)\s*pages:\s*(?P<pages_peak>(?:\d+)(?:\.\d+\s[[:alpha:]]{2,3})?)\s*(?P<pages_total>(?:\d+)(?:\.\d+\s[[:alpha:]]{2,3})?)\s*(?P<pages_current>(?:\d+)(?:\.\d+\s[[:alpha:]]{2,3})?)\s*(?P<pages_status>(?:[[:alpha:]]+[[:blank:]]?)*)\s*-abandoned:\s*(?P<abandoned_peak>(?:\d+)(?:\.\d+\s[[:alpha:]]{2,3})?)\s*(?P<abandoned_total>(?:\d+)(?:\.\d+\s[[:alpha:]]{2,3})?)\s*(?P<abandoned_current>(?:\d+)(?:\.\d+\s[[:alpha:]]{2,3})?)\s*(?P<abandoned_status>(?:[[:alpha:]]+[[:blank:]]?)*).*\n.*\n.*\n.*\n.*\n.*\n.*\n.*\n.*\n\s*mmaps:\s*(?P<mmaps>\d+)\s*commits:\s*(?P<commits>\d+)\s*resets:\s*(?P<resets>\d+)\s*purges:\s*(?P<purges>\d+).*\n.*\s*threads:\s*(?P<threads_peak>(?:\d+)(?:\.\d+\s[[:alpha:]]{2,3})?)\s*(?P<threads_total>(?:\d+)(?:\.\d+\s[[:alpha:]]{2,3})?)\s*(?P<threads_current>(?:\d+)(?:\.\d+\s[[:alpha:]]{2,3})?)\s*(?P<threads_status>(?:[[:alpha:]]+[[:blank:]]?)*)\n.*\n.*\n.*\n.*peak rss:\s(?P<rss_peak>(?:\d+)(?:\.\d+\s[[:alpha:]]{2,3})?).*",
    ).expect("the pattern is valid");
    let names = [
        "committed_peak", "rss_peak", "reserved_peak", "committed_current", "reserved_current", "pages_current",
        "pages_status", "abandoned_current", "abandoned_status", "threads_peak", "threads_total", "threads_current",
        "mmaps", "purges", "resets",
    ];
    match re.captures(text) {
        Some(c) => Some(names.iter().map(|n| c[*n].to_string()).collect()),
        None => None,
    }
}

/// The threads that came and went: the peak thread count above the current
/// one, or none.
pub open spec fn churn_of(peak: u32, current: u32) -> u32 {
    if peak >= current {
        (peak - current) as u32
    } else {
        0
    }
}

/// The thread churn that the report shows: `threads peak - threads
/// current`, and 0 when more threads remain than the peak.
pub fn thread_churn(peak: u32, current: u32) -> (r: u32)
    ensures
        r == churn_of(peak, current),
{
    if peak >= current {
        peak - current
    } else {
        0
    }
}

/// The tick count and execution-time text of the last `Performed` line
/// and the frame-time texts of the last frame-time line, from line `i` on,
/// after `p` and `m` read before it. A tick count that is no `u32` is the
/// error, with its text.
pub open spec fn scan_lines(
    ls: Seq<Seq<char>>,
    i: int,
    p: Option<(u32, Seq<char>)>,
    m: Option<(Seq<char>, Seq<char>, Seq<char>)>,
) -> Result<(Option<(u32, Seq<char>)>, Option<(Seq<char>, Seq<char>, Seq<char>)>), Seq<char>>
    decreases ls.len() - i,
{
    if i < 0 || i >= ls.len() {
        Ok((p, m))
    } else {
        let line = ls[i];
        let m2 = match ms_captures(line) {
            Some(c) => Some(c),
            None => m,
        };
        match performed_captures(line) {
            Some((t, x)) => match u32_of(t) {
                Ok(n) => scan_lines(ls, i + 1, Some((n, x)), m2),
                Err(_) => Err(t),
            },
            None => scan_lines(ls, i + 1, p, m2),
        }
    }
}

/// The allocator statistics of a log, as captured.
pub struct HeapModel {
    pub texts: Seq<Seq<char>>,
    pub threads_peak: u32,
    pub threads_total: u32,
    pub thread_churn: u32,
}

/// The statistics of the last `heap stats:` block, read from where it
/// starts; `None` where there is none or the block does not match. A thread
/// count that is no `u32` is the error, with the capture's name and text.
pub open spec fn heap_of(log: Seq<char>) -> Result<Option<HeapModel>, (Seq<char>, Seq<char>)> {
    match last_occurrence(log, "heap stats:"@) {
        None => Ok(None),
        Some(start) => match mimalloc_captures(log.skip(start)) {
            None => Ok(None),
            Some(c) => match u32_of(c[9]) {
                Err(_) => Err(("threads_peak"@, c[9])),
                Ok(peak) => match u32_of(c[10]) {
                    Err(_) => Err(("threads_total"@, c[10])),
                    Ok(total) => match u32_of(c[11]) {
                        Err(_) => Err(("threads_current"@, c[11])),
                        Ok(current) => Ok(
                            Some(
                                HeapModel {
                                    texts: c,
                                    threads_peak: peak,
                                    threads_total: total,
                                    thread_churn: churn_of(peak, current),
                                },
                            ),
                        ),
                    },
                },
            },
        },
    }
}

/// What a benchmark log gives: the version, the last timing lines and the
/// allocator statistics.
pub struct LogModel {
    pub version: Seq<char>,
    pub performed: Option<(u32, Seq<char>)>,
    pub timings: Option<(Seq<char>, Seq<char>, Seq<char>)>,
    pub heap: Option<HeapModel>,
}

/// The fields of a benchmark log, or the field that could not be read and
/// its text.
pub open spec fn log_fields_of(log: Seq<char>) -> Result<LogModel, (Seq<char>, Seq<char>)> {
    match scan_lines(lines_of(log), 0, None, None) {
        Err(t) => Err(("ticks"@, t)),
        Ok((p, m)) => match heap_of(log) {
            Err(e) => Err(e),
            Ok(h) => Ok(LogModel { version: factorio_version_of(log), performed: p, timings: m, heap: h }),
        },
    }
}

/// The allocator statistics of a log: the capture texts in the order that
/// [`mimalloc_captures`] lists, and the thread counts read from them.
#[derive(Debug)]
pub struct HeapStats {
    pub texts: Vec<String>,
    pub threads_peak: u32,
    pub threads_total: u32,
    pub thread_churn: u32,
}

impl View for HeapStats {
    type V = HeapModel;

    open spec fn view(&self) -> HeapModel {
        HeapModel {
            texts: self.texts@.map_values(|s: String| s@),
            threads_peak: self.threads_peak,
            threads_total: self.threads_total,
            thread_churn: self.thread_churn,
        }
    }
}

/// What a benchmark log gives, as written in it.
#[derive(Debug)]
pub struct LogFields {
    /// The game version.
    pub version: String,
    /// The ticks and execution-time text of the last `Performed` line.
    pub performed: Option<(u32, String)>,
    /// The average, minimum and maximum frame-time texts of the last
    /// frame-time line.
    pub timings: Option<(String, String, String)>,
    /// The statistics of the last `heap stats:` block.
    pub heap: Option<HeapStats>,
}

pub open spec fn performed_view(p: Option<(u32, String)>) -> Option<(u32, Seq<char>)> {
    match p {
        Some((n, x)) => Some((n, x@)),
        None => None,
    }
}

pub open spec fn timings_view(m: Option<(String, String, String)>) -> Option<(Seq<char>, Seq<char>, Seq<char>)> {
    match m {
        Some((a, b, c)) => Some((a@, b@, c@)),
        None => None,
    }
}

impl View for LogFields {
    type V = LogModel;

    open spec fn view(&self) -> LogModel {
        LogModel {
            version: self.version@,
            performed: performed_view(self.performed),
            timings: timings_view(self.timings),
            heap: match self.heap {
                Some(h) => Some(h@),
                None => None,
            },
        }
    }
}

/// Whether `e` is the error of a malformed `field` written as `text`.
pub open spec fn is_malformed(e: BenchmarkError, field: Seq<char>, text: Seq<char>) -> bool {
    &&& match *e.kind {
        BenchmarkErrorKind::MalformedBenchmarkOutput { field: f, string: s } => f@ == field && s@ == text,
        _ => false,
    }
    &&& e.hint is None
    &&& e.process_output is None
}

fn malformed(field: &str, text: String) -> (r: BenchmarkError)
    ensures
        is_malformed(r, field@, text@),
{
    let f = string_of(chars_of(field).as_slice());
    BenchmarkError::from(BenchmarkErrorKind::MalformedBenchmarkOutput { field: f, string: text })
}

fn heap_stats(log: &str) -> (r: Result<Option<HeapStats>, BenchmarkError>)
    ensures
        match r {
            Ok(h) => heap_of(log@) == Ok::<Option<HeapModel>, (Seq<char>, Seq<char>)>(
                match h {
                    Some(x) => Some(x@),
                    None => None,
                },
            ),
            Err(e) => heap_of(log@) matches Err((f, t)) && is_malformed(e, f, t),
        },
{
    let start = match rfind_str(log, "heap stats:") {
        Some(s) => s,
        None => return Ok(None),
    };
    let cs = chars_of(log);
    proof {
        assert(start + "heap stats:"@.len() <= log@.len());
    }
    let text = string_of_range(cs.as_slice(), start, cs.len());
    proof {
        assert(text@ == log@.skip(start as int));
    }
    let c = match mimalloc_match(text.as_str()) {
        Some(c) => c,
        None => return Ok(None),
    };
    let ghost cv = c@.map_values(|s: String| s@);
    assert(cv[9] == c@[9]@ && cv[10] == c@[10]@ && cv[11] == c@[11]@);
    let peak = match parse_u32(c[9].as_str()) {
        Ok(n) => n,
        Err(_) => return Err(malformed("threads_peak", c[9].clone())),
    };
    let total = match parse_u32(c[10].as_str()) {
        Ok(n) => n,
        Err(_) => return Err(malformed("threads_total", c[10].clone())),
    };
    let current = match parse_u32(c[11].as_str()) {
        Ok(n) => n,
        Err(_) => return Err(malformed("threads_current", c[11].clone())),
    };
    let churn = thread_churn(peak, current);
    Ok(Some(HeapStats { texts: c, threads_peak: peak, threads_total: total, thread_churn: churn }))
}

/// Reads a benchmark log: the version, the tick count and execution time
/// of the last `Performed` line, the frame times of the last frame-time
/// line and the statistics of the last `heap stats:` block, each as
/// written; a count that is no `u32` is the error.
pub fn benchmark_log_fields(log: &str) -> (r: Result<LogFields, BenchmarkError>)
    ensures
        match r {
            Ok(f) => log_fields_of(log@) == Ok::<LogModel, (Seq<char>, Seq<char>)>(f@),
            Err(e) => log_fields_of(log@) matches Err((f, t)) && is_malformed(e, f, t),
        },
{
    let version = factorio_version(log);
    let ls = lines(log);
    let ghost lv = ls@.map_values(|l: String| l@);
    let mut performed: Option<(u32, String)> = None;
    let mut timings: Option<(String, String, String)> = None;
    let mut i: usize = 0;
    while i < ls.len()
        invariant
            i <= ls@.len(),
            lv == ls@.map_values(|l: String| l@),
            lv == lines_of(log@),
            scan_lines(lv, 0, None, None) == scan_lines(lv, i as int, performed_view(performed), timings_view(timings)),
        decreases ls@.len() - i,
    {
        let line = ls[i].as_str();
        assert(lv[i as int] == line@);
        match ms_match(line) {
            Some(c) => timings = Some(c),
            None => {},
        }
        match performed_match(line) {
            Some((t, x)) => match parse_u32(t.as_str()) {
                Ok(n) => performed = Some((n, x)),
                Err(_) => return Err(malformed("ticks", t)),
            },
            None => {},
        }
        i += 1;
    }
    let heap = match heap_stats(log) {
        Ok(h) => h,
        Err(e) => return Err(e),
    };
    Ok(LogFields { version, performed, timings, heap })
}

} // verus!
