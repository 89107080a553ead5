//! The CSV files results are written to: the run indexes that appended
//! results continue from, the check of an existing file's header, and the
//! rows of the per-tick metrics file.

use crate::benchmark::runner::VerboseData;
use crate::common::error::{BenchmarkError, BenchmarkErrorKind};
use crate::common::text::{
    append_str, chars_of, decimal, string_of_range, trim_start_char, trim_start_matches_char, u64_text,
};
use vstd::prelude::*;

verus! {

/// Writes results as CSV.
#[derive(Debug)]
pub struct CsvWriter {}

impl CsvWriter {
    /// A CSV writer.
    pub fn new() -> (r: Self) {
        CsvWriter {}
    }
}

// ---------------------------------------------------------------------------
// Integers in CSV cells
// ---------------------------------------------------------------------------
/// Why a cell is not a `u32`, as `u32::from_str` reports it.
#[derive(Debug, Clone, Copy, PartialEq, Eq)]
pub enum IntError {
    Empty,
    InvalidDigit,
    PosOverflow,
}

/// The message `ParseIntError` shows for each kind.
pub open spec fn int_error_text(e: IntError) -> Seq<char> {
    match e {
        IntError::Empty => "cannot parse integer from empty string"@,
        IntError::InvalidDigit => "invalid digit found in string"@,
        IntError::PosOverflow => "number too large to fit in target type"@,
    }
}

/// Whether `c` is an ASCII digit.
pub open spec fn is_digit(c: char) -> bool {
    '0' <= c <= '9'
}

/// Reading digits left to right onto `acc`: the first character that is no
/// digit, or the first digit that takes the value past `u32::MAX`, is the
/// error.
pub open spec fn digits_onto(d: Seq<char>, acc: nat) -> Result<nat, IntError>
    decreases d.len(),
{
    if d.len() == 0 {
        Ok(acc)
    } else if !is_digit(d[0]) {
        Err(IntError::InvalidDigit)
    } else {
        let next = acc * 10 + ((d[0] as u32) - 48);
        if next > u32::MAX {
            Err(IntError::PosOverflow)
        } else {
            digits_onto(d.drop_first(), next as nat)
        }
    }
}

/// `u32::from_str`: an optional `+`, then one or more decimal digits.
pub open spec fn u32_of(s: Seq<char>) -> Result<u32, IntError> {
    if s.len() == 0 {
        Err(IntError::Empty)
    } else {
        let d = if s[0] == '+' {
            s.drop_first()
        } else {
            s
        };
        if d.len() == 0 {
            Err(IntError::InvalidDigit)
        } else {
            match digits_onto(d, 0) {
                Ok(v) => Ok(v as u32),
                Err(e) => Err(e),
            }
        }
    }
}

proof fn lemma_digits_onto_bound(d: Seq<char>, acc: nat)
    requires
        acc <= u32::MAX,
    ensures
        digits_onto(d, acc) matches Ok(v) ==> v <= u32::MAX,
    decreases d.len(),
{
    if d.len() > 0 && is_digit(d[0]) {
        let next = acc * 10 + ((d[0] as u32) - 48);
        if next <= u32::MAX {
            lemma_digits_onto_bound(d.drop_first(), next as nat);
        }
    }
}

/// Parses a `u32` as `u32::from_str` does.
pub fn parse_u32(s: &str) -> (r: Result<u32, IntError>)
    ensures
        r == u32_of(s@),
{
    let cs = chars_of(s);
    if cs.len() == 0 {
        return Err(IntError::Empty);
    }
    let start: usize = if cs[0] == '+' {
        1
    } else {
        0
    };
    if start == cs.len() {
        return Err(IntError::InvalidDigit);
    }
    let ghost d = cs@.skip(start as int);
    proof {
        if start == 1 {
            assert(d =~= s@.drop_first());
        } else {
            assert(d =~= s@);
        }
    }
    let mut acc: u32 = 0;
    let mut i: usize = start;
    proof {
        assert(cs@.skip(start as int) =~= d);
    }
    while i < cs.len()
        invariant
            start <= i <= cs@.len(),
            cs@ == s@,
            d == cs@.skip(start as int),
            d.len() > 0,
            u32_of(s@) == match digits_onto(d, 0) {
                Ok(v) => Ok(v as u32),
                Err(e) => Err(e),
            },
            digits_onto(d, 0) == digits_onto(cs@.skip(i as int), acc as nat),
        decreases cs@.len() - i,
    {
        let c = cs[i];
        proof {
            assert(cs@.skip(i as int)[0] == c);
            assert(cs@.skip(i as int).drop_first() =~= cs@.skip(i + 1));
        }
        if !('0' <= c && c <= '9') {
            return Err(IntError::InvalidDigit);
        }
        let digit = (c as u32) - 48;
        if acc > 429496729 || (acc == 429496729 && digit > 5) {
            return Err(IntError::PosOverflow);
        }
        acc = acc * 10 + digit;
        i += 1;
    }
    proof {
        assert(cs@.skip(i as int).len() == 0);
        lemma_digits_onto_bound(d, 0);
    }
    Ok(acc)
}

/// The error of a cell that is not a run index.
pub fn int_error(e: IntError) -> (r: BenchmarkError)
    ensures
        r.hint is None,
        r.process_output is None,
        *r.kind matches BenchmarkErrorKind::ParseIntError(m) && m@ == int_error_text(e),
{
    let m = match e {
        IntError::Empty => "cannot parse integer from empty string",
        IntError::InvalidDigit => "invalid digit found in string",
        IntError::PosOverflow => "number too large to fit in target type",
    };
    BenchmarkError::from(BenchmarkErrorKind::ParseIntError(m.to_owned()))
}

// ---------------------------------------------------------------------------
// Continuing run indexes
// ---------------------------------------------------------------------------
/// The cells of rows as character sequences.
pub open spec fn cells_view(rows: Seq<Vec<String>>) -> Seq<Seq<Seq<char>>> {
    rows.map_values(|r: Vec<String>| r@.map_values(|c: String| c@))
}

/// The cell at `i` of a row, or `default` when the row is shorter.
pub open spec fn cell_or(row: Seq<Seq<char>>, i: int, default: Seq<char>) -> Seq<char> {
    if i < row.len() {
        row[i]
    } else {
        default
    }
}

/// The run index of a CSV row: its second cell, `0` when it has none.
pub open spec fn row_run_index(row: Seq<Seq<char>>) -> Result<u32, IntError> {
    u32_of(cell_or(row, 1, "0"@))
}

/// The save of a row of `results.csv`: its first cell, empty when it has
/// none.
pub open spec fn row_save(row: Seq<Seq<char>>) -> Seq<char> {
    cell_or(row, 0, Seq::empty())
}

/// The run indexes of rows, or the error of the first that does not parse.
pub open spec fn run_indexes_of(rows: Seq<Seq<Seq<char>>>) -> Result<Seq<u32>, IntError>
    decreases rows.len(),
{
    if rows.len() == 0 {
        Ok(Seq::empty())
    } else {
        match run_indexes_of(rows.drop_last()) {
            Err(e) => Err(e),
            Ok(v) => match row_run_index(rows.last()) {
                Err(e) => Err(e),
                Ok(x) => Ok(v.push(x)),
            },
        }
    }
}

/// The run indexes of the rows of a CSV file, or the error of the first
/// that does not parse.
pub fn run_indexes(rows: &Vec<Vec<String>>) -> (r: Result<Vec<u32>, BenchmarkError>)
    ensures
        match r {
            Ok(v) => run_indexes_of(cells_view(rows@)) == Ok::<Seq<u32>, IntError>(v@),
            Err(e) => run_indexes_of(cells_view(rows@)) matches Err(k) && (*e.kind matches BenchmarkErrorKind::ParseIntError(m)
                && m@ == int_error_text(k)),
        },
{
    proof {
        reveal_strlit("0");
    }
    let ghost cv = cells_view(rows@);
    let mut out: Vec<u32> = Vec::new();
    let mut k: usize = 0;
    proof {
        assert(cv.take(0) =~= Seq::<Seq<Seq<char>>>::empty());
    }
    while k < rows.len()
        invariant
            k <= rows@.len(),
            cv == cells_view(rows@),
            run_indexes_of(cv.take(k as int)) == Ok::<Seq<u32>, IntError>(out@),
        decreases rows@.len() - k,
    {
        let row = &rows[k];
        let cell = if row.len() > 1 {
            row[1].as_str()
        } else {
            "0"
        };
        proof {
            assert(cv.take(k + 1).drop_last() =~= cv.take(k as int));
            assert(cv.take(k + 1).last() == cv[k as int]);
            assert(cell@ == cell_or(cv[k as int], 1, "0"@));
        }
        match parse_u32(cell) {
            Ok(x) => out.push(x),
            Err(e) => {
                proof {
                    lemma_run_indexes_prefix_err(cv, (k + 1) as int);
                }
                return Err(int_error(e));
            },
        }
        k += 1;
    }
    proof {
        assert(cv.take(k as int) =~= cv);
    }
    Ok(out)
}

proof fn lemma_run_indexes_prefix_err(rows: Seq<Seq<Seq<char>>>, n: int)
    requires
        0 <= n <= rows.len(),
        run_indexes_of(rows.take(n)) is Err,
    ensures
        run_indexes_of(rows) == run_indexes_of(rows.take(n)),
    decreases rows.len() - n,
{
    if n < rows.len() {
        assert(rows.take(n + 1).drop_last() =~= rows.take(n));
        lemma_run_indexes_prefix_err(rows, n + 1);
    } else {
        assert(rows.take(n) =~= rows);
    }
}

/// The largest run index among the rows of save `s`, if it has any.
pub open spec fn max_run_of(saves: Seq<Seq<char>>, idx: Seq<u32>, s: Seq<char>) -> Option<u32>
    decreases saves.len(),
{
    if saves.len() == 0 || idx.len() != saves.len() {
        None
    } else {
        let rest = max_run_of(saves.drop_last(), idx.drop_last(), s);
        if saves.last() == s {
            let v = idx.last();
            match rest {
                Some(m) => Some(if m >= v {
                    m
                } else {
                    v
                }),
                None => Some(v),
            }
        } else {
            rest
        }
    }
}

/// One entry for each save of the rows, each holding one past the save's
/// largest run index: the index its next run gets.
pub open spec fn next_indexes_correct(saves: Seq<Seq<char>>, idx: Seq<u32>, out: Seq<(Seq<char>, u32)>) -> bool {
    &&& forall|i: int, j: int| 0 <= i < j < out.len() ==> out[i].0 != out[j].0
    &&& forall|i: int|
        0 <= i < out.len() ==> (#[trigger] max_run_of(saves, idx, out[i].0) matches Some(m) && out[i].1 == m + 1)
    &&& forall|k: int| 0 <= k < saves.len() ==> exists|i: int| 0 <= i < out.len() && out[i].0 == #[trigger] saves[k]
}

/// The next run index of each save, from the save and run index of each
/// row of an existing `results.csv`.
pub fn next_benchmark_run_indexes(saves: &Vec<String>, indexes: &Vec<u32>) -> (r: Vec<(String, u32)>)
    requires
        saves@.len() == indexes@.len(),
        forall|k: int| 0 <= k < indexes@.len() ==> indexes@[k] < u32::MAX,
    ensures
        next_indexes_correct(
            saves@.map_values(|s: String| s@),
            indexes@,
            r@.map_values(|e: (String, u32)| (e.0@, e.1)),
        ),
{
    let ghost sv = saves@.map_values(|s: String| s@);
    let mut out: Vec<(String, u32)> = Vec::new();
    let mut k: usize = 0;
    while k < saves.len()
        invariant
            k <= saves@.len(),
            saves@.len() == indexes@.len(),
            sv == saves@.map_values(|s: String| s@),
            forall|q: int| 0 <= q < indexes@.len() ==> indexes@[q] < u32::MAX,
            next_indexes_correct(sv.take(k as int), indexes@.take(k as int), out@.map_values(|e: (String, u32)| (e.0@, e.1))),
        decreases saves@.len() - k,
    {
        let ghost ov = out@.map_values(|e: (String, u32)| (e.0@, e.1));
        let ghost st = sv.take(k as int);
        let ghost it = indexes@.take(k as int);
        let ghost st2 = sv.take(k + 1);
        let ghost it2 = indexes@.take(k + 1);
        let s = &saves[k];
        let v = indexes[k];
        proof {
            assert(st2.drop_last() =~= st);
            assert(it2.drop_last() =~= it);
            assert(st2.last() == s@);
            assert(it2.last() == v);
            assert forall|t: Seq<char>| t != s@ implies max_run_of(st2, it2, t) == max_run_of(st, it, t) by {}
        }
        let mut j: usize = 0;
        while j < out.len()
            invariant
                j <= out@.len(),
                ov == out@.map_values(|e: (String, u32)| (e.0@, e.1)),
                forall|q: int| 0 <= q < j ==> ov[q].0 != s@,
            ensures
                j <= out@.len(),
                j < out@.len() ==> ov[j as int].0 == s@,
                forall|q: int| 0 <= q < j ==> ov[q].0 != s@,
            decreases out@.len() - j,
        {
            if out[j].0 == *s {
                break;
            }
            j += 1;
        }
        if j < out.len() {
            let old_v = out[j].1;
            let nv = if old_v >= v + 1 {
                old_v
            } else {
                v + 1
            };
            let name = out[j].0.clone();
            let ghost before = out@;
            out.set(j, (name, nv));
            proof {
                let ov2 = out@.map_values(|e: (String, u32)| (e.0@, e.1));
                assert(out@ == before.update(j as int, (name, nv)));
                assert(name@ == s@);
                assert(ov2 =~= ov.update(j as int, (s@, nv)));
                assert forall|i: int| 0 <= i < ov2.len() implies (#[trigger] max_run_of(st2, it2, ov2[i].0) matches Some(m)
                    && ov2[i].1 == m + 1) by {
                    if i != j {
                        assert(ov2[i] == ov[i]);
                        assert(ov[i].0 != ov[j as int].0);
                    }
                }
                assert forall|q: int| 0 <= q < st2.len() implies exists|i: int| 0 <= i < ov2.len() && ov2[i].0 == #[trigger] st2[q] by {
                    if q < k {
                        assert(st[q] == st2[q]);
                        let i = choose|i: int| 0 <= i < ov.len() && ov[i].0 == st[q];
                        assert(ov2[i].0 == ov[i].0);
                    } else {
                        assert(ov2[j as int].0 == st2[q]);
                    }
                }
            }
        } else {
            out.push((s.clone(), v + 1));
            proof {
                let ov2 = out@.map_values(|e: (String, u32)| (e.0@, e.1));
                assert(ov2 =~= ov.push((s@, (v + 1) as u32)));
                assert(max_run_of(st, it, s@) is None) by {
                    if let Some(m) = max_run_of(st, it, s@) {
                        lemma_max_run_occurs(st, it, s@);
                        let q = choose|q: int| 0 <= q < st.len() && st[q] == s@;
                        let i = choose|i: int| 0 <= i < ov.len() && ov[i].0 == #[trigger] st[q];
                        assert(ov[i].0 != s@);
                    }
                }
                assert forall|i: int| 0 <= i < ov2.len() implies (#[trigger] max_run_of(st2, it2, ov2[i].0) matches Some(m)
                    && ov2[i].1 == m + 1) by {
                    if i < ov.len() {
                        assert(ov2[i] == ov[i]);
                    }
                }
                assert forall|q: int| 0 <= q < st2.len() implies exists|i: int| 0 <= i < ov2.len() && ov2[i].0 == #[trigger] st2[q] by {
                    if q < k {
                        assert(st[q] == st2[q]);
                        let i = choose|i: int| 0 <= i < ov.len() && ov[i].0 == st[q];
                        assert(ov2[i].0 == ov[i].0);
                    } else {
                        assert(ov2[ov.len() as int].0 == st2[q]);
                    }
                }
            }
        }
        k += 1;
    }
    proof {
        assert(sv.take(k as int) =~= sv);
        assert(indexes@.take(k as int) =~= indexes@);
    }
    out
}

proof fn lemma_max_run_occurs(saves: Seq<Seq<char>>, idx: Seq<u32>, s: Seq<char>)
    requires
        max_run_of(saves, idx, s) is Some,
    ensures
        exists|q: int| 0 <= q < saves.len() && saves[q] == s,
    decreases saves.len(),
{
    if saves.last() == s {
        assert(saves[saves.len() - 1] == s);
    } else {
        lemma_max_run_occurs(saves.drop_last(), idx.drop_last(), s);
        let q = choose|q: int| 0 <= q < saves.drop_last().len() && saves.drop_last()[q] == s;
        assert(saves[q] == s);
    }
}

/// The next run index of a save: one past its largest, 0 for a new save.
pub open spec fn next_index_of(next: Seq<(Seq<char>, u32)>, save: Seq<char>) -> u32
    decreases next.len(),
{
    if next.len() == 0 {
        0
    } else if next.last().0 == save {
        next.last().1
    } else {
        next_index_of(next.drop_last(), save)
    }
}

/// A run index moved past the runs a save already has.
pub fn offset_run_index(index: u32, save: &str, next: &Vec<(String, u32)>) -> (r: u32)
    requires
        index + next_index_of(next@.map_values(|e: (String, u32)| (e.0@, e.1)), save@) <= u32::MAX,
    ensures
        r == index + next_index_of(next@.map_values(|e: (String, u32)| (e.0@, e.1)), save@),
{
    let ghost nv = next@.map_values(|e: (String, u32)| (e.0@, e.1));
    let target = save.to_owned();
    let mut i: usize = next.len();
    proof {
        assert(nv.take(i as int) =~= nv);
    }
    while i > 0
        invariant
            i <= next@.len(),
            nv == next@.map_values(|e: (String, u32)| (e.0@, e.1)),
            target@ == save@,
            index + next_index_of(nv, save@) <= u32::MAX,
            next_index_of(nv, save@) == next_index_of(nv.take(i as int), save@),
        decreases i,
    {
        proof {
            assert(nv.take(i as int).last() == nv[i - 1]);
            assert(nv.take(i as int).drop_last() =~= nv.take(i - 1));
        }
        if next[i - 1].0 == target {
            return index + next[i - 1].1;
        }
        i -= 1;
    }
    index
}

/// The largest of some run indexes, if any.
pub open spec fn max_of(v: Seq<u32>) -> Option<u32>
    decreases v.len(),
{
    if v.len() == 0 {
        None
    } else {
        match max_of(v.drop_last()) {
            Some(m) => Some(if m >= v.last() {
                m
            } else {
                v.last()
            }),
            None => Some(v.last()),
        }
    }
}

/// The run number the first appended run of a per-tick metrics file gets:
/// one past the largest already there, 0 when there is none.
pub fn next_verbose_run_index(indexes: &Vec<u32>) -> (r: u32)
    requires
        forall|k: int| 0 <= k < indexes@.len() ==> indexes@[k] < u32::MAX,
    ensures
        r == match max_of(indexes@) {
            Some(m) => (m + 1) as u32,
            None => 0,
        },
{
    let mut best: Option<u32> = None;
    let mut k: usize = 0;
    proof {
        assert(indexes@.take(0) =~= Seq::<u32>::empty());
    }
    while k < indexes.len()
        invariant
            k <= indexes@.len(),
            forall|q: int| 0 <= q < indexes@.len() ==> indexes@[q] < u32::MAX,
            best == max_of(indexes@.take(k as int)),
            best matches Some(b) ==> b < u32::MAX,
        decreases indexes@.len() - k,
    {
        proof {
            assert(indexes@.take(k + 1).drop_last() =~= indexes@.take(k as int));
        }
        let x = indexes[k];
        best = match best {
            Some(b) => Some(if b >= x {
                b
            } else {
                x
            }),
            None => Some(x),
        };
        k += 1;
    }
    proof {
        assert(indexes@.take(k as int) =~= indexes@);
    }
    match best {
        Some(b) => b + 1,
        None => 0,
    }
}

// ---------------------------------------------------------------------------
// Headers
// ---------------------------------------------------------------------------
/// The header of `results.csv`.
pub open spec fn benchmark_header_of() -> Seq<Seq<char>> {
    seq![
        "save_name"@,
        "run_index"@,
        "execution_time_ms"@,
        "avg_ms"@,
        "min_ms"@,
        "max_ms"@,
        "effective_ups"@,
        "percentage_improvement"@,
        "ticks"@,
        "factorio_version"@,
        "platform"@,
    ]
}

/// The columns of `results.csv`, one per field of a results row and in its
/// order: the save, the run index, the execution time, the average, minimum
/// and maximum frame times, the effective UPS, the difference from the base
/// save, the ticks, the game version and the platform.
pub proof fn lemma_benchmark_header_columns()
    ensures
        benchmark_header_of().len() == 11,
        benchmark_header_of()[0] == "save_name"@,
        benchmark_header_of()[1] == "run_index"@,
        benchmark_header_of()[2] == "execution_time_ms"@,
        benchmark_header_of()[3] == "avg_ms"@,
        benchmark_header_of()[4] == "min_ms"@,
        benchmark_header_of()[5] == "max_ms"@,
        benchmark_header_of()[6] == "effective_ups"@,
        benchmark_header_of()[7] == "percentage_improvement"@,
        benchmark_header_of()[8] == "ticks"@,
        benchmark_header_of()[9] == "factorio_version"@,
        benchmark_header_of()[10] == "platform"@,
{
}

/// The columns of `cpu_freq.csv`: the save, the run index, the core, its
/// frequency and the time it was read.
pub proof fn lemma_cpu_freq_header_columns()
    ensures
        cpu_freq_header_of().len() == 5,
        cpu_freq_header_of()[0] == "save_name"@,
        cpu_freq_header_of()[1] == "run_index"@,
        cpu_freq_header_of()[2] == "core_index"@,
        cpu_freq_header_of()[3] == "cpu_frequency"@,
        cpu_freq_header_of()[4] == "timestamp"@,
{
}

/// The header of `cpu_freq.csv`.
pub open spec fn cpu_freq_header_of() -> Seq<Seq<char>> {
    seq!["save_name"@, "run_index"@, "core_index"@, "cpu_frequency"@, "timestamp"@]
}

fn strings_of(items: &[&str]) -> (r: Vec<String>)
    ensures
        r@.map_values(|s: String| s@) == items@.map_values(|s: &str| s@),
{
    let mut out: Vec<String> = Vec::new();
    let mut i: usize = 0;
    while i < items.len()
        invariant
            i <= items@.len(),
            out@.len() == i,
            forall|k: int| 0 <= k < i ==> (#[trigger] out@[k])@ == items@[k]@,
        decreases items@.len() - i,
    {
        out.push(items[i].to_owned());
        i += 1;
    }
    proof {
        assert(out@.map_values(|s: String| s@) =~= items@.map_values(|s: &str| s@));
    }
    out
}

/// The header of `results.csv`.
pub fn benchmark_header() -> (r: Vec<String>)
    ensures
        r@.map_values(|s: String| s@) == benchmark_header_of(),
{
    let items = [
        "save_name",
        "run_index",
        "execution_time_ms",
        "avg_ms",
        "min_ms",
        "max_ms",
        "effective_ups",
        "percentage_improvement",
        "ticks",
        "factorio_version",
        "platform",
    ];
    let r = strings_of(&items);
    proof {
        assert(r@.map_values(|s: String| s@) =~= benchmark_header_of());
    }
    r
}

/// The header of `cpu_freq.csv`.
pub fn cpu_freq_header() -> (r: Vec<String>)
    ensures
        r@.map_values(|s: String| s@) == cpu_freq_header_of(),
{
    let items = ["save_name", "run_index", "core_index", "cpu_frequency", "timestamp"];
    let r = strings_of(&items);
    proof {
        assert(r@.map_values(|s: String| s@) =~= cpu_freq_header_of());
    }
    r
}

/// The `Debug` text of a list of strings: `["a", "b"]` with each string
/// escaped.
pub uninterp spec fn debug_list(items: Seq<Seq<char>>) -> Seq<char>;

/// `format!("{:?}", items)` for a list of strings.
#[verifier::external_body]
fn debug_list_text(items: &Vec<String>) -> (r: String)
    ensures
        r@ == debug_list(items@.map_values(|s: String| s@)),
{
    format!("{:?}", items)
}

/// The message of a header that differs from the expected one.
pub open spec fn header_mismatch_text(path: Seq<char>, expected: Seq<Seq<char>>, actual: Seq<Seq<char>>) -> Seq<char> {
    "Cannot append to "@ + path + ": header mismatch. Expected "@ + debug_list(expected) + ", found "@
        + debug_list(actual)
}

/// Checks that the header of an existing file is the expected one before
/// rows are appended to it.
pub fn validate_csv_header(path: &str, actual: &Vec<String>, expected: &Vec<String>) -> (r: Result<(), BenchmarkError>)
    ensures
        actual@.map_values(|s: String| s@) == expected@.map_values(|s: String| s@) <==> r is Ok,
        r matches Err(e) ==> (*e.kind matches BenchmarkErrorKind::IoError(m) && m@ == header_mismatch_text(
            path@,
            expected@.map_values(|s: String| s@),
            actual@.map_values(|s: String| s@),
        )),
{
    let ghost a = actual@.map_values(|s: String| s@);
    let ghost x = expected@.map_values(|s: String| s@);
    let mut same = actual.len() == expected.len();
    let mut i: usize = 0;
    if !same {
        assert(a.len() != x.len());
    }
    while same && i < actual.len()
        invariant
            i <= actual@.len(),
            same ==> actual@.len() == expected@.len(),
            a == actual@.map_values(|s: String| s@),
            x == expected@.map_values(|s: String| s@),
            same ==> forall|q: int| 0 <= q < i ==> a[q] == x[q],
            !same ==> a != x,
        decreases actual@.len() - i,
    {
        if actual[i] != expected[i] {
            same = false;
            assert(a[i as int] != x[i as int]);
        }
        i += 1;
    }
    if same {
        assert(a =~= x);
        return Ok(());
    }
    let mut m = String::new();
    append_str(&mut m, "Cannot append to ");
    append_str(&mut m, path);
    append_str(&mut m, ": header mismatch. Expected ");
    let e = debug_list_text(expected);
    append_str(&mut m, e.as_str());
    append_str(&mut m, ", found ");
    let f = debug_list_text(actual);
    append_str(&mut m, f.as_str());
    Err(BenchmarkError::from(BenchmarkErrorKind::IoError(m)))
}

// ---------------------------------------------------------------------------
// Per-tick metrics
// ---------------------------------------------------------------------------
/// The header and records of a CSV text as read by the `csv` crate with a
/// header row and records of the header's length; `None` when it reports
/// an error.
pub uninterp spec fn csv_with_header(text: Seq<char>) -> Option<(Seq<Seq<char>>, Seq<Seq<Seq<char>>>)>;

/// `csv::Reader` with its default settings: the header row, then every
/// record as its cells.
#[verifier::external_body]
fn read_csv_with_header(text: &str) -> (r: Result<(Vec<String>, Vec<Vec<String>>), csv::Error>)
    ensures
        match r {
            Ok((h, recs)) => csv_with_header(text@) == Some((h@.map_values(|c: String| c@), cells_view(recs@))),
            Err(_) => csv_with_header(text@) is None,
        },
{
    let mut reader = csv::Reader::from_reader(text.as_bytes());
    let header = reader.headers()?.iter().map(|h| h.to_string()).collect::<Vec<String>>();
    let mut records = Vec::new();
    for record in reader.records() {
        let record = record?;
        records.push(record.iter().map(|c| c.to_string()).collect::<Vec<String>>());
    }
    Ok((header, records))
}

/// The headers other than `tick` and `timestamp`, in order.
pub open spec fn metric_headers(headers: Seq<Seq<char>>) -> Seq<Seq<char>>
    decreases headers.len(),
{
    if headers.len() == 0 {
        Seq::empty()
    } else if headers.last() == "tick"@ || headers.last() == "timestamp"@ {
        metric_headers(headers.drop_last())
    } else {
        metric_headers(headers.drop_last()).push(headers.last())
    }
}

/// The metrics exported: every metric column when `all` is asked for, else
/// the metrics asked for.
pub open spec fn exported_metrics(headers: Seq<Seq<char>>, metrics: Seq<Seq<char>>) -> Seq<Seq<char>> {
    if metrics.contains("all"@) {
        metric_headers(headers)
    } else {
        metrics
    }
}

/// The last column headed `m`, if any.
pub open spec fn last_column(headers: Seq<Seq<char>>, m: Seq<char>) -> Option<int>
    decreases headers.len(),
{
    if headers.len() == 0 {
        None
    } else if headers.last() == m {
        Some(headers.len() - 1)
    } else {
        last_column(headers.drop_last(), m)
    }
}

/// The cell of a record for a metric: `N/A` when no column has the metric,
/// `0` when the record is short.
pub open spec fn metric_cell(headers: Seq<Seq<char>>, record: Seq<Seq<char>>, m: Seq<char>) -> Seq<char> {
    match last_column(headers, m) {
        Some(c) => cell_or(record, c, "0"@),
        None => "N/A"@,
    }
}

/// A row of the per-tick metrics file: the tick without its `t`s, the run
/// number, then a cell for each exported metric.
pub open spec fn export_row(headers: Seq<Seq<char>>, metrics: Seq<Seq<char>>, record: Seq<Seq<char>>, run: nat) -> Seq<Seq<char>> {
    seq![trim_start_char(cell_or(record, 0, "t0"@), 't'), decimal(run)] + metrics.map_values(
        |m: Seq<char>| metric_cell(headers, record, m),
    )
}

/// The rows of the runs from the first, numbered from `first_run`.
pub open spec fn export_rows(
    headers: Seq<Seq<char>>,
    metrics: Seq<Seq<char>>,
    runs: Seq<Seq<Seq<Seq<char>>>>,
    first_run: nat,
) -> Seq<Seq<Seq<char>>>
    decreases runs.len(),
{
    if runs.len() == 0 {
        Seq::empty()
    } else {
        export_rows(headers, metrics, runs.drop_last(), first_run) + runs.last().map_values(
            |rec: Seq<Seq<char>>| export_row(headers, metrics, rec, (first_run + runs.len() - 1) as nat),
        )
    }
}

/// What the per-tick metrics file of a save gets: its header and its rows.
#[derive(Debug)]
pub struct VerboseExport {
    pub header: Vec<String>,
    pub rows: Vec<Vec<String>>,
}

fn column_of(headers: &Vec<String>, m: &String) -> (r: Option<usize>)
    ensures
        match r {
            Some(c) => last_column(headers@.map_values(|h: String| h@), m@) == Some(c as int),
            None => last_column(headers@.map_values(|h: String| h@), m@) is None,
        },
{
    let ghost hv = headers@.map_values(|h: String| h@);
    let mut i: usize = headers.len();
    proof {
        assert(hv.take(i as int) =~= hv);
    }
    while i > 0
        invariant
            i <= headers@.len(),
            hv == headers@.map_values(|h: String| h@),
            last_column(hv, m@) == last_column(hv.take(i as int), m@),
        decreases i,
    {
        proof {
            assert(hv.take(i as int).last() == headers@[i - 1]@);
            assert(hv.take(i as int).drop_last() =~= hv.take(i - 1));
        }
        if headers[i - 1] == *m {
            return Some(i - 1);
        }
        i -= 1;
    }
    None
}

fn export_metrics(headers: &Vec<String>, metrics: &Vec<String>) -> (r: Vec<String>)
    ensures
        r@.map_values(|s: String| s@) == exported_metrics(
            headers@.map_values(|h: String| h@),
            metrics@.map_values(|s: String| s@),
        ),
{
    let ghost hv = headers@.map_values(|h: String| h@);
    let ghost mv = metrics@.map_values(|s: String| s@);
    let all = "all".to_owned();
    let mut asks_all = false;
    let mut i: usize = 0;
    while i < metrics.len()
        invariant
            i <= metrics@.len(),
            mv == metrics@.map_values(|s: String| s@),
            all@ == "all"@,
            asks_all <==> exists|q: int| 0 <= q < i && mv[q] == "all"@,
        decreases metrics@.len() - i,
    {
        if metrics[i] == all {
            asks_all = true;
        }
        assert(mv[i as int] == metrics@[i as int]@);
        i += 1;
    }
    proof {
        if asks_all {
            let q = choose|q: int| 0 <= q < i && mv[q] == "all"@;
            assert(mv.contains("all"@));
        } else {
            assert(!mv.contains("all"@));
        }
    }
    let mut out: Vec<String> = Vec::new();
    if asks_all {
        let tick = "tick".to_owned();
        let timestamp = "timestamp".to_owned();
        let mut k: usize = 0;
        proof {
            assert(hv.take(0) =~= Seq::<Seq<char>>::empty());
            assert(out@.map_values(|s: String| s@) =~= Seq::<Seq<char>>::empty());
        }
        while k < headers.len()
            invariant
                k <= headers@.len(),
                hv == headers@.map_values(|h: String| h@),
                tick@ == "tick"@,
                timestamp@ == "timestamp"@,
                out@.map_values(|s: String| s@) == metric_headers(hv.take(k as int)),
            decreases headers@.len() - k,
        {
            proof {
                assert(hv.take(k + 1).drop_last() =~= hv.take(k as int));
                assert(hv.take(k + 1).last() == headers@[k as int]@);
            }
            if headers[k] != tick && headers[k] != timestamp {
                let ghost before = out@;
                let h = headers[k].clone();
                out.push(h);
                proof {
                    assert(out@.map_values(|s: String| s@) =~= before.map_values(|s: String| s@).push(headers@[k as int]@));
                }
            }
            k += 1;
        }
        proof {
            assert(hv.take(k as int) =~= hv);
        }
    } else {
        let mut k: usize = 0;
        while k < metrics.len()
            invariant
                k <= metrics@.len(),
                out@.len() == k,
                forall|q: int| 0 <= q < k ==> (#[trigger] out@[q])@ == metrics@[q]@,
            decreases metrics@.len() - k,
        {
            out.push(metrics[k].clone());
            k += 1;
        }
        proof {
            assert(out@.map_values(|s: String| s@) =~= mv);
        }
    }
    out
}

fn export_one(headers: &Vec<String>, metrics: &Vec<String>, record: &Vec<String>, run: u64) -> (r: Vec<String>)
    ensures
        r@.map_values(|s: String| s@) == export_row(
            headers@.map_values(|h: String| h@),
            metrics@.map_values(|s: String| s@),
            record@.map_values(|c: String| c@),
            run as nat,
        ),
{
    let ghost hv = headers@.map_values(|h: String| h@);
    let ghost mv = metrics@.map_values(|s: String| s@);
    let ghost rv = record@.map_values(|c: String| c@);
    proof {
        reveal_strlit("t0");
        reveal_strlit("0");
        reveal_strlit("N/A");
    }
    let mut out: Vec<String> = Vec::new();
    let tick_cell = if record.len() > 0 {
        record[0].as_str()
    } else {
        "t0"
    };
    out.push(trim_start_matches_char(tick_cell, 't'));
    out.push(u64_text(run));
    let mut k: usize = 0;
    while k < metrics.len()
        invariant
            k <= metrics@.len(),
            hv == headers@.map_values(|h: String| h@),
            mv == metrics@.map_values(|s: String| s@),
            rv == record@.map_values(|c: String| c@),
            out@.len() == k + 2,
            out@[0]@ == trim_start_char(cell_or(rv, 0, "t0"@), 't'),
            out@[1]@ == decimal(run as nat),
            forall|q: int| 0 <= q < k ==> (#[trigger] out@[q + 2])@ == metric_cell(hv, rv, mv[q]),
        decreases metrics@.len() - k,
    {
        let cell = match column_of(headers, &metrics[k]) {
            Some(c) => if c < record.len() {
                record[c].clone()
            } else {
                "0".to_owned()
            },
            None => "N/A".to_owned(),
        };
        proof {
            assert(mv[k as int] == metrics@[k as int]@);
        }
        out.push(cell);
        k += 1;
    }
    proof {
        let goal = export_row(hv, mv, rv, run as nat);
        assert forall|q: int| 0 <= q < out@.len() implies (#[trigger] out@[q])@ == goal[q] by {
            if q >= 2 {
                assert(out@[(q - 2) + 2] == out@[q]);
            }
        }
        assert(out@.map_values(|s: String| s@) =~= goal);
    }
    out
}

/// The per-tick metrics file of the runs of one save: its header and one
/// row for each record of each run, runs numbered from `first_run`. The
/// columns are those of the first run's CSV.
pub fn verbose_export(data: &Vec<VerboseData>, metrics: &Vec<String>, first_run: u32) -> (r: Result<VerboseExport, csv::Error>)
    requires
        data@.len() > 0,
        first_run + data@.len() <= u32::MAX,
    ensures
        match r {
            Ok(x) => {
                &&& csv_with_header(data@[0].csv_data@) matches Some((h, _))
                &&& (forall|i: int| 0 <= i < data@.len() ==> (#[trigger] csv_with_header(data@[i].csv_data@)) is Some)
                &&& x.header@.map_values(|s: String| s@) == seq!["tick"@, "run"@] + exported_metrics(h, metrics@.map_values(|s: String| s@))
                &&& cells_view(x.rows@) == export_rows(
                    h,
                    exported_metrics(h, metrics@.map_values(|s: String| s@)),
                    Seq::new(data@.len(), |i: int| csv_with_header(data@[i].csv_data@)->Some_0.1),
                    first_run as nat,
                )
            },
            Err(_) => exists|i: int| 0 <= i < data@.len() && (#[trigger] csv_with_header(data@[i].csv_data@)) is None,
        },
{
    let (headers, _) = match read_csv_with_header(data[0].csv_data.as_str()) {
        Ok(x) => x,
        Err(e) => return Err(e),
    };
    let ghost hv = headers@.map_values(|h: String| h@);
    let exported = export_metrics(&headers, metrics);
    let ghost ev = exported@.map_values(|s: String| s@);
    let mut header: Vec<String> = Vec::new();
    header.push("tick".to_owned());
    header.push("run".to_owned());
    let mut k: usize = 0;
    while k < exported.len()
        invariant
            k <= exported@.len(),
            header@.len() == k + 2,
            header@[0]@ == "tick"@,
            header@[1]@ == "run"@,
            forall|q: int| 0 <= q < k ==> (#[trigger] header@[q + 2])@ == exported@[q]@,
        decreases exported@.len() - k,
    {
        header.push(exported[k].clone());
        k += 1;
    }
    proof {
        let goal = seq!["tick"@, "run"@] + ev;
        assert forall|q: int| 0 <= q < header@.len() implies (#[trigger] header@[q])@ == goal[q] by {
            if q >= 2 {
                assert(header@[(q - 2) + 2] == header@[q]);
            }
        }
        assert(header@.map_values(|s: String| s@) =~= goal);
    }
    let ghost runs_of = Seq::new(data@.len(), |i: int| csv_with_header(data@[i].csv_data@)->Some_0.1);
    let mut rows: Vec<Vec<String>> = Vec::new();
    let mut i: usize = 0;
    proof {
        assert(runs_of.take(0) =~= Seq::<Seq<Seq<Seq<char>>>>::empty());
        assert(cells_view(rows@) =~= Seq::<Seq<Seq<char>>>::empty());
    }
    while i < data.len()
        invariant
            i <= data@.len(),
            data@.len() > 0,
            first_run + data@.len() <= u32::MAX,
            csv_with_header(data@[0].csv_data@) == Some((hv, csv_with_header(data@[0].csv_data@)->Some_0.1)),
            hv == headers@.map_values(|h: String| h@),
            ev == exported@.map_values(|s: String| s@),
            ev == exported_metrics(hv, metrics@.map_values(|s: String| s@)),
            runs_of == Seq::new(data@.len(), |i: int| csv_with_header(data@[i].csv_data@)->Some_0.1),
            forall|q: int| 0 <= q < i ==> (#[trigger] csv_with_header(data@[q].csv_data@)) is Some,
            cells_view(rows@) == export_rows(hv, ev, runs_of.take(i as int), first_run as nat),
        decreases data@.len() - i,
    {
        let (_, records) = match read_csv_with_header(data[i].csv_data.as_str()) {
            Ok(x) => x,
            Err(e) => return Err(e),
        };
        let run = first_run as u64 + i as u64;
        let ghost before = cells_view(rows@);
        let mut j: usize = 0;
        while j < records.len()
            invariant
                j <= records@.len(),
                cells_view(rows@) == before + cells_view(records@).take(j as int).map_values(
                    |rec: Seq<Seq<char>>| export_row(hv, ev, rec, run as nat),
                ),
                hv == headers@.map_values(|h: String| h@),
                ev == exported@.map_values(|s: String| s@),
            decreases records@.len() - j,
        {
            let row = export_one(&headers, &exported, &records[j], run);
            let ghost prev = rows@;
            rows.push(row);
            proof {
                assert(cells_view(rows@) =~= cells_view(prev).push(row@.map_values(|c: String| c@)));
                assert(cells_view(records@).take(j + 1).map_values(|rec: Seq<Seq<char>>| export_row(hv, ev, rec, run as nat))
                    =~= cells_view(records@).take(j as int).map_values(|rec: Seq<Seq<char>>| export_row(hv, ev, rec, run as nat)).push(
                    export_row(hv, ev, cells_view(records@)[j as int], run as nat),
                ));
            }
            j += 1;
        }
        proof {
            assert(cells_view(records@).take(j as int) =~= cells_view(records@));
            assert(runs_of[i as int] == cells_view(records@));
            assert(runs_of.take(i + 1).drop_last() =~= runs_of.take(i as int));
            assert(runs_of.take(i + 1).last() == cells_view(records@));
        }
        i += 1;
    }
    proof {
        assert(runs_of.take(i as int) =~= runs_of);
    }
    Ok(VerboseExport { header, rows })
}

} // verus!
