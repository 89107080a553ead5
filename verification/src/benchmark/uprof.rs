//! AMD uProf report parsing.
//!
//! A uProf CSV report is a sequence of sections. A row holding a single
//! non-empty cell is a section title; the rows after it are either
//! `key,value` metadata (for the `EXECUTION`, `PROFILE DETAILS` and
//! `APPLICATION PERFORMANCE SNAPSHOT` sections) or a table whose first row
//! holds the column headers. A blank row ends a section.

use crate::common::text::{chars_of, ends_with_char, trim, trim_end_char, trim_end_matches_char, trimmed};
use vstd::prelude::*;

verus! {

/// At most this many tables are kept from one report.
pub const MAX_TABLES_PER_REPORT: usize = 32;

/// At most this many rows are kept from one table.
pub const MAX_ROWS_PER_TABLE: usize = 100;

/// At most this many cells are kept from one row.
pub const MAX_CELLS_PER_ROW: usize = 64;

// ---------------------------------------------------------------------------
// Rows
// ---------------------------------------------------------------------------
/// A row of cells as character sequences.
pub open spec fn row_view(r: Vec<String>) -> Seq<Seq<char>> {
    r@.map_values(|c: String| c@)
}

/// Rows of cells as character sequences.
pub open spec fn rows_view(rows: Seq<Vec<String>>) -> Seq<Seq<Seq<char>>> {
    rows.map_values(|r: Vec<String>| row_view(r))
}

/// Whether a cell holds anything but white space.
pub open spec fn filled(c: Seq<char>) -> bool {
    trimmed(c).len() > 0
}

/// The number of cells of a row that hold anything but white space.
pub open spec fn filled_count(row: Seq<Seq<char>>) -> nat
    decreases row.len(),
{
    if row.len() == 0 {
        0
    } else {
        filled_count(row.drop_last()) + if filled(row.last()) {
            1nat
        } else {
            0nat
        }
    }
}

/// A row with no filled cell.
pub open spec fn blank(row: Seq<Seq<char>>) -> bool {
    filled_count(row) == 0
}

/// The index of the first filled cell of a row, or the row's length.
pub open spec fn first_filled(row: Seq<Seq<char>>) -> int
    decreases row.len(),
{
    if row.len() == 0 {
        0
    } else if filled(row[0]) {
        0
    } else {
        1 + first_filled(row.drop_first())
    }
}

/// The trimmed content of a row's only filled cell, when it has exactly one.
pub open spec fn single_filled(row: Seq<Seq<char>>) -> Option<Seq<char>> {
    if filled_count(row) == 1 {
        Some(trimmed(row[first_filled(row)]))
    } else {
        None
    }
}

/// A metadata key: trimmed, without trailing colons.
pub open spec fn normalized_key(k: Seq<char>) -> Seq<char> {
    trim_end_char(trimmed(k), ':')
}

/// The section titles whose rows are metadata.
pub open spec fn metadata_title(t: Seq<char>) -> bool {
    let k = normalized_key(t);
    k == "EXECUTION"@ || k == "PROFILE DETAILS"@ || k == "APPLICATION PERFORMANCE SNAPSHOT"@
}

/// The first row at or after `start` that is not blank.
pub open spec fn next_filled_row(rows: Seq<Seq<Seq<char>>>, start: int) -> Option<int>
    decreases rows.len() - start,
{
    if start < 0 || start >= rows.len() {
        None
    } else if !blank(rows[start]) {
        Some(start)
    } else {
        next_filled_row(rows, start + 1)
    }
}

pub proof fn lemma_next_filled_row(rows: Seq<Seq<Seq<char>>>, start: int)
    ensures
        next_filled_row(rows, start) matches Some(i) ==> start <= i < rows.len() && !blank(rows[i]),
        0 <= start && next_filled_row(rows, start) is None ==> forall|i: int| start <= i < rows.len() ==> blank(#[trigger] rows[i]),
    decreases rows.len() - start,
{
    if 0 <= start < rows.len() {
        lemma_next_filled_row(rows, start + 1);
    }
}

/// The trimmed cells of a row.
pub open spec fn trimmed_cells(row: Seq<Seq<char>>) -> Seq<Seq<char>> {
    row.map_values(|c: Seq<char>| trimmed(c))
}

/// The trimmed filled cells of a row, in order.
pub open spec fn filled_cells(row: Seq<Seq<char>>) -> Seq<Seq<char>>
    decreases row.len(),
{
    if row.len() == 0 {
        Seq::empty()
    } else if filled(row.last()) {
        filled_cells(row.drop_last()).push(trimmed(row.last()))
    } else {
        filled_cells(row.drop_last())
    }
}

proof fn lemma_filled_count_first(row: Seq<Seq<char>>)
    ensures
        row.len() > 0 ==> filled_count(row) == filled_count(row.drop_first()) + if filled(row[0]) {
            1nat
        } else {
            0nat
        },
    decreases row.len(),
{
    if row.len() > 1 {
        lemma_filled_count_first(row.drop_last());
        assert(row.drop_last().drop_first() =~= row.drop_first().drop_last());
        assert(row.drop_first().last() == row.last());
        assert(row.drop_last()[0] == row[0]);
        let t = row.drop_first();
        assert(filled_count(t) == filled_count(t.drop_last()) + if filled(t.last()) {
            1nat
        } else {
            0nat
        });
    } else if row.len() == 1 {
        assert(row.drop_first().len() == 0);
        assert(row.drop_last().len() == 0);
        assert(row.last() == row[0]);
        assert(filled_count(row.drop_last()) == 0);
        assert(filled_count(row.drop_first()) == 0);
    }
}

proof fn lemma_first_filled(row: Seq<Seq<char>>)
    ensures
        0 <= first_filled(row) <= row.len(),
        forall|i: int| 0 <= i < first_filled(row) ==> !filled(#[trigger] row[i]),
        first_filled(row) < row.len() <==> filled_count(row) > 0,
        first_filled(row) < row.len() ==> filled(row[first_filled(row)]),
        first_filled(row) < row.len() ==> filled_count(row) == 1 + filled_count(row.skip(first_filled(row) + 1)),
    decreases row.len(),
{
    if row.len() > 0 {
        lemma_filled_count_first(row);
        let t = row.drop_first();
        lemma_first_filled(t);
        assert forall|i: int| 0 <= i < first_filled(row) implies !filled(#[trigger] row[i]) by {
            if i > 0 {
                assert(row[i] == t[i - 1]);
            }
        }
        if !filled(row[0]) && first_filled(t) < t.len() {
            assert(t.skip(first_filled(t) + 1) =~= row.skip(first_filled(row) + 1));
        }
        if filled(row[0]) {
            assert(row.skip(1) =~= t);
        }
    }
}

// ---------------------------------------------------------------------------
// Row helpers
// ---------------------------------------------------------------------------
/// The number of filled cells of a row.
pub fn non_empty_count(row: &[String]) -> (r: usize)
    ensures
        r == filled_count(row@.map_values(|c: String| c@)),
{
    let ghost v = row@.map_values(|c: String| c@);
    let mut n: usize = 0;
    let mut i: usize = 0;
    while i < row.len()
        invariant
            i <= row@.len(),
            n <= i,
            v == row@.map_values(|c: String| c@),
            n == filled_count(v.take(i as int)),
        decreases row@.len() - i,
    {
        let t = trim(row[i].as_str());
        proof {
            assert(v.take(i + 1).drop_last() =~= v.take(i as int));
        }
        if !t.as_str().is_empty() {
            n += 1;
        }
        i += 1;
    }
    proof {
        assert(v.take(i as int) =~= v);
    }
    n
}

/// Whether a row has no filled cell.
pub fn is_blank(row: &[String]) -> (r: bool)
    ensures
        r == blank(row@.map_values(|c: String| c@)),
{
    non_empty_count(row) == 0
}

/// The trimmed content of a row's only filled cell, when it has exactly one.
pub fn single_non_empty_cell(row: &[String]) -> (r: Option<String>)
    ensures
        match r {
            Some(s) => single_filled(row@.map_values(|c: String| c@)) == Some(s@),
            None => single_filled(row@.map_values(|c: String| c@)) is None,
        },
{
    let ghost v = row@.map_values(|c: String| c@);
    if non_empty_count(row) != 1 {
        return None;
    }
    proof {
        lemma_first_filled(v);
    }
    let mut i: usize = 0;
    while i < row.len()
        invariant
            i <= first_filled(v) < v.len(),
            v.len() == row@.len(),
            v == row@.map_values(|c: String| c@),
            filled_count(v) == 1,
            forall|j: int| 0 <= j < first_filled(v) ==> !filled(#[trigger] v[j]),
            filled(v[first_filled(v)]),
        decreases row@.len() - i,
    {
        let t = trim(row[i].as_str());
        if !t.as_str().is_empty() {
            proof {
                assert(v[i as int] == row@[i as int]@);
                if (i as int) < first_filled(v) {
                    assert(!filled(v[i as int]));
                }
            }
            return Some(t);
        }
        i += 1;
    }
    None
}

/// A metadata key: trimmed, without trailing colons.
pub fn normalize_metadata_key(key: &str) -> (r: String)
    ensures
        r@ == normalized_key(key@),
{
    let t = trim(key);
    trim_end_matches_char(t.as_str(), ':')
}

/// Whether the rows after a section title are metadata.
pub fn is_metadata_section(title: &str) -> (r: bool)
    ensures
        r == metadata_title(title@),
{
    let k = normalize_metadata_key(title);
    k == "EXECUTION".to_owned() || k == "PROFILE DETAILS".to_owned() || k
        == "APPLICATION PERFORMANCE SNAPSHOT".to_owned()
}

/// The first row at or after `start` that is not blank.
pub fn next_non_blank(rows: &[Vec<String>], start: usize) -> (r: Option<usize>)
    ensures
        match r {
            Some(i) => next_filled_row(rows_view(rows@), start as int) == Some(i as int),
            None => next_filled_row(rows_view(rows@), start as int) is None,
        },
{
    let ghost rv = rows_view(rows@);
    let mut i = start;
    while i < rows.len()
        invariant
            start <= i,
            rv == rows_view(rows@),
            next_filled_row(rv, start as int) == next_filled_row(rv, i as int),
        decreases rows@.len() - i,
    {
        assert(rv[i as int] == rows@[i as int]@.map_values(|c: String| c@));
        if !is_blank(rows[i].as_slice()) {
            return Some(i);
        }
        i += 1;
    }
    None
}

/// The trimmed cells of a row.
pub fn normalized_cells(row: &[String]) -> (r: Vec<String>)
    ensures
        r@.map_values(|c: String| c@) == trimmed_cells(row@.map_values(|c: String| c@)),
{
    let mut out: Vec<String> = Vec::new();
    let mut i: usize = 0;
    while i < row.len()
        invariant
            i <= row@.len(),
            out@.len() == i,
            forall|k: int| 0 <= k < i ==> (#[trigger] out@[k])@ == trimmed(row@[k]@),
        decreases row@.len() - i,
    {
        let t = trim(row[i].as_str());
        out.push(t);
        i += 1;
    }
    proof {
        assert(out@.map_values(|c: String| c@) =~= trimmed_cells(row@.map_values(|c: String| c@)));
    }
    out
}

/// The trimmed filled cells of a row.
pub fn normalized_non_empty_cells(row: &[String]) -> (r: Vec<String>)
    ensures
        r@.map_values(|c: String| c@) == filled_cells(row@.map_values(|c: String| c@)),
{
    let ghost v = row@.map_values(|c: String| c@);
    let mut out: Vec<String> = Vec::new();
    let mut i: usize = 0;
    while i < row.len()
        invariant
            i <= row@.len(),
            v == row@.map_values(|c: String| c@),
            out@.map_values(|c: String| c@) == filled_cells(v.take(i as int)),
        decreases row@.len() - i,
    {
        let t = trim(row[i].as_str());
        proof {
            assert(v.take(i + 1).drop_last() =~= v.take(i as int));
            assert(v.take(i + 1).last() == row@[i as int]@);
        }
        if !t.as_str().is_empty() {
            out.push(t);
            proof {
                assert(out@.map_values(|c: String| c@) =~= filled_cells(v.take(i as int)).push(t@));
            }
        }
        i += 1;
    }
    proof {
        assert(v.take(i as int) =~= v);
    }
    out
}

// ---------------------------------------------------------------------------
// Parsed reports
// ---------------------------------------------------------------------------
/// A `key,value` line of a report.
#[derive(Debug)]
pub struct AmdUprofMetadata {
    pub key: String,
    pub value: String,
}

/// A table of a report: its title, column headers and rows.
#[derive(Debug)]
pub struct AmdUprofTable {
    pub title: String,
    pub headers: Vec<String>,
    pub rows: Vec<Vec<String>>,
    pub truncated: bool,
}

/// What was read out of a report. `truncated` is set when tables, rows or
/// cells were dropped for the limits above.
#[derive(Debug)]
pub struct AmdUprofParsedReport {
    pub metadata: Vec<AmdUprofMetadata>,
    pub tables: Vec<AmdUprofTable>,
    pub truncated: bool,
}

/// The mathematical value of a table.
pub struct TableModel {
    pub title: Seq<char>,
    pub headers: Seq<Seq<char>>,
    pub rows: Seq<Seq<Seq<char>>>,
    pub truncated: bool,
}

/// The mathematical value of a parsed report.
pub struct ReportModel {
    pub metadata: Seq<(Seq<char>, Seq<char>)>,
    pub tables: Seq<TableModel>,
    pub truncated: bool,
}

impl View for AmdUprofTable {
    type V = TableModel;

    open spec fn view(&self) -> TableModel {
        TableModel {
            title: self.title@,
            headers: self.headers@.map_values(|c: String| c@),
            rows: rows_view(self.rows@),
            truncated: self.truncated,
        }
    }
}

impl View for AmdUprofParsedReport {
    type V = ReportModel;

    open spec fn view(&self) -> ReportModel {
        ReportModel {
            metadata: self.metadata@.map_values(|m: AmdUprofMetadata| (m.key@, m.value@)),
            tables: self.tables@.map_values(|t: AmdUprofTable| t@),
            truncated: self.truncated,
        }
    }
}

/// The report with nothing read yet.
pub open spec fn empty_report() -> ReportModel {
    ReportModel { metadata: Seq::empty(), tables: Seq::empty(), truncated: false }
}

impl Default for AmdUprofParsedReport {
    fn default() -> (r: Self)
        ensures
            r@ == empty_report(),
    {
        let r = AmdUprofParsedReport { metadata: Vec::new(), tables: Vec::new(), truncated: false };
        proof {
            assert(r@.metadata =~= Seq::<(Seq<char>, Seq<char>)>::empty());
            assert(r@.tables =~= Seq::<TableModel>::empty());
        }
        r
    }
}

/// A report with one more metadata entry when both key and value are
/// non-empty.
pub open spec fn with_metadata(acc: ReportModel, key: Seq<char>, value: Seq<char>) -> ReportModel {
    if key.len() > 0 && value.len() > 0 {
        ReportModel { metadata: acc.metadata.push((key, value)), ..acc }
    } else {
        acc
    }
}

/// The metadata rows of a section starting at `index`: reading stops after a
/// blank row or before a title that does not end in `:`; titles ending in
/// `:` are skipped. Gives the index reading stopped at.
pub open spec fn metadata_section(rows: Seq<Seq<Seq<char>>>, index: int, acc: ReportModel) -> (int, ReportModel)
    decreases rows.len() - index,
{
    if index < 0 || index >= rows.len() {
        (index, acc)
    } else {
        let row = rows[index];
        if blank(row) {
            (index + 1, acc)
        } else {
            match single_filled(row) {
                Some(title) => if title.len() > 0 && title.last() == ':' {
                    metadata_section(rows, index + 1, acc)
                } else {
                    (index, acc)
                },
                None => {
                    let key = if row.len() > 0 {
                        normalized_key(row[0])
                    } else {
                        Seq::empty()
                    };
                    let value = if row.len() > 1 {
                        trimmed(row[1])
                    } else {
                        Seq::empty()
                    };
                    metadata_section(rows, index + 1, with_metadata(acc, key, value))
                },
            }
        }
    }
}

/// The rows of a table from `index` on, added to `t`: reading stops after a
/// blank row or before a title. Rows past the limit are dropped and cells
/// past the limit cut, both marking the table truncated. Gives the index
/// reading stopped at.
pub open spec fn table_section(rows: Seq<Seq<Seq<char>>>, index: int, t: TableModel) -> (TableModel, int)
    decreases rows.len() - index,
{
    if index < 0 || index >= rows.len() {
        (t, index)
    } else {
        let row = rows[index];
        if blank(row) {
            (t, index + 1)
        } else if single_filled(row) is Some {
            (t, index)
        } else {
            let next = if t.rows.len() < MAX_ROWS_PER_TABLE {
                let cells = trimmed_cells(row);
                if cells.len() > MAX_CELLS_PER_ROW {
                    TableModel { rows: t.rows.push(cells.take(MAX_CELLS_PER_ROW as int)), truncated: true, ..t }
                } else {
                    TableModel { rows: t.rows.push(cells), ..t }
                }
            } else {
                TableModel { truncated: true, ..t }
            };
            table_section(rows, index + 1, next)
        }
    }
}

/// A table titled `title` whose header row is at `header_index`.
pub open spec fn table_at(title: Seq<char>, rows: Seq<Seq<Seq<char>>>, header_index: int) -> (TableModel, int) {
    let h = filled_cells(rows[header_index]);
    let headers = if h.len() > MAX_CELLS_PER_ROW {
        h.take(MAX_CELLS_PER_ROW as int)
    } else {
        h
    };
    table_section(rows, header_index + 1, TableModel { title, headers, rows: Seq::empty(), truncated: false })
}

pub proof fn lemma_metadata_section_advances(rows: Seq<Seq<Seq<char>>>, index: int, acc: ReportModel)
    ensures
        metadata_section(rows, index, acc).0 >= index,
        0 <= index <= rows.len() ==> metadata_section(rows, index, acc).0 <= rows.len(),
    decreases rows.len() - index,
{
    if 0 <= index < rows.len() {
        lemma_metadata_section_advances(rows, index + 1, acc);
        let row = rows[index];
        if single_filled(row) is None {
            let key = if row.len() > 0 {
                normalized_key(row[0])
            } else {
                Seq::empty()
            };
            let value = if row.len() > 1 {
                trimmed(row[1])
            } else {
                Seq::empty()
            };
            lemma_metadata_section_advances(rows, index + 1, with_metadata(acc, key, value));
        }
    }
}

pub proof fn lemma_table_section_advances(rows: Seq<Seq<Seq<char>>>, index: int, t: TableModel)
    ensures
        table_section(rows, index, t).1 >= index,
        0 <= index <= rows.len() ==> table_section(rows, index, t).1 <= rows.len(),
    decreases rows.len() - index,
{
    if 0 <= index < rows.len() {
        let row = rows[index];
        if !blank(row) && single_filled(row) is None {
            let next = if t.rows.len() < MAX_ROWS_PER_TABLE {
                let cells = trimmed_cells(row);
                if cells.len() > MAX_CELLS_PER_ROW {
                    TableModel { rows: t.rows.push(cells.take(MAX_CELLS_PER_ROW as int)), truncated: true, ..t }
                } else {
                    TableModel { rows: t.rows.push(cells), ..t }
                }
            } else {
                TableModel { truncated: true, ..t }
            };
            lemma_table_section_advances(rows, index + 1, next);
        }
    }
}

pub proof fn lemma_table_at_advances(title: Seq<char>, rows: Seq<Seq<Seq<char>>>, header_index: int)
    requires
        0 <= header_index < rows.len(),
    ensures
        header_index + 1 <= table_at(title, rows, header_index).1 <= rows.len(),
{
    let h = filled_cells(rows[header_index]);
    let headers = if h.len() > MAX_CELLS_PER_ROW {
        h.take(MAX_CELLS_PER_ROW as int)
    } else {
        h
    };
    lemma_table_section_advances(rows, header_index + 1, TableModel { title, headers, rows: Seq::empty(), truncated: false });
}

/// A report with one more table, or marked truncated when it has the most
/// tables it may keep.
pub open spec fn with_table(acc: ReportModel, t: TableModel) -> ReportModel {
    if acc.tables.len() < MAX_TABLES_PER_REPORT {
        ReportModel { tables: acc.tables.push(t), truncated: acc.truncated || t.truncated, ..acc }
    } else {
        ReportModel { truncated: true, ..acc }
    }
}

/// The report read from the rows from `index` on, added to `acc`.
pub open spec fn report_from(rows: Seq<Seq<Seq<char>>>, index: int, acc: ReportModel) -> ReportModel
    decreases rows.len() - index,
{
    if index < 0 || index >= rows.len() {
        acc
    } else {
        let row = rows[index];
        if blank(row) {
            report_from(rows, index + 1, acc)
        } else {
            match single_filled(row) {
                Some(title) => match next_filled_row(rows, index + 1) {
                    None => acc,
                    Some(ni) => if ni <= index || ni >= rows.len() {
                        acc
                    } else if metadata_title(title) {
                        let (j, acc2) = metadata_section(rows, ni, acc);
                        proof {
                            lemma_metadata_section_advances(rows, ni, acc);
                        }
                        report_from(rows, j, acc2)
                    } else if filled_count(rows[ni]) >= 2 {
                        let (t, j) = table_at(title, rows, ni);
                        proof {
                            lemma_table_at_advances(title, rows, ni);
                        }
                        report_from(rows, j, with_table(acc, t))
                    } else {
                        report_from(rows, index + 1, acc)
                    },
                },
                None => if filled_count(row) >= 2 {
                    report_from(rows, index + 1, with_metadata(acc, normalized_key(row[0]), trimmed(row[1])))
                } else {
                    report_from(rows, index + 1, acc)
                },
            }
        }
    }
}

/// A table within the limits: at most as many rows, headers and cells per
/// row as a report keeps.
pub open spec fn table_within_limits(t: TableModel) -> bool {
    &&& t.rows.len() <= MAX_ROWS_PER_TABLE
    &&& t.headers.len() <= MAX_CELLS_PER_ROW
    &&& forall|i: int| 0 <= i < t.rows.len() ==> (#[trigger] t.rows[i]).len() <= MAX_CELLS_PER_ROW
}

/// A report within the limits: at most as many tables as a report keeps,
/// each within its own limits.
pub open spec fn report_within_limits(r: ReportModel) -> bool {
    &&& r.tables.len() <= MAX_TABLES_PER_REPORT
    &&& forall|i: int| 0 <= i < r.tables.len() ==> table_within_limits(#[trigger] r.tables[i])
}

/// A report marked truncated whenever one of its tables is.
pub open spec fn truncation_marked(r: ReportModel) -> bool {
    forall|i: int| 0 <= i < r.tables.len() && (#[trigger] r.tables[i]).truncated ==> r.truncated
}

proof fn lemma_metadata_section_keeps_tables(rows: Seq<Seq<Seq<char>>>, index: int, acc: ReportModel)
    ensures
        metadata_section(rows, index, acc).1.tables == acc.tables,
        metadata_section(rows, index, acc).1.truncated == acc.truncated,
    decreases rows.len() - index,
{
    if 0 <= index < rows.len() {
        let row = rows[index];
        if !blank(row) {
            match single_filled(row) {
                Some(title) => {
                    lemma_metadata_section_keeps_tables(rows, index + 1, acc);
                },
                None => {
                    let key = if row.len() > 0 {
                        normalized_key(row[0])
                    } else {
                        Seq::empty()
                    };
                    let value = if row.len() > 1 {
                        trimmed(row[1])
                    } else {
                        Seq::empty()
                    };
                    lemma_metadata_section_keeps_tables(rows, index + 1, with_metadata(acc, key, value));
                },
            }
        }
    }
}

proof fn lemma_table_section_within_limits(rows: Seq<Seq<Seq<char>>>, index: int, t: TableModel)
    requires
        table_within_limits(t),
    ensures
        table_within_limits(table_section(rows, index, t).0),
        t.truncated ==> table_section(rows, index, t).0.truncated,
        table_section(rows, index, t).0.title == t.title,
        table_section(rows, index, t).0.headers == t.headers,
    decreases rows.len() - index,
{
    if 0 <= index < rows.len() {
        let row = rows[index];
        if !blank(row) && single_filled(row) is None {
            let next = if t.rows.len() < MAX_ROWS_PER_TABLE {
                let cells = trimmed_cells(row);
                if cells.len() > MAX_CELLS_PER_ROW {
                    TableModel { rows: t.rows.push(cells.take(MAX_CELLS_PER_ROW as int)), truncated: true, ..t }
                } else {
                    TableModel { rows: t.rows.push(cells), ..t }
                }
            } else {
                TableModel { truncated: true, ..t }
            };
            assert(table_within_limits(next)) by {
                assert forall|i: int| 0 <= i < next.rows.len() implies (#[trigger] next.rows[i]).len() <= MAX_CELLS_PER_ROW by {
                    if i < t.rows.len() {
                        assert(next.rows[i] == t.rows[i]);
                    }
                }
            }
            lemma_table_section_within_limits(rows, index + 1, next);
        }
    }
}

proof fn lemma_with_table_within_limits(acc: ReportModel, t: TableModel)
    requires
        report_within_limits(acc),
        table_within_limits(t),
        truncation_marked(acc),
    ensures
        report_within_limits(with_table(acc, t)),
        truncation_marked(with_table(acc, t)),
        acc.truncated ==> with_table(acc, t).truncated,
        acc.tables.len() >= MAX_TABLES_PER_REPORT ==> with_table(acc, t).truncated,
{
    let r = with_table(acc, t);
    assert forall|i: int| 0 <= i < r.tables.len() implies table_within_limits(#[trigger] r.tables[i]) by {
        if i < acc.tables.len() {
            assert(r.tables[i] == acc.tables[i]);
        }
    }
    assert forall|i: int| 0 <= i < r.tables.len() && (#[trigger] r.tables[i]).truncated implies r.truncated by {
        if i < acc.tables.len() {
            assert(r.tables[i] == acc.tables[i]);
        }
    }
}

proof fn lemma_report_from_within_limits(rows: Seq<Seq<Seq<char>>>, index: int, acc: ReportModel)
    requires
        report_within_limits(acc),
        truncation_marked(acc),
    ensures
        report_within_limits(report_from(rows, index, acc)),
        truncation_marked(report_from(rows, index, acc)),
        acc.truncated ==> report_from(rows, index, acc).truncated,
    decreases rows.len() - index,
{
    if 0 <= index < rows.len() {
        let row = rows[index];
        if blank(row) {
            lemma_report_from_within_limits(rows, index + 1, acc);
        } else {
            match single_filled(row) {
                Some(title) => match next_filled_row(rows, index + 1) {
                    None => {},
                    Some(ni) => if ni <= index || ni >= rows.len() {
                    } else if metadata_title(title) {
                        let (j, acc2) = metadata_section(rows, ni, acc);
                        lemma_metadata_section_advances(rows, ni, acc);
                        lemma_metadata_section_keeps_tables(rows, ni, acc);
                        lemma_report_from_within_limits(rows, j, acc2);
                    } else if filled_count(rows[ni]) >= 2 {
                        let h = filled_cells(rows[ni]);
                        let headers = if h.len() > MAX_CELLS_PER_ROW {
                            h.take(MAX_CELLS_PER_ROW as int)
                        } else {
                            h
                        };
                        let t0 = TableModel { title, headers, rows: Seq::empty(), truncated: false };
                        lemma_table_section_within_limits(rows, ni + 1, t0);
                        let (t, j) = table_at(title, rows, ni);
                        lemma_table_at_advances(title, rows, ni);
                        lemma_with_table_within_limits(acc, t);
                        lemma_report_from_within_limits(rows, j, with_table(acc, t));
                    } else {
                        lemma_report_from_within_limits(rows, index + 1, acc);
                    },
                },
                None => if filled_count(row) >= 2 {
                    lemma_report_from_within_limits(rows, index + 1, with_metadata(acc, normalized_key(row[0]), trimmed(row[1])));
                } else {
                    lemma_report_from_within_limits(rows, index + 1, acc);
                },
            }
        }
    }
}

/// Every report read from rows keeps at most `MAX_TABLES_PER_REPORT` tables,
/// each with at most `MAX_ROWS_PER_TABLE` rows and at most
/// `MAX_CELLS_PER_ROW` headers and cells in each row, and is marked
/// truncated whenever one of its tables is.
pub proof fn lemma_report_within_limits(rows: Seq<Seq<Seq<char>>>)
    ensures
        report_within_limits(report_from(rows, 0, empty_report())),
        truncation_marked(report_from(rows, 0, empty_report())),
{
    lemma_report_from_within_limits(rows, 0, empty_report());
}

proof fn lemma_push_metadata(p: AmdUprofParsedReport, m: AmdUprofMetadata)
    ensures
        p.metadata@.push(m).map_values(|e: AmdUprofMetadata| (e.key@, e.value@)) == p@.metadata.push((m.key@, m.value@)),
{
    assert(p.metadata@.push(m).map_values(|e: AmdUprofMetadata| (e.key@, e.value@)) =~= p@.metadata.push((m.key@, m.value@)));
}

/// Adds a metadata entry when both key and value are non-empty.
fn push_metadata(parsed: &mut AmdUprofParsedReport, key: String, value: String)
    ensures
        final(parsed)@ == with_metadata(old(parsed)@, key@, value@),
{
    if !key.as_str().is_empty() && !value.as_str().is_empty() {
        let m = AmdUprofMetadata { key, value };
        proof {
            lemma_push_metadata(*parsed, m);
        }
        parsed.metadata.push(m);
    }
}

/// Reads the metadata rows of a section starting at `index` into `parsed`
/// and gives the index reading stopped at.
pub fn parse_metadata_section(rows: &[Vec<String>], start: usize, parsed: &mut AmdUprofParsedReport) -> (r: usize)
    requires
        start <= rows@.len(),
    ensures
        (r as int, final(parsed)@) == metadata_section(rows_view(rows@), start as int, old(parsed)@),
{
    let ghost rv = rows_view(rows@);
    let ghost goal = metadata_section(rv, start as int, parsed@);
    let mut index = start;
    while index < rows.len()
        invariant
            index <= rows@.len(),
            rv == rows_view(rows@),
            goal == metadata_section(rv, start as int, old(parsed)@),
            goal == metadata_section(rv, index as int, parsed@),
        decreases rows@.len() - index,
    {
        let row = rows[index].as_slice();
        assert(rv[index as int] == row@.map_values(|c: String| c@));
        if is_blank(row) {
            return index + 1;
        }
        match single_non_empty_cell(row) {
            Some(title) => {
                if ends_with_char(title.as_str(), ':') {
                    index += 1;
                    continue;
                }
                return index;
            },
            None => {},
        }
        let key = if row.len() > 0 {
            normalize_metadata_key(row[0].as_str())
        } else {
            String::new()
        };
        let value = if row.len() > 1 {
            trim(row[1].as_str())
        } else {
            String::new()
        };
        push_metadata(parsed, key, value);
        index += 1;
    }
    index
}

/// Reads the table titled `title` whose header row is at `header_index`,
/// and gives the index reading stopped at.
pub fn parse_table(title: &str, rows: &[Vec<String>], header_index: usize) -> (r: (AmdUprofTable, usize))
    requires
        header_index < rows@.len(),
    ensures
        (r.0@, r.1 as int) == table_at(title@, rows_view(rows@), header_index as int),
{
    let ghost rv = rows_view(rows@);
    assert(rv[header_index as int] == rows@[header_index as int]@.map_values(|c: String| c@));
    let mut headers = normalized_non_empty_cells(rows[header_index].as_slice());
    if headers.len() > MAX_CELLS_PER_ROW {
        headers.truncate(MAX_CELLS_PER_ROW);
    }
    let mut table = AmdUprofTable { title: title.to_owned(), headers, rows: Vec::new(), truncated: false };
    proof {
        assert(table@.headers =~= (if filled_cells(rv[header_index as int]).len() > MAX_CELLS_PER_ROW {
            filled_cells(rv[header_index as int]).take(MAX_CELLS_PER_ROW as int)
        } else {
            filled_cells(rv[header_index as int])
        }));
        assert(table@.rows =~= Seq::<Seq<Seq<char>>>::empty());
    }
    let ghost goal = table_at(title@, rv, header_index as int);
    let mut index = header_index + 1;
    while index < rows.len()
        invariant
            header_index < index <= rows@.len(),
            rv == rows_view(rows@),
            goal == table_at(title@, rv, header_index as int),
            goal == table_section(rv, index as int, table@),
        decreases rows@.len() - index,
    {
        let row = rows[index].as_slice();
        assert(rv[index as int] == row@.map_values(|c: String| c@));
        if is_blank(row) {
            return (table, index + 1);
        }
        if single_non_empty_cell(row).is_some() {
            return (table, index);
        }
        if table.rows.len() < MAX_ROWS_PER_TABLE {
            let mut cells = normalized_cells(row);
            let ghost full = cells@;
            if cells.len() > MAX_CELLS_PER_ROW {
                cells.truncate(MAX_CELLS_PER_ROW);
                table.truncated = true;
                proof {
                    assert(cells@.map_values(|c: String| c@) =~= full.map_values(|c: String| c@).take(MAX_CELLS_PER_ROW as int));
                }
            }
            let ghost before = table@;
            let ghost row_cells = cells@;
            table.rows.push(cells);
            proof {
                assert(table@.rows =~= before.rows.push(row_cells.map_values(|c: String| c@)));
            }
        } else {
            table.truncated = true;
        }
        index += 1;
    }
    (table, index)
}

/// Reads a report out of its rows.
pub fn parse_report_rows(rows: &[Vec<String>]) -> (r: AmdUprofParsedReport)
    ensures
        r@ == report_from(rows_view(rows@), 0, empty_report()),
{
    let ghost rv = rows_view(rows@);
    let mut parsed = AmdUprofParsedReport::default();
    let mut index: usize = 0;
    while index < rows.len()
        invariant
            index <= rows@.len(),
            rv == rows_view(rows@),
            report_from(rv, 0, empty_report()) == report_from(rv, index as int, parsed@),
        ensures
            report_from(rv, 0, empty_report()) == parsed@,
        decreases rows@.len() - index,
    {
        let row = rows[index].as_slice();
        assert(rv[index as int] == row@.map_values(|c: String| c@));
        if is_blank(row) {
            index += 1;
            continue;
        }
        match single_non_empty_cell(row) {
            Some(title) => {
                let next_index = match next_non_blank(rows, index + 1) {
                    Some(n) => n,
                    None => break,
                };
                proof {
                    lemma_next_filled_row(rv, index + 1);
                }
                assert(rv[next_index as int] == rows@[next_index as int]@.map_values(|c: String| c@));
                if is_metadata_section(title.as_str()) {
                    proof {
                        lemma_metadata_section_advances(rv, next_index as int, parsed@);
                    }
                    index = parse_metadata_section(rows, next_index, &mut parsed);
                    continue;
                }
                if non_empty_count(rows[next_index].as_slice()) >= 2 {
                    proof {
                        lemma_table_at_advances(title@, rv, next_index as int);
                    }
                    let (table, after) = parse_table(title.as_str(), rows, next_index);
                    if parsed.tables.len() < MAX_TABLES_PER_REPORT {
                        let ghost before = parsed@;
                        let ghost tv = table@;
                        parsed.truncated = parsed.truncated || table.truncated;
                        parsed.tables.push(table);
                        proof {
                            assert(parsed@.tables =~= before.tables.push(tv));
                            assert(parsed@.metadata =~= before.metadata);
                        }
                    } else {
                        parsed.truncated = true;
                    }
                    index = after;
                    continue;
                }
            },
            None => {
                if non_empty_count(row) >= 2 {
                    proof {
                        lemma_first_filled(rv[index as int]);
                    }
                    let key = normalize_metadata_key(row[0].as_str());
                    let value = trim(row[1].as_str());
                    push_metadata(&mut parsed, key, value);
                }
            },
        }
        index += 1;
    }
    parsed
}

// ---------------------------------------------------------------------------
// Metadata lookup
// ---------------------------------------------------------------------------
/// The code of a character with ASCII upper-case letters made lower-case.
pub open spec fn ascii_lower(c: char) -> u32 {
    if 'A' <= c <= 'Z' {
        ((c as u32) + 32) as u32
    } else {
        c as u32
    }
}

/// `str::eq_ignore_ascii_case`: equal up to the case of ASCII letters.
pub open spec fn eq_ignore_case(a: Seq<char>, b: Seq<char>) -> bool {
    a.len() == b.len() && forall|i: int| 0 <= i < a.len() ==> ascii_lower(#[trigger] a[i]) == ascii_lower(b[i])
}

/// The index of the first metadata entry whose key matches `key`, or the
/// number of entries.
pub open spec fn metadata_index(m: Seq<(Seq<char>, Seq<char>)>, key: Seq<char>) -> int
    decreases m.len(),
{
    if m.len() == 0 {
        0
    } else if eq_ignore_case(m[0].0, key) {
        0
    } else {
        1 + metadata_index(m.drop_first(), key)
    }
}

proof fn lemma_metadata_index(m: Seq<(Seq<char>, Seq<char>)>, key: Seq<char>)
    ensures
        0 <= metadata_index(m, key) <= m.len(),
        forall|i: int| 0 <= i < metadata_index(m, key) ==> !eq_ignore_case(#[trigger] m[i].0, key),
        metadata_index(m, key) < m.len() ==> eq_ignore_case(m[metadata_index(m, key)].0, key),
    decreases m.len(),
{
    if m.len() > 0 {
        lemma_metadata_index(m.drop_first(), key);
        assert forall|i: int| 0 <= i < metadata_index(m, key) implies !eq_ignore_case(#[trigger] m[i].0, key) by {
            if i > 0 {
                assert(m[i] == m.drop_first()[i - 1]);
            }
        }
    }
}

fn lower_char(c: char) -> (r: u32)
    ensures
        r == ascii_lower(c),
{
    if 'A' <= c && c <= 'Z' {
        c as u32 + 32
    } else {
        c as u32
    }
}

/// Whether two strings are equal up to the case of ASCII letters.
pub fn eq_ignore_ascii_case(a: &str, b: &str) -> (r: bool)
    ensures
        r == eq_ignore_case(a@, b@),
{
    let x = chars_of(a);
    let y = chars_of(b);
    if x.len() != y.len() {
        return false;
    }
    let mut i: usize = 0;
    while i < x.len()
        invariant
            i <= x@.len(),
            x@.len() == y@.len(),
            x@ == a@,
            y@ == b@,
            forall|j: int| 0 <= j < i ==> ascii_lower(#[trigger] x@[j]) == ascii_lower(y@[j]),
        decreases x@.len() - i,
    {
        if lower_char(x[i]) != lower_char(y[i]) {
            return false;
        }
        i += 1;
    }
    true
}

impl AmdUprofParsedReport {
    /// The value of the first metadata entry whose key equals `key` up to
    /// ASCII case.
    pub fn metadata_value(&self, key: &str) -> (r: Option<&str>)
        ensures
            match r {
                Some(v) => metadata_index(self@.metadata, key@) < self@.metadata.len()
                    && v@ == self@.metadata[metadata_index(self@.metadata, key@)].1,
                None => metadata_index(self@.metadata, key@) == self@.metadata.len(),
            },
    {
        proof {
            lemma_metadata_index(self@.metadata, key@);
        }
        let mut i: usize = 0;
        while i < self.metadata.len()
            invariant
                i <= self.metadata@.len(),
                i <= metadata_index(self@.metadata, key@),
                0 <= metadata_index(self@.metadata, key@) <= self@.metadata.len(),
                forall|j: int| 0 <= j < metadata_index(self@.metadata, key@) ==> !eq_ignore_case(#[trigger] self@.metadata[j].0, key@),
                metadata_index(self@.metadata, key@) < self@.metadata.len() ==> eq_ignore_case(self@.metadata[metadata_index(self@.metadata, key@)].0, key@),
            decreases self.metadata@.len() - i,
        {
            if eq_ignore_ascii_case(self.metadata[i].key.as_str(), key) {
                assert(self@.metadata[i as int].0 == self.metadata@[i as int].key@);
                return Some(self.metadata[i].value.as_str());
            }
            assert(self@.metadata[i as int].0 == self.metadata@[i as int].key@);
            i += 1;
        }
        None
    }
}

// ---------------------------------------------------------------------------
// Reading a report file
// ---------------------------------------------------------------------------
#[verifier::external_type_specification]
#[verifier::external_body]
pub struct ExCsvError(csv::Error);

/// The records of a CSV text as read by the `csv` crate with no header row
/// and records of any length; `None` when it reports an error.
pub uninterp spec fn csv_records(text: Seq<char>) -> Option<Seq<Seq<Seq<char>>>>;

/// `csv::ReaderBuilder` without headers and with flexible records, reading
/// every record of `text` as its cells.
#[verifier::external_body]
fn read_csv_records(text: &str) -> (r: Result<Vec<Vec<String>>, csv::Error>)
    ensures
        match r {
            Ok(rows) => csv_records(text@) == Some(rows_view(rows@)),
            Err(_) => csv_records(text@) is None,
        },
{
    let mut reader = csv::ReaderBuilder::new().has_headers(false).flexible(true).from_reader(
        text.as_bytes(),
    );
    let mut rows = Vec::new();
    for record in reader.records() {
        let record = record?;
        rows.push(record.iter().map(|cell| cell.to_string()).collect::<Vec<String>>());
    }
    Ok(rows)
}

/// Rows with every cell trimmed.
pub open spec fn trimmed_rows(rows: Seq<Seq<Seq<char>>>) -> Seq<Seq<Seq<char>>> {
    rows.map_values(|r: Seq<Seq<char>>| trimmed_cells(r))
}

/// The rows with every cell trimmed.
pub fn trim_rows(rows: &[Vec<String>]) -> (r: Vec<Vec<String>>)
    ensures
        rows_view(r@) == trimmed_rows(rows_view(rows@)),
{
    let mut out: Vec<Vec<String>> = Vec::new();
    let mut i: usize = 0;
    while i < rows.len()
        invariant
            i <= rows@.len(),
            out@.len() == i,
            forall|k: int| 0 <= k < i ==> row_view(#[trigger] out@[k]) == trimmed_cells(row_view(rows@[k])),
        decreases rows@.len() - i,
    {
        let cells = normalized_cells(rows[i].as_slice());
        out.push(cells);
        i += 1;
    }
    proof {
        assert(rows_view(out@) =~= trimmed_rows(rows_view(rows@)));
    }
    out
}

/// Parses a uProf CSV report: its records, cells trimmed, read as a report.
pub fn parse_report_csv(csv: &str) -> (r: Result<AmdUprofParsedReport, csv::Error>)
    ensures
        match r {
            Ok(p) => csv_records(csv@) matches Some(rows) && p@ == report_from(trimmed_rows(rows), 0, empty_report()),
            Err(_) => csv_records(csv@) is None,
        },
        r matches Ok(p) ==> report_within_limits(p@) && truncation_marked(p@),
{
    let rows = match read_csv_records(csv) {
        Ok(rows) => rows,
        Err(e) => return Err(e),
    };
    let trimmed = trim_rows(rows.as_slice());
    let parsed = parse_report_rows(trimmed.as_slice());
    proof {
        lemma_report_within_limits(rows_view(trimmed@));
    }
    Ok(parsed)
}

// ---------------------------------------------------------------------------
// Report artifacts of a run
// ---------------------------------------------------------------------------
/// The uProf sessions and reports of one benchmark run.
#[derive(Debug)]
pub struct AmdUprofRun {
    pub session_paths: Vec<String>,
    pub reports: Vec<AmdUprofReportArtifact>,
}

/// One report of a run: where it was found, where it was copied to, and
/// what was read out of it.
#[derive(Debug)]
pub struct AmdUprofReportArtifact {
    pub original_path: String,
    pub copied_path: Option<String>,
    pub parsed: Option<AmdUprofParsedReport>,
    pub copy_error: Option<String>,
    pub parse_error: Option<String>,
}

impl AmdUprofReportArtifact {
    /// A report found at `original_path`, not yet copied or read.
    pub fn new(original_path: String) -> (r: Self)
        ensures
            r.original_path@ == original_path@,
            r.copied_path is None,
            r.parsed is None,
            r.copy_error is None,
            r.parse_error is None,
    {
        AmdUprofReportArtifact {
            original_path,
            copied_path: None,
            parsed: None,
            copy_error: None,
            parse_error: None,
        }
    }
}

/// A path component with `/`, `\\` and `:` replaced by `_`.
pub open spec fn sanitized_component(s: Seq<char>) -> Seq<char> {
    s.map_values(|c: char| if c == '/' || c == '\\' || c == ':' { '_' } else { c })
}

/// Replaces the characters that separate paths or drives by `_`.
pub fn sanitize_path_component(component: &str) -> (r: String)
    ensures
        r@ == sanitized_component(component@),
{
    let cs = chars_of(component);
    let mut out = String::new();
    let mut i: usize = 0;
    while i < cs.len()
        invariant
            i <= cs@.len(),
            cs@ == component@,
            out@ == sanitized_component(component@).take(i as int),
        decreases cs@.len() - i,
    {
        let c = cs[i];
        if c == '/' || c == '\\' || c == ':' {
            out.push('_');
        } else {
            out.push(c);
        }
        proof {
            assert(out@ =~= sanitized_component(component@).take(i + 1));
        }
        i += 1;
    }
    proof {
        assert(sanitized_component(component@).take(i as int) =~= sanitized_component(component@));
    }
    out
}

/// What became of copying a report into the output directory.
#[derive(Debug)]
pub enum CopyOutcome {
    /// The report file was not there.
    Missing,
    /// The report was copied to the given path.
    Copied(String),
    /// Copying failed with the given message.
    Failed(String),
}

/// Records how copying a report went and gives the path to read it from:
/// the copy, or the original when there is none.
pub fn record_copy(report: &mut AmdUprofReportArtifact, outcome: CopyOutcome) -> (r: String)
    ensures
        final(report).original_path == old(report).original_path,
        final(report).parsed == old(report).parsed,
        final(report).parse_error == old(report).parse_error,
        match outcome {
            CopyOutcome::Copied(p) => {
                &&& r@ == p@
                &&& final(report).copied_path matches Some(c) && c@ == p@
                &&& final(report).copy_error == old(report).copy_error
            },
            CopyOutcome::Failed(e) => {
                &&& r@ == old(report).original_path@
                &&& final(report).copied_path == old(report).copied_path
                &&& final(report).copy_error matches Some(c) && c@ == e@
            },
            CopyOutcome::Missing => {
                &&& r@ == old(report).original_path@
                &&& final(report).copied_path == old(report).copied_path
                &&& final(report).copy_error matches Some(c) && c@ == "report file does not exist"@
            },
        },
{
    match outcome {
        CopyOutcome::Copied(p) => {
            let path = p.clone();
            report.copied_path = Some(p);
            path
        },
        CopyOutcome::Failed(e) => {
            report.copy_error = Some(e);
            report.original_path.clone()
        },
        CopyOutcome::Missing => {
            report.copy_error = Some("report file does not exist".to_owned());
            report.original_path.clone()
        },
    }
}

/// The text of a CSV error.
#[verifier::external_body]
fn csv_error_message(e: &csv::Error) -> String {
    e.to_string()
}

/// Records the report read from the file's text, or why it could not be
/// read or parsed.
pub fn record_parse(report: &mut AmdUprofReportArtifact, text: Result<String, String>)
    ensures
        final(report).original_path == old(report).original_path,
        final(report).copied_path == old(report).copied_path,
        final(report).copy_error == old(report).copy_error,
        match text {
            Err(e) => {
                &&& final(report).parsed == old(report).parsed
                &&& final(report).parse_error matches Some(m) && m@ == e@
            },
            Ok(t) => match csv_records(t@) {
                Some(rows) => {
                    &&& final(report).parse_error == old(report).parse_error
                    &&& final(report).parsed matches Some(p) && p@ == report_from(trimmed_rows(rows), 0, empty_report())
                },
                None => final(report).parsed == old(report).parsed && final(report).parse_error is Some,
            },
        },
{
    match text {
        Ok(t) => match parse_report_csv(t.as_str()) {
            Ok(parsed) => report.parsed = Some(parsed),
            Err(err) => report.parse_error = Some(csv_error_message(&err)),
        },
        Err(e) => report.parse_error = Some(e),
    }
}

} // verus!
