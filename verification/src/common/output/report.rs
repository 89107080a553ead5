//! The Markdown of the benchmark report: escaping, tables, and the parts of
//! AMD uProf reports it shows.

use crate::benchmark::uprof::{
    metadata_index, AmdUprofParsedReport, AmdUprofReportArtifact, AmdUprofRun, AmdUprofTable,
    ReportModel, TableModel,
};
use crate::common::text::{append_str, chars_of, decimal, u64_text};
use vstd::prelude::*;

verus! {

/// Writes the report.
#[derive(Debug)]
pub struct ReportWriter {}

impl ReportWriter {
    /// A report writer.
    pub fn new() -> (r: Self) {
        ReportWriter {}
    }
}

/// Text on one line: line breaks become spaces.
pub open spec fn markdown_text_of(s: Seq<char>) -> Seq<char> {
    s.map_values(|c: char| if c == '\n' || c == '\r' { ' ' } else { c })
}

/// The characters of a table cell: on one line, with `|` escaped.
pub open spec fn cell_chars(c: char) -> Seq<char> {
    if c == '\n' || c == '\r' {
        seq![' ']
    } else if c == '|' {
        seq!['\\', '|']
    } else {
        seq![c]
    }
}

/// Text fit for a table cell.
pub open spec fn markdown_cell_of(s: Seq<char>) -> Seq<char>
    decreases s.len(),
{
    if s.len() == 0 {
        Seq::empty()
    } else {
        markdown_cell_of(s.drop_last()) + cell_chars(s.last())
    }
}

/// `text` with line breaks made spaces.
pub fn markdown_text(text: &str) -> (r: String)
    ensures
        r@ == markdown_text_of(text@),
{
    let cs = chars_of(text);
    let mut out = String::new();
    let mut i: usize = 0;
    while i < cs.len()
        invariant
            i <= cs@.len(),
            cs@ == text@,
            out@ == markdown_text_of(text@).take(i as int),
        decreases cs@.len() - i,
    {
        let c = cs[i];
        if c == '\n' || c == '\r' {
            out.push(' ');
        } else {
            out.push(c);
        }
        proof {
            assert(out@ =~= markdown_text_of(text@).take(i + 1));
        }
        i += 1;
    }
    proof {
        assert(markdown_text_of(text@).take(i as int) =~= markdown_text_of(text@));
    }
    out
}

/// `text` fit for a table cell: on one line, `|` escaped as `\|`.
pub fn markdown_cell(text: &str) -> (r: String)
    ensures
        r@ == markdown_cell_of(text@),
{
    let cs = chars_of(text);
    let mut out = String::new();
    let mut i: usize = 0;
    while i < cs.len()
        invariant
            i <= cs@.len(),
            cs@ == text@,
            out@ == markdown_cell_of(text@.take(i as int)),
        decreases cs@.len() - i,
    {
        let c = cs[i];
        if c == '\n' || c == '\r' {
            out.push(' ');
        } else if c == '|' {
            out.push('\\');
            out.push('|');
        } else {
            out.push(c);
        }
        proof {
            assert(text@.take(i + 1).drop_last() =~= text@.take(i as int));
            assert(out@ =~= markdown_cell_of(text@.take(i as int)) + cell_chars(c));
        }
        i += 1;
    }
    proof {
        assert(text@.take(i as int) =~= text@);
    }
    out
}

/// A row of a Markdown table: `| a | b |` and a line break.
pub open spec fn table_row_text(cells: Seq<Seq<char>>) -> Seq<char>
    decreases cells.len(),
{
    if cells.len() == 0 {
        seq!['|']
    } else {
        table_row_text(cells.drop_last()) + " "@ + markdown_cell_of(cells.last()) + " |"@
    }
}

/// The cells of a row under `n` headers: missing cells are empty, extra
/// cells dropped.
pub open spec fn padded_row(row: Seq<Seq<char>>, n: nat) -> Seq<Seq<char>> {
    Seq::new(n, |i: int| if i < row.len() {
        row[i]
    } else {
        Seq::empty()
    })
}

/// The separator row under `n` headers.
pub open spec fn separator_text(n: nat) -> Seq<char>
    decreases n,
{
    if n == 0 {
        seq!['|']
    } else {
        separator_text((n - 1) as nat) + "------|"@
    }
}

/// The body rows of a table, each padded to the headers.
pub open spec fn body_text(rows: Seq<Seq<Seq<char>>>, n: nat) -> Seq<char>
    decreases rows.len(),
{
    if rows.len() == 0 {
        Seq::empty()
    } else {
        body_text(rows.drop_last(), n) + table_row_text(padded_row(rows.last(), n)) + "\n"@
    }
}

/// A Markdown table with a blank line after it; nothing without headers.
pub open spec fn markdown_table_text(headers: Seq<Seq<char>>, rows: Seq<Seq<Seq<char>>>) -> Seq<char> {
    if headers.len() == 0 {
        Seq::empty()
    } else {
        table_row_text(headers) + "\n"@ + separator_text(headers.len()) + "\n"@ + body_text(rows, headers.len())
            + "\n"@
    }
}

fn row_text(cells: &Vec<String>, n: usize) -> (r: String)
    ensures
        r@ == table_row_text(padded_row(cells@.map_values(|c: String| c@), n as nat)),
{
    let ghost row = cells@.map_values(|c: String| c@);
    let mut out = String::new();
    out.push('|');
    let mut i: usize = 0;
    proof {
        assert(padded_row(row, 0) =~= Seq::<Seq<char>>::empty());
        assert(out@ =~= seq!['|']);
    }
    while i < n
        invariant
            i <= n,
            row == cells@.map_values(|c: String| c@),
            out@ == table_row_text(padded_row(row, i as nat)),
        decreases n - i,
    {
        let cell = if i < cells.len() {
            markdown_cell(cells[i].as_str())
        } else {
            markdown_cell("")
        };
        append_str(&mut out, " ");
        append_str(&mut out, cell.as_str());
        append_str(&mut out, " |");
        proof {
            assert(padded_row(row, (i + 1) as nat).drop_last() =~= padded_row(row, i as nat));
            if (i as int) >= row.len() {
                assert(""@ =~= Seq::<char>::empty()) by {
                    reveal_strlit("");
                }
            }
        }
        i += 1;
    }
    out
}

/// Appends a Markdown table of `headers` and `rows` to `markdown`: every
/// row padded or cut to the headers, nothing when there are no headers.
pub fn render_markdown_table(markdown: &mut String, headers: &Vec<String>, rows: &Vec<Vec<String>>)
    ensures
        final(markdown)@ == old(markdown)@ + markdown_table_text(
            headers@.map_values(|c: String| c@),
            rows@.map_values(|r: Vec<String>| r@.map_values(|c: String| c@)),
        ),
{
    let ghost hs = headers@.map_values(|c: String| c@);
    let ghost rs = rows@.map_values(|r: Vec<String>| r@.map_values(|c: String| c@));
    if headers.len() == 0 {
        assert(old(markdown)@ + markdown_table_text(hs, rs) =~= old(markdown)@);
        return;
    }
    let n = headers.len();
    let head = row_text(headers, n);
    proof {
        assert(padded_row(hs, n as nat) =~= hs);
    }
    append_str(markdown, head.as_str());
    append_str(markdown, "\n");
    let mut sep = String::new();
    sep.push('|');
    let mut i: usize = 0;
    proof {
        assert(sep@ =~= seq!['|']);
    }
    while i < n
        invariant
            i <= n,
            sep@ == separator_text(i as nat),
        decreases n - i,
    {
        append_str(&mut sep, "------|");
        i += 1;
    }
    append_str(markdown, sep.as_str());
    append_str(markdown, "\n");
    let mut body = String::new();
    let mut k: usize = 0;
    proof {
        assert(rs.take(0) =~= Seq::<Seq<Seq<char>>>::empty());
        assert(body@ =~= Seq::<char>::empty());
    }
    while k < rows.len()
        invariant
            k <= rows@.len(),
            n == headers@.len(),
            rs == rows@.map_values(|r: Vec<String>| r@.map_values(|c: String| c@)),
            body@ == body_text(rs.take(k as int), n as nat),
        decreases rows@.len() - k,
    {
        let line = row_text(&rows[k], n);
        append_str(&mut body, line.as_str());
        append_str(&mut body, "\n");
        proof {
            assert(rs.take(k + 1).drop_last() =~= rs.take(k as int));
            assert(rs.take(k + 1).last() == rows@[k as int]@.map_values(|c: String| c@));
        }
        k += 1;
    }
    proof {
        assert(rs.take(k as int) =~= rs);
    }
    append_str(markdown, body.as_str());
    append_str(markdown, "\n");
    proof {
        assert(markdown@ =~= old(markdown)@ + markdown_table_text(hs, rs));
    }
}

/// The index of the first header equal to `h`, if any.
pub open spec fn header_position(headers: Seq<Seq<char>>, h: Seq<char>) -> Option<int>
    decreases headers.len(),
{
    if headers.len() == 0 {
        None
    } else if headers[0] == h {
        Some(0)
    } else {
        match header_position(headers.drop_first(), h) {
            Some(i) => Some(i + 1),
            None => None,
        }
    }
}

proof fn lemma_header_position(hs: Seq<Seq<char>>, h: Seq<char>)
    ensures
        match header_position(hs, h) {
            Some(i) => 0 <= i < hs.len() && hs[i] == h && forall|j: int| 0 <= j < i ==> #[trigger] hs[j] != h,
            None => forall|j: int| 0 <= j < hs.len() ==> #[trigger] hs[j] != h,
        },
    decreases hs.len(),
{
    if hs.len() > 0 {
        let t = hs.drop_first();
        lemma_header_position(t, h);
        if hs[0] != h {
            assert forall|j: int| 0 < j < hs.len() implies hs[j] == #[trigger] t[j - 1] by {}
            match header_position(t, h) {
                Some(i) => {
                    assert(header_position(hs, h) == Some(i + 1));
                    assert forall|j: int| 0 <= j < i + 1 implies #[trigger] hs[j] != h by {
                        if j > 0 {
                            assert(hs[j] == t[j - 1]);
                        }
                    }
                },
                None => {
                    assert forall|j: int| 0 <= j < hs.len() implies #[trigger] hs[j] != h by {
                        if j > 0 {
                            assert(hs[j] == t[j - 1]);
                        }
                    }
                },
            }
        }
    }
}

/// The index of the first column of `table` headed `header`.
pub fn header_index(table: &AmdUprofTable, header: &str) -> (r: Option<usize>)
    ensures
        match r {
            Some(i) => header_position(table@.headers, header@) == Some(i as int),
            None => header_position(table@.headers, header@) is None,
        },
{
    let ghost hs = table@.headers;
    proof {
        lemma_header_position(hs, header@);
    }
    let target = header.to_owned();
    let mut i: usize = 0;
    while i < table.headers.len()
        invariant
            i <= table.headers@.len(),
            hs == table@.headers,
            hs.len() == table.headers@.len(),
            target@ == header@,
            forall|j: int| 0 <= j < i ==> #[trigger] hs[j] != header@,
            match header_position(hs, header@) {
                Some(p) => 0 <= p < hs.len() && hs[p] == header@ && forall|j: int| 0 <= j < p ==> #[trigger] hs[j] != header@,
                None => forall|j: int| 0 <= j < hs.len() ==> #[trigger] hs[j] != header@,
            },
        decreases table.headers@.len() - i,
    {
        assert(hs[i as int] == table.headers@[i as int]@);
        if table.headers[i] == target {
            return Some(i);
        }
        i += 1;
    }
    None
}

/// The columns of a table of L1 data-cache counters.
#[derive(Debug, Clone, Copy)]
pub struct CacheTableIndexes {
    pub accesses: usize,
    pub local_l2: usize,
    pub local_cache: usize,
    pub external_cache: usize,
    pub local_dram: usize,
}

/// The columns of the L1 data-cache counters of a table, when it has all
/// five.
pub fn cache_table_indexes(table: &AmdUprofTable) -> (r: Option<CacheTableIndexes>)
    ensures
        match r {
            Some(x) => {
                &&& header_position(table@.headers, "L1_DC_ACCESSES_ALL.USER"@) == Some(x.accesses as int)
                &&& header_position(table@.headers, "L1_DEMAND_DC_REFILLS_LOCAL_L2.USER"@) == Some(x.local_l2 as int)
                &&& header_position(table@.headers, "L1_DEMAND_DC_REFILLS_LOCAL_CACHE.USER"@) == Some(x.local_cache as int)
                &&& header_position(table@.headers, "L1_DEMAND_DC_REFILLS_EXTERNAL_CACHE_LOCAL.USER"@) == Some(x.external_cache as int)
                &&& header_position(table@.headers, "L1_DEMAND_DC_REFILLS_LOCAL_DRAM.USER"@) == Some(x.local_dram as int)
            },
            None => {
                ||| header_position(table@.headers, "L1_DC_ACCESSES_ALL.USER"@) is None
                ||| header_position(table@.headers, "L1_DEMAND_DC_REFILLS_LOCAL_L2.USER"@) is None
                ||| header_position(table@.headers, "L1_DEMAND_DC_REFILLS_LOCAL_CACHE.USER"@) is None
                ||| header_position(table@.headers, "L1_DEMAND_DC_REFILLS_EXTERNAL_CACHE_LOCAL.USER"@) is None
                ||| header_position(table@.headers, "L1_DEMAND_DC_REFILLS_LOCAL_DRAM.USER"@) is None
            },
        },
{
    let accesses = match header_index(table, "L1_DC_ACCESSES_ALL.USER") {
        Some(i) => i,
        None => return None,
    };
    let local_l2 = match header_index(table, "L1_DEMAND_DC_REFILLS_LOCAL_L2.USER") {
        Some(i) => i,
        None => return None,
    };
    let local_cache = match header_index(table, "L1_DEMAND_DC_REFILLS_LOCAL_CACHE.USER") {
        Some(i) => i,
        None => return None,
    };
    let external_cache = match header_index(table, "L1_DEMAND_DC_REFILLS_EXTERNAL_CACHE_LOCAL.USER") {
        Some(i) => i,
        None => return None,
    };
    let local_dram = match header_index(table, "L1_DEMAND_DC_REFILLS_LOCAL_DRAM.USER") {
        Some(i) => i,
        None => return None,
    };
    Some(CacheTableIndexes { accesses, local_l2, local_cache, external_cache, local_dram })
}

/// The value of a metadata key of a report, empty when there is no report
/// or no such key.
pub open spec fn metadata_or_empty_of(parsed: Option<ReportModel>, key: Seq<char>) -> Seq<char> {
    match parsed {
        Some(p) => if metadata_index(p.metadata, key) < p.metadata.len() {
            p.metadata[metadata_index(p.metadata, key)].1
        } else {
            Seq::empty()
        },
        None => Seq::empty(),
    }
}

/// The value of a metadata key of a report, or the empty string.
pub fn metadata_or_empty<'a>(parsed: Option<&'a AmdUprofParsedReport>, key: &str) -> (r: &'a str)
    ensures
        r@ == metadata_or_empty_of(
            match parsed {
                Some(p) => Some(p@),
                None => None,
            },
            key@,
        ),
{
    match parsed {
        Some(p) => match p.metadata_value(key) {
            Some(v) => v,
            None => {
                proof {
                    reveal_strlit("");
                }
                ""
            },
        },
        None => {
            proof {
                reveal_strlit("");
            }
            ""
        },
    }
}

/// The metadata keys the report shows first, in order.
pub open spec fn promoted_keys() -> Seq<Seq<char>> {
    seq!["Profile Session Type"@, "Selected View"@, "Profile Duration"@, "Thread Count"@, "Data Folder"@]
}

/// The promoted keys a report has, with their values.
pub open spec fn promoted_rows(p: ReportModel, keys: Seq<Seq<char>>) -> Seq<(Seq<char>, Seq<char>)>
    decreases keys.len(),
{
    if keys.len() == 0 {
        Seq::empty()
    } else {
        let rest = promoted_rows(p, keys.drop_last());
        let k = keys.last();
        let i = metadata_index(p.metadata, k);
        if i < p.metadata.len() {
            rest.push((k, p.metadata[i].1))
        } else {
            rest
        }
    }
}

/// The lines of the promoted metadata table.
pub open spec fn metadata_lines(rows: Seq<(Seq<char>, Seq<char>)>) -> Seq<char>
    decreases rows.len(),
{
    if rows.len() == 0 {
        Seq::empty()
    } else {
        metadata_lines(rows.drop_last()) + "| "@ + markdown_cell_of(rows.last().0) + " | "@ + markdown_cell_of(
            rows.last().1,
        ) + " |\n"@
    }
}

/// The promoted metadata table of a report, nothing when it has none of
/// the keys.
pub open spec fn report_metadata_text(p: ReportModel) -> Seq<char> {
    let rows = promoted_rows(p, promoted_keys());
    if rows.len() == 0 {
        Seq::empty()
    } else {
        "| Field | Value |\n"@ + "|-------|-------|\n"@ + metadata_lines(rows) + "\n"@
    }
}

/// Appends the promoted metadata table of a report to `markdown`.
pub fn render_report_metadata(markdown: &mut String, parsed: &AmdUprofParsedReport)
    ensures
        final(markdown)@ == old(markdown)@ + report_metadata_text(parsed@),
{
    let mut keys: Vec<&str> = Vec::new();
    keys.push("Profile Session Type");
    keys.push("Selected View");
    keys.push("Profile Duration");
    keys.push("Thread Count");
    keys.push("Data Folder");
    let ghost ks = keys@.map_values(|k: &str| k@);
    proof {
        assert(ks =~= promoted_keys());
    }
    let mut lines = String::new();
    let mut count: usize = 0;
    let mut i: usize = 0;
    proof {
        assert(ks.take(0) =~= Seq::<Seq<char>>::empty());
    }
    while i < keys.len()
        invariant
            i <= keys@.len(),
            keys@.len() == 5,
            count <= i,
            ks == keys@.map_values(|k: &str| k@),
            count == promoted_rows(parsed@, ks.take(i as int)).len(),
            lines@ == metadata_lines(promoted_rows(parsed@, ks.take(i as int))),
        decreases keys@.len() - i,
    {
        proof {
            assert(ks.take(i + 1).drop_last() =~= ks.take(i as int));
            assert(ks.take(i + 1).last() == keys@[i as int]@);
        }
        let ghost prev = promoted_rows(parsed@, ks.take(i as int));
        match parsed.metadata_value(keys[i]) {
            Some(v) => {
                proof {
                    let nxt = promoted_rows(parsed@, ks.take(i + 1));
                    assert(nxt == prev.push((keys@[i as int]@, v@)));
                    assert(nxt.drop_last() =~= prev);
                }
                let k = markdown_cell(keys[i]);
                let c = markdown_cell(v);
                append_str(&mut lines, "| ");
                append_str(&mut lines, k.as_str());
                append_str(&mut lines, " | ");
                append_str(&mut lines, c.as_str());
                append_str(&mut lines, " |\n");
                count += 1;
            },
            None => {},
        }
        i += 1;
    }
    proof {
        assert(ks.take(i as int) =~= ks);
    }
    if count == 0 {
        assert(old(markdown)@ + report_metadata_text(parsed@) =~= old(markdown)@);
        return;
    }
    append_str(markdown, "| Field | Value |\n");
    append_str(markdown, "|-------|-------|\n");
    append_str(markdown, lines.as_str());
    append_str(markdown, "\n");
    proof {
        assert(markdown@ =~= old(markdown)@ + report_metadata_text(parsed@));
    }
}

// ---------------------------------------------------------------------------
// The results table
// ---------------------------------------------------------------------------
/// The file the report is written to: a template `name.hbs` gives `name`,
/// any other template or none gives `results.md`.
pub open spec fn report_file_name_of(hbs_template_stem: Option<Seq<char>>) -> Seq<char> {
    match hbs_template_stem {
        Some(stem) => stem,
        None => "results.md"@,
    }
}

/// The file the report is written to, from the stem of the template when
/// its extension is `hbs`.
pub fn report_file_name(hbs_template_stem: Option<&str>) -> (r: String)
    ensures
        r@ == report_file_name_of(match hbs_template_stem {
            Some(s) => Some(s@),
            None => None,
        }),
{
    match hbs_template_stem {
        Some(stem) => stem.to_owned(),
        None => "results.md".to_owned(),
    }
}

/// The tags that make text bold in the report: HTML tags for an `.html`
/// report, `**` otherwise.
pub fn bolding_tags(extension: Option<&str>) -> (r: (String, String))
    ensures
        (extension matches Some(e) && e@ == "html"@) ==> r.0@ == "<strong>"@ && r.1@ == "</strong>"@,
        !(extension matches Some(e) && e@ == "html"@) ==> r.0@ == "**"@ && r.1@ == "**"@,
{
    let is_html = match extension {
        Some(e) => e.to_owned() == "html".to_owned(),
        None => false,
    };
    if is_html {
        ("<strong>".to_owned(), "</strong>".to_owned())
    } else {
        ("**".to_owned(), "**".to_owned())
    }
}

/// The largest of some values, 0 when there are none.
pub open spec fn max_or_zero(v: Seq<u64>) -> u64
    decreases v.len(),
{
    if v.len() == 0 {
        0
    } else {
        let m = max_or_zero(v.drop_last());
        if m >= v.last() {
            m
        } else {
            v.last()
        }
    }
}

/// The UPS cells of the results table: each value in decimal, the largest
/// ones between the bolding tags.
pub open spec fn ups_cells_of(v: Seq<u64>, open: Seq<char>, close: Seq<char>) -> Seq<Seq<char>> {
    v.map_values(|x: u64| if x == max_or_zero(v) {
        open + decimal(x as nat) + close
    } else {
        decimal(x as nat)
    })
}

proof fn lemma_max_or_zero(v: Seq<u64>)
    ensures
        forall|j: int| 0 <= j < v.len() ==> #[trigger] v[j] <= max_or_zero(v),
        v.len() > 0 ==> exists|j: int| 0 <= j < v.len() && #[trigger] v[j] == max_or_zero(v),
    decreases v.len(),
{
    if v.len() > 0 {
        let d = v.drop_last();
        lemma_max_or_zero(d);
        assert forall|j: int| 0 <= j < v.len() implies #[trigger] v[j] <= max_or_zero(v) by {
            if j < v.len() - 1 {
                assert(v[j] == d[j]);
            }
        }
        if d.len() > 0 && max_or_zero(d) >= v.last() {
            let j = choose|j: int| 0 <= j < d.len() && #[trigger] d[j] == max_or_zero(d);
            assert(v[j] == d[j]);
        } else {
            assert(v[v.len() - 1] == v.last());
        }
    }
}

/// The UPS column of the results table: each cell is its value in decimal,
/// between the bolding tags exactly when no value of the column is larger.
pub proof fn lemma_best_ups_bold(v: Seq<u64>, open: Seq<char>, close: Seq<char>)
    ensures
        ups_cells_of(v, open, close).len() == v.len(),
        forall|i: int|
            0 <= i < v.len() ==> #[trigger] ups_cells_of(v, open, close)[i] == if (forall|j: int|
                0 <= j < v.len() ==> v[j] <= v[i]) {
                open + decimal(v[i] as nat) + close
            } else {
                decimal(v[i] as nat)
            },
{
    lemma_max_or_zero(v);
    assert forall|i: int| 0 <= i < v.len() implies #[trigger] ups_cells_of(v, open, close)[i] == if (forall|j: int|
        0 <= j < v.len() ==> v[j] <= v[i]) {
        open + decimal(v[i] as nat) + close
    } else {
        decimal(v[i] as nat)
    } by {
        let m = max_or_zero(v);
        let w = choose|j: int| 0 <= j < v.len() && #[trigger] v[j] == m;
        if forall|j: int| 0 <= j < v.len() ==> v[j] <= v[i] {
            assert(v[w] <= v[i]);
            assert(v[i] <= m);
        } else {
            if v[i] == m {
                assert forall|j: int| 0 <= j < v.len() implies v[j] <= v[i] by {
                    assert(v[j] <= m);
                }
            }
        }
    }
}

/// The UPS cells of the results table, the best marked bold.
pub fn highlight_best_ups(values: &Vec<u64>, open: &str, close: &str) -> (r: Vec<String>)
    ensures
        r@.map_values(|s: String| s@) == ups_cells_of(values@, open@, close@),
{
    let mut best: u64 = 0;
    let mut i: usize = 0;
    proof {
        assert(values@.take(0) =~= Seq::<u64>::empty());
    }
    while i < values.len()
        invariant
            i <= values@.len(),
            best == max_or_zero(values@.take(i as int)),
        decreases values@.len() - i,
    {
        proof {
            assert(values@.take(i + 1).drop_last() =~= values@.take(i as int));
        }
        if values[i] > best {
            best = values[i];
        }
        i += 1;
    }
    proof {
        assert(values@.take(i as int) =~= values@);
    }
    let mut out: Vec<String> = Vec::new();
    let mut k: usize = 0;
    while k < values.len()
        invariant
            k <= values@.len(),
            best == max_or_zero(values@),
            out@.len() == k,
            forall|q: int| 0 <= q < k ==> (#[trigger] out@[q])@ == (if values@[q] == best {
                open@ + decimal(values@[q] as nat) + close@
            } else {
                decimal(values@[q] as nat)
            }),
        decreases values@.len() - k,
    {
        let digits = u64_text(values[k]);
        if values[k] == best {
            let mut cell = String::new();
            append_str(&mut cell, open);
            append_str(&mut cell, digits.as_str());
            append_str(&mut cell, close);
            out.push(cell);
        } else {
            out.push(digits);
        }
        k += 1;
    }
    proof {
        assert(out@.map_values(|s: String| s@) =~= ups_cells_of(values@, open@, close@));
    }
    out
}

// ---------------------------------------------------------------------------
// The AMD uProf section
// ---------------------------------------------------------------------------
/// A profiled run as the report shows it. The paths are shown relative to
/// the output directory, and the cache summaries are rendered already, one
/// for each report.
#[derive(Debug)]
pub struct UprofRunSection {
    pub save_name: String,
    pub index: u32,
    pub uprof: AmdUprofRun,
    /// Each session path as shown.
    pub session_cells: Vec<String>,
    /// The path of each report as shown.
    pub report_paths: Vec<String>,
    /// The L1 data-cache summary of each report.
    pub cache_summaries: Vec<String>,
}

/// A section whose lists are as long as its reports and sessions.
pub open spec fn section_wf(s: UprofRunSection) -> bool {
    &&& s.session_cells@.len() == s.uprof.session_paths@.len()
    &&& s.report_paths@.len() == s.uprof.reports@.len()
    &&& s.cache_summaries@.len() == s.uprof.reports@.len()
}

/// The view of an optional report.
pub open spec fn parsed_view(p: Option<AmdUprofParsedReport>) -> Option<ReportModel> {
    match p {
        Some(x) => Some(x@),
        None => None,
    }
}

/// A summary row for a session that has no report yet.
pub open spec fn session_row(s: UprofRunSection, k: int) -> Seq<char> {
    "| "@ + markdown_cell_of(s.save_name@) + " | "@ + decimal(s.index as nat) + " |  |  |  |  | "@ + markdown_cell_of(
        s.session_cells@[k]@,
    ) + " | Run `"@ + markdown_cell_of("AMDuProfCLI report -i "@ + s.uprof.session_paths@[k]@) + "` |\n"@
}

/// The session shown for the reports of a run: its last, if any.
pub open spec fn last_session_cell(s: UprofRunSection) -> Seq<char> {
    if s.session_cells@.len() > 0 {
        s.session_cells@.last()@
    } else {
        Seq::empty()
    }
}

/// A summary row for a report.
pub open spec fn report_row(s: UprofRunSection, k: int) -> Seq<char> {
    let p = parsed_view(s.uprof.reports@[k].parsed);
    "| "@ + markdown_cell_of(s.save_name@) + " | "@ + decimal(s.index as nat) + " | "@ + markdown_cell_of(
        metadata_or_empty_of(p, "Profile Session Type"@),
    ) + " | "@ + markdown_cell_of(metadata_or_empty_of(p, "Selected View"@)) + " | "@ + markdown_cell_of(
        metadata_or_empty_of(p, "Profile Duration"@),
    ) + " | "@ + markdown_cell_of(metadata_or_empty_of(p, "Thread Count"@)) + " | "@ + markdown_cell_of(
        last_session_cell(s),
    ) + " | "@ + markdown_cell_of(s.report_paths@[k]@) + " |\n"@
}

/// The first `n` session rows of a run.
pub open spec fn session_rows(s: UprofRunSection, n: int) -> Seq<char>
    decreases n,
{
    if n <= 0 {
        Seq::empty()
    } else {
        session_rows(s, n - 1) + session_row(s, n - 1)
    }
}

/// The first `n` report rows of a run.
pub open spec fn report_rows(s: UprofRunSection, n: int) -> Seq<char>
    decreases n,
{
    if n <= 0 {
        Seq::empty()
    } else {
        report_rows(s, n - 1) + report_row(s, n - 1)
    }
}

/// The summary rows of a run: one per session when it has no reports, else
/// one per report.
pub open spec fn summary_rows(s: UprofRunSection) -> Seq<char> {
    if s.uprof.reports@.len() == 0 {
        session_rows(s, s.uprof.session_paths@.len() as int)
    } else {
        report_rows(s, s.uprof.reports@.len() as int)
    }
}

/// The tables of a parsed report, each with its title, and a note when it
/// was cut.
pub open spec fn tables_text(tables: Seq<TableModel>, path: Seq<char>) -> Seq<char>
    decreases tables.len(),
{
    if tables.len() == 0 {
        Seq::empty()
    } else {
        let t = tables.last();
        tables_text(tables.drop_last(), path) + "#### "@ + markdown_text_of(t.title) + "\n\n"@ + markdown_table_text(
            t.headers,
            t.rows,
        ) + if t.truncated {
            "This AMD uProf table was truncated in Markdown. Full CSV: `"@ + markdown_text_of(path) + "`\n\n"@
        } else {
            Seq::empty()
        }
    }
}

/// The detail of report `k` of a run.
pub open spec fn report_detail(s: UprofRunSection, k: int) -> Seq<char> {
    let r = s.uprof.reports@[k];
    let path = s.report_paths@[k]@;
    let head = "\n### "@ + s.save_name@ + " / run_"@ + decimal(s.index as nat) + " / report_"@ + decimal(k as nat)
        + "\n\n"@;
    let copy = match r.copy_error {
        Some(e) => "Report archive warning: "@ + markdown_text_of(e@) + "\n\n"@,
        None => Seq::empty(),
    };
    let parse = match r.parse_error {
        Some(e) => "Report parse warning: "@ + markdown_text_of(e@) + ". Full CSV: `"@ + markdown_text_of(path) + "`\n\n"@,
        None => Seq::empty(),
    };
    let body = match r.parsed {
        Some(p) => report_metadata_text(p@) + s.cache_summaries@[k]@ + tables_text(p@.tables, path) + if p@.truncated {
            "This AMD uProf report was truncated in Markdown. Full CSV: `"@ + markdown_text_of(path) + "`\n\n"@
        } else {
            Seq::empty()
        },
        None => Seq::empty(),
    };
    head + copy + parse + body
}

/// The details of the first `n` reports of a run.
pub open spec fn report_details(s: UprofRunSection, n: int) -> Seq<char>
    decreases n,
{
    if n <= 0 {
        Seq::empty()
    } else {
        report_details(s, n - 1) + report_detail(s, n - 1)
    }
}

/// The summary rows of the first `n` runs.
pub open spec fn all_summary_rows(runs: Seq<UprofRunSection>, n: int) -> Seq<char>
    decreases n,
{
    if n <= 0 {
        Seq::empty()
    } else {
        all_summary_rows(runs, n - 1) + summary_rows(runs[n - 1])
    }
}

/// The report details of the first `n` runs.
pub open spec fn all_report_details(runs: Seq<UprofRunSection>, n: int) -> Seq<char>
    decreases n,
{
    if n <= 0 {
        Seq::empty()
    } else {
        all_report_details(runs, n - 1) + report_details(runs[n - 1], runs[n - 1].uprof.reports@.len() as int)
    }
}

/// The AMD uProf section of the report: nothing without profiled runs, else
/// a summary table of every session or report, then the detail of each
/// report.
pub open spec fn uprof_markdown_of(runs: Seq<UprofRunSection>) -> Seq<char> {
    if runs.len() == 0 {
        Seq::empty()
    } else {
        "## AMD uProf\n\n"@ + "| Save | Run | Profile | View | Duration | Threads | Session | Report |\n"@
            + "|------|-----|---------|------|----------|---------|---------|--------|\n"@ + all_summary_rows(
            runs,
            runs.len() as int,
        ) + all_report_details(runs, runs.len() as int) + "\n"@
    }
}

fn push_summary_rows(md: &mut String, s: &UprofRunSection)
    requires
        section_wf(*s),
    ensures
        final(md)@ == old(md)@ + summary_rows(*s),
{
    let save = markdown_cell(s.save_name.as_str());
    let index = u64_text(s.index as u64);
    if s.uprof.reports.len() == 0 {
        let mut k: usize = 0;
        while k < s.uprof.session_paths.len()
            invariant
                k <= s.uprof.session_paths@.len(),
                section_wf(*s),
                save@ == markdown_cell_of(s.save_name@),
                index@ == decimal(s.index as nat),
                md@ == old(md)@ + session_rows(*s, k as int),
            decreases s.uprof.session_paths@.len() - k,
        {
            append_str(md, "| ");
            append_str(md, save.as_str());
            append_str(md, " | ");
            append_str(md, index.as_str());
            append_str(md, " |  |  |  |  | ");
            let session = markdown_cell(s.session_cells[k].as_str());
            append_str(md, session.as_str());
            append_str(md, " | Run `");
            let mut command = String::new();
            append_str(&mut command, "AMDuProfCLI report -i ");
            append_str(&mut command, s.uprof.session_paths[k].as_str());
            let command_cell = markdown_cell(command.as_str());
            append_str(md, command_cell.as_str());
            append_str(md, "` |\n");
            proof {
                assert(md@ =~= old(md)@ + session_rows(*s, k as int) + session_row(*s, k as int));
            }
            k += 1;
        }
    } else {
        let last_session = if s.session_cells.len() > 0 {
            markdown_cell(s.session_cells[s.session_cells.len() - 1].as_str())
        } else {
            markdown_cell("")
        };
        proof {
            reveal_strlit("");
            assert(""@ =~= Seq::<char>::empty());
        }
        let mut k: usize = 0;
        while k < s.uprof.reports.len()
            invariant
                k <= s.uprof.reports@.len(),
                section_wf(*s),
                save@ == markdown_cell_of(s.save_name@),
                index@ == decimal(s.index as nat),
                last_session@ == markdown_cell_of(last_session_cell(*s)),
                md@ == old(md)@ + report_rows(*s, k as int),
            decreases s.uprof.reports@.len() - k,
        {
            let row = report_row_text(s, k, &save, &index, &last_session);
            append_str(md, row.as_str());
            k += 1;
        }
    }
}

fn metadata_cells(parsed: Option<&AmdUprofParsedReport>) -> (r: String)
    ensures
        r@ == markdown_cell_of(metadata_or_empty_of(parsed_opt(parsed), "Profile Session Type"@)) + " | "@
            + markdown_cell_of(metadata_or_empty_of(parsed_opt(parsed), "Selected View"@)) + " | "@
            + markdown_cell_of(metadata_or_empty_of(parsed_opt(parsed), "Profile Duration"@)) + " | "@
            + markdown_cell_of(metadata_or_empty_of(parsed_opt(parsed), "Thread Count"@)),
{
    let mut out = String::new();
    let c1 = markdown_cell(metadata_or_empty(parsed, "Profile Session Type"));
    append_str(&mut out, c1.as_str());
    append_str(&mut out, " | ");
    let c2 = markdown_cell(metadata_or_empty(parsed, "Selected View"));
    append_str(&mut out, c2.as_str());
    append_str(&mut out, " | ");
    let c3 = markdown_cell(metadata_or_empty(parsed, "Profile Duration"));
    append_str(&mut out, c3.as_str());
    append_str(&mut out, " | ");
    let c4 = markdown_cell(metadata_or_empty(parsed, "Thread Count"));
    append_str(&mut out, c4.as_str());
    out
}

/// The view of an optional reference to a report.
pub open spec fn parsed_opt(p: Option<&AmdUprofParsedReport>) -> Option<ReportModel> {
    match p {
        Some(x) => Some(x@),
        None => None,
    }
}

fn report_row_text(s: &UprofRunSection, k: usize, save: &String, index: &String, last_session: &String) -> (r: String)
    requires
        section_wf(*s),
        k < s.uprof.reports@.len(),
        save@ == markdown_cell_of(s.save_name@),
        index@ == decimal(s.index as nat),
        last_session@ == markdown_cell_of(last_session_cell(*s)),
    ensures
        r@ == report_row(*s, k as int),
{
    let parsed = s.uprof.reports[k].parsed.as_ref();
    proof {
        assert(parsed_view(s.uprof.reports@[k as int].parsed) == parsed_opt(parsed));
    }
    let mut out = String::new();
    append_str(&mut out, "| ");
    append_str(&mut out, save.as_str());
    append_str(&mut out, " | ");
    append_str(&mut out, index.as_str());
    append_str(&mut out, " | ");
    let cells = metadata_cells(parsed);
    append_str(&mut out, cells.as_str());
    append_str(&mut out, " | ");
    append_str(&mut out, last_session.as_str());
    append_str(&mut out, " | ");
    let path = markdown_cell(s.report_paths[k].as_str());
    append_str(&mut out, path.as_str());
    append_str(&mut out, " |\n");
    proof {
        assert(out@ =~= report_row(*s, k as int));
    }
    out
}

fn push_tables(md: &mut String, tables: &Vec<AmdUprofTable>, path: &str)
    ensures
        final(md)@ == old(md)@ + tables_text(tables@.map_values(|t: AmdUprofTable| t@), path@),
{
    let ghost tv = tables@.map_values(|t: AmdUprofTable| t@);
    let mut i: usize = 0;
    proof {
        assert(tv.take(0) =~= Seq::<TableModel>::empty());
        assert(md@ =~= old(md)@ + tables_text(tv.take(0), path@));
    }
    while i < tables.len()
        invariant
            i <= tables@.len(),
            tv == tables@.map_values(|t: AmdUprofTable| t@),
            md@ == old(md)@ + tables_text(tv.take(i as int), path@),
        decreases tables@.len() - i,
    {
        let ghost before = md@;
        let t = &tables[i];
        append_str(md, "#### ");
        let title = markdown_text(t.title.as_str());
        append_str(md, title.as_str());
        append_str(md, "\n\n");
        render_markdown_table(md, &t.headers, &t.rows);
        if t.truncated {
            append_str(md, "This AMD uProf table was truncated in Markdown. Full CSV: `");
            let p = markdown_text(path);
            append_str(md, p.as_str());
            append_str(md, "`\n\n");
        }
        proof {
            assert(tv.take(i + 1).drop_last() =~= tv.take(i as int));
            assert(tv.take(i + 1).last() == t@);
            assert(t@.rows =~= t.rows@.map_values(|r: Vec<String>| r@.map_values(|c: String| c@)));
            assert(md@ =~= old(md)@ + tables_text(tv.take(i + 1), path@));
        }
        i += 1;
    }
    proof {
        assert(tv.take(i as int) =~= tv);
    }
}

fn detail_head(save: &str, index: u32, k: usize) -> (r: String)
    ensures
        r@ == "\n### "@ + save@ + " / run_"@ + decimal(index as nat) + " / report_"@ + decimal(k as nat) + "\n\n"@,
{
    let mut out = String::new();
    append_str(&mut out, "\n### ");
    append_str(&mut out, save);
    append_str(&mut out, " / run_");
    let i = u64_text(index as u64);
    append_str(&mut out, i.as_str());
    append_str(&mut out, " / report_");
    let rk = u64_text(k as u64);
    append_str(&mut out, rk.as_str());
    append_str(&mut out, "\n\n");
    out
}

fn detail_warnings(report: &AmdUprofReportArtifact, path: &str) -> (r: String)
    ensures
        r@ == (match report.copy_error {
            Some(e) => "Report archive warning: "@ + markdown_text_of(e@) + "\n\n"@,
            None => Seq::empty(),
        }) + (match report.parse_error {
            Some(e) => "Report parse warning: "@ + markdown_text_of(e@) + ". Full CSV: `"@ + markdown_text_of(path@)
                + "`\n\n"@,
            None => Seq::empty(),
        }),
{
    let mut out = String::new();
    match &report.copy_error {
        Some(e) => {
            append_str(&mut out, "Report archive warning: ");
            let t = markdown_text(e.as_str());
            append_str(&mut out, t.as_str());
            append_str(&mut out, "\n\n");
        },
        None => {},
    }
    let ghost copy = out@;
    match &report.parse_error {
        Some(e) => {
            append_str(&mut out, "Report parse warning: ");
            let t = markdown_text(e.as_str());
            append_str(&mut out, t.as_str());
            append_str(&mut out, ". Full CSV: `");
            let p = markdown_text(path);
            append_str(&mut out, p.as_str());
            append_str(&mut out, "`\n\n");
        },
        None => {},
    }
    proof {
        assert(out@ =~= (match report.copy_error {
            Some(e) => "Report archive warning: "@ + markdown_text_of(e@) + "\n\n"@,
            None => Seq::empty(),
        }) + (match report.parse_error {
            Some(e) => "Report parse warning: "@ + markdown_text_of(e@) + ". Full CSV: `"@ + markdown_text_of(path@)
                + "`\n\n"@,
            None => Seq::empty(),
        }));
    }
    out
}

fn detail_body(parsed: &AmdUprofParsedReport, cache_summary: &str, path: &str) -> (r: String)
    ensures
        r@ == report_metadata_text(parsed@) + cache_summary@ + tables_text(parsed@.tables, path@) + if parsed@.truncated {
            "This AMD uProf report was truncated in Markdown. Full CSV: `"@ + markdown_text_of(path@) + "`\n\n"@
        } else {
            Seq::empty()
        },
{
    let mut out = String::new();
    render_report_metadata(&mut out, parsed);
    append_str(&mut out, cache_summary);
    push_tables(&mut out, &parsed.tables, path);
    if parsed.truncated {
        append_str(&mut out, "This AMD uProf report was truncated in Markdown. Full CSV: `");
        let p = markdown_text(path);
        append_str(&mut out, p.as_str());
        append_str(&mut out, "`\n\n");
    }
    out
}

fn push_report_details(md: &mut String, s: &UprofRunSection)
    requires
        section_wf(*s),
    ensures
        final(md)@ == old(md)@ + report_details(*s, s.uprof.reports@.len() as int),
{
    let mut k: usize = 0;
    while k < s.uprof.reports.len()
        invariant
            k <= s.uprof.reports@.len(),
            section_wf(*s),
            md@ == old(md)@ + report_details(*s, k as int),
        decreases s.uprof.reports@.len() - k,
    {
        let report = &s.uprof.reports[k];
        let path = s.report_paths[k].as_str();
        let head = detail_head(s.save_name.as_str(), s.index, k);
        let warnings = detail_warnings(report, path);
        let body = match &report.parsed {
            Some(parsed) => detail_body(parsed, s.cache_summaries[k].as_str(), path),
            None => String::new(),
        };
        let ghost before = md@;
        append_str(md, head.as_str());
        append_str(md, warnings.as_str());
        append_str(md, body.as_str());
        proof {
            assert(md@ =~= before + report_detail(*s, k as int));
        }
        k += 1;
    }
}

/// The AMD uProf section of the report.
pub fn render_amd_uprof_markdown(runs: &Vec<UprofRunSection>) -> (r: String)
    requires
        forall|i: int| 0 <= i < runs@.len() ==> section_wf(#[trigger] runs@[i]),
    ensures
        r@ == uprof_markdown_of(runs@),
{
    let mut md = String::new();
    if runs.len() == 0 {
        return md;
    }
    append_str(&mut md, "## AMD uProf\n\n");
    append_str(&mut md, "| Save | Run | Profile | View | Duration | Threads | Session | Report |\n");
    append_str(&mut md, "|------|-----|---------|------|----------|---------|---------|--------|\n");
    let ghost head = md@;
    let mut i: usize = 0;
    while i < runs.len()
        invariant
            i <= runs@.len(),
            forall|q: int| 0 <= q < runs@.len() ==> section_wf(#[trigger] runs@[q]),
            md@ == head + all_summary_rows(runs@, i as int),
        decreases runs@.len() - i,
    {
        push_summary_rows(&mut md, &runs[i]);
        i += 1;
    }
    let ghost mid = md@;
    let mut j: usize = 0;
    while j < runs.len()
        invariant
            j <= runs@.len(),
            forall|q: int| 0 <= q < runs@.len() ==> section_wf(#[trigger] runs@[q]),
            md@ == mid + all_report_details(runs@, j as int),
        decreases runs@.len() - j,
    {
        push_report_details(&mut md, &runs[j]);
        j += 1;
    }
    append_str(&mut md, "\n");
    proof {
        assert(md@ =~= uprof_markdown_of(runs@));
    }
    md
}

} // verus!
