//! Error types: what went wrong, with an optional hint and the tail of the
//! output of the Factorio process that failed.

use crate::common::text::{append_str, chars_of, decimal, i64_text, int_text, trim, trimmed, u64_text};
use vstd::prelude::*;

verus! {

// ---------------------------------------------------------------------------
// Lines
// ---------------------------------------------------------------------------
/// The index of the first `\n` of `s`, or its length.
pub open spec fn newline_index(s: Seq<char>) -> int
    decreases s.len(),
{
    if s.len() == 0 {
        0
    } else if s[0] == '\n' {
        0
    } else {
        1 + newline_index(s.drop_first())
    }
}

/// A line without the `\r` that preceded its `\n`.
pub open spec fn strip_cr(line: Seq<char>) -> Seq<char> {
    if line.len() > 0 && line.last() == '\r' {
        line.drop_last()
    } else {
        line
    }
}

/// `str::lines`: the pieces of `s` between `\n`s, without a `\r` right
/// before a `\n`; a final `\n` starts no empty line.
pub open spec fn lines_of(s: Seq<char>) -> Seq<Seq<char>>
    decreases s.len(),
{
    if s.len() == 0 {
        Seq::empty()
    } else {
        let i = newline_index(s);
        if i >= s.len() {
            seq![s]
        } else {
            proof {
                lemma_newline_index(s);
            }
            seq![strip_cr(s.take(i))] + lines_of(s.skip(i + 1))
        }
    }
}

pub proof fn lemma_newline_index(s: Seq<char>)
    ensures
        0 <= newline_index(s) <= s.len(),
        forall|j: int| 0 <= j < newline_index(s) ==> #[trigger] s[j] != '\n',
        newline_index(s) < s.len() ==> s[newline_index(s)] == '\n',
    decreases s.len(),
{
    if s.len() > 0 {
        lemma_newline_index(s.drop_first());
        assert forall|j: int| 0 <= j < newline_index(s) implies #[trigger] s[j] != '\n' by {
            if j > 0 {
                assert(s[j] == s.drop_first()[j - 1]);
            }
        }
    }
}

/// The pieces joined with `sep` between them.
pub open spec fn joined(pieces: Seq<Seq<char>>, sep: Seq<char>) -> Seq<char>
    decreases pieces.len(),
{
    if pieces.len() == 0 {
        Seq::empty()
    } else if pieces.len() == 1 {
        pieces[0]
    } else {
        joined(pieces.drop_last(), sep) + sep + pieces.last()
    }
}

/// The lines of `text`, one string each.
pub fn lines(text: &str) -> (r: Vec<String>)
    ensures
        r@.map_values(|l: String| l@) == lines_of(text@),
{
    let cs = chars_of(text);
    let n = cs.len();
    let mut out: Vec<String> = Vec::new();
    let mut j: usize = 0;
    proof {
        assert(cs@.skip(0) =~= cs@);
        assert(out@.map_values(|l: String| l@) =~= Seq::<Seq<char>>::empty());
        assert(Seq::<Seq<char>>::empty() + lines_of(cs@) =~= lines_of(cs@));
    }
    while j < n
        invariant
            j <= n,
            n == cs@.len(),
            cs@ == text@,
            lines_of(text@) == out@.map_values(|l: String| l@) + lines_of(cs@.skip(j as int)),
        decreases n - j,
    {
        let ghost rest = cs@.skip(j as int);
        proof {
            lemma_newline_index(rest);
        }
        let mut i = j;
        while i < n && cs[i] != '\n'
            invariant
                j <= i <= n,
                n == cs@.len(),
                rest == cs@.skip(j as int),
                i - j <= newline_index(rest),
                forall|k: int| 0 <= k < newline_index(rest) ==> #[trigger] rest[k] != '\n',
                newline_index(rest) < rest.len() ==> rest[newline_index(rest)] == '\n',
            decreases n - i,
        {
            assert(rest[i - j] == cs@[i as int]);
            i += 1;
        }
        proof {
            if i < n {
                assert(rest[i - j] == cs@[i as int]);
            }
            assert(i - j == newline_index(rest));
        }
        let end = if i < n && i > j && cs[i - 1] == '\r' {
            i - 1
        } else {
            i
        };
        let mut line = String::new();
        let mut k = j;
        while k < end
            invariant
                j <= k <= end <= n,
                n == cs@.len(),
                line@ == cs@.subrange(j as int, k as int),
            decreases end - k,
        {
            line.push(cs[k]);
            proof {
                assert(line@ =~= cs@.subrange(j as int, k + 1));
            }
            k += 1;
        }
        let ghost before = out@;
        let ghost lv = line@;
        out.push(line);
        proof {
            assert(out@.map_values(|l: String| l@) =~= before.map_values(|l: String| l@).push(lv));
            if i < n {
                assert(rest.take(i - j) =~= cs@.subrange(j as int, i as int));
                assert(rest.skip(i - j + 1) =~= cs@.skip(i + 1));
                assert(lv =~= strip_cr(rest.take(i - j)));
                assert(lines_of(rest) == seq![lv] + lines_of(cs@.skip(i + 1)));
                assert(out@.map_values(|l: String| l@) + lines_of(cs@.skip(i + 1)) =~= before.map_values(|l: String| l@) + lines_of(rest));
            } else {
                assert(rest =~= cs@.subrange(j as int, n as int));
                assert(lines_of(rest) == seq![rest]);
                assert(cs@.skip(n as int) =~= Seq::<char>::empty());
                assert(out@.map_values(|l: String| l@) + lines_of(cs@.skip(n as int)) =~= before.map_values(|l: String| l@) + lines_of(rest));
            }
        }
        j = if i < n {
            i + 1
        } else {
            n
        };
    }
    proof {
        assert(cs@.skip(j as int) =~= Seq::<char>::empty());
        assert(out@.map_values(|l: String| l@) + Seq::<Seq<char>>::empty() =~= out@.map_values(|l: String| l@));
    }
    out
}

/// The strings of `pieces` from `from` on, joined with `sep`.
pub fn join_from(pieces: &Vec<String>, from: usize, sep: &str) -> (r: String)
    requires
        from <= pieces@.len(),
    ensures
        r@ == joined(pieces@.map_values(|l: String| l@).skip(from as int), sep@),
{
    let ghost all = pieces@.map_values(|l: String| l@);
    let mut out = String::new();
    let mut i = from;
    proof {
        assert(all.subrange(from as int, from as int) =~= Seq::<Seq<char>>::empty());
    }
    while i < pieces.len()
        invariant
            from <= i <= pieces@.len(),
            all == pieces@.map_values(|l: String| l@),
            out@ == joined(all.subrange(from as int, i as int), sep@),
        decreases pieces@.len() - i,
    {
        let ghost prev = all.subrange(from as int, i as int);
        let ghost next = all.subrange(from as int, i + 1);
        assert(next.drop_last() =~= prev);
        assert(next.last() == pieces@[i as int]@);
        if i > from {
            append_str(&mut out, sep);
        } else {
            assert(prev.len() == 0);
        }
        append_str(&mut out, pieces[i].as_str());
        i += 1;
    }
    proof {
        assert(all.subrange(from as int, i as int) =~= all.skip(from as int));
    }
    out
}

/// How many lines are dropped to keep at most `max` of `n`.
pub open spec fn skipped_count(n: nat, max: nat) -> nat {
    if n > max {
        (n - max) as nat
    } else {
        0
    }
}

/// The last `max` lines of `text` joined with `\n`, after a line telling
/// how many earlier lines were left out, when any were.
pub open spec fn tail_text(text: Seq<char>, max: nat) -> Seq<char> {
    let ls = lines_of(text);
    let skipped = skipped_count(ls.len(), max);
    let head = if skipped > 0 {
        "... omitted "@ + decimal(skipped) + " earlier line(s)\n"@
    } else {
        Seq::empty()
    };
    head + joined(ls.skip(skipped as int), "\n"@)
}

/// The last `max_lines` lines of `text`.
pub fn tail_lines(text: &str, max_lines: usize) -> (r: String)
    ensures
        r@ == tail_text(text@, max_lines as nat),
{
    let ls = lines(text);
    let skipped = if ls.len() > max_lines {
        ls.len() - max_lines
    } else {
        0
    };
    let mut output = String::new();
    if skipped > 0 {
        append_str(&mut output, "... omitted ");
        let n = u64_text(skipped as u64);
        append_str(&mut output, n.as_str());
        append_str(&mut output, " earlier line(s)\n");
    }
    let rest = join_from(&ls, skipped, "\n");
    append_str(&mut output, rest.as_str());
    proof {
        assert(ls@.map_values(|l: String| l@).len() == ls@.len());
    }
    output
}

/// The sections of captured process output: the tail of standard error,
/// then that of standard output, each only when not blank.
pub open spec fn process_output_text(stdout: Seq<char>, stderr: Seq<char>) -> Seq<char> {
    let err = "Factorio stderr:\n"@ + tail_text(stderr, 40);
    let out = "Factorio stdout:\n"@ + tail_text(stdout, 40);
    if trimmed(stderr).len() > 0 && trimmed(stdout).len() > 0 {
        err + "\n\n"@ + out
    } else if trimmed(stderr).len() > 0 {
        err
    } else if trimmed(stdout).len() > 0 {
        out
    } else {
        Seq::empty()
    }
}

/// The captured output of a process, bounded to the last 40 lines of each
/// stream.
pub fn format_process_output(stdout: &str, stderr: &str) -> (r: String)
    ensures
        r@ == process_output_text(stdout@, stderr@),
{
    let has_err = !trim(stderr).as_str().is_empty();
    let has_out = !trim(stdout).as_str().is_empty();
    let mut out = String::new();
    if has_err {
        append_str(&mut out, "Factorio stderr:\n");
        let t = tail_lines(stderr, 40);
        append_str(&mut out, t.as_str());
    }
    if has_out {
        if has_err {
            append_str(&mut out, "\n\n");
        }
        append_str(&mut out, "Factorio stdout:\n");
        let t = tail_lines(stdout, 40);
        append_str(&mut out, t.as_str());
    }
    proof {
        let err = "Factorio stderr:\n"@ + tail_text(stderr@, 40);
        let o = "Factorio stdout:\n"@ + tail_text(stdout@, 40);
        if has_err && has_out {
            assert(out@ =~= err + "\n\n"@ + o);
        } else if has_err {
            assert(out@ =~= err);
        } else if has_out {
            assert(out@ =~= o);
        } else {
            assert(out@ =~= Seq::<char>::empty());
        }
    }
    out
}


/// What went wrong. Errors of other libraries are held as their text.
#[derive(Debug)]
pub enum BenchmarkErrorKind {
    FactorioNotFound,
    FactorioNotFoundAtPath { path: String },
    SaveDirectoryNotFound { path: String },
    NoSaveFilesFound { pattern: String, directory: String },
    InvalidSaveFile { path: String, reason: String },
    InvalidSaveFileName { path: String },
    InvalidModsFileName { path: String },
    /// Holds the text of the decoding error.
    InvalidUtf8Output(String),
    /// Holds the text of the template error.
    ProgressBarError(String),
    FactorioProcessFailed { code: i32 },
    /// Holds the text of the render error.
    TemplateRenderError(String),
    /// Holds the text of the template error.
    TemplateError(String),
    /// Holds the text of the CSV error.
    CsvError(String),
    /// Holds the text of the I/O error.
    IoError(String),
    /// Holds the text of the glob error.
    GlobError(String),
    /// Holds the text of the pattern error.
    GlobPatternError(String),
    /// Holds the text of the JSON error.
    JsonError(String),
    InvalidRunOrder { input: String },
    InvalidWriteData,
    SanitizerNotFound,
    /// Holds the text of the parse error.
    ParseIntError(String),
    /// Holds the text of the parse error.
    ParseFloatError(String),
    NoProductionStatistics,
    NoInputStatistics,
    NoOutputStatistics,
    BlueprintDirectoryNotFound { path: String },
    NoBlueprintFilesFound { pattern: String, directory: String },
    InvalidBlueprintFileName { path: String },
    NoModsDirectoryFound,
    MalformedBenchmarkOutput { field: String, string: String },
    MissingCaptureField { field: String },
    /// Holds the offending path.
    ConfigLoadError(String),
    /// Holds the offending path.
    ConfigNotFound(String),
}

/// The message of an error kind.
pub open spec fn kind_text(k: BenchmarkErrorKind) -> Seq<char> {
    match k {
        BenchmarkErrorKind::FactorioNotFound => "Factorio executable not found. Please provide it explicitly with --factorio-path"@,
        BenchmarkErrorKind::FactorioNotFoundAtPath { path } => "Factorio executable not fund at provided path: "@ + path@,
        BenchmarkErrorKind::SaveDirectoryNotFound { path } => "Save directory does not exist: "@ + path@,
        BenchmarkErrorKind::NoSaveFilesFound { pattern, directory } => "No save files found matching pattern '"@ + pattern@ + "' in "@ + directory@,
        BenchmarkErrorKind::InvalidSaveFile { path, reason } => "Invalid save file: "@ + path@ + " - "@ + reason@,
        BenchmarkErrorKind::InvalidSaveFileName { path } => "Invalid save file name: "@ + path@,
        BenchmarkErrorKind::InvalidModsFileName { path } => "Invalid mods file name: "@ + path@,
        BenchmarkErrorKind::InvalidUtf8Output(v0) => "Invalid UTF-8 in Factorio output"@,
        BenchmarkErrorKind::ProgressBarError(v0) => "Progress bar template error: "@ + v0@,
        BenchmarkErrorKind::FactorioProcessFailed { code } => "Factorio process failed with exit code "@ + int_text(code as int) + "."@,
        BenchmarkErrorKind::TemplateRenderError(v0) => "Template render error: "@ + v0@,
        BenchmarkErrorKind::TemplateError(v0) => "Template error: "@ + v0@,
        BenchmarkErrorKind::CsvError(v0) => "CSV error: "@ + v0@,
        BenchmarkErrorKind::IoError(v0) => "IO error: "@ + v0@,
        BenchmarkErrorKind::GlobError(v0) => "Glob error: "@ + v0@,
        BenchmarkErrorKind::GlobPatternError(v0) => "Glob pattern error: "@ + v0@,
        BenchmarkErrorKind::JsonError(v0) => "JSON Serialization error: "@ + v0@,
        BenchmarkErrorKind::InvalidRunOrder { input } => "Invalid run order: "@ + input@ + ". Valid options: sequential, random, grouped"@,
        BenchmarkErrorKind::InvalidWriteData => "Invalid WriteData"@,
        BenchmarkErrorKind::SanitizerNotFound => "Belt-Sanitizer directory not found"@,
        BenchmarkErrorKind::ParseIntError(v0) => "Couldn't parse into int: "@ + v0@,
        BenchmarkErrorKind::ParseFloatError(v0) => "Couldn't parse into float: "@ + v0@,
        BenchmarkErrorKind::NoProductionStatistics => "No production statistics found"@,
        BenchmarkErrorKind::NoInputStatistics => "No input statistics in production statistics found"@,
        BenchmarkErrorKind::NoOutputStatistics => "No output statistics in production statistics found"@,
        BenchmarkErrorKind::BlueprintDirectoryNotFound { path } => "Blueprint directory does not exist: "@ + path@,
        BenchmarkErrorKind::NoBlueprintFilesFound { pattern, directory } => "No blueprint files found matching pattern '"@ + pattern@ + "' in "@ + directory@,
        BenchmarkErrorKind::InvalidBlueprintFileName { path } => "Invalid Blueprint file name: "@ + path@,
        BenchmarkErrorKind::NoModsDirectoryFound => "No mods directory found."@,
        BenchmarkErrorKind::MalformedBenchmarkOutput { field, string } => "Malformed benchmark output: "@ + field@ + " "@ + string@,
        BenchmarkErrorKind::MissingCaptureField { field } => "Missing capture field: "@ + field@,
        BenchmarkErrorKind::ConfigLoadError(v0) => "Failed to load configuration: "@ + v0@,
        BenchmarkErrorKind::ConfigNotFound(v0) => "Configuration file not found: "@ + v0@,
    }
}

impl BenchmarkErrorKind {
    /// The message of this error kind.
    pub fn message(&self) -> (r: String)
        ensures
            r@ == kind_text(*self),
    {
        let mut out = String::new();
        match self {
            BenchmarkErrorKind::FactorioNotFound => {
                append_str(&mut out, "Factorio executable not found. Please provide it explicitly with --factorio-path");
            },
            BenchmarkErrorKind::FactorioNotFoundAtPath { path } => {
                append_str(&mut out, "Factorio executable not fund at provided path: ");
                append_str(&mut out, path.as_str());
            },
            BenchmarkErrorKind::SaveDirectoryNotFound { path } => {
                append_str(&mut out, "Save directory does not exist: ");
                append_str(&mut out, path.as_str());
            },
            BenchmarkErrorKind::NoSaveFilesFound { pattern, directory } => {
                append_str(&mut out, "No save files found matching pattern '");
                append_str(&mut out, pattern.as_str());
                append_str(&mut out, "' in ");
                append_str(&mut out, directory.as_str());
            },
            BenchmarkErrorKind::InvalidSaveFile { path, reason } => {
                append_str(&mut out, "Invalid save file: ");
                append_str(&mut out, path.as_str());
                append_str(&mut out, " - ");
                append_str(&mut out, reason.as_str());
            },
            BenchmarkErrorKind::InvalidSaveFileName { path } => {
                append_str(&mut out, "Invalid save file name: ");
                append_str(&mut out, path.as_str());
            },
            BenchmarkErrorKind::InvalidModsFileName { path } => {
                append_str(&mut out, "Invalid mods file name: ");
                append_str(&mut out, path.as_str());
            },
            BenchmarkErrorKind::InvalidUtf8Output(v0) => {
                append_str(&mut out, "Invalid UTF-8 in Factorio output");
            },
            BenchmarkErrorKind::ProgressBarError(v0) => {
                append_str(&mut out, "Progress bar template error: ");
                append_str(&mut out, v0.as_str());
            },
            BenchmarkErrorKind::FactorioProcessFailed { code } => {
                append_str(&mut out, "Factorio process failed with exit code ");
                let t = i64_text(*code as i64);
                append_str(&mut out, t.as_str());
                append_str(&mut out, ".");
            },
            BenchmarkErrorKind::TemplateRenderError(v0) => {
                append_str(&mut out, "Template render error: ");
                append_str(&mut out, v0.as_str());
            },
            BenchmarkErrorKind::TemplateError(v0) => {
                append_str(&mut out, "Template error: ");
                append_str(&mut out, v0.as_str());
            },
            BenchmarkErrorKind::CsvError(v0) => {
                append_str(&mut out, "CSV error: ");
                append_str(&mut out, v0.as_str());
            },
            BenchmarkErrorKind::IoError(v0) => {
                append_str(&mut out, "IO error: ");
                append_str(&mut out, v0.as_str());
            },
            BenchmarkErrorKind::GlobError(v0) => {
                append_str(&mut out, "Glob error: ");
                append_str(&mut out, v0.as_str());
            },
            BenchmarkErrorKind::GlobPatternError(v0) => {
                append_str(&mut out, "Glob pattern error: ");
                append_str(&mut out, v0.as_str());
            },
            BenchmarkErrorKind::JsonError(v0) => {
                append_str(&mut out, "JSON Serialization error: ");
                append_str(&mut out, v0.as_str());
            },
            BenchmarkErrorKind::InvalidRunOrder { input } => {
                append_str(&mut out, "Invalid run order: ");
                append_str(&mut out, input.as_str());
                append_str(&mut out, ". Valid options: sequential, random, grouped");
            },
            BenchmarkErrorKind::InvalidWriteData => {
                append_str(&mut out, "Invalid WriteData");
            },
            BenchmarkErrorKind::SanitizerNotFound => {
                append_str(&mut out, "Belt-Sanitizer directory not found");
            },
            BenchmarkErrorKind::ParseIntError(v0) => {
                append_str(&mut out, "Couldn't parse into int: ");
                append_str(&mut out, v0.as_str());
            },
            BenchmarkErrorKind::ParseFloatError(v0) => {
                append_str(&mut out, "Couldn't parse into float: ");
                append_str(&mut out, v0.as_str());
            },
            BenchmarkErrorKind::NoProductionStatistics => {
                append_str(&mut out, "No production statistics found");
            },
            BenchmarkErrorKind::NoInputStatistics => {
                append_str(&mut out, "No input statistics in production statistics found");
            },
            BenchmarkErrorKind::NoOutputStatistics => {
                append_str(&mut out, "No output statistics in production statistics found");
            },
            BenchmarkErrorKind::BlueprintDirectoryNotFound { path } => {
                append_str(&mut out, "Blueprint directory does not exist: ");
                append_str(&mut out, path.as_str());
            },
            BenchmarkErrorKind::NoBlueprintFilesFound { pattern, directory } => {
                append_str(&mut out, "No blueprint files found matching pattern '");
                append_str(&mut out, pattern.as_str());
                append_str(&mut out, "' in ");
                append_str(&mut out, directory.as_str());
            },
            BenchmarkErrorKind::InvalidBlueprintFileName { path } => {
                append_str(&mut out, "Invalid Blueprint file name: ");
                append_str(&mut out, path.as_str());
            },
            BenchmarkErrorKind::NoModsDirectoryFound => {
                append_str(&mut out, "No mods directory found.");
            },
            BenchmarkErrorKind::MalformedBenchmarkOutput { field, string } => {
                append_str(&mut out, "Malformed benchmark output: ");
                append_str(&mut out, field.as_str());
                append_str(&mut out, " ");
                append_str(&mut out, string.as_str());
            },
            BenchmarkErrorKind::MissingCaptureField { field } => {
                append_str(&mut out, "Missing capture field: ");
                append_str(&mut out, field.as_str());
            },
            BenchmarkErrorKind::ConfigLoadError(v0) => {
                append_str(&mut out, "Failed to load configuration: ");
                append_str(&mut out, v0.as_str());
            },
            BenchmarkErrorKind::ConfigNotFound(v0) => {
                append_str(&mut out, "Configuration file not found: ");
                append_str(&mut out, v0.as_str());
            },
        }
        out
    }
}

/// An error: what went wrong, an optional hint, and the captured output of
/// the process that failed.
#[derive(Debug)]
pub struct BenchmarkError {
    pub kind: Box<BenchmarkErrorKind>,
    pub hint: Option<String>,
    pub process_output: Option<String>,
}

impl From<BenchmarkErrorKind> for BenchmarkError {
    fn from(kind: BenchmarkErrorKind) -> (r: Self) {
        BenchmarkError { kind: Box::new(kind), hint: None, process_output: None }
    }
}

impl vstd::std_specs::convert::FromSpecImpl<BenchmarkErrorKind> for BenchmarkError {
    open spec fn obeys_from_spec() -> bool {
        true
    }

    open spec fn from_spec(kind: BenchmarkErrorKind) -> Self {
        BenchmarkError { kind: Box::new(kind), hint: None, process_output: None }
    }
}

/// The message of an error: the kind's message, the hint in parentheses,
/// then the process output after a blank line.
pub open spec fn error_text(e: BenchmarkError) -> Seq<char> {
    let hint = match e.hint {
        Some(h) => " ("@ + h@ + ")"@,
        None => Seq::empty(),
    };
    let output = match e.process_output {
        Some(o) => "\n\n"@ + o@,
        None => Seq::empty(),
    };
    kind_text(*e.kind) + hint + output
}

impl BenchmarkError {
    /// Attaches a hint, when there is one; an earlier hint stays otherwise.
    pub fn with_hint(self, hint: Option<String>) -> (r: Self)
        ensures
            r.kind == self.kind,
            r.process_output == self.process_output,
            r.hint == (match hint {
                Some(h) => Some(h),
                None => self.hint,
            }),
    {
        let mut e = self;
        if let Some(h) = hint {
            e.hint = Some(h);
        }
        e
    }

    /// Attaches the captured output of a process, when it is not blank.
    pub fn with_process_output(self, stdout: &str, stderr: &str) -> (r: Self)
        ensures
            r.kind == self.kind,
            r.hint == self.hint,
            process_output_text(stdout@, stderr@).len() > 0 ==> (r.process_output matches Some(o)
                && o@ == process_output_text(stdout@, stderr@)),
            process_output_text(stdout@, stderr@).len() == 0 ==> r.process_output == self.process_output,
    {
        let output = format_process_output(stdout, stderr);
        let mut e = self;
        if !output.as_str().is_empty() {
            e.process_output = Some(output);
        }
        e
    }

    /// The message of this error.
    pub fn to_string(&self) -> (r: String)
        ensures
            r@ == error_text(*self),
    {
        let mut out = self.kind.message();
        match &self.hint {
            Some(h) => {
                append_str(&mut out, " (");
                append_str(&mut out, h.as_str());
                append_str(&mut out, ")");
            },
            None => {},
        }
        match &self.process_output {
            Some(o) => {
                append_str(&mut out, "\n\n");
                append_str(&mut out, o.as_str());
            },
            None => {},
        }
        proof {
            assert(out@ =~= error_text(*self));
        }
        out
    }
}

} // verus!
