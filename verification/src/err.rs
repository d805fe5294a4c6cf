//! The diagnostic-reporting facility shared by every stage.
//!
//! A `Diagnostic` carries a source position, a message, an optional fix
//! suggestion and a severity: a user error, or an internal compiler error for
//! a violated invariant the compiler itself is responsible for.  A stage that
//! detects malformed input builds a `Diagnostic` through its `ErrorHandler`
//! and returns it to its caller; the surrounding driver renders it and
//! terminates the process.  Rendering to text is in this module too; only the
//! final write to the error stream and the process exit live outside the
//! library.

use vstd::prelude::*;

use crate::strutil::{char_repeat, chars_to_string, dec_str, repeat_char, string_to_chars,
    usize_to_string};

verus! {

/// A positioned, fatal error report.  `comperr` marks an internal compiler
/// error (a compiler bug) as opposed to a mistake in the user's source text.
#[derive(Debug, Clone, PartialEq, Eq)]
pub struct Diagnostic {
    pub file: String,
    pub line: usize,
    pub column: usize,
    pub message: String,
    pub suggestion: Option<String>,
    pub comperr: bool,
}

/// The mathematical image of a `Diagnostic`.
#[verifier::ext_equal]
pub ghost struct SpecDiagnostic {
    pub file: Seq<char>,
    pub line: int,
    pub column: int,
    pub message: Seq<char>,
    pub suggestion: Option<Seq<char>>,
    pub comperr: bool,
}

impl View for Diagnostic {
    type V = SpecDiagnostic;

    open spec fn view(&self) -> SpecDiagnostic {
        SpecDiagnostic {
            file: self.file@,
            line: self.line as int,
            column: self.column as int,
            message: self.message@,
            suggestion: match self.suggestion {
                Some(s) => Some(s@),
                None => None,
            },
            comperr: self.comperr,
        }
    }
}

/// An error report not yet tied to a file name: what the lexer, the parser
/// and the code generator compute.  The `ErrorHandler` turns one into a
/// `Diagnostic` by adding the file name.
#[verifier::ext_equal]
pub ghost struct Report {
    pub line: int,
    pub column: int,
    pub message: Seq<char>,
    pub suggestion: Option<Seq<char>>,
    pub comperr: bool,
}

/// Whether diagnostic `d` renders report `r` against file name `file`.
pub open spec fn diag_of_report(d: SpecDiagnostic, file: Seq<char>, r: Report) -> bool {
    &&& d.file == file
    &&& d.line == r.line
    &&& d.column == r.column
    &&& d.message == r.message
    &&& d.suggestion == r.suggestion
    &&& d.comperr == r.comperr
}

// ---------------------------------------------------------------------------
// Source lines
// ---------------------------------------------------------------------------

/// The index of the first newline in `s`, or `s.len()` if none occurs.
pub open spec fn nl_idx(s: Seq<char>) -> int
    decreases s.len(),
{
    if s.len() == 0 {
        0
    } else if s[0] == '\n' {
        0
    } else {
        1 + nl_idx(s.subrange(1, s.len() as int))
    }
}

pub proof fn lemma_nl_idx_bounds(s: Seq<char>)
    ensures
        0 <= nl_idx(s) <= s.len(),
    decreases s.len(),
{
    if s.len() > 0 && s[0] != '\n' {
        lemma_nl_idx_bounds(s.subrange(1, s.len() as int));
    }
}

pub proof fn lemma_nl_idx_at(s: Seq<char>, k: int)
    requires
        0 <= k < s.len(),
        forall|i: int| 0 <= i < k ==> s[i] != '\n',
        s[k] == '\n',
    ensures
        nl_idx(s) == k,
    decreases k,
{
    if k > 0 {
        lemma_nl_idx_at(s.subrange(1, s.len() as int), k - 1);
    }
}

pub proof fn lemma_nl_idx_none(s: Seq<char>)
    requires
        forall|i: int| 0 <= i < s.len() ==> s[i] != '\n',
    ensures
        nl_idx(s) == s.len(),
    decreases s.len(),
{
    if s.len() > 0 {
        lemma_nl_idx_none(s.subrange(1, s.len() as int));
    }
}

/// A line with a trailing carriage return removed.
pub open spec fn strip_cr(l: Seq<char>) -> Seq<char> {
    if l.len() > 0 && l[l.len() - 1] == '\r' {
        l.subrange(0, l.len() - 1)
    } else {
        l
    }
}

/// The lines of a source text: split at each newline, with a carriage
/// return immediately before the newline removed; a final line without a
/// newline counts, a trailing newline adds no empty line.
pub open spec fn lines_of(s: Seq<char>) -> Seq<Seq<char>>
    decreases s.len(),
    via lines_of_decreases
{
    if s.len() == 0 {
        Seq::empty()
    } else {
        let k = nl_idx(s);
        if k == s.len() {
            seq![s]
        } else {
            seq![strip_cr(s.subrange(0, k))] + lines_of(s.subrange(k + 1, s.len() as int))
        }
    }
}

#[via_fn]
proof fn lines_of_decreases(s: Seq<char>) {
    lemma_nl_idx_bounds(s);
}

/// The image of a sequence of character vectors.
pub open spec fn chars_view(ss: Seq<Vec<char>>) -> Seq<Seq<char>> {
    ss.map_values(|v: Vec<char>| v@)
}

/// Splits a source text into its lines.
fn split_lines(v: &Vec<char>) -> (r: Vec<Vec<char>>)
    ensures
        chars_view(r@) == lines_of(v@),
    decreases v@.len(),
{
    let n = v.len();
    let mut lines: Vec<Vec<char>> = Vec::new();
    let mut cur: Vec<char> = Vec::new();
    let ghost ls: int = 0;
    let mut p: usize = 0;
    proof {
        assert(chars_view(lines@) =~= Seq::<Seq<char>>::empty());
        assert(Seq::<Seq<char>>::empty() + lines_of(v@) =~= lines_of(v@));
        assert(cur@ =~= v@.subrange(0, 0));
        assert(v@.subrange(0, n as int) =~= v@);
    }
    while p < n
        invariant
            n == v@.len(),
            0 <= ls <= p <= n,
            cur@ == v@.subrange(ls, p as int),
            forall|i: int| ls <= i < p ==> v@[i] != '\n',
            lines_of(v@) == chars_view(lines@) + lines_of(v@.subrange(ls, n as int)),
        decreases n - p,
    {
        let c = v[p];
        if c == '\n' {
            let ghost u = v@.subrange(ls, n as int);
            proof {
                lemma_nl_idx_at(u, p - ls);
                assert(u.subrange(0, p - ls) =~= cur@);
                assert(u.subrange(p - ls + 1, u.len() as int) =~= v@.subrange(p + 1, n as int));
            }
            if cur.len() > 0 && cur[cur.len() - 1] == '\r' {
                cur.pop();
                proof {
                    assert(cur@ =~= strip_cr(v@.subrange(ls, p as int)));
                }
            }
            proof {
                assert(cur@ == strip_cr(u.subrange(0, p - ls)));
                assert(chars_view(lines@.push(cur)) =~= chars_view(lines@).push(cur@));
                assert(chars_view(lines@) + (seq![cur@] + lines_of(v@.subrange(p + 1, n as int)))
                    =~= chars_view(lines@).push(cur@) + lines_of(v@.subrange(p + 1, n as int)));
            }
            lines.push(cur);
            cur = Vec::new();
            proof {
                ls = p + 1;
                assert(cur@ =~= v@.subrange(ls, ls));
            }
        } else {
            cur.push(c);
            proof {
                assert(cur@ =~= v@.subrange(ls, p + 1));
            }
        }
        p = p + 1;
    }
    let ghost u = v@.subrange(ls, n as int);
    if cur.len() > 0 {
        proof {
            lemma_nl_idx_none(u);
            assert(u =~= cur@);
            assert(chars_view(lines@.push(cur)) =~= chars_view(lines@).push(cur@));
            assert(chars_view(lines@) + seq![u] =~= chars_view(lines@).push(cur@));
        }
        lines.push(cur);
    } else {
        proof {
            assert(u.len() == 0);
            assert(chars_view(lines@) + lines_of(u) =~= chars_view(lines@));
        }
    }
    lines
}

// ---------------------------------------------------------------------------
// Snippet rendering
// ---------------------------------------------------------------------------

/// The number of decimal digits of a counter.
pub fn digit_count(num: usize) -> (r: usize)
    ensures
        r == dec_str(num as int).len(),
        1 <= r <= 20,
    decreases num,
{
    proof {
        crate::strutil::lemma_dec_str_len_usize(num as int);
    }
    if num < 10 {
        1
    } else {
        1 + digit_count(num / 10)
    }
}

/// A snippet line cut to the available width, with a trailing ellipsis when
/// something was cut.
pub open spec fn trunc_line(l: Seq<char>, avail: int) -> Seq<char>
    recommends
        avail >= 0,
{
    if l.len() > avail {
        l.subrange(0, avail) + "..."@
    } else {
        l
    }
}

/// The caret row that points at the offending column.
pub open spec fn caret_row(lnw: int, pc: int) -> Seq<char> {
    char_repeat(' ', lnw) + " │ "@ + char_repeat(' ', if pc >= 2 {
        pc - 2
    } else {
        0
    }) + "^\n"@
}

/// One rendered snippet row: the right-aligned 1-based line number, a bar,
/// the (possibly truncated) source line `l` — followed by the caret row
/// when this is the offending line.
pub open spec fn snippet_row(
    l: Seq<char>,
    i: int,
    lnw: int,
    avail: int,
    pl: int,
    pc: int,
) -> Seq<char> {
    let dl = dec_str(i + 1).len() as int;
    let pad = if lnw >= dl {
        lnw - dl
    } else {
        0
    };
    let row = char_repeat(' ', pad) + dec_str(i + 1) + " │ "@ + trunc_line(l, avail) + "\n"@;
    if i + 1 == pl {
        row + caret_row(lnw, pc)
    } else {
        row
    }
}

/// The rows from line index `i` up to `endl`.
pub open spec fn snippet_rows(
    lines: Seq<Seq<char>>,
    i: int,
    endl: int,
    lnw: int,
    avail: int,
    pl: int,
    pc: int,
) -> Seq<char>
    decreases endl - i,
{
    if i >= endl {
        Seq::empty()
    } else {
        snippet_row(lines[i], i, lnw, avail, pl, pc) + snippet_rows(
            lines,
            i + 1,
            endl,
            lnw,
            avail,
            pl,
            pc,
        )
    }
}

/// The fixed-width snippet box around the offending line `pl` (1-based),
/// with caret under column `pc`: a top rule, up to three lines before and
/// two after, elision markers where the window's edges do not reach the
/// file's edges, and long lines truncated to the terminal width.
pub open spec fn snippet_text(lines: Seq<Seq<char>>, pl: int, pc: int, width: int) -> Seq<char> {
    let num_lines = lines.len() as int;
    let lnw = dec_str(num_lines).len() as int;
    let avail = if width >= lnw + 5 {
        width - lnw - 4
    } else {
        1
    };
    let start = if pl >= 3 {
        pl - 3
    } else {
        0
    };
    let endl = if pl + 2 <= num_lines {
        pl + 2
    } else {
        num_lines
    };
    char_repeat('─', lnw + 1) + seq!['┼'] + char_repeat('─', avail) + seq!['─'] + "\n"@ + (
    if start > 0 {
        char_repeat(' ', lnw) + " │ ...\n"@
    } else {
        Seq::empty()
    }) + snippet_rows(lines, start, endl, lnw, avail, pl, pc) + (if endl < num_lines {
        char_repeat(' ', lnw) + " │ ...\n"@
    } else {
        Seq::empty()
    })
}

/// Renders one snippet row.
fn render_row(line: &Vec<char>, i: usize, lnw: usize, avail: usize, pl: usize, pc: usize) -> (r:
    String)
    requires
        avail >= 1,
        i < usize::MAX,
    ensures
        r@ == snippet_row(line@, i as int, lnw as int, avail as int, pl as int, pc as int),
{
    let dl = digit_count(i + 1);
    let pad = if lnw >= dl {
        lnw - dl
    } else {
        0
    };
    let mut out = repeat_char(' ', pad);
    out.append(usize_to_string(i + 1).as_str());
    out.append(" │ ");
    if line.len() > avail {
        let mut cut: Vec<char> = Vec::new();
        let mut k: usize = 0;
        while k < avail
            invariant
                avail <= line@.len(),
                0 <= k <= avail,
                cut@ == line@.subrange(0, k as int),
            decreases avail - k,
        {
            cut.push(line[k]);
            proof {
                assert(cut@ =~= line@.subrange(0, k + 1));
            }
            k = k + 1;
        }
        out.append(chars_to_string(&cut).as_str());
        out.append("...");
    } else {
        out.append(chars_to_string(line).as_str());
    }
    out.append("\n");
    if i + 1 == pl {
        out.append(repeat_char(' ', lnw).as_str());
        out.append(" │ ");
        let cpad = if pc >= 2 {
            pc - 2
        } else {
            0
        };
        out.append(repeat_char(' ', cpad).as_str());
        out.append("^\n");
    }
    proof {
        assert(out@ =~= snippet_row(line@, i as int, lnw as int, avail as int, pl as int,
            pc as int));
    }
    out
}

/// Renders the top rule of the snippet box.
fn render_top_rule(lnw: usize, avail: usize) -> (r: String)
    ensures
        r@ == char_repeat('─', lnw as int + 1) + seq!['┼'] + char_repeat('─', avail as int)
            + seq!['─'] + "\n"@,
{
    let mut out = repeat_char('─', lnw);
    out.append("─");
    out.append("┼");
    out.append(repeat_char('─', avail).as_str());
    out.append("─\n");
    proof {
        reveal_strlit("─");
        reveal_strlit("┼");
        reveal_strlit("─\n");
        reveal_strlit("\n");
        assert("─"@ =~= seq!['─']);
        assert("┼"@ =~= seq!['┼']);
        assert("─\n"@ =~= seq!['─'] + "\n"@);
        assert(out@ =~= char_repeat('─', lnw as int + 1) + seq!['┼'] + char_repeat(
            '─',
            avail as int,
        ) + seq!['─'] + "\n"@);
    }
    out
}

/// Renders an elision marker line.
fn render_elision(lnw: usize) -> (r: String)
    ensures
        r@ == char_repeat(' ', lnw as int) + " │ ...\n"@,
{
    let mut out = repeat_char(' ', lnw);
    out.append(" │ ...\n");
    out
}

/// Builds the snippet box for the given source text, offending position and
/// terminal width.
#[verifier::rlimit(100)]
pub fn render_snippet(
    source_code: &str,
    problem_line: usize,
    problem_column: usize,
    width: usize,
) -> (r: String)
    ensures
        r@ == snippet_text(
            lines_of(source_code@),
            problem_line as int,
            problem_column as int,
            width as int,
        ),
{
    let chars = string_to_chars(source_code);
    let lines = split_lines(&chars);
    let ghost lv = lines_of(source_code@);
    let num_lines = lines.len();
    let lnw = digit_count(num_lines);
    let avail = match lnw.checked_add(5) {
        Some(l5) => if width >= l5 {
            width - lnw - 4
        } else {
            1
        },
        None => 1,
    };
    let start = if problem_line >= 3 {
        problem_line - 3
    } else {
        0
    };
    let endl = if problem_line <= num_lines && num_lines - problem_line >= 2 {
        problem_line + 2
    } else {
        num_lines
    };
    let mut out = render_top_rule(lnw, avail);
    if start > 0 {
        out.append(render_elision(lnw).as_str());
    }
    let ghost head = out@;
    let mut i: usize = start;
    if i > endl {
        i = endl;
    }
    proof {
        if start as int > endl as int {
            assert(snippet_rows(lv, start as int, endl as int, lnw as int, avail as int,
                problem_line as int, problem_column as int) =~= Seq::<char>::empty());
        }
        assert(out@ + snippet_rows(lv, start as int, endl as int, lnw as int, avail as int,
            problem_line as int, problem_column as int) =~= head + snippet_rows(lv, start as int,
            endl as int, lnw as int, avail as int, problem_line as int, problem_column as int));
    }
    while i < endl
        invariant
            endl <= num_lines,
            num_lines == lv.len(),
            chars_view(lines@) == lv,
            lines@.len() == num_lines,
            lnw == dec_str(num_lines as int).len(),
            0 <= i <= endl,
            avail >= 1,
            out@ + snippet_rows(lv, i as int, endl as int, lnw as int, avail as int,
                problem_line as int, problem_column as int) == head + snippet_rows(lv, start as int,
                endl as int, lnw as int, avail as int, problem_line as int, problem_column as int),
        decreases endl - i,
    {
        let ghost out0 = out@;
        proof {
            assert(lv[i as int] == lines@[i as int]@);
        }
        let row = render_row(&lines[i], i, lnw, avail, problem_line, problem_column);
        out.append(row.as_str());
        proof {
            assert(out0 + (snippet_row(lv[i as int], i as int, lnw as int, avail as int,
                problem_line as int, problem_column as int) + snippet_rows(lv, i + 1, endl as int,
                lnw as int, avail as int, problem_line as int, problem_column as int)) =~= out@
                + snippet_rows(lv, i + 1, endl as int, lnw as int, avail as int, problem_line as int,
                problem_column as int));
        }
        i = i + 1;
    }
    if endl < num_lines {
        out.append(render_elision(lnw).as_str());
    }
    proof {
        assert(out@ =~= snippet_text(lv, problem_line as int, problem_column as int,
            width as int));
    }
    out
}

// ---------------------------------------------------------------------------
// The terminal's width
// ---------------------------------------------------------------------------

/// Relies on `terminal_size::terminal_size`: the measured size, in columns
/// and rows, of the terminal attached to standard output, if any.  The
/// result depends on the machine, so nothing is promised of it.
#[verifier::external_body]
fn probe_terminal_size() -> (r: Option<(u16, u16)>) {
    match terminal_size::terminal_size() {
        Some((terminal_size::Width(w), terminal_size::Height(h))) => Some((w, h)),
        None => None,
    }
}

/// The width the snippet box is fitted to: the terminal's measured width,
/// or 80 columns where none can be measured.  The renderer is verified for
/// every width, so nothing more is needed of the measurement.
pub fn get_terminal_width() -> (w: usize)
    ensures
        w <= u16::MAX as usize,
{
    match probe_terminal_size() {
        Some((w, _h)) => w as usize,
        None => 80,
    }
}

/// The full human-readable rendering of a diagnostic against its source
/// text, fitted to a terminal width: an `[internal compiler error]` marker
/// where the compiler itself is at fault, a bold `error:` header with the
/// message and `file:line:column`, the snippet box, and the fix suggestion
/// under a `fix:` label where one is present.
pub open spec fn diagnostic_text(d: SpecDiagnostic, src: Seq<char>, width: int) -> Seq<char> {
    (if d.comperr {
        "[internal compiler error]"@
    } else {
        Seq::empty()
    }) + "\u{1b}[1m"@ + "\u{1b}[31m"@ + "error:"@ + "\u{1b}[0m"@ + " "@ + d.message + " at "@
        + d.file + ":"@ + dec_str(d.line) + ":"@ + dec_str(d.column) + "\n"@ + snippet_text(
        lines_of(src),
        d.line,
        d.column,
        width,
    ) + (match d.suggestion {
        Some(sg) => "\u{1b}[1m"@ + "fix:"@ + "\u{1b}[0m"@ + " "@ + sg + "\n"@,
        None => Seq::empty(),
    })
}

impl Diagnostic {
    /// Renders this diagnostic, with its snippet cut from `source_code` and
    /// fitted to `width` columns.  Writing the result to the error stream
    /// and terminating the process are the caller's business.
    pub fn render(&self, source_code: &str, width: usize) -> (r: String)
        ensures
            r@ == diagnostic_text(self@, source_code@, width as int),
    {
        let mut out = if self.comperr {
            String::from_str("[internal compiler error]")
        } else {
            String::new()
        };
        out.append("\u{1b}[1m");
        out.append("\u{1b}[31m");
        out.append("error:");
        out.append("\u{1b}[0m");
        out.append(" ");
        out.append(self.message.as_str());
        out.append(" at ");
        out.append(self.file.as_str());
        out.append(":");
        out.append(usize_to_string(self.line).as_str());
        out.append(":");
        out.append(usize_to_string(self.column).as_str());
        out.append("\n");
        let snippet = render_snippet(source_code, self.line, self.column, width);
        out.append(snippet.as_str());
        match &self.suggestion {
            Some(sg) => {
                out.append("\u{1b}[1m");
                out.append("fix:");
                out.append("\u{1b}[0m");
                out.append(" ");
                out.append(sg.as_str());
                out.append("\n");
            },
            None => {},
        }
        proof {
            assert(out@ =~= diagnostic_text(self@, source_code@, width as int));
        }
        out
    }
}

/// Builds the diagnostics of one compilation run: it knows the source text
/// (for snippet rendering) and the file name that every diagnostic cites.
#[derive(Debug, Clone, PartialEq, Eq)]
pub struct ErrorHandler {
    pub source_code: String,
    pub filename: String,
}

impl ErrorHandler {
    pub fn new(source_code: String, filename: &str) -> (r: ErrorHandler)
        ensures
            r.source_code@ == source_code@,
            r.filename@ == filename@,
    {
        ErrorHandler { source_code, filename: filename.to_owned() }
    }

    /// A user-level error: the source text is malformed.
    pub fn err(
        &self,
        line: usize,
        column: usize,
        message: String,
        suggestion: Option<String>,
    ) -> (d: Diagnostic)
        ensures
            d@ == (SpecDiagnostic {
                file: self.filename@,
                line: line as int,
                column: column as int,
                message: message@,
                suggestion: match suggestion {
                    Some(s) => Some(s@),
                    None => None,
                },
                comperr: false,
            }),
    {
        Diagnostic {
            file: self.filename.clone(),
            line,
            column,
            message,
            suggestion,
            comperr: false,
        }
    }

    /// An internal compiler error: an invariant the compiler itself must
    /// uphold was violated.
    pub fn comperr(
        &self,
        line: usize,
        column: usize,
        message: String,
        suggestion: Option<String>,
    ) -> (d: Diagnostic)
        ensures
            d@ == (SpecDiagnostic {
                file: self.filename@,
                line: line as int,
                column: column as int,
                message: message@,
                suggestion: match suggestion {
                    Some(s) => Some(s@),
                    None => None,
                },
                comperr: true,
            }),
    {
        Diagnostic {
            file: self.filename.clone(),
            line,
            column,
            message,
            suggestion,
            comperr: true,
        }
    }
}

} // verus!
