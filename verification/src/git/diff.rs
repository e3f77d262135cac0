//! The lines of a diff and how they are shown.

use vstd::prelude::*;

use crate::git::outside::{lossy_text, lossy_utf8};
use crate::strings::{cat2, cat3};
use crate::text::{from_chars, to_chars};
use crate::types::{DiffEncodingChoice, DiffEncodingInfo, DiffLine, DiffLineKind, DiffScope, FileDiff};

verus! {

// ---------------------------------------------------------------------------
// Reading
// ---------------------------------------------------------------------------
pub open spec fn kind_of_origin(origin: char) -> DiffLineKind {
    if origin == '+' {
        DiffLineKind::Added
    } else if origin == '-' {
        DiffLineKind::Removed
    } else if origin == 'F' || origin == 'H' {
        DiffLineKind::Header
    } else {
        DiffLineKind::Context
    }
}

/// A text without the line breaks that it ends with.
pub open spec fn without_line_end(s: Seq<char>) -> Seq<char>
    decreases s.len(),
{
    if s.len() > 0 && (s.last() == '\r' || s.last() == '\n') {
        without_line_end(s.drop_last())
    } else {
        s
    }
}

fn trim_line_end(s: &str) -> (r: String)
    ensures
        r@ == without_line_end(s@),
{
    let x: Vec<char> = to_chars(s);
    let mut to: usize = x.len();
    assert(x@.take(to as int) =~= x@);
    while to > 0 && (x[to - 1] == '\r' || x[to - 1] == '\n')
        invariant
            to <= x@.len(),
            without_line_end(x@) == without_line_end(x@.take(to as int)),
        decreases to,
    {
        assert(x@.take(to as int).drop_last() =~= x@.take(to as int - 1));
        to = to - 1;
    }
    assert(x@.subrange(0, to as int) =~= x@.take(to as int));
    from_chars(&x, 0, to)
}

/// A line of a patch: what it starts with, its numbers and its bytes.
pub struct PatchLine {
    pub origin: char,
    pub old_lineno: Option<u32>,
    pub new_lineno: Option<u32>,
    pub content: Vec<u8>,
}

/// A line of a patch whose bytes were read as `text`.
pub fn diff_line_with_text(line: &PatchLine, text: &str) -> (r: DiffLine)
    ensures
        r.kind == kind_of_origin(line.origin),
        r.old_lineno == line.old_lineno,
        r.new_lineno == line.new_lineno,
        r.content@ == without_line_end(text@),
{
    let kind: DiffLineKind = if line.origin == '+' {
        DiffLineKind::Added
    } else if line.origin == '-' {
        DiffLineKind::Removed
    } else if line.origin == 'F' || line.origin == 'H' {
        DiffLineKind::Header
    } else {
        DiffLineKind::Context
    };
    DiffLine {
        kind,
        old_lineno: line.old_lineno,
        new_lineno: line.new_lineno,
        content: trim_line_end(text),
    }
}

/// A line of a patch. Its bytes are read as UTF-8; what is none of it is replaced.
pub fn diff_line(line: &PatchLine) -> (r: DiffLine)
    ensures
        r.kind == kind_of_origin(line.origin),
        r.old_lineno == line.old_lineno,
        r.new_lineno == line.new_lineno,
        r.content@ == without_line_end(lossy_utf8(line.content@)),
{
    let text: String = lossy_text(line.content.as_slice());
    diff_line_with_text(line, text.as_str())
}

/// The diff of one file. It is binary if one of its parts is.
pub fn file_diff_from_diff(
    lines: &Vec<PatchLine>,
    binary_flags: &Vec<bool>,
    path: String,
    scope: DiffScope,
    encoding: DiffEncodingInfo,
) -> (r: FileDiff)
    ensures
        r.path == path,
        r.scope == scope,
        r.encoding == encoding,
        r.is_binary == binary_flags@.contains(true),
        r.lines@.len() == lines@.len(),
        forall|i: int|
            0 <= i < lines@.len() ==> {
                let line = #[trigger] r.lines@[i];
                &&& line.kind == kind_of_origin(lines@[i].origin)
                &&& line.old_lineno == lines@[i].old_lineno
                &&& line.new_lineno == lines@[i].new_lineno
                &&& line.content@ == without_line_end(lossy_utf8(lines@[i].content@))
            },
{
    let mut is_binary = false;
    let mut k: usize = 0;
    while k < binary_flags.len()
        invariant
            k <= binary_flags@.len(),
            is_binary == exists|j: int| 0 <= j < k && #[trigger] binary_flags@[j] == true,
        decreases binary_flags@.len() - k,
    {
        if binary_flags[k] {
            assert(binary_flags@[k as int] == true);
            is_binary = true;
        }
        k = k + 1;
    }
    let mut out: Vec<DiffLine> = Vec::new();
    let mut i: usize = 0;
    while i < lines.len()
        invariant
            i <= lines@.len(),
            out@.len() == i,
            forall|j: int|
                0 <= j < i ==> {
                    let line = #[trigger] out@[j];
                    &&& line.kind == kind_of_origin(lines@[j].origin)
                    &&& line.old_lineno == lines@[j].old_lineno
                    &&& line.new_lineno == lines@[j].new_lineno
                    &&& line.content@ == without_line_end(lossy_utf8(lines@[j].content@))
                },
        decreases lines@.len() - i,
    {
        out.push(diff_line(&lines[i]));
        i = i + 1;
    }
    FileDiff { path, scope, is_binary, encoding, lines: out }
}

// ---------------------------------------------------------------------------
// Showing
// ---------------------------------------------------------------------------
/// One row of a shown diff.
#[derive(Clone, Copy, Debug, PartialEq, Eq, Structural)]
pub enum DiffRenderRow {
    /// The row that shows or hides the headers.
    HeaderToggle,
    /// The line with this number.
    DiffLine(usize),
    /// The row that says that there is nothing.
    Empty,
}

/// What the rows of a shown diff are.
#[derive(Debug, PartialEq, Eq)]
pub struct DiffRenderModel {
    pub row_count: usize,
    pub header_count: usize,
    pub headers_expanded: bool,
    pub empty: bool,
}

/// Number of header lines that a diff starts with.
pub open spec fn leading_headers(lines: Seq<DiffLine>) -> int
    decreases lines.len(),
{
    if lines.len() > 0 && lines[0].kind == DiffLineKind::Header {
        1 + leading_headers(lines.drop_first())
    } else {
        0
    }
}

/// The rows of a shown diff: a toggle if there are headers, the headers if they are shown, and
/// then all other lines; one row that says so if there are no lines.
pub open spec fn render_rows(lines: Seq<DiffLine>, expanded: bool) -> Seq<DiffRenderRow> {
    let h = leading_headers(lines);
    let from = if h > 0 && !expanded {
        h
    } else {
        0
    };
    let body = Seq::new(
        (lines.len() - from) as nat,
        |i: int| DiffRenderRow::DiffLine((from + i) as usize),
    );
    if lines.len() == 0 {
        seq![DiffRenderRow::Empty]
    } else if h > 0 {
        seq![DiffRenderRow::HeaderToggle] + body
    } else {
        body
    }
}

pub open spec fn rows_of(diff: Option<&FileDiff>, expanded: bool) -> Seq<DiffRenderRow> {
    match diff {
        Some(d) => render_rows(d.lines@, expanded),
        None => seq![DiffRenderRow::Empty],
    }
}

impl DiffRenderModel {
    /// Whether this is the model of `rows`.
    pub open spec fn shows(self, rows: Seq<DiffRenderRow>) -> bool {
        &&& self.row_count == rows.len()
        &&& forall|i: int| 0 <= i < rows.len() ==> #[trigger] rows[i] == self.row(i)
    }

    pub open spec fn row(self, i: int) -> DiffRenderRow {
        if self.empty {
            DiffRenderRow::Empty
        } else if self.header_count > 0 && i == 0 {
            DiffRenderRow::HeaderToggle
        } else if self.header_count > 0 {
            DiffRenderRow::DiffLine(
                (if self.headers_expanded {
                    i - 1
                } else {
                    self.header_count + i - 1
                }) as usize,
            )
        } else {
            DiffRenderRow::DiffLine(i as usize)
        }
    }

    pub fn row_at(&self, row_index: usize) -> (r: DiffRenderRow)
        requires
            row_index < self.row_count,
            self.header_count + self.row_count <= usize::MAX,
        ensures
            r == self.row(row_index as int),
    {
        if self.empty {
            return DiffRenderRow::Empty;
        }
        if self.header_count > 0 {
            if row_index == 0 {
                return DiffRenderRow::HeaderToggle;
            }
            if self.headers_expanded && row_index <= self.header_count {
                return DiffRenderRow::DiffLine(row_index - 1);
            }
        }
        let body_start: usize = if self.header_count > 0 {
            1
        } else {
            0
        };
        let header_offset: usize = if self.headers_expanded {
            self.header_count
        } else {
            0
        };
        DiffRenderRow::DiffLine(self.header_count + row_index - body_start - header_offset)
    }
}

proof fn lemma_leading_headers(lines: Seq<DiffLine>)
    ensures
        0 <= leading_headers(lines) <= lines.len(),
    decreases lines.len(),
{
    if lines.len() > 0 && lines[0].kind == DiffLineKind::Header {
        lemma_leading_headers(lines.drop_first());
    }
}

fn count_headers(lines: &Vec<DiffLine>) -> (n: usize)
    ensures
        n == leading_headers(lines@),
        n <= lines@.len(),
{
    let mut n: usize = 0;
    assert(lines@.skip(0) =~= lines@);
    while n < lines.len() && lines[n].kind == DiffLineKind::Header
        invariant
            n <= lines@.len(),
            leading_headers(lines@) == n + leading_headers(lines@.skip(n as int)),
        decreases lines@.len() - n,
    {
        assert(lines@.skip(n as int).drop_first() =~= lines@.skip(n as int + 1));
        n = n + 1;
    }
    n
}

pub fn diff_render_model_for(diff: Option<&FileDiff>, headers_expanded: bool) -> (r:
    DiffRenderModel)
    requires
        diff matches Some(d) ==> d.lines@.len() < usize::MAX,
    ensures
        r.shows(rows_of(diff, headers_expanded)),
        r.headers_expanded == headers_expanded,
        match diff {
            Some(d) => {
                &&& r.header_count == leading_headers(d.lines@)
                &&& r.empty == (d.lines@.len() == 0)
            },
            None => r.header_count == 0 && r.empty,
        },
{
    match diff {
        None => DiffRenderModel { row_count: 1, header_count: 0, headers_expanded, empty: true },
        Some(diff) => {
            let header_count: usize = count_headers(&diff.lines);
            let mut row_count: usize = diff.lines.len() - header_count;
            if header_count > 0 {
                row_count = row_count + 1;
                if headers_expanded {
                    row_count = row_count + header_count;
                }
            }
            let r = DiffRenderModel {
                row_count: if row_count > 0 {
                    row_count
                } else {
                    1
                },
                header_count,
                headers_expanded,
                empty: row_count == 0,
            };
            assert(r.shows(render_rows(diff.lines@, headers_expanded)));
            r
        },
    }
}

/// All rows of a shown diff.
pub fn diff_render_rows_for(diff: Option<&FileDiff>, headers_expanded: bool) -> (rows: Vec<
    DiffRenderRow,
>)
    requires
        diff matches Some(d) ==> 2 * d.lines@.len() < usize::MAX,
    ensures
        rows@ == rows_of(diff, headers_expanded),
{
    let model: DiffRenderModel = diff_render_model_for(diff, headers_expanded);
    proof {
        if diff is Some {
            lemma_leading_headers(diff->0.lines@);
        }
    }
    let mut rows: Vec<DiffRenderRow> = Vec::new();
    let mut i: usize = 0;
    while i < model.row_count
        invariant
            i <= model.row_count,
            rows@.len() == i,
            model.header_count + model.row_count <= usize::MAX,
            forall|j: int| 0 <= j < i ==> #[trigger] rows@[j] == model.row(j),
        decreases model.row_count - i,
    {
        rows.push(model.row_at(i));
        i = i + 1;
    }
    assert(rows@ =~= rows_of(diff, headers_expanded));
    rows
}

/// Every line of a diff is shown in exactly one row, in order, once its headers are shown.
pub proof fn lemma_expanded_rows_show_every_line(lines: Seq<DiffLine>)
    requires
        lines.len() > 0,
        lines.len() <= usize::MAX,
    ensures
        ({
            let rows = render_rows(lines, true);
            let off = if leading_headers(lines) > 0 {
                1int
            } else {
                0
            };
            &&& rows.len() == lines.len() + off
            &&& forall|i: int|
                0 <= i < lines.len() ==> #[trigger] rows[i + off] == DiffRenderRow::DiffLine(
                    i as usize,
                )
        }),
{
    lemma_leading_headers(lines);
}

// ---------------------------------------------------------------------------
// Labels
// ---------------------------------------------------------------------------
/// What a diff says of its encoding. The names of the encodings are given.
pub fn diff_encoding_label(
    encoding: DiffEncodingInfo,
    requested_name: &str,
    resolved_name: &str,
) -> (r: String)
    ensures
        r@ == (if encoding.requested == DiffEncodingChoice::Auto {
            "编码：自动("@ + resolved_name@ + ")"@
        } else {
            "编码："@ + requested_name@
        }) + (if encoding.lossy {
            "，有替换"@
        } else {
            Seq::empty()
        }),
{
    let base: String = if encoding.requested == DiffEncodingChoice::Auto {
        cat3("编码：自动(", resolved_name, ")")
    } else {
        cat2("编码：", requested_name)
    };
    if encoding.lossy {
        cat2(base.as_str(), "，有替换")
    } else {
        assert(base@ + Seq::<char>::empty() =~= base@);
        base
    }
}

pub fn diff_scope_label(scope: &DiffScope) -> (r: &'static str)
    ensures
        r@ == match scope {
            DiffScope::Staged => "已暂存"@,
            DiffScope::Unstaged => "未暂存"@,
        },
{
    match scope {
        DiffScope::Staged => "已暂存",
        DiffScope::Unstaged => "未暂存",
    }
}

pub fn diff_scope_id(scope: &DiffScope) -> (r: &'static str)
    ensures
        r@ == match scope {
            DiffScope::Staged => "staged"@,
            DiffScope::Unstaged => "unstaged"@,
        },
{
    match scope {
        DiffScope::Staged => "staged",
        DiffScope::Unstaged => "unstaged",
    }
}

/// What is shown of a line is the start of its text, and it does not end in a line break; all
/// that is cut off behind it is line breaks.
pub proof fn lemma_only_line_ends_are_cut(s: Seq<char>)
    ensures
        without_line_end(s).is_prefix_of(s),
        without_line_end(s).len() > 0 ==> without_line_end(s).last() != '\r' && without_line_end(
            s,
        ).last() != '\n',
        forall|i: int|
            without_line_end(s).len() <= i < s.len() ==> (#[trigger] s[i]) == '\r' || s[i] == '\n',
    decreases s.len(),
{
    if s.len() > 0 && (s.last() == '\r' || s.last() == '\n') {
        lemma_only_line_ends_are_cut(s.drop_last());
        assert forall|i: int| without_line_end(s).len() <= i < s.len() implies (#[trigger] s[i])
            == '\r' || s[i] == '\n' by {
            if i < s.len() - 1 {
                assert(s.drop_last()[i] == s[i]);
            }
        }
    }
}

/// A line that was added is shown as added, one that was taken out as taken out, and one that heads
/// a file or a hunk as a header; any other is the same on both sides.
pub proof fn lemma_line_kinds(origin: char)
    ensures
        kind_of_origin(origin) == DiffLineKind::Added <==> origin == '+',
        kind_of_origin(origin) == DiffLineKind::Removed <==> origin == '-',
        kind_of_origin(origin) == DiffLineKind::Header <==> origin == 'F' || origin == 'H',
{
}

/// The headers at the start are the lines up to the first that is none.
pub proof fn lemma_headers_at_the_start(lines: Seq<DiffLine>)
    ensures
        0 <= leading_headers(lines) <= lines.len(),
        forall|i: int|
            0 <= i < leading_headers(lines) ==> (#[trigger] lines[i]).kind == DiffLineKind::Header,
        leading_headers(lines) < lines.len() ==> lines[leading_headers(lines)].kind
            != DiffLineKind::Header,
    decreases lines.len(),
{
    if lines.len() > 0 && lines[0].kind == DiffLineKind::Header {
        let rest = lines.drop_first();
        lemma_headers_at_the_start(rest);
        assert forall|i: int| 0 <= i < leading_headers(lines) implies (#[trigger] lines[i]).kind
            == DiffLineKind::Header by {
            if i > 0 {
                assert(rest[i - 1] == lines[i]);
            }
        }
        if leading_headers(lines) < lines.len() {
            assert(rest[leading_headers(rest)] == lines[leading_headers(lines)]);
        }
    }
}

/// With the headers folded, the rows show every line behind them once and in order, and one row in
/// front to unfold them; without headers there is no such row. A diff without lines says so.
pub proof fn lemma_folded_rows(lines: Seq<DiffLine>, headers: int)
    requires
        0 < lines.len() <= usize::MAX,
        0 <= headers <= lines.len(),
        forall|i: int|
            0 <= i < headers ==> (#[trigger] lines[i]).kind == DiffLineKind::Header,
        headers < lines.len() ==> lines[headers].kind != DiffLineKind::Header,
    ensures
        ({
            let rows = render_rows(lines, false);
            let off = if headers > 0 {
                1int
            } else {
                0
            };
            &&& rows.len() == off + lines.len() - headers
            &&& headers > 0 ==> rows[0] == DiffRenderRow::HeaderToggle
            &&& forall|i: int|
                off <= i < rows.len() ==> #[trigger] rows[i] == DiffRenderRow::DiffLine(
                    (headers + i - off) as usize,
                )
        }),
        render_rows(Seq::empty(), true) == seq![DiffRenderRow::Empty],
        render_rows(Seq::empty(), false) == seq![DiffRenderRow::Empty],
{
    lemma_headers_at_the_start(lines);
    let h = leading_headers(lines);
    if h < headers {
        assert(lines[h].kind == DiffLineKind::Header);
    }
    if headers < h {
        assert(lines[headers].kind == DiffLineKind::Header);
    }
}

/// Without differences there is one row that says so, and otherwise the rows are those of the lines.
pub proof fn lemma_rows_of_differences(diff: Option<&FileDiff>, expanded: bool)
    ensures
        match diff {
            Some(d) => rows_of(diff, expanded) == render_rows(d.lines@, expanded),
            None => rows_of(diff, expanded) == seq![DiffRenderRow::Empty],
        },
{
}

} // verus!
