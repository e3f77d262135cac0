//! The changes of the worktree and their differences.

use vstd::prelude::*;

use crate::git::diff::{DiffRenderModel, DiffRenderRow, diff_scope_label};
use crate::session::selection::indexes_of;
use crate::session::tab::RepoTabState;
use crate::strings::{cat5, contains_text, decimal, join, joined, u64_to_string, usize_to_string, views};
use crate::types::{ChangeState, DiffLine, DiffLineKind, DiffScope, FileDiff, WorktreeChange};
use crate::ui::actions::{Button, UiAction, button, plain};
use crate::ui::theme;

verus! {

/// One of the two lists of changes.
#[derive(Debug, PartialEq, Eq)]
pub struct ChangeSection {
    pub title: &'static str,
    pub id: &'static str,
    pub rows: usize,
    /// What stands in place of rows.
    pub placeholder: Option<&'static str>,
    /// Whether there is anything to scroll.
    pub content_present: bool,
    pub buttons: Vec<Button>,
}

pub open spec fn section_buttons(scope: DiffScope, selected: bool, any: bool, busy: bool) -> Seq<
    Button,
> {
    match scope {
        DiffScope::Staged => seq![
            plain("取消暂存选定文件", selected && !busy, UiAction::UnstageSelected),
            plain("取消暂存所有文件", any && !busy, UiAction::UnstageAll),
        ],
        DiffScope::Unstaged => seq![
            plain("暂存选定文件", selected && !busy, UiAction::StageSelected),
            plain("暂存所有文件", any && !busy, UiAction::StageAll),
        ],
    }
}

/// One of the two lists of changes of a tab.
pub fn change_section(tab: &RepoTabState, scope: DiffScope) -> (r: ChangeSection)
    requires
        tab.wf(),
    ensures
        ({
            let rows = indexes_of(
                match tab.snapshot {
                    Some(s) => s.changes@,
                    None => Seq::empty(),
                },
                scope,
            ).len();
            let loading = match scope {
                DiffScope::Staged => tab.loading.status_fast,
                DiffScope::Unstaged => tab.loading.status_fast || tab.loading.status_full,
            };
            let selected = tab.change_selection@.chosen(scope) != Set::<Seq<char>>::empty();
            &&& r.rows == rows
            &&& r.title == match scope {
                DiffScope::Staged => "暂存区",
                DiffScope::Unstaged => "修改区",
            }
            &&& r.id == match scope {
                DiffScope::Staged => "staged-change-list",
                DiffScope::Unstaged => "unstaged-change-list",
            }
            &&& r.placeholder == if rows == 0 && loading {
                Some(
                    match scope {
                        DiffScope::Staged => "暂存区加载中...",
                        DiffScope::Unstaged => "修改区加载中...",
                    },
                )
            } else {
                None
            }
            &&& r.content_present == (rows > 0 || loading)
            &&& r.buttons@ == section_buttons(scope, selected, rows > 0, tab.busy)
        }),
{
    let mut buttons: Vec<Button> = Vec::new();
    match scope {
        DiffScope::Staged => {
            let rows: usize = tab.change_indexes.staged.len();
            let loading: bool = tab.loading.staged();
            let selected: bool = !tab.change_selection.staged.is_empty();
            buttons.push(
                button(
                    "取消暂存选定文件",
                    selected && !tab.busy,
                    UiAction::UnstageSelected,
                ),
            );
            buttons.push(
                button("取消暂存所有文件", rows > 0 && !tab.busy, UiAction::UnstageAll),
            );
            assert(buttons@ =~= section_buttons(scope, selected, rows > 0, tab.busy));
            ChangeSection {
                title: "暂存区",
                id: "staged-change-list",
                rows,
                placeholder: if rows == 0 && loading {
                    Some("暂存区加载中...")
                } else {
                    None
                },
                content_present: rows > 0 || loading,
                buttons,
            }
        },
        DiffScope::Unstaged => {
            let rows: usize = tab.change_indexes.unstaged.len();
            let loading: bool = tab.loading.unstaged();
            let selected: bool = !tab.change_selection.unstaged.is_empty();
            buttons.push(
                button("暂存选定文件", selected && !tab.busy, UiAction::StageSelected),
            );
            buttons.push(button("暂存所有文件", rows > 0 && !tab.busy, UiAction::StageAll));
            assert(buttons@ =~= section_buttons(scope, selected, rows > 0, tab.busy));
            ChangeSection {
                title: "修改区",
                id: "unstaged-change-list",
                rows,
                placeholder: if rows == 0 && loading {
                    Some("修改区加载中...")
                } else {
                    None
                },
                content_present: rows > 0 || loading,
                buttons,
            }
        },
    }
}

/// How a change is shown.
#[derive(Debug, PartialEq, Eq)]
pub struct ChangeRow {
    pub path: String,
    pub state: Option<ChangeState>,
    pub selected: bool,
    pub bg: u32,
    pub border: u32,
}

pub fn change_row(tab: &RepoTabState, change: &WorktreeChange, scope: DiffScope) -> (r: ChangeRow)
    requires
        tab.wf(),
    ensures
        r.path == change.path,
        r.state == match scope {
            DiffScope::Staged => change.staged,
            DiffScope::Unstaged => change.unstaged,
        },
        r.selected == tab.change_selection@.chosen(scope).contains(change.path@),
        r.bg == if r.selected {
            theme::COLOR_ROW_SELECTED
        } else {
            theme::COLOR_SURFACE
        },
        r.border == if r.selected {
            theme::COLOR_BORDER_STRONG
        } else {
            theme::COLOR_BORDER
        },
{
    let selected: bool = tab.change_selection.is_change_selected(scope, change.path.as_str());
    ChangeRow {
        path: change.path.clone(),
        state: match scope {
            DiffScope::Staged => change.staged,
            DiffScope::Unstaged => change.unstaged,
        },
        selected,
        bg: if selected {
            theme::COLOR_ROW_SELECTED
        } else {
            theme::COLOR_SURFACE
        },
        border: if selected {
            theme::COLOR_BORDER_STRONG
        } else {
            theme::COLOR_BORDER
        },
    }
}

/// What is asked before changes are discarded: five paths, and how many more there are.
pub open spec fn paths_text(paths: Seq<Seq<char>>) -> Seq<char> {
    if paths.len() > 5 {
        let head = joined(paths.take(5), "\n"@);
        head + (if head.len() == 0 {
            Seq::empty()
        } else {
            "\n"@
        }) + ("... 以及另外 "@ + decimal((paths.len() - 5) as nat) + " 个文件"@)
    } else {
        joined(paths, "\n"@)
    }
}

pub fn discard_paths_preview(paths: &Vec<String>) -> (r: String)
    ensures
        r@ == paths_text(views(paths@)),
{
    if paths.len() > 5 {
        let head: String = join(paths, 5, "\n");
        let n: String = usize_to_string(paths.len() - 5);
        let chars: Vec<char> = crate::text::to_chars(head.as_str());
        let gap: &str = if chars.len() == 0 {
            ""
        } else {
            "\n"
        };
        proof {
            reveal_strlit("");
            assert(""@ =~= Seq::<char>::empty());
        }
        let more: String = crate::strings::cat3("... 以及另外 ", n.as_str(), " 个文件");
        crate::strings::cat3(head.as_str(), gap, more.as_str())
    } else {
        let r: String = join(paths, paths.len(), "\n");
        assert(views(paths@).take(paths@.len() as int) =~= views(paths@));
        r
    }
}

// ---------------------------------------------------------------------------
// Differences
// ---------------------------------------------------------------------------
/// What stands above the differences of a change.
pub fn diff_title(diff: Option<&FileDiff>) -> (r: String)
    ensures
        r@ == match diff {
            Some(d) => ("差异："@ + d.path@ + " ("@ + match d.scope {
                DiffScope::Staged => "已暂存"@,
                DiffScope::Unstaged => "未暂存"@,
            }) + ")"@,
            None => "差异"@,
        },
{
    match diff {
        Some(d) => cat5("差异：", d.path.as_str(), " (", diff_scope_label(&d.scope), ")"),
        None => "差异".to_string(),
    }
}

/// A row of differences.
#[derive(Debug, PartialEq, Eq)]
pub enum DiffRowView {
    /// A click on the row shows or hides the header lines.
    Toggle(&'static str),
    Line { bg: u32, fg: u32, old_lineno: String, new_lineno: String, content: String },
}

/// The colours of a line: behind it, and of its text.
pub open spec fn line_colors(kind: DiffLineKind) -> (u32, u32) {
    match kind {
        DiffLineKind::Added => (0xe9fff2, 0x168447),
        DiffLineKind::Removed => (0xffeeee, 0xc43a3a),
        DiffLineKind::Header => (0xeef3fb, 0x4b5563),
        DiffLineKind::Context => (theme::COLOR_PANEL_BG, theme::COLOR_TEXT),
    }
}

pub open spec fn lineno_text(n: Option<u32>) -> Seq<char> {
    match n {
        Some(n) => decimal(n as nat),
        None => Seq::empty(),
    }
}

fn lineno(n: Option<u32>) -> (r: String)
    ensures
        r@ == lineno_text(n),
{
    match n {
        Some(n) => u64_to_string(n as u64),
        None => String::new(),
    }
}

impl DiffRowView {
    /// Whether the row is a line with the given content.
    pub open spec fn is_line(
        self,
        kind: DiffLineKind,
        old_lineno: Option<u32>,
        new_lineno: Option<u32>,
        content: Seq<char>,
    ) -> bool {
        self matches DiffRowView::Line { bg, fg, old_lineno: o, new_lineno: n, content: c } && (
        bg,
        fg,
        ) == line_colors(kind) && o@ == lineno_text(old_lineno) && n@ == lineno_text(new_lineno)
            && c@ == content
    }
}

pub fn diff_line(
    kind: DiffLineKind,
    old_lineno: Option<u32>,
    new_lineno: Option<u32>,
    content: String,
) -> (r: DiffRowView)
    ensures
        r.is_line(kind, old_lineno, new_lineno, content@),
{
    let (bg, fg): (u32, u32) = match kind {
        DiffLineKind::Added => (0xe9fff2, 0x168447),
        DiffLineKind::Removed => (0xffeeee, 0xc43a3a),
        DiffLineKind::Header => (0xeef3fb, 0x4b5563),
        DiffLineKind::Context => (theme::COLOR_PANEL_BG, theme::COLOR_TEXT),
    };
    DiffRowView::Line {
        bg,
        fg,
        old_lineno: lineno(old_lineno),
        new_lineno: lineno(new_lineno),
        content,
    }
}

/// What a row of differences shows. Without any, `empty_message` is shown.
pub fn diff_row(
    diff: Option<&FileDiff>,
    row: DiffRenderRow,
    headers_expanded: bool,
    empty_message: &str,
) -> (r: DiffRowView)
    ensures
        match row {
            DiffRenderRow::HeaderToggle => r == DiffRowView::Toggle(
                if headers_expanded {
                    "Diff 元信息（点击折叠）"
                } else {
                    "Diff 元信息（点击展开）"
                },
            ),
            DiffRenderRow::DiffLine(index) => if diff is Some && index < diff->0.lines@.len() {
                let line = diff->0.lines@[index as int];
                if line.kind == DiffLineKind::Header {
                    r.is_line(line.kind, None, None, line.content@)
                } else {
                    r.is_line(line.kind, line.old_lineno, line.new_lineno, line.content@)
                }
            } else {
                r.is_line(DiffLineKind::Context, None, None, Seq::empty())
            },
            DiffRenderRow::Empty => r.is_line(
                DiffLineKind::Context,
                None,
                None,
                match diff {
                    Some(d) => if d.is_binary {
                        "二进制文件仅显示元信息"@
                    } else {
                        "没有可显示的文本差异"@
                    },
                    None => empty_message@,
                },
            ),
        },
{
    match row {
        DiffRenderRow::HeaderToggle => DiffRowView::Toggle(
            if headers_expanded {
                "Diff 元信息（点击折叠）"
            } else {
                "Diff 元信息（点击展开）"
            },
        ),
        DiffRenderRow::DiffLine(index) => {
            match diff {
                Some(d) => {
                    if index < d.lines.len() {
                        let line = &d.lines[index];
                        return if line.kind == DiffLineKind::Header {
                            diff_line(line.kind, None, None, line.content.clone())
                        } else {
                            diff_line(
                                line.kind,
                                line.old_lineno,
                                line.new_lineno,
                                line.content.clone(),
                            )
                        };
                    }
                },
                None => {},
            }
            diff_line(DiffLineKind::Context, None, None, String::new())
        },
        DiffRenderRow::Empty => {
            let message: &str = match diff {
                Some(d) => if d.is_binary {
                    "二进制文件仅显示元信息"
                } else {
                    "没有可显示的文本差异"
                },
                None => empty_message,
            };
            diff_line(DiffLineKind::Context, None, None, message.to_string())
        },
    }
}

/// The first row from `from` on that is a line, or the number of rows.
pub open spec fn first_line_row(model: DiffRenderModel, from: int) -> int
    decreases model.row_count - from,
{
    if from < 0 || from >= model.row_count {
        model.row_count as int
    } else if model.row(from) is DiffLine {
        from
    } else {
        first_line_row(model, from + 1)
    }
}

/// The row that the width of the list is taken from: the first line, or the last row.
pub fn width_measure_row(model: &DiffRenderModel) -> (r: Option<usize>)
    requires
        model.header_count + model.row_count <= usize::MAX,
    ensures
        ({
            let at = first_line_row(*model, 0);
            r == if at < model.row_count {
                Some(at as usize)
            } else if model.row_count > 0 {
                Some((model.row_count - 1) as usize)
            } else {
                None
            }
        }),
{
    let mut i: usize = 0;
    while i < model.row_count
        invariant
            i <= model.row_count,
            model.header_count + model.row_count <= usize::MAX,
            first_line_row(*model, 0) == first_line_row(*model, i as int),
        decreases model.row_count - i,
    {
        match model.row_at(i) {
            DiffRenderRow::DiffLine(_) => {
                return Some(i);
            },
            _ => {},
        }
        i = i + 1;
    }
    if model.row_count > 0 {
        Some(model.row_count - 1)
    } else {
        None
    }
}

/// The button that commits.
pub fn commit_button(repo_open: bool, busy: bool) -> (r: Button)
    ensures
        r == plain("提交", repo_open && !busy, UiAction::Commit),
{
    button("提交", repo_open && !busy, UiAction::Commit)
}

// ---------------------------------------------------------------------------
// Laws
// ---------------------------------------------------------------------------
/// Over the staged changes stand the buttons that unstage, over the others those that stage. Each
/// works only while nothing is running, on what is selected or on all there is.
pub proof fn lemma_section_buttons(selected: bool, any: bool, busy: bool)
    ensures
        ({
            let staged = section_buttons(DiffScope::Staged, selected, any, busy);
            let unstaged = section_buttons(DiffScope::Unstaged, selected, any, busy);
            &&& staged.len() == 2 && unstaged.len() == 2
            &&& staged[0].action is UnstageSelected && staged[1].action is UnstageAll
            &&& unstaged[0].action is StageSelected && unstaged[1].action is StageAll
            &&& staged[0].enabled == (selected && !busy) && unstaged[0].enabled == (selected
                && !busy)
            &&& staged[1].enabled == (any && !busy) && unstaged[1].enabled == (any && !busy)
            &&& staged[0].label != staged[1].label && unstaged[0].label != unstaged[1].label
        }),
{
    reveal_strlit("取消暂存选定文件");
    reveal_strlit("取消暂存所有文件");
    reveal_strlit("暂存选定文件");
    reveal_strlit("暂存所有文件");
    assert("取消暂存选定文件"@[4] != "取消暂存所有文件"@[4]);
    assert("暂存选定文件"@[2] != "暂存所有文件"@[2]);
}

/// Up to five paths are shown one under the other; of more the first five are, and how many more
/// there are.
pub proof fn lemma_shown_paths(paths: Seq<Seq<char>>)
    ensures
        paths.len() <= 5 ==> paths_text(paths) == joined(paths, "\n"@),
        paths.len() > 5 ==> joined(paths.take(5), "\n"@).is_prefix_of(paths_text(paths))
            && contains_text(paths_text(paths), decimal((paths.len() - 5) as nat)),
{
    if paths.len() > 5 {
        let head = joined(paths.take(5), "\n"@);
        let sep = if head.len() == 0 {
            Seq::empty()
        } else {
            "\n"@
        };
        let n = decimal((paths.len() - 5) as nat);
        let text = paths_text(paths);
        let before = head + sep + "... 以及另外 "@;
        assert(text =~= before + n + " 个文件"@);
        assert(text.subrange(0, head.len() as int) =~= head);
        crate::strings::lemma_contained_text(before, n, " 个文件"@);
    }
}

/// Lines that were added, lines that were taken out, headers and the others are told apart by their
/// colours.
pub proof fn lemma_line_colors(a: DiffLineKind, b: DiffLineKind)
    requires
        a != b,
    ensures
        line_colors(a).0 != line_colors(b).0,
        line_colors(a).1 != line_colors(b).1,
{
}

/// A line shows its numbers where it has them, and its text.
pub proof fn lemma_shown_line(
    row: DiffRowView,
    kind: DiffLineKind,
    old_lineno: Option<u32>,
    new_lineno: Option<u32>,
    content: Seq<char>,
)
    requires
        row.is_line(kind, old_lineno, new_lineno, content),
    ensures
        row matches DiffRowView::Line { bg, fg, old_lineno: o, new_lineno: n, content: c } && {
            &&& bg == line_colors(kind).0
            &&& fg == line_colors(kind).1
            &&& old_lineno matches Some(k) ==> o@ == decimal(k as nat)
            &&& old_lineno is None ==> o@.len() == 0
            &&& new_lineno matches Some(k) ==> n@ == decimal(k as nat)
            &&& new_lineno is None ==> n@.len() == 0
            &&& c@ == content
        },
{
}

/// The row that is measured is the first that shows a line.
pub proof fn lemma_measured_row(model: DiffRenderModel, from: int)
    requires
        0 <= from <= model.row_count,
    ensures
        from <= first_line_row(model, from) <= model.row_count,
        first_line_row(model, from) < model.row_count ==> model.row(
            first_line_row(model, from),
        ) is DiffLine,
        forall|i: int|
            from <= i < first_line_row(model, from) ==> !((#[trigger] model.row(i)) is DiffLine),
    decreases model.row_count - from,
{
    if from < model.row_count && !(model.row(from) is DiffLine) {
        lemma_measured_row(model, from + 1);
    }
}

} // verus!
