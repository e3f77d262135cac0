//! How conflicts are shown.

use vstd::prelude::*;

use crate::strings::{cat2, cat3, concat, decimal, ends_with, flat, split_from, split_text, str_views, usize_to_string, views};
use crate::text::{from_chars, to_chars};
use crate::types::conflicts::{ConflictBlock, ConflictBlockResolution, ConflictDraftStatus, ConflictFileKind, ConflictFileView, ConflictResolutionSide};
use crate::ui::actions::{Button, ButtonTone, UiAction, button, plain, primary_button, strong};

verus! {

/// The operation that a message about its end names.
pub open spec fn operation_of(label: Seq<char>) -> Seq<char> {
    if "完成"@.is_suffix_of(label) {
        label.take(label.len() - "完成"@.len())
    } else {
        "操作"@
    }
}

/// What the status says when an operation ends in conflicts.
pub fn conflict_status_message(label: &str, count: usize) -> (r: String)
    ensures
        r@ == operation_of(label@) + "产生冲突，请在左侧“冲突”区域解决（"@ + decimal(count as nat)
            + " 个文件）"@,
{
    let operation: String = if ends_with(label, "完成") {
        let chars: Vec<char> = to_chars(label);
        let end: Vec<char> = to_chars("完成");
        let r: String = from_chars(&chars, 0, chars.len() - end.len());
        assert(r@ =~= label@.take(label@.len() - "完成"@.len()));
        r
    } else {
        "操作".to_string()
    };
    let count_text: String = usize_to_string(count);
    let head: String = cat3(
        operation.as_str(),
        "产生冲突，请在左侧“冲突”区域解决（",
        count_text.as_str(),
    );
    cat2(head.as_str(), " 个文件）")
}

pub fn conflict_summary(count: usize) -> (r: String)
    ensures
        r@ == "存在 "@ + decimal(count as nat) + " 个冲突文件"@,
{
    let n: String = usize_to_string(count);
    cat3("存在 ", n.as_str(), " 个冲突文件")
}

/// How many blocks of a file nobody has decided on.
pub open spec fn unresolved(view: ConflictFileView) -> nat {
    view.blocks@.filter(|b: ConflictBlock| b.resolution is None).len()
}

/// A file in conflict in the list of such files.
#[derive(Debug, PartialEq, Eq)]
pub struct ConflictFileRow {
    pub badge: &'static str,
    pub unresolved: String,
    pub note: Option<&'static str>,
}

pub fn conflict_file_row(view: Option<&ConflictFileView>) -> (r: ConflictFileRow)
    ensures
        r.badge == match view {
            None => "加载中",
            Some(v) => match v.kind {
                ConflictFileKind::Text => "文本",
                ConflictFileKind::Binary => "二进制",
                ConflictFileKind::Unsupported => "回退",
            },
        },
        r.unresolved@ == "未处理 "@ + decimal(
            match view {
                Some(v) => unresolved(*v),
                None => 0,
            },
        ),
        r.note == match view {
            None => None::<&'static str>,
            Some(v) => match v.draft_status {
                ConflictDraftStatus::Clean => None,
                ConflictDraftStatus::Dirty => Some("草稿已修改"),
                ConflictDraftStatus::Applied => Some("已应用"),
            },
        },
{
    match view {
        None => {
            let n: String = usize_to_string(0);
            ConflictFileRow { badge: "加载中", unresolved: cat2("未处理 ", n.as_str()), note: None }
        },
        Some(v) => {
            let n: String = usize_to_string(v.unresolved_block_count());
            let badge: &'static str = match v.kind {
                ConflictFileKind::Text => "文本",
                ConflictFileKind::Binary => "二进制",
                ConflictFileKind::Unsupported => "回退",
            };
            let note: Option<&'static str> = match v.draft_status {
                ConflictDraftStatus::Clean => None,
                ConflictDraftStatus::Dirty => Some("草稿已修改"),
                ConflictDraftStatus::Applied => Some("已应用"),
            };
            ConflictFileRow { badge, unresolved: cat2("未处理 ", n.as_str()), note }
        },
    }
}

/// The buttons of a file in the list of conflicts.
pub open spec fn side_buttons(path: String, busy: bool) -> Seq<Button> {
    seq![
        plain(
            "当前版本",
            !busy,
            UiAction::ResolveSide { path, side: ConflictResolutionSide::Ours },
        ),
        plain(
            "传入版本",
            !busy,
            UiAction::ResolveSide { path, side: ConflictResolutionSide::Theirs },
        ),
        plain("标记解决", !busy, UiAction::MarkResolved { path }),
    ]
}

pub fn conflict_row(path: &String, busy: bool) -> (r: Vec<Button>)
    ensures
        r@ == side_buttons(*path, busy),
{
    let mut r: Vec<Button> = Vec::new();
    r.push(
        button(
            "当前版本",
            !busy,
            UiAction::ResolveSide { path: path.clone(), side: ConflictResolutionSide::Ours },
        ),
    );
    r.push(
        button(
            "传入版本",
            !busy,
            UiAction::ResolveSide { path: path.clone(), side: ConflictResolutionSide::Theirs },
        ),
    );
    r.push(button("标记解决", !busy, UiAction::MarkResolved { path: path.clone() }));
    assert(r@ =~= side_buttons(*path, busy));
    r
}

/// The block that is shown, if there are any: the selected one, or the last one.
pub open spec fn shown_block(count: int, selected: int) -> int {
    if selected >= count {
        count - 1
    } else {
        selected
    }
}

/// How far the work on a file has come.
pub open spec fn progress(view: Option<&ConflictFileView>, selected: int) -> Seq<char> {
    match view {
        Some(v) if v.blocks@.len() > 0 => flat(
            seq![
                "块 "@,
                decimal((shown_block(v.blocks@.len() as int, selected) + 1) as nat),
                "/"@,
                decimal(v.blocks@.len()),
                "，未处理 "@,
                decimal(unresolved(*v)),
            ],
        ),
        _ => "无文本冲突块"@,
    }
}

pub open spec fn header_buttons(blocks: int, text: bool, show_base: bool, busy: bool) -> Seq<Button> {
    seq![
        plain("上一个块", blocks > 0, UiAction::PreviousBlock),
        plain("下一个块", blocks > 0, UiAction::NextBlock),
        plain(
            if show_base {
                "隐藏 Base"
            } else {
                "显示 Base"
            },
            blocks > 0,
            UiAction::ToggleBase,
        ),
        plain("应用到工作区", text && !busy, UiAction::ApplyDraft { mark_resolved: false }),
        strong("应用并标记已解决", text && !busy, UiAction::ApplyDraft { mark_resolved: true }),
    ]
}

/// What stands above a file in conflict.
#[derive(Debug, PartialEq, Eq)]
pub struct ConflictHeader {
    pub title: String,
    pub progress: String,
    pub buttons: Vec<Button>,
}

fn progress_text(view: Option<&ConflictFileView>, selected: usize) -> (r: String)
    ensures
        r@ == progress(view, selected as int),
{
    match view {
        Some(v) => {
            let count: usize = v.blocks.len();
            if count == 0 {
                return "无文本冲突块".to_string();
            }
            let shown: usize = if selected >= count {
                count - 1
            } else {
                selected
            };
            let at: String = usize_to_string(shown + 1);
            let all: String = usize_to_string(count);
            let open: String = usize_to_string(v.unresolved_block_count());
            let mut parts: Vec<&str> = Vec::new();
            parts.push("块 ");
            parts.push(at.as_str());
            parts.push("/");
            parts.push(all.as_str());
            parts.push("，未处理 ");
            parts.push(open.as_str());
            let r: String = concat(&parts, 0, parts.len());
            assert(str_views(parts@).subrange(0, parts@.len() as int) =~= seq![
                "块 "@,
                at@,
                "/"@,
                all@,
                "，未处理 "@,
                open@,
            ]);
            r
        },
        None => "无文本冲突块".to_string(),
    }
}

pub fn conflict_header(
    path: &Option<String>,
    view: Option<&ConflictFileView>,
    selected_block: usize,
    show_base: bool,
    busy: bool,
) -> (r: ConflictHeader)
    ensures
        r.title@ == match path {
            Some(p) => p@,
            None => "请选择一个冲突文件"@,
        },
        r.progress@ == progress(view, selected_block as int),
        ({
            let (blocks, text) = match view {
                Some(v) => (v.blocks@.len() as int, v.kind == ConflictFileKind::Text),
                None => (0, false),
            };
            r.buttons@ == header_buttons(blocks, text, show_base, busy)
        }),
{
    let title: String = match path {
        Some(p) => p.clone(),
        None => "请选择一个冲突文件".to_string(),
    };
    let (blocks, text): (usize, bool) = match view {
        Some(v) => (v.blocks.len(), v.kind == ConflictFileKind::Text),
        None => (0, false),
    };
    let mut buttons: Vec<Button> = Vec::new();
    buttons.push(button("上一个块", blocks > 0, UiAction::PreviousBlock));
    buttons.push(button("下一个块", blocks > 0, UiAction::NextBlock));
    let base_label: &'static str = if show_base {
        "隐藏 Base"
    } else {
        "显示 Base"
    };
    buttons.push(button(base_label, blocks > 0, UiAction::ToggleBase));
    buttons.push(
        button("应用到工作区", text && !busy, UiAction::ApplyDraft { mark_resolved: false }),
    );
    buttons.push(
        primary_button(
            "应用并标记已解决",
            text && !busy,
            UiAction::ApplyDraft { mark_resolved: true },
        ),
    );
    assert(buttons@ =~= header_buttons(blocks as int, text, show_base, busy));
    ConflictHeader { title, progress: progress_text(view, selected_block), buttons }
}

/// The lines of a text. A blank one is shown as a space, so that it has a height.
pub open spec fn shown_lines(content: Seq<char>) -> Seq<Seq<char>> {
    split_from(content, '\n', 0).map_values(
        |line: Seq<char>|
            if line.len() == 0 {
                " "@
            } else {
                line
            },
    )
}

pub fn conflict_text_lines(content: &str) -> (r: Vec<String>)
    ensures
        views(r@) == shown_lines(content@),
{
    let lines: Vec<String> = split_text(content, '\n');
    let mut r: Vec<String> = Vec::new();
    let mut i: usize = 0;
    assert(views(r@) =~= shown_lines(content@).take(0));
    while i < lines.len()
        invariant
            i <= lines@.len(),
            views(lines@) == split_from(content@, '\n', 0),
            views(r@) == shown_lines(content@).take(i as int),
        decreases lines@.len() - i,
    {
        let ghost before = r@;
        assert(views(lines@)[i as int] == lines@[i as int]@);
        let chars: Vec<char> = to_chars(lines[i].as_str());
        let line: String = if chars.len() == 0 {
            " ".to_string()
        } else {
            lines[i].clone()
        };
        r.push(line);
        assert(views(r@) =~= views(before).push(line@));
        assert(shown_lines(content@).take(i + 1) =~= shown_lines(content@).take(i as int).push(
            line@,
        ));
        i = i + 1;
    }
    assert(shown_lines(content@).take(i as int) =~= shown_lines(content@));
    r
}

/// One side of a conflict, and how it is accepted.
#[derive(Debug, PartialEq, Eq)]
pub struct ConflictPane {
    pub title: &'static str,
    pub lines: Vec<String>,
    pub buttons: Vec<Button>,
}

/// A file in conflict whose text is edited.
#[derive(Debug, PartialEq, Eq)]
pub struct TextConflict {
    pub warning: Option<&'static str>,
    pub ours: ConflictPane,
    pub theirs: ConflictPane,
    /// The common base, where it is to be shown.
    pub base: Option<Vec<String>>,
}

pub open spec fn pane_buttons(ours: bool, busy: bool) -> Seq<Button> {
    if ours {
        seq![
            plain("接受当前", !busy, UiAction::AcceptBlock(ConflictBlockResolution::Ours)),
            plain(
                "接受两边（当前在前）",
                !busy,
                UiAction::AcceptBlock(ConflictBlockResolution::BothOursFirst),
            ),
        ]
    } else {
        seq![
            plain("接受传入", !busy, UiAction::AcceptBlock(ConflictBlockResolution::Theirs)),
            plain(
                "接受两边（传入在前）",
                !busy,
                UiAction::AcceptBlock(ConflictBlockResolution::BothTheirsFirst),
            ),
        ]
    }
}

fn conflict_pane(ours: bool, content: &str, busy: bool) -> (r: ConflictPane)
    ensures
        r.title == if ours {
            "当前版本"
        } else {
            "传入版本"
        },
        views(r.lines@) == shown_lines(content@),
        r.buttons@ == pane_buttons(ours, busy),
{
    let mut buttons: Vec<Button> = Vec::new();
    let title: &'static str = if ours {
        buttons.push(
            button("接受当前", !busy, UiAction::AcceptBlock(ConflictBlockResolution::Ours)),
        );
        buttons.push(
            button(
                "接受两边（当前在前）",
                !busy,
                UiAction::AcceptBlock(ConflictBlockResolution::BothOursFirst),
            ),
        );
        "当前版本"
    } else {
        buttons.push(
            button("接受传入", !busy, UiAction::AcceptBlock(ConflictBlockResolution::Theirs)),
        );
        buttons.push(
            button(
                "接受两边（传入在前）",
                !busy,
                UiAction::AcceptBlock(ConflictBlockResolution::BothTheirsFirst),
            ),
        );
        "传入版本"
    };
    assert(buttons@ =~= pane_buttons(ours, busy));
    ConflictPane { title, lines: conflict_text_lines(content), buttons }
}

/// The text of a side of the block that is shown.
pub open spec fn side_text(view: ConflictFileView, selected: int, ours: bool) -> Seq<char> {
    if view.blocks@.len() == 0 {
        Seq::empty()
    } else {
        let block = view.blocks@[shown_block(view.blocks@.len() as int, selected)];
        if ours {
            block.ours@
        } else {
            block.theirs@
        }
    }
}

/// The base of the block that is shown.
pub open spec fn base_text(view: ConflictFileView, selected: int) -> Option<String> {
    if view.blocks@.len() == 0 {
        None
    } else {
        view.blocks@[shown_block(view.blocks@.len() as int, selected)].base
    }
}

impl TextConflict {
    /// Whether this is what is shown of a file whose text is edited.
    pub open spec fn shows(
        self,
        view: ConflictFileView,
        selected: int,
        show_base: bool,
        busy: bool,
    ) -> bool {
        &&& self.warning == if unresolved(view) > 0 || exists|i: int|
            0 <= i < view.blocks@.len() && (#[trigger] view.blocks@[i]).has_manual_edits {
            Some("仍有未显式接受或手工改写的冲突块；你仍然可以直接应用并标记解决。")
        } else {
            None
        }
        &&& self.ours.title == "当前版本"
        &&& views(self.ours.lines@) == shown_lines(side_text(view, selected, true))
        &&& self.ours.buttons@ == pane_buttons(true, busy)
        &&& self.theirs.title == "传入版本"
        &&& views(self.theirs.lines@) == shown_lines(side_text(view, selected, false))
        &&& self.theirs.buttons@ == pane_buttons(false, busy)
        &&& match base_text(view, selected) {
            Some(base) if show_base => self.base is Some && views((self.base->0)@) == shown_lines(
                base@,
            ),
            _ => self.base is None,
        }
    }
}

pub fn text_conflict(view: &ConflictFileView, selected_block: usize, show_base: bool, busy: bool) -> (r:
    TextConflict)
    ensures
        r.shows(*view, selected_block as int, show_base, busy),
{
    let warning: Option<&'static str> = if view.has_manual_blocks()
        || view.unresolved_block_count() > 0 {
        Some("仍有未显式接受或手工改写的冲突块；你仍然可以直接应用并标记解决。")
    } else {
        None
    };
    let count: usize = view.blocks.len();
    if count == 0 {
        proof {
            reveal_strlit("");
            assert(""@ =~= Seq::<char>::empty());
        }
        return TextConflict {
            warning,
            ours: conflict_pane(true, "", busy),
            theirs: conflict_pane(false, "", busy),
            base: None,
        };
    }
    let shown: usize = if selected_block >= count {
        count - 1
    } else {
        selected_block
    };
    let block: &ConflictBlock = &view.blocks[shown];
    let base: Option<Vec<String>> = match &block.base {
        Some(base) => if show_base {
            Some(conflict_text_lines(base.as_str()))
        } else {
            None
        },
        None => None,
    };
    TextConflict {
        warning,
        ours: conflict_pane(true, block.ours.as_str(), busy),
        theirs: conflict_pane(false, block.theirs.as_str(), busy),
        base,
    }
}

/// A file in conflict whose text is not edited.
#[derive(Debug, PartialEq, Eq)]
pub struct FallbackConflict {
    pub reason: String,
    pub buttons: Vec<Button>,
}

pub open spec fn fallback_buttons(path: String, busy: bool) -> Seq<Button> {
    seq![
        plain(
            "当前版本",
            !busy,
            UiAction::ResolveSide { path, side: ConflictResolutionSide::Ours },
        ),
        plain(
            "传入版本",
            !busy,
            UiAction::ResolveSide { path, side: ConflictResolutionSide::Theirs },
        ),
        strong("标记解决", !busy, UiAction::MarkResolved { path }),
    ]
}

impl FallbackConflict {
    /// Whether this is what is shown of a file whose text is not edited.
    pub open spec fn shows(self, view: ConflictFileView, path: String, busy: bool) -> bool {
        &&& self.reason@ == match view.fallback_reason {
            Some(reason) => reason@,
            None => "该冲突暂不支持可视化文本编辑"@,
        }
        &&& self.buttons@ == fallback_buttons(path, busy)
    }
}

pub fn fallback_conflict(view: &ConflictFileView, path: &String, busy: bool) -> (r: FallbackConflict)
    ensures
        r.shows(*view, *path, busy),
{
    let reason: String = match &view.fallback_reason {
        Some(reason) => reason.clone(),
        None => "该冲突暂不支持可视化文本编辑".to_string(),
    };
    let mut buttons: Vec<Button> = Vec::new();
    buttons.push(
        button(
            "当前版本",
            !busy,
            UiAction::ResolveSide { path: path.clone(), side: ConflictResolutionSide::Ours },
        ),
    );
    buttons.push(
        button(
            "传入版本",
            !busy,
            UiAction::ResolveSide { path: path.clone(), side: ConflictResolutionSide::Theirs },
        ),
    );
    buttons.push(primary_button("标记解决", !busy, UiAction::MarkResolved { path: path.clone() }));
    assert(buttons@ =~= fallback_buttons(*path, busy));
    FallbackConflict { reason, buttons }
}

/// What is shown of the selected file in conflict.
#[derive(Debug, PartialEq, Eq)]
pub enum ConflictDetail {
    Text(TextConflict),
    Fallback(FallbackConflict),
    /// No file is selected, or the selected one is not read yet.
    Nothing(&'static str),
}

pub fn conflict_detail(
    path: &Option<String>,
    view: Option<&ConflictFileView>,
    selected_block: usize,
    show_base: bool,
    busy: bool,
) -> (r: ConflictDetail)
    ensures
        match (path, view) {
            (Some(p), Some(v)) => if v.kind == ConflictFileKind::Text {
                r matches ConflictDetail::Text(text) && text.shows(
                    *v,
                    selected_block as int,
                    show_base,
                    busy,
                )
            } else {
                r matches ConflictDetail::Fallback(fallback) && fallback.shows(*v, *p, busy)
            },
            _ => r == ConflictDetail::Nothing("请选择一个冲突文件"),
        },
{
    match (path, view) {
        (Some(p), Some(v)) => {
            if v.kind == ConflictFileKind::Text {
                ConflictDetail::Text(text_conflict(v, selected_block, show_base, busy))
            } else {
                ConflictDetail::Fallback(fallback_conflict(v, p, busy))
            }
        },
        _ => ConflictDetail::Nothing("请选择一个冲突文件"),
    }
}

// ---------------------------------------------------------------------------
// Laws
// ---------------------------------------------------------------------------
/// The name of an operation is what it says when it is done, without the word for that.
pub proof fn lemma_operation_names(name: Seq<char>, label: Seq<char>)
    ensures
        operation_of(name + "完成"@) == name,
        !"完成"@.is_suffix_of(label) ==> operation_of(label) == "操作"@,
{
    let full = name + "完成"@;
    let n = "完成"@.len() as int;
    assert(full.subrange(full.len() - n, full.len() as int) =~= "完成"@);
    assert(full.take(full.len() - n) =~= name);
}

/// The buttons of a file take the side that they name, of that file, and mark it resolved; all of
/// them work while nothing is running.
pub proof fn lemma_side_buttons(path: String, busy: bool, i: int)
    requires
        0 <= i < 3,
    ensures
        side_buttons(path, busy).len() == 3,
        fallback_buttons(path, busy).len() == 3,
        side_buttons(path, busy)[0].label == "当前版本" && side_buttons(path, busy)[0].action == (
        UiAction::ResolveSide { path, side: ConflictResolutionSide::Ours }),
        side_buttons(path, busy)[1].label == "传入版本" && side_buttons(path, busy)[1].action == (
        UiAction::ResolveSide { path, side: ConflictResolutionSide::Theirs }),
        side_buttons(path, busy)[2].action == (UiAction::MarkResolved { path }),
        side_buttons(path, busy)[i].enabled == !busy,
        fallback_buttons(path, busy)[i].enabled == !busy,
        fallback_buttons(path, busy)[i].action == side_buttons(path, busy)[i].action,
        fallback_buttons(path, busy)[i].label == side_buttons(path, busy)[i].label,
{
}

/// The block that is shown is the one that was selected, or the last if there are fewer.
pub proof fn lemma_shown_block(count: int, selected: int)
    requires
        0 < count,
        0 <= selected,
    ensures
        0 <= shown_block(count, selected) < count,
        selected < count ==> shown_block(count, selected) == selected,
        selected >= count ==> shown_block(count, selected) == count - 1,
{
}

/// The text of a block is shown side by side: ours under ours, theirs under theirs, and the text both
/// came from if it is there.
pub proof fn lemma_shown_sides(view: ConflictFileView, selected: int)
    requires
        0 <= selected < view.blocks@.len(),
    ensures
        side_text(view, selected, true) == view.blocks@[selected].ours@,
        side_text(view, selected, false) == view.blocks@[selected].theirs@,
        base_text(view, selected) == view.blocks@[selected].base,
{
}

/// The buttons under a side accept that side, alone or before the other.
pub proof fn lemma_pane_buttons(busy: bool, i: int)
    requires
        0 <= i < 2,
    ensures
        pane_buttons(true, busy).len() == 2,
        pane_buttons(false, busy).len() == 2,
        pane_buttons(true, busy)[0].action == UiAction::AcceptBlock(ConflictBlockResolution::Ours),
        pane_buttons(true, busy)[1].action == UiAction::AcceptBlock(
            ConflictBlockResolution::BothOursFirst,
        ),
        pane_buttons(false, busy)[0].action == UiAction::AcceptBlock(
            ConflictBlockResolution::Theirs,
        ),
        pane_buttons(false, busy)[1].action == UiAction::AcceptBlock(
            ConflictBlockResolution::BothTheirsFirst,
        ),
        pane_buttons(true, busy)[i].enabled == !busy,
        pane_buttons(false, busy)[i].enabled == !busy,
{
}

/// Over a conflict one goes from block to block while there are blocks, and applies the draft while
/// it is a text and nothing is running; only the last button marks the file resolved too.
pub proof fn lemma_header_buttons(blocks: int, text: bool, show_base: bool, busy: bool)
    ensures
        ({
            let b = header_buttons(blocks, text, show_base, busy);
            &&& b.len() == 5
            &&& b[0].action is PreviousBlock && b[0].enabled == (blocks > 0)
            &&& b[1].action is NextBlock && b[1].enabled == (blocks > 0)
            &&& b[2].action is ToggleBase && b[2].enabled == (blocks > 0)
            &&& b[2].label == if show_base {
                "隐藏 Base"
            } else {
                "显示 Base"
            }
            &&& b[3].action == (UiAction::ApplyDraft { mark_resolved: false }) && b[3].enabled == (
            text && !busy)
            &&& b[4].action == (UiAction::ApplyDraft { mark_resolved: true }) && b[4].enabled == (
            text && !busy)
            &&& b[4].tone == ButtonTone::Primary
        }),
{
}

/// A text is shown line by line: joined by line breaks the lines are the text, but for a blank that
/// stands for a line without anything in it.
pub proof fn lemma_shown_lines(content: Seq<char>, i: int)
    ensures
        ({
            let lines = split_from(content, '\n', 0);
            &&& crate::strings::joined(lines, seq!['\n']) == content
            &&& shown_lines(content).len() == lines.len()
            &&& 0 <= i < lines.len() ==> {
                &&& !lines[i].contains('\n')
                &&& lines[i].len() > 0 ==> shown_lines(content)[i] == lines[i]
                &&& lines[i].len() == 0 ==> shown_lines(content)[i] == " "@
            }
        }),
{
    crate::strings::lemma_split_is_undone_by_joining(content, '\n', 0);
    assert(content.skip(0) =~= content);
}

/// What is left to do is counted block by block: a block counts while no side was taken for it.
pub proof fn lemma_unresolved(a: ConflictFileView, b: ConflictFileView, block: ConflictBlock)
    requires
        b.blocks@ == a.blocks@.push(block),
    ensures
        unresolved(b) == unresolved(a) + if block.resolution is None {
            1int
        } else {
            0
        },
        a.blocks@.len() == 0 ==> unresolved(a) == 0,
{
    reveal(Seq::filter);
    assert(b.blocks@.drop_last() =~= a.blocks@);
}

/// The warning over a conflict stands there while something is left to do or was changed by hand.
pub proof fn lemma_conflict_warning(
    shown: TextConflict,
    view: ConflictFileView,
    selected: int,
    show_base: bool,
    busy: bool,
)
    requires
        shown.shows(view, selected, show_base, busy),
    ensures
        shown.warning is None <==> unresolved(view) == 0 && forall|i: int|
            0 <= i < view.blocks@.len() ==> !(#[trigger] view.blocks@[i]).has_manual_edits,
        shown.base is Some ==> show_base,
        views(shown.ours.lines@) == shown_lines(side_text(view, selected, true)),
        views(shown.theirs.lines@) == shown_lines(side_text(view, selected, false)),
{
}

/// Over a conflict stands which block is shown of how many, counted from one, and how many are left.
pub proof fn lemma_progress(view: &ConflictFileView, selected: int)
    requires
        0 <= selected < view.blocks@.len(),
    ensures
        progress(Some(view), selected) == "块 "@ + decimal((selected + 1) as nat) + "/"@ + decimal(
            view.blocks@.len(),
        ) + "，未处理 "@ + decimal(unresolved(*view)),
{
    reveal_with_fuel(flat, 8);
    let parts = seq![
        "块 "@,
        decimal((selected + 1) as nat),
        "/"@,
        decimal(view.blocks@.len()),
        "，未处理 "@,
        decimal(unresolved(*view)),
    ];
    assert(flat(parts) =~= "块 "@ + decimal((selected + 1) as nat) + "/"@ + decimal(
        view.blocks@.len(),
    ) + "，未处理 "@ + decimal(unresolved(*view)));
}

} // verus!
