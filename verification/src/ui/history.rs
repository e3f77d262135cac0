//! The history of a repository.

use vstd::prelude::*;

use crate::clock::{commit_time_label, formatted_time};
use crate::graph::CommitGraphRow;
use crate::session::tab::RepoTabState;
use crate::strings::{cat2, cat3, decimal, opt_str_eq, opt_view, str_eq, usize_to_string};
use crate::text::bytes_of;
use crate::types::{CommitFileChange, CommitInfo, CommitRefInfo, CommitRefKind};
use crate::ui::actions::{Button, UiAction, button, plain};
use crate::ui::avatar::{author_avatar_color, author_avatar_initial, avatar_colors, hash_of, uppercase};
use crate::ui::theme;

verus! {

/// How many commits are asked for at a time.
pub const HISTORY_PAGE_SIZE: usize = 50;

/// How many lanes of the graph are drawn.
pub const LAST_DRAWN_LANE: usize = 5;

/// How many labels of a commit are shown.
pub const SHOWN_REFS: usize = 3;

/// What of a page is shown, and whether there is more. One commit more than a page is asked for.
pub fn history_page(commits: Vec<CommitInfo>) -> (r: (Vec<CommitInfo>, bool))
    ensures
        r.1 == (commits@.len() > HISTORY_PAGE_SIZE),
        (r.0)@ == if commits@.len() > HISTORY_PAGE_SIZE {
            commits@.take(HISTORY_PAGE_SIZE as int)
        } else {
            commits@
        },
{
    let has_more: bool = commits.len() > HISTORY_PAGE_SIZE;
    let mut page: Vec<CommitInfo> = commits;
    if has_more {
        page.truncate(HISTORY_PAGE_SIZE);
        assert(page@ =~= commits@.take(HISTORY_PAGE_SIZE as int));
    }
    (page, has_more)
}

/// What stands in place of commits.
pub fn history_placeholder(loading: bool, repo_open: bool) -> (r: &'static str)
    ensures
        r == if loading {
            "提交记录加载中..."
        } else if repo_open {
            "暂无提交记录"
        } else {
            "请先打开一个仓库"
        },
{
    if loading {
        "提交记录加载中..."
    } else if repo_open {
        "暂无提交记录"
    } else {
        "请先打开一个仓库"
    }
}

/// The button below the commits, if there are more.
pub fn more_button(tab: &RepoTabState) -> (r: Option<Button>)
    ensures
        r == if tab.history_commits@.len() > 0 && tab.history_has_more {
            Some(
                plain(
                    if tab.history_loading.commits {
                        "加载中..."
                    } else {
                        "加载更多"
                    },
                    !tab.history_loading.commits,
                    UiAction::LoadMoreHistory,
                ),
            )
        } else {
            None
        },
{
    if tab.history_commits.len() > 0 && tab.history_has_more {
        Some(
            button(
                if tab.history_loading.commits {
                    "加载中..."
                } else {
                    "加载更多"
                },
                !tab.history_loading.commits,
                UiAction::LoadMoreHistory,
            ),
        )
    } else {
        None
    }
}

/// The label of a branch or a tag on a commit.
#[derive(Debug, PartialEq, Eq)]
pub struct RefLabel {
    pub bg: u32,
    pub border: u32,
    pub text: u32,
    pub label: String,
}

pub open spec fn ref_label(reference: CommitRefInfo) -> RefLabel {
    match reference.kind {
        CommitRefKind::LocalBranch => RefLabel {
            bg: 0xe1fbf4,
            border: 0x14b8a6,
            text: 0x0f766e,
            label: reference.name,
        },
        CommitRefKind::RemoteBranch => RefLabel {
            bg: 0xffeadf,
            border: 0xff6a3d,
            text: 0xc2410c,
            label: reference.name,
        },
        CommitRefKind::Tag => RefLabel {
            bg: 0xfff3bf,
            border: 0xf0b429,
            text: 0x9a6700,
            label: reference.name,
        },
        CommitRefKind::Head => RefLabel {
            bg: 0x2f2a24,
            border: 0x2f2a24,
            text: 0xffffff,
            label: reference.name,
        },
    }
}

pub fn commit_ref_label(reference: &CommitRefInfo) -> (r: RefLabel)
    ensures
        r == ref_label(*reference),
{
    let (bg, border, text): (u32, u32, u32) = match reference.kind {
        CommitRefKind::LocalBranch => (0xe1fbf4, 0x14b8a6, 0x0f766e),
        CommitRefKind::RemoteBranch => (0xffeadf, 0xff6a3d, 0xc2410c),
        CommitRefKind::Tag => (0xfff3bf, 0xf0b429, 0x9a6700),
        CommitRefKind::Head => (0x2f2a24, 0x2f2a24, 0xffffff),
    };
    RefLabel { bg, border, text, label: reference.name.clone() }
}

/// The labels that are shown on a commit.
pub fn commit_ref_labels(refs: &Vec<CommitRefInfo>) -> (r: Vec<RefLabel>)
    ensures
        r@.len() == if refs@.len() < SHOWN_REFS {
            refs@.len() as int
        } else {
            SHOWN_REFS as int
        },
        forall|i: int| 0 <= i < r@.len() ==> #[trigger] r@[i] == ref_label(refs@[i]),
{
    let mut r: Vec<RefLabel> = Vec::new();
    let mut i: usize = 0;
    while i < refs.len() && i < SHOWN_REFS
        invariant
            i <= refs@.len(),
            i <= SHOWN_REFS,
            r@.len() == i,
            forall|k: int| 0 <= k < i ==> #[trigger] r@[k] == ref_label(refs@[k]),
        decreases refs@.len() - i,
    {
        r.push(commit_ref_label(&refs[i]));
        i = i + 1;
    }
    r
}

/// What is said of the labels that are not shown.
pub fn commit_ref_overflow_label(count: usize) -> (r: String)
    ensures
        r@ == "+"@ + decimal(count as nat),
{
    let n: String = usize_to_string(count);
    cat2("+", n.as_str())
}

/// How a commit is shown.
#[derive(Debug, PartialEq, Eq)]
pub struct CommitRow {
    pub selected: bool,
    pub bg: u32,
    pub border: u32,
    pub time: String,
    pub avatar_color: u32,
    pub avatar_initial: String,
    pub refs: Vec<RefLabel>,
    pub hidden_refs: Option<String>,
}

/// How a commit is shown. The time is that of a place `offset` seconds east of Greenwich.
pub fn commit_row(commit: &CommitInfo, selected_commit: &Option<String>, offset: i32) -> (r: CommitRow)
    ensures
        r.selected == (opt_view(*selected_commit) == Some(commit.oid@)),
        r.bg == if r.selected {
            theme::COLOR_ROW_SELECTED
        } else {
            theme::COLOR_SURFACE
        },
        r.border == if r.selected {
            theme::COLOR_BORDER_STRONG
        } else {
            theme::COLOR_BORDER
        },
        r.time@ == match formatted_time(commit.time, 0, offset, "%Y-%m-%d %H:%M:%S"@) {
            Some(t) => t,
            None => "时间未知"@,
        },
        r.avatar_color == avatar_colors()[hash_of(bytes_of(commit.author@)) % 10],
        r.avatar_initial@ == if crate::strings::trimmed(commit.author@).len() > 0 {
            uppercase(crate::strings::trimmed(commit.author@)[0])
        } else {
            "?"@
        },
        r.refs@.len() == if commit.refs@.len() < SHOWN_REFS {
            commit.refs@.len() as int
        } else {
            SHOWN_REFS as int
        },
        forall|i: int|
            0 <= i < r.refs@.len() ==> #[trigger] r.refs@[i] == ref_label(commit.refs@[i]),
        opt_view(r.hidden_refs) == if commit.refs@.len() > SHOWN_REFS {
            Some("+"@ + decimal((commit.refs@.len() - SHOWN_REFS) as nat))
        } else {
            None
        },
{
    let selected: bool = opt_str_eq(selected_commit, commit.oid.as_str());
    let hidden_refs: Option<String> = if commit.refs.len() > SHOWN_REFS {
        Some(commit_ref_overflow_label(commit.refs.len() - SHOWN_REFS))
    } else {
        None
    };
    CommitRow {
        selected,
        bg: if selected {
            theme::COLOR_ROW_SELECTED
        } else {
            theme::COLOR_SURFACE
        },
        border: if selected {
            theme::COLOR_BORDER_STRONG
        } else {
            theme::COLOR_BORDER
        },
        time: commit_time_label(commit.time, offset),
        avatar_color: author_avatar_color(commit.author.as_str()),
        avatar_initial: author_avatar_initial(commit.author.as_str()),
        refs: commit_ref_labels(&commit.refs),
        hidden_refs,
    }
}

// ---------------------------------------------------------------------------
// The graph
// ---------------------------------------------------------------------------
/// What is drawn of the graph beside a commit.
#[derive(Debug, PartialEq, Eq)]
pub struct GraphCell {
    /// The lane of the dot.
    pub lane: usize,
    /// The lanes that are drawn from top to bottom.
    pub lanes: Vec<usize>,
    /// The lanes to which lines are drawn.
    pub connectors: Vec<usize>,
    /// Whether some lanes may not be drawn.
    pub overflow: bool,
}

/// The lanes that are drawn.
pub open spec fn drawn(lanes: Seq<usize>) -> Seq<usize>
    decreases lanes.len(),
{
    if lanes.len() == 0 {
        Seq::empty()
    } else {
        let head = drawn(lanes.drop_last());
        if lanes.last() <= LAST_DRAWN_LANE {
            head.push(lanes.last())
        } else {
            head
        }
    }
}

/// Whether a lane is the last that is drawn, or one after it.
pub open spec fn reaches_end(lanes: Seq<usize>) -> bool {
    exists|i: int| 0 <= i < lanes.len() && (#[trigger] lanes[i]) >= LAST_DRAWN_LANE
}

fn drawn_lanes(lanes: &Vec<usize>) -> (r: Vec<usize>)
    ensures
        r@ == drawn(lanes@),
{
    let mut r: Vec<usize> = Vec::new();
    let mut i: usize = 0;
    assert(lanes@.take(0) =~= Seq::<usize>::empty());
    while i < lanes.len()
        invariant
            i <= lanes@.len(),
            r@ == drawn(lanes@.take(i as int)),
        decreases lanes@.len() - i,
    {
        proof {
            let more = lanes@.take(i as int + 1);
            assert(more.drop_last() =~= lanes@.take(i as int));
            assert(more.last() == lanes@[i as int]);
        }
        if lanes[i] <= LAST_DRAWN_LANE {
            r.push(lanes[i]);
        }
        i = i + 1;
    }
    assert(lanes@.take(i as int) =~= lanes@);
    r
}

fn any_at_end(lanes: &Vec<usize>) -> (r: bool)
    ensures
        r == reaches_end(lanes@),
{
    let mut i: usize = 0;
    while i < lanes.len()
        invariant
            i <= lanes@.len(),
            forall|k: int| 0 <= k < i ==> (#[trigger] lanes@[k]) < LAST_DRAWN_LANE,
        decreases lanes@.len() - i,
    {
        if lanes[i] >= LAST_DRAWN_LANE {
            return true;
        }
        i = i + 1;
    }
    false
}

/// What is drawn of the graph beside a commit.
pub fn commit_graph_cell(graph: &CommitGraphRow) -> (r: GraphCell)
    ensures
        r.lane == if graph.lane < LAST_DRAWN_LANE {
            graph.lane
        } else {
            LAST_DRAWN_LANE
        },
        r.lanes@ == drawn(graph.lanes@),
        r.connectors@ == drawn(graph.connectors@),
        r.overflow == if graph.lanes@.len() + graph.connectors@.len() == 0 {
            graph.lane >= LAST_DRAWN_LANE
        } else {
            reaches_end(graph.lanes@) || reaches_end(graph.connectors@)
        },
{
    let overflow: bool = if graph.lanes.len() == 0 && graph.connectors.len() == 0 {
        graph.lane >= LAST_DRAWN_LANE
    } else {
        any_at_end(&graph.lanes) || any_at_end(&graph.connectors)
    };
    GraphCell {
        lane: if graph.lane < LAST_DRAWN_LANE {
            graph.lane
        } else {
            LAST_DRAWN_LANE
        },
        lanes: drawn_lanes(&graph.lanes),
        connectors: drawn_lanes(&graph.connectors),
        overflow,
    }
}

// ---------------------------------------------------------------------------
// The files of a commit
// ---------------------------------------------------------------------------
/// What stands in place of files.
pub fn files_placeholder(loading: bool, commit_selected: bool) -> (r: &'static str)
    ensures
        r == if loading {
            "提交文件加载中..."
        } else if commit_selected {
            "该提交没有文件变更"
        } else {
            "请选择一个提交"
        },
{
    if loading {
        "提交文件加载中..."
    } else if commit_selected {
        "该提交没有文件变更"
    } else {
        "请选择一个提交"
    }
}

/// What a file of a commit is called: with its old path, if that was another one.
pub fn commit_file_label(file: &CommitFileChange) -> (r: String)
    ensures
        r@ == match opt_view(file.old_path) {
            Some(old_path) => if old_path == file.path@ {
                file.path@
            } else {
                old_path + " -> "@ + file.path@
            },
            None => file.path@,
        },
{
    match &file.old_path {
        Some(old_path) => if str_eq(old_path.as_str(), file.path.as_str()) {
            file.path.clone()
        } else {
            cat3(old_path.as_str(), " -> ", file.path.as_str())
        },
        None => file.path.clone(),
    }
}

/// What stands above the differences of a file of a commit.
pub fn history_diff_title(file: &Option<String>) -> (r: String)
    ensures
        r@ == match opt_view(*file) {
            Some(path) => "提交差异："@ + path,
            None => "提交差异"@,
        },
{
    match file {
        Some(path) => cat2("提交差异：", path.as_str()),
        None => "提交差异".to_string(),
    }
}

/// What stands in place of the differences of a file of a commit.
pub fn history_diff_placeholder(loading: bool) -> (r: &'static str)
    ensures
        r == if loading {
            "提交差异加载中..."
        } else {
            "请选择一个提交文件查看差异"
        },
{
    if loading {
        "提交差异加载中..."
    } else {
        "请选择一个提交文件查看差异"
    }
}

// ---------------------------------------------------------------------------
// Laws
// ---------------------------------------------------------------------------
/// A label shows the name of what it stands for, and the kinds are told apart by their colours.
pub proof fn lemma_ref_labels(a: CommitRefInfo, b: CommitRefInfo)
    ensures
        ref_label(a).label == a.name,
        a.kind != b.kind ==> ref_label(a).bg != ref_label(b).bg && ref_label(a).text != ref_label(
            b,
        ).text,
{
}

/// The lanes that are drawn are those that fit, in their order, and whether some do not fit is seen
/// from the last that does.
pub proof fn lemma_drawn_lanes(lanes: Seq<usize>, lane: usize)
    ensures
        drawn(lanes).contains(lane) <==> lanes.contains(lane) && lane <= LAST_DRAWN_LANE,
        (forall|i: int| 0 <= i < lanes.len() ==> (#[trigger] lanes[i]) <= LAST_DRAWN_LANE) ==> drawn(
            lanes,
        ) == lanes,
        lanes.contains(lane) && lane >= LAST_DRAWN_LANE ==> reaches_end(lanes),
    decreases lanes.len(),
{
    if lanes.len() > 0 {
        let head = lanes.drop_last();
        lemma_drawn_lanes(head, lane);
        let all = drawn(lanes);
        let before = drawn(head);
        if all.contains(lane) {
            let k = choose|k: int| 0 <= k < all.len() && all[k] == lane;
            if k < before.len() {
                assert(before[k] == lane);
                let j = choose|j: int| 0 <= j < head.len() && head[j] == lane;
                assert(lanes[j] == lane);
            } else {
                assert(lanes[lanes.len() - 1] == lane);
            }
        }
        if lanes.contains(lane) {
            let j = choose|j: int| 0 <= j < lanes.len() && lanes[j] == lane;
            if j < head.len() {
                assert(head[j] == lane);
            }
            if lane <= LAST_DRAWN_LANE {
                if j < head.len() {
                    let k = choose|k: int| 0 <= k < before.len() && before[k] == lane;
                    assert(all[k] == lane);
                } else {
                    assert(all[before.len() as int] == lane);
                }
            }
        }
        if forall|i: int| 0 <= i < lanes.len() ==> (#[trigger] lanes[i]) <= LAST_DRAWN_LANE {
            assert forall|i: int| 0 <= i < head.len() implies (#[trigger] head[i])
                <= LAST_DRAWN_LANE by {
                assert(head[i] == lanes[i]);
            }
            assert(lanes[lanes.len() - 1] <= LAST_DRAWN_LANE);
            assert(all =~= lanes);
        }
    } else {
        assert(drawn(lanes) =~= lanes);
    }
}

} // verus!
