//! The toolbar, the tabs and the status line.

use vstd::prelude::*;

use crate::session::tab::{MainMode, RepoTabId, RepoTabState, RepositoryLoading};
use crate::strings::{cat2, opt_view};
use crate::ui::actions::{Button, UiAction, button, plain};
use crate::ui::theme;

verus! {

/// The buttons of the toolbar. Those that talk to a remote need one.
pub open spec fn toolbar(repo_open: bool, remote_loading: bool, has_remote: bool, busy: bool) -> Seq<
    Button,
> {
    let talks = repo_open && !remote_loading && has_remote && !busy;
    seq![
        plain("打开仓库", !busy, UiAction::OpenRepository),
        plain("克隆仓库", !busy, UiAction::OpenClone),
        plain("刷新", repo_open && !busy, UiAction::Refresh),
        plain("获取", talks, UiAction::Fetch),
        plain("拉取", talks, UiAction::Pull),
        plain("推送", talks, UiAction::Push),
        plain("凭据管理", !busy, UiAction::ShowCredentialManager),
    ]
}

pub fn toolbar_buttons(repo_open: bool, loading: RepositoryLoading, has_remote: bool, busy: bool) -> (r:
    Vec<Button>)
    ensures
        r@ == toolbar(repo_open, loading.metadata, has_remote, busy),
{
    let talks: bool = repo_open && !loading.remote() && has_remote && !busy;
    let mut r: Vec<Button> = Vec::new();
    r.push(button("打开仓库", !busy, UiAction::OpenRepository));
    r.push(button("克隆仓库", !busy, UiAction::OpenClone));
    r.push(button("刷新", repo_open && !busy, UiAction::Refresh));
    r.push(button("获取", talks, UiAction::Fetch));
    r.push(button("拉取", talks, UiAction::Pull));
    r.push(button("推送", talks, UiAction::Push));
    r.push(button("凭据管理", !busy, UiAction::ShowCredentialManager));
    assert(r@ =~= toolbar(repo_open, loading.metadata, has_remote, busy));
    r
}

/// The path that the toolbar shows.
pub fn toolbar_path(path: &Option<String>) -> (r: String)
    ensures
        r@ == match opt_view(*path) {
            Some(p) => p,
            None => "未打开仓库"@,
        },
{
    match path {
        Some(p) => p.clone(),
        None => "未打开仓库".to_string(),
    }
}

/// The colours of something that is selected or not.
#[derive(Clone, Copy, Debug, PartialEq, Eq, Structural)]
pub struct RowColors {
    pub bg: u32,
    pub border: u32,
    pub text: u32,
}

pub open spec fn mode_colors(selected: bool) -> RowColors {
    if selected {
        RowColors {
            bg: theme::COLOR_BLUE,
            border: theme::COLOR_BORDER_STRONG,
            text: theme::COLOR_SURFACE,
        }
    } else {
        RowColors {
            bg: theme::COLOR_SURFACE,
            border: theme::COLOR_BORDER,
            text: theme::COLOR_TEXT_MUTED,
        }
    }
}

/// A button that shows the worktree or the history.
#[derive(Debug, PartialEq, Eq)]
pub struct ModeButton {
    pub label: &'static str,
    pub mode: MainMode,
    pub colors: RowColors,
}

pub open spec fn mode_entry(label: &'static str, mode: MainMode, current: MainMode) -> ModeButton {
    ModeButton { label, mode, colors: mode_colors(mode == current) }
}

fn mode_button(label: &'static str, mode: MainMode, current: MainMode) -> (r: ModeButton)
    ensures
        r == mode_entry(label, mode, current),
{
    let colors: RowColors = if mode == current {
        RowColors {
            bg: theme::COLOR_BLUE,
            border: theme::COLOR_BORDER_STRONG,
            text: theme::COLOR_SURFACE,
        }
    } else {
        RowColors {
            bg: theme::COLOR_SURFACE,
            border: theme::COLOR_BORDER,
            text: theme::COLOR_TEXT_MUTED,
        }
    };
    ModeButton { label, mode, colors }
}

pub fn mode_buttons(current: MainMode) -> (r: Vec<ModeButton>)
    ensures
        r@ == seq![
            mode_entry("工作区", MainMode::Worktree, current),
            mode_entry("提交记录", MainMode::History, current),
        ],
{
    let mut r: Vec<ModeButton> = Vec::new();
    r.push(mode_button("工作区", MainMode::Worktree, current));
    r.push(mode_button("提交记录", MainMode::History, current));
    r
}

/// What a tab shows.
#[derive(Debug, PartialEq, Eq)]
pub struct TabLabel {
    pub id: RepoTabId,
    pub title: String,
    pub selected: bool,
    pub colors: RowColors,
}

pub open spec fn tab_colors(selected: bool) -> RowColors {
    if selected {
        RowColors {
            bg: theme::COLOR_SURFACE,
            border: theme::COLOR_BORDER_STRONG,
            text: theme::COLOR_TEXT,
        }
    } else {
        RowColors {
            bg: theme::COLOR_SURFACE_SOFT,
            border: theme::COLOR_BORDER,
            text: theme::COLOR_TEXT_MUTED,
        }
    }
}

/// What a tab shows: its name, and dots while something is going on in it.
pub fn repo_tab(tab: &RepoTabState, file_name: Option<String>, active: Option<RepoTabId>) -> (r:
    TabLabel)
    ensures
        r.id == tab.id,
        r.selected == (active == Some(tab.id)),
        r.colors == tab_colors(r.selected),
        ({
            let name = match opt_view(file_name) {
                Some(name) => if name.len() == 0 {
                    "未命名仓库"@
                } else {
                    name
                },
                None => "未命名仓库"@,
            };
            r.title@ == if tab.busy || tab.loading != RepositoryLoading::nothing() {
                name + "..."@
            } else {
                name + ""@
            }
        }),
{
    let selected: bool = match active {
        Some(id) => id == tab.id,
        None => false,
    };
    let colors: RowColors = if selected {
        RowColors {
            bg: theme::COLOR_SURFACE,
            border: theme::COLOR_BORDER_STRONG,
            text: theme::COLOR_TEXT,
        }
    } else {
        RowColors {
            bg: theme::COLOR_SURFACE_SOFT,
            border: theme::COLOR_BORDER,
            text: theme::COLOR_TEXT_MUTED,
        }
    };
    let name: String = RepoTabState::display_name(file_name);
    let dots: &str = if tab.busy || tab.loading != RepositoryLoading::default() {
        "..."
    } else {
        ""
    };
    TabLabel { id: tab.id, title: cat2(name.as_str(), dots), selected, colors }
}

/// What the status line shows.
#[derive(Debug, PartialEq, Eq)]
pub struct StatusLine {
    pub text: String,
    pub color: u32,
    pub error: Option<String>,
}

pub fn status_line(tab: &RepoTabState) -> (r: StatusLine)
    ensures
        r.text@ == if tab.busy {
            tab.status@ + "..."@
        } else {
            tab.status@
        },
        r.color == if tab.busy {
            theme::COLOR_BLUE_DARK
        } else {
            theme::COLOR_TEXT_MUTED
        },
        opt_view(r.error) == match opt_view(tab.last_error) {
            Some(e) => Some("错误："@ + e),
            None => None,
        },
{
    let text: String = if tab.busy {
        cat2(tab.status.as_str(), "...")
    } else {
        tab.status.clone()
    };
    let color: u32 = if tab.busy {
        theme::COLOR_BLUE_DARK
    } else {
        theme::COLOR_TEXT_MUTED
    };
    let error: Option<String> = match &tab.last_error {
        Some(e) => Some(cat2("错误：", e.as_str())),
        None => None,
    };
    StatusLine { text, color, error }
}

/// Where the scroll position of a list is kept: each tab has its own.
pub fn scroll_key(active: Option<RepoTabId>, id: &str) -> (r: String)
    ensures
        r@ == match active {
            Some(tab) => "tab-"@ + crate::strings::decimal(tab.0 as nat) + ":"@ + id@,
            None => "global:"@ + id@,
        },
{
    match active {
        Some(tab) => {
            let n: String = crate::strings::u64_to_string(tab.0);
            crate::strings::cat4("tab-", n.as_str(), ":", id)
        },
        None => cat2("global:", id),
    }
}

// ---------------------------------------------------------------------------
// Laws
// ---------------------------------------------------------------------------
/// The buttons over the window do what they are called. Nothing works while something is running;
/// reading again needs a repository, and fetching, pulling and pushing need a remote that is known.
pub proof fn lemma_toolbar(repo_open: bool, remote_loading: bool, has_remote: bool, busy: bool)
    ensures
        ({
            let b = toolbar(repo_open, remote_loading, has_remote, busy);
            let talks = repo_open && !remote_loading && has_remote && !busy;
            &&& b.len() == 7
            &&& b[0].label == "打开仓库" && b[0].action is OpenRepository && b[0].enabled == !busy
            &&& b[1].label == "克隆仓库" && b[1].action is OpenClone && b[1].enabled == !busy
            &&& b[2].label == "刷新" && b[2].action is Refresh && b[2].enabled == (repo_open
                && !busy)
            &&& b[3].label == "获取" && b[3].action is Fetch && b[3].enabled == talks
            &&& b[4].label == "拉取" && b[4].action is Pull && b[4].enabled == talks
            &&& b[5].label == "推送" && b[5].action is Push && b[5].enabled == talks
            &&& b[6].label == "凭据管理" && b[6].action is ShowCredentialManager && b[6].enabled
                == !busy
        }),
{
}

/// What is selected looks different from what is not, and each entry shows its own mode.
pub proof fn lemma_selected_looks(label: &'static str, mode: MainMode, current: MainMode)
    ensures
        mode_colors(true).bg != mode_colors(false).bg,
        mode_colors(true).text != mode_colors(false).text,
        tab_colors(true).bg != tab_colors(false).bg,
        tab_colors(true).text != tab_colors(false).text,
        mode_entry(label, mode, current).label == label,
        mode_entry(label, mode, current).mode == mode,
        mode_entry(label, mode, current).colors == mode_colors(mode == current),
{
}

} // verus!
