//! The menus of branches, changes, tags, stashes, commits and encodings.

use vstd::prelude::*;

use crate::session::commands::RepoCommand;
use crate::session::popups::{DiscardTarget, EncodingMenuTarget};
use crate::strings::cat2;
use crate::types::{BranchKind, DiffEncodingChoice, DiffScope, ResetMode};
use crate::ui::actions::UiAction;

verus! {

/// A line of a menu.
#[derive(Debug, PartialEq, Eq)]
pub enum MenuEntry {
    Item { label: &'static str, enabled: bool, action: UiAction },
    Separator,
}

/// The menu of a branch.
pub open spec fn branch_entries(branch: String, kind: BranchKind, is_head: bool, busy: bool) -> Seq<
    MenuEntry,
> {
    let local = kind == BranchKind::Local;
    seq![
        MenuEntry::Item {
            label: "切换到此分支",
            enabled: local && !is_head && !busy,
            action: UiAction::Run(RepoCommand::Checkout { name: branch }),
        },
        MenuEntry::Item {
            label: "合并到当前分支",
            enabled: !is_head && !busy,
            action: UiAction::Run(RepoCommand::Merge { name: branch }),
        },
        MenuEntry::Item {
            label: "拉取到本地并切换",
            enabled: !local && !busy,
            action: UiAction::Run(RepoCommand::CheckoutRemoteBranch { name: branch }),
        },
        MenuEntry::Separator,
        MenuEntry::Item {
            label: "重命名...",
            enabled: local && !busy,
            action: UiAction::OpenRename(branch),
        },
        MenuEntry::Item {
            label: "删除分支",
            enabled: local && !is_head && !busy,
            action: UiAction::Run(RepoCommand::DeleteBranch { name: branch }),
        },
    ]
}

pub fn branch_menu(branch: &String, kind: BranchKind, is_head: bool, busy: bool) -> (r: Vec<
    MenuEntry,
>)
    ensures
        r@ == branch_entries(*branch, kind, is_head, busy),
{
    let local: bool = kind == BranchKind::Local;
    let mut r: Vec<MenuEntry> = Vec::new();
    r.push(
        MenuEntry::Item {
            label: "切换到此分支",
            enabled: local && !is_head && !busy,
            action: UiAction::Run(RepoCommand::Checkout { name: branch.clone() }),
        },
    );
    r.push(
        MenuEntry::Item {
            label: "合并到当前分支",
            enabled: !is_head && !busy,
            action: UiAction::Run(RepoCommand::Merge { name: branch.clone() }),
        },
    );
    r.push(
        MenuEntry::Item {
            label: "拉取到本地并切换",
            enabled: !local && !busy,
            action: UiAction::Run(RepoCommand::CheckoutRemoteBranch { name: branch.clone() }),
        },
    );
    r.push(MenuEntry::Separator);
    r.push(
        MenuEntry::Item {
            label: "重命名...",
            enabled: local && !busy,
            action: UiAction::OpenRename(branch.clone()),
        },
    );
    r.push(
        MenuEntry::Item {
            label: "删除分支",
            enabled: local && !is_head && !busy,
            action: UiAction::Run(RepoCommand::DeleteBranch { name: branch.clone() }),
        },
    );
    assert(r@ =~= branch_entries(*branch, kind, is_head, busy));
    r
}

/// The branch that is checked out cannot be deleted, and nothing of its menu changes branches.
pub proof fn lemma_head_is_kept(branch: String, kind: BranchKind, busy: bool, i: int)
    requires
        0 <= i < branch_entries(branch, kind, true, busy).len(),
        branch_entries(branch, kind, true, busy)[i] matches MenuEntry::Item { enabled, .. }
            && enabled,
    ensures
        branch_entries(branch, kind, true, busy)[i] matches MenuEntry::Item { action, .. } && (
        action is OpenRename || action == UiAction::Run(
            RepoCommand::CheckoutRemoteBranch { name: branch },
        )),
{
}

/// The menu of a change: what is selected in its list, and everything that is in it.
pub open spec fn change_entries(
    path: String,
    one: Vec<String>,
    scope: DiffScope,
    selected: Vec<String>,
    all: Vec<String>,
    busy: bool,
) -> Seq<MenuEntry> {
    let some = selected@.len() > 0 && !busy;
    let any = all@.len() > 0 && !busy;
    let first = match scope {
        DiffScope::Staged => seq![
            MenuEntry::Item {
                label: "取消暂存选定文件",
                enabled: some,
                action: UiAction::UnstageSelected,
            },
            MenuEntry::Item {
                label: "取消暂存所有文件",
                enabled: any,
                action: UiAction::UnstageAll,
            },
        ],
        DiffScope::Unstaged => seq![
            MenuEntry::Item {
                label: "暂存选定文件",
                enabled: some,
                action: UiAction::StageSelected,
            },
            MenuEntry::Item { label: "暂存所有文件", enabled: any, action: UiAction::StageAll },
        ],
    };
    first + seq![
        MenuEntry::Separator,
        MenuEntry::Item {
            label: "回滚更改...",
            enabled: !busy,
            action: UiAction::OpenDiscard {
                paths: one,
                scope,
                target: DiscardTarget::Single,
            },
        },
        MenuEntry::Item {
            label: "回滚指定更改...",
            enabled: some,
            action: UiAction::OpenDiscard {
                paths: selected,
                scope,
                target: DiscardTarget::Selected,
            },
        },
        MenuEntry::Item {
            label: "回滚全部更改...",
            enabled: any,
            action: UiAction::OpenDiscard { paths: all, scope, target: DiscardTarget::All },
        },
    ]
}

pub fn change_menu(
    path: String,
    scope: DiffScope,
    selected: Vec<String>,
    all: Vec<String>,
    busy: bool,
) -> (r: Vec<MenuEntry>)
    ensures
        exists|one: Vec<String>|
            one@ == seq![path] && r@ == #[trigger] change_entries(
                path,
                one,
                scope,
                selected,
                all,
                busy,
            ),
{
    let some: bool = selected.len() > 0 && !busy;
    let any: bool = all.len() > 0 && !busy;
    let mut r: Vec<MenuEntry> = Vec::new();
    match scope {
        DiffScope::Staged => {
            r.push(
                MenuEntry::Item {
                    label: "取消暂存选定文件",
                    enabled: some,
                    action: UiAction::UnstageSelected,
                },
            );
            r.push(
                MenuEntry::Item {
                    label: "取消暂存所有文件",
                    enabled: any,
                    action: UiAction::UnstageAll,
                },
            );
        },
        DiffScope::Unstaged => {
            r.push(
                MenuEntry::Item {
                    label: "暂存选定文件",
                    enabled: some,
                    action: UiAction::StageSelected,
                },
            );
            r.push(
                MenuEntry::Item {
                    label: "暂存所有文件",
                    enabled: any,
                    action: UiAction::StageAll,
                },
            );
        },
    }
    let mut one: Vec<String> = Vec::new();
    one.push(path.clone());
    assert(one@ =~= seq![path]);
    let ghost listed = one;
    r.push(MenuEntry::Separator);
    r.push(
        MenuEntry::Item {
            label: "回滚更改...",
            enabled: !busy,
            action: UiAction::OpenDiscard { paths: one, scope, target: DiscardTarget::Single },
        },
    );
    r.push(
        MenuEntry::Item {
            label: "回滚指定更改...",
            enabled: some,
            action: UiAction::OpenDiscard {
                paths: selected,
                scope,
                target: DiscardTarget::Selected,
            },
        },
    );
    r.push(
        MenuEntry::Item {
            label: "回滚全部更改...",
            enabled: any,
            action: UiAction::OpenDiscard { paths: all, scope, target: DiscardTarget::All },
        },
    );
    assert(r@ =~= change_entries(path, listed, scope, selected, all, busy));
    r
}

pub fn tag_menu(tag: &String, busy: bool) -> (r: Vec<MenuEntry>)
    ensures
        r@ == seq![
            MenuEntry::Item {
                label: "检出标签",
                enabled: !busy,
                action: UiAction::Run(RepoCommand::CheckoutTag { name: *tag }),
            },
        ],
{
    let mut r: Vec<MenuEntry> = Vec::new();
    r.push(
        MenuEntry::Item {
            label: "检出标签",
            enabled: !busy,
            action: UiAction::Run(RepoCommand::CheckoutTag { name: tag.clone() }),
        },
    );
    r
}

pub fn stash_menu(index: usize, busy: bool) -> (r: Vec<MenuEntry>)
    ensures
        r@ == seq![
            MenuEntry::Item {
                label: "应用贮藏",
                enabled: !busy,
                action: UiAction::Run(RepoCommand::ApplyStash { index }),
            },
            MenuEntry::Item {
                label: "弹出贮藏",
                enabled: !busy,
                action: UiAction::Run(RepoCommand::PopStash { index }),
            },
        ],
{
    let mut r: Vec<MenuEntry> = Vec::new();
    r.push(
        MenuEntry::Item {
            label: "应用贮藏",
            enabled: !busy,
            action: UiAction::Run(RepoCommand::ApplyStash { index }),
        },
    );
    r.push(
        MenuEntry::Item {
            label: "弹出贮藏",
            enabled: !busy,
            action: UiAction::Run(RepoCommand::PopStash { index }),
        },
    );
    r
}

/// The menu of a commit. A merge cannot be reverted.
pub open spec fn commit_entries(oid: String, summary: String, parents: usize, busy: bool) -> Seq<
    MenuEntry,
> {
    seq![
        MenuEntry::Separator,
        MenuEntry::Item {
            label: "软重置分支到此次提交",
            enabled: !busy,
            action: UiAction::OpenReset { oid, summary, mode: ResetMode::Soft },
        },
        MenuEntry::Item {
            label: "混合重置分支到此次提交",
            enabled: !busy,
            action: UiAction::OpenReset { oid, summary, mode: ResetMode::Mixed },
        },
        MenuEntry::Item {
            label: "强制重置分支到此次提交",
            enabled: !busy,
            action: UiAction::OpenReset { oid, summary, mode: ResetMode::Hard },
        },
        MenuEntry::Separator,
        MenuEntry::Item {
            label: if parents > 1 {
                "回滚提交（合并提交暂不支持）"
            } else {
                "回滚提交"
            },
            enabled: !busy && parents <= 1,
            action: UiAction::OpenRevert { oid, summary },
        },
        MenuEntry::Item {
            label: "复制 SHA 到剪贴板",
            enabled: true,
            action: UiAction::CopySha(oid),
        },
    ]
}

pub fn commit_menu(oid: &String, summary: &String, parents: usize, busy: bool) -> (r: Vec<MenuEntry>)
    ensures
        r@ == commit_entries(*oid, *summary, parents, busy),
{
    let mut r: Vec<MenuEntry> = Vec::new();
    r.push(MenuEntry::Separator);
    r.push(
        MenuEntry::Item {
            label: "软重置分支到此次提交",
            enabled: !busy,
            action: UiAction::OpenReset {
                oid: oid.clone(),
                summary: summary.clone(),
                mode: ResetMode::Soft,
            },
        },
    );
    r.push(
        MenuEntry::Item {
            label: "混合重置分支到此次提交",
            enabled: !busy,
            action: UiAction::OpenReset {
                oid: oid.clone(),
                summary: summary.clone(),
                mode: ResetMode::Mixed,
            },
        },
    );
    r.push(
        MenuEntry::Item {
            label: "强制重置分支到此次提交",
            enabled: !busy,
            action: UiAction::OpenReset {
                oid: oid.clone(),
                summary: summary.clone(),
                mode: ResetMode::Hard,
            },
        },
    );
    r.push(MenuEntry::Separator);
    r.push(
        MenuEntry::Item {
            label: if parents > 1 {
                "回滚提交（合并提交暂不支持）"
            } else {
                "回滚提交"
            },
            enabled: !busy && parents <= 1,
            action: UiAction::OpenRevert { oid: oid.clone(), summary: summary.clone() },
        },
    );
    r.push(
        MenuEntry::Item {
            label: "复制 SHA 到剪贴板",
            enabled: true,
            action: UiAction::CopySha(oid.clone()),
        },
    );
    assert(r@ =~= commit_entries(*oid, *summary, parents, busy));
    r
}

/// What stands above the menu of a commit.
pub fn commit_menu_heading(short_oid: &str) -> (r: String)
    ensures
        r@ == "提交 "@ + short_oid@,
{
    cat2("提交 ", short_oid)
}

/// What stands above the menu of an encoding.
pub fn encoding_menu_title(target: EncodingMenuTarget) -> (r: &'static str)
    ensures
        r == match target {
            EncodingMenuTarget::Worktree => "工作区差异编码",
            EncodingMenuTarget::History => "提交差异编码",
        },
{
    match target {
        EncodingMenuTarget::Worktree => "工作区差异编码",
        EncodingMenuTarget::History => "提交差异编码",
    }
}

/// The encodings to choose from, in order.
pub fn encoding_choices() -> (r: Vec<DiffEncodingChoice>)
    ensures
        r@ == seq![
            DiffEncodingChoice::Auto,
            DiffEncodingChoice::Utf8,
            DiffEncodingChoice::Gb18030,
            DiffEncodingChoice::Big5,
        ],
{
    let mut r: Vec<DiffEncodingChoice> = Vec::new();
    r.push(DiffEncodingChoice::Auto);
    r.push(DiffEncodingChoice::Utf8);
    r.push(DiffEncodingChoice::Gb18030);
    r.push(DiffEncodingChoice::Big5);
    r
}

/// What an encoding is called in its menu: the one in use is marked.
pub fn encoding_menu_label(name: &str, selected: bool) -> (r: String)
    ensures
        r@ == if selected {
            "✓ "@ + name@
        } else {
            "  "@ + name@
        },
{
    if selected {
        cat2("✓ ", name)
    } else {
        cat2("  ", name)
    }
}

/// What the button that opens the menu for encodings says: how the differences were read, or
/// while there are none how they are to be.
pub fn encoding_button_label(read_as: Option<String>, requested: &str) -> (r: String)
    ensures
        r@ == match read_as {
            Some(label) => label@,
            None => "编码："@ + requested@,
        },
{
    match read_as {
        Some(label) => label,
        None => cat2("编码：", requested),
    }
}

/// Each entry of the menu of a branch acts on that branch. The one that is checked out cannot be
/// checked out, merged or deleted; only a local one can be checked out, renamed or deleted, and only
/// one of a remote can be fetched. While something runs none can be chosen.
pub proof fn lemma_branch_menu(branch: String, kind: BranchKind, is_head: bool, busy: bool)
    ensures
        ({
            let e = branch_entries(branch, kind, is_head, busy);
            let local = kind == BranchKind::Local;
            &&& e.len() == 6
            &&& e[0] matches MenuEntry::Item { enabled, action, .. }
            &&& action == UiAction::Run(RepoCommand::Checkout { name: branch })
            &&& enabled == (local && !is_head && !busy)
            &&& e[1] matches MenuEntry::Item { enabled, action, .. }
            &&& action == UiAction::Run(RepoCommand::Merge { name: branch })
            &&& enabled == (!is_head && !busy)
            &&& e[2] matches MenuEntry::Item { enabled, action, .. }
            &&& action == UiAction::Run(RepoCommand::CheckoutRemoteBranch { name: branch })
            &&& enabled == (!local && !busy)
            &&& e[3] is Separator
            &&& e[4] matches MenuEntry::Item { enabled, action, .. }
            &&& action == UiAction::OpenRename(branch)
            &&& enabled == (local && !busy)
            &&& e[5] matches MenuEntry::Item { enabled, action, .. }
            &&& action == UiAction::Run(RepoCommand::DeleteBranch { name: branch })
            &&& enabled == (local && !is_head && !busy)
        }),
{
}

/// The menu of a change unstages what is staged and stages what is not. It discards the one change,
/// those that are selected or all, in the list that it was opened in, and asks before.
pub proof fn lemma_change_menu(
    path: String,
    one: Vec<String>,
    scope: DiffScope,
    selected: Vec<String>,
    all: Vec<String>,
    busy: bool,
)
    ensures
        ({
            let e = change_entries(path, one, scope, selected, all, busy);
            let some = selected@.len() > 0 && !busy;
            let any = all@.len() > 0 && !busy;
            &&& e.len() == 6
            &&& e[0] matches MenuEntry::Item { enabled, action, .. }
            &&& enabled == some
            &&& if scope == DiffScope::Staged {
                action is UnstageSelected
            } else {
                action is StageSelected
            }
            &&& e[1] matches MenuEntry::Item { enabled, action, .. }
            &&& enabled == any
            &&& if scope == DiffScope::Staged {
                action is UnstageAll
            } else {
                action is StageAll
            }
            &&& e[2] is Separator
            &&& e[3] matches MenuEntry::Item { enabled, action, .. }
            &&& enabled == !busy
            &&& action == (UiAction::OpenDiscard {
                paths: one,
                scope,
                target: DiscardTarget::Single,
            })
            &&& e[4] matches MenuEntry::Item { enabled, action, .. }
            &&& enabled == some
            &&& action == (UiAction::OpenDiscard {
                paths: selected,
                scope,
                target: DiscardTarget::Selected,
            })
            &&& e[5] matches MenuEntry::Item { enabled, action, .. }
            &&& enabled == any
            &&& action == (UiAction::OpenDiscard { paths: all, scope, target: DiscardTarget::All })
        }),
{
}

/// The menu of a commit resets to that commit in the way that the entry names, reverts it unless it
/// is a merge, and copies its name at any time.
pub proof fn lemma_commit_menu(oid: String, summary: String, parents: usize, busy: bool)
    ensures
        ({
            let e = commit_entries(oid, summary, parents, busy);
            &&& e.len() == 7
            &&& e[0] is Separator && e[4] is Separator
            &&& e[1] == (MenuEntry::Item {
                label: "软重置分支到此次提交",
                enabled: !busy,
                action: UiAction::OpenReset { oid, summary, mode: ResetMode::Soft },
            })
            &&& e[2] == (MenuEntry::Item {
                label: "混合重置分支到此次提交",
                enabled: !busy,
                action: UiAction::OpenReset { oid, summary, mode: ResetMode::Mixed },
            })
            &&& e[3] == (MenuEntry::Item {
                label: "强制重置分支到此次提交",
                enabled: !busy,
                action: UiAction::OpenReset { oid, summary, mode: ResetMode::Hard },
            })
            &&& e[5] matches MenuEntry::Item { enabled, action, .. }
            &&& enabled == (!busy && parents <= 1)
            &&& action == (UiAction::OpenRevert { oid, summary })
            &&& e[6] matches MenuEntry::Item { enabled, action, .. }
            &&& enabled
            &&& action == UiAction::CopySha(oid)
        }),
{
}

} // verus!
