//! The branches, remotes, tags and stashes of a repository.

use vstd::prelude::*;

use crate::session::commands::RepoCommand;
use crate::session::tab::RepoTabState;
use crate::git::service::{stash_label, stash_name};
use crate::strings::{cat2, cat3, opt_str_eq, opt_view};
use crate::types::{BranchInfo, BranchKind, RemoteInfo, RepositorySnapshot};
use crate::ui::actions::{Button, UiAction, button, plain};
use crate::ui::theme;

verus! {

#[derive(Clone, Copy, Debug, PartialEq, Eq, Structural)]
pub enum SidebarSection {
    LocalBranches,
    Remotes,
    RemoteBranches,
    Tags,
    Stashes,
}

/// How a branch is shown.
#[derive(Debug, PartialEq, Eq)]
pub struct BranchRow {
    pub name: String,
    pub label: String,
    pub bg: u32,
    pub hover_bg: u32,
    pub border: u32,
    pub marker_bg: u32,
    pub text: u32,
}

impl BranchRow {
    /// Whether the row is that of the branch.
    pub open spec fn shows(self, branch: BranchInfo, selected: bool) -> bool {
        &&& self.name == branch.name
        &&& self.label@ == match branch.kind {
            BranchKind::Local => if branch.is_head {
                "* "@ + branch.name@
            } else {
                ""@ + branch.name@
            },
            BranchKind::Remote => "  "@ + branch.name@,
        }
        &&& self.bg == if branch.is_head {
            theme::ACCENT_SOFT
        } else if selected {
            theme::ROW_SELECTED
        } else {
            theme::SURFACE
        }
        &&& self.hover_bg == if branch.is_head {
            theme::ACCENT_SOFT
        } else {
            theme::ROW_HOVER
        }
        &&& self.border == if branch.is_head {
            theme::BORDER_STRONG
        } else if selected {
            theme::ROW_SELECTED_BORDER
        } else {
            theme::BORDER
        }
        &&& self.marker_bg == if branch.is_head {
            theme::ACCENT
        } else if selected {
            theme::ROW_SELECTED_BORDER
        } else {
            theme::SURFACE
        }
        &&& self.text == if branch.is_head {
            theme::ACCENT_STRONG
        } else if branch.kind == BranchKind::Local {
            theme::TEXT
        } else {
            theme::TEXT_MUTED
        }
    }
}

pub fn branch_row(branch: &BranchInfo, selected_branch: &Option<String>) -> (r: BranchRow)
    ensures
        r.shows(*branch, opt_view(*selected_branch) == Some(branch.name@)),
{
    let selected: bool = opt_str_eq(selected_branch, branch.name.as_str());
    let label: String = match branch.kind {
        BranchKind::Local => cat2(
            if branch.is_head {
                "* "
            } else {
                ""
            },
            branch.name.as_str(),
        ),
        BranchKind::Remote => cat2("  ", branch.name.as_str()),
    };
    let bg: u32 = if branch.is_head {
        theme::ACCENT_SOFT
    } else if selected {
        theme::ROW_SELECTED
    } else {
        theme::SURFACE
    };
    let hover_bg: u32 = if branch.is_head {
        theme::ACCENT_SOFT
    } else {
        theme::ROW_HOVER
    };
    let border: u32 = if branch.is_head {
        theme::BORDER_STRONG
    } else if selected {
        theme::ROW_SELECTED_BORDER
    } else {
        theme::BORDER
    };
    let marker_bg: u32 = if branch.is_head {
        theme::ACCENT
    } else if selected {
        theme::ROW_SELECTED_BORDER
    } else {
        theme::SURFACE
    };
    let text: u32 = if branch.is_head {
        theme::ACCENT_STRONG
    } else if branch.kind == BranchKind::Local {
        theme::TEXT
    } else {
        theme::TEXT_MUTED
    };
    BranchRow { name: branch.name.clone(), label, bg, hover_bg, border, marker_bg, text }
}

/// What a click on a branch does besides selecting it. A second click checks it out: a remote
/// branch only if there is no local branch for it yet.
pub fn branch_click(
    branch: &BranchInfo,
    standard: bool,
    clicks: usize,
    busy: bool,
    has_local: bool,
) -> (r: Option<RepoCommand>)
    ensures
        r == if standard && clicks >= 2 && !busy {
            match branch.kind {
                BranchKind::Local => if branch.is_head {
                    None
                } else {
                    Some(RepoCommand::Checkout { name: branch.name })
                },
                BranchKind::Remote => if has_local {
                    None
                } else {
                    Some(RepoCommand::CheckoutRemoteBranch { name: branch.name })
                },
            }
        } else {
            None
        },
{
    if standard && clicks >= 2 && !busy {
        match branch.kind {
            BranchKind::Local => if branch.is_head {
                None
            } else {
                Some(RepoCommand::Checkout { name: branch.name.clone() })
            },
            BranchKind::Remote => if has_local {
                None
            } else {
                Some(RepoCommand::CheckoutRemoteBranch { name: branch.name.clone() })
            },
        }
    } else {
        None
    }
}

/// How a remote is shown.
#[derive(Debug, PartialEq, Eq)]
pub struct RemoteRow {
    pub name: String,
    pub selected: bool,
    pub marker_bg: u32,
    pub hover_bg: u32,
    pub text: u32,
}

pub fn remote_row(remote: &RemoteInfo, current: &Option<String>) -> (r: RemoteRow)
    ensures
        r.name == remote.name,
        r.selected == (opt_view(*current) == Some(remote.name@)),
        r.marker_bg == if r.selected {
            theme::ACCENT
        } else {
            theme::BORDER
        },
        r.hover_bg == if r.selected {
            theme::ACCENT_SOFT
        } else {
            theme::ROW_HOVER
        },
        r.text == if r.selected {
            theme::ACCENT_STRONG
        } else {
            theme::TEXT
        },
{
    let selected: bool = opt_str_eq(current, remote.name.as_str());
    RemoteRow {
        name: remote.name.clone(),
        selected,
        marker_bg: if selected {
            theme::ACCENT
        } else {
            theme::BORDER
        },
        hover_bg: if selected {
            theme::ACCENT_SOFT
        } else {
            theme::ROW_HOVER
        },
        text: if selected {
            theme::ACCENT_STRONG
        } else {
            theme::TEXT
        },
    }
}

/// The branches of one kind, in the order of the snapshot.
pub open spec fn branches_of(branches: Seq<BranchInfo>, kind: BranchKind) -> Seq<int>
    decreases branches.len(),
{
    if branches.len() == 0 {
        Seq::empty()
    } else {
        let head = branches_of(branches.drop_last(), kind);
        if branches.last().kind == kind {
            head.push(branches.len() - 1)
        } else {
            head
        }
    }
}

pub open spec fn places(s: Seq<usize>) -> Seq<int> {
    s.map_values(|i: usize| i as int)
}

fn branch_places(branches: &Vec<BranchInfo>, kind: BranchKind) -> (r: Vec<usize>)
    ensures
        places(r@) == branches_of(branches@, kind),
{
    let mut r: Vec<usize> = Vec::new();
    let mut i: usize = 0;
    assert(branches@.take(0) =~= Seq::<BranchInfo>::empty());
    assert(places(r@) =~= branches_of(branches@.take(0), kind));
    while i < branches.len()
        invariant
            i <= branches@.len(),
            places(r@) == branches_of(branches@.take(i as int), kind),
        decreases branches@.len() - i,
    {
        let ghost before = places(r@);
        proof {
            let more = branches@.take(i as int + 1);
            assert(more.drop_last() =~= branches@.take(i as int));
            assert(more.last() == branches@[i as int]);
        }
        if branches[i].kind == kind {
            r.push(i);
            assert(places(r@) =~= before.push(i as int));
        }
        i = i + 1;
    }
    assert(branches@.take(i as int) =~= branches@);
    r
}

/// A part of the sidebar.
#[derive(Debug, PartialEq, Eq)]
pub struct SectionView {
    pub section: SidebarSection,
    pub title: &'static str,
    pub id: &'static str,
    /// How many rows it has.
    pub rows: usize,
    /// What stands in place of rows.
    pub placeholder: Option<&'static str>,
    /// Its share of the height.
    pub weight: u32,
    pub action: Option<Button>,
}

/// What the sidebar shows: the sections, and which branches are local and which remote.
#[derive(Debug, PartialEq, Eq)]
pub struct SidebarView {
    pub sections: Vec<SectionView>,
    pub local_branches: Vec<usize>,
    pub remote_branches: Vec<usize>,
}

/// What stands in place of the rows of a section without any.
pub open spec fn stand_in(rows: nat, loading: bool, text: &'static str) -> Option<&'static str> {
    if rows == 0 && loading {
        Some(text)
    } else {
        None
    }
}

/// The sections of the sidebar. Tags and stashes are shown only if there are any.
pub open spec fn sidebar_sections(
    local: nat,
    remote_branches: nat,
    remotes: nat,
    tags: nat,
    stashes: nat,
    repo_open: bool,
    busy: bool,
    loading: bool,
) -> Seq<SectionView> {
    let first = seq![
        SectionView {
            section: SidebarSection::LocalBranches,
            title: "本地分支",
            id: "local-branch-list",
            rows: local as usize,
            placeholder: None,
            weight: 3,
            action: Some(plain("新建", repo_open && !busy, UiAction::NewBranch)),
        },
        SectionView {
            section: SidebarSection::Remotes,
            title: "远端",
            id: "remote-list",
            rows: remotes as usize,
            placeholder: stand_in(remotes, loading, "远端加载中..."),
            weight: 2,
            action: Some(plain("管理", repo_open && !busy, UiAction::ManageRemotes)),
        },
        SectionView {
            section: SidebarSection::RemoteBranches,
            title: "远端分支",
            id: "remote-branch-list",
            rows: remote_branches as usize,
            placeholder: stand_in(remote_branches, loading, "远端分支加载中..."),
            weight: 3,
            action: None,
        },
    ];
    let second = if tags > 0 {
        seq![
            SectionView {
                section: SidebarSection::Tags,
                title: "标签",
                id: "tag-list",
                rows: tags as usize,
                placeholder: None,
                weight: 2,
                action: None,
            },
        ]
    } else {
        Seq::empty()
    };
    let third = if stashes > 0 {
        seq![
            SectionView {
                section: SidebarSection::Stashes,
                title: "贮藏",
                id: "stash-list",
                rows: stashes as usize,
                placeholder: None,
                weight: 2,
                action: None,
            },
        ]
    } else {
        Seq::empty()
    };
    first + second + third
}

fn stand_in_for(rows: usize, loading: bool, text: &'static str) -> (r: Option<&'static str>)
    ensures
        r == stand_in(rows as nat, loading, text),
{
    if rows == 0 && loading {
        Some(text)
    } else {
        None
    }
}

/// What the sidebar shows of the repository of a tab.
pub fn sidebar(tab: &RepoTabState) -> (r: SidebarView)
    ensures
        ({
            let branches = match tab.snapshot {
                Some(s) => s.branches@,
                None => Seq::empty(),
            };
            let (remotes, tags, stashes) = match tab.snapshot {
                Some(s) => (s.remotes@.len(), s.tags@.len(), s.stashes@.len()),
                None => (0, 0, 0),
            };
            &&& places(r.local_branches@) == branches_of(branches, BranchKind::Local)
            &&& places(r.remote_branches@) == branches_of(branches, BranchKind::Remote)
            &&& r.sections@ == sidebar_sections(
                r.local_branches@.len(),
                r.remote_branches@.len(),
                remotes,
                tags,
                stashes,
                tab.repo_path is Some,
                tab.busy,
                tab.loading.metadata,
            )
        }),
{
    let none: Vec<BranchInfo> = Vec::new();
    assert(none@ =~= Seq::<BranchInfo>::empty());
    let branches: &Vec<BranchInfo> = match &tab.snapshot {
        Some(s) => &s.branches,
        None => &none,
    };
    let local_branches: Vec<usize> = branch_places(branches, BranchKind::Local);
    let remote_branches: Vec<usize> = branch_places(branches, BranchKind::Remote);
    let (remotes, tags, stashes): (usize, usize, usize) = match &tab.snapshot {
        Some(s) => (s.remotes.len(), s.tags.len(), s.stashes.len()),
        None => (0, 0, 0),
    };
    let open: bool = tab.repo_path.is_some();
    let loading: bool = tab.loading.remote();
    let mut sections: Vec<SectionView> = Vec::new();
    sections.push(
        SectionView {
            section: SidebarSection::LocalBranches,
            title: "本地分支",
            id: "local-branch-list",
            rows: local_branches.len(),
            placeholder: None,
            weight: 3,
            action: Some(button("新建", open && !tab.busy, UiAction::NewBranch)),
        },
    );
    sections.push(
        SectionView {
            section: SidebarSection::Remotes,
            title: "远端",
            id: "remote-list",
            rows: remotes,
            placeholder: stand_in_for(remotes, loading, "远端加载中..."),
            weight: 2,
            action: Some(button("管理", open && !tab.busy, UiAction::ManageRemotes)),
        },
    );
    sections.push(
        SectionView {
            section: SidebarSection::RemoteBranches,
            title: "远端分支",
            id: "remote-branch-list",
            rows: remote_branches.len(),
            placeholder: stand_in_for(remote_branches.len(), loading, "远端分支加载中..."),
            weight: 3,
            action: None,
        },
    );
    if tags > 0 {
        sections.push(
            SectionView {
                section: SidebarSection::Tags,
                title: "标签",
                id: "tag-list",
                rows: tags,
                placeholder: None,
                weight: 2,
                action: None,
            },
        );
    }
    if stashes > 0 {
        sections.push(
            SectionView {
                section: SidebarSection::Stashes,
                title: "贮藏",
                id: "stash-list",
                rows: stashes,
                placeholder: None,
                weight: 2,
                action: None,
            },
        );
    }
    assert(sections@ =~= sidebar_sections(
        local_branches@.len(),
        remote_branches@.len(),
        remotes as nat,
        tags as nat,
        stashes as nat,
        open,
        tab.busy,
        loading,
    ));
    SidebarView { sections, local_branches, remote_branches }
}

/// Every branch stands in one list, in the order of the snapshot.
pub proof fn lemma_every_branch_is_listed(branches: Seq<BranchInfo>, i: int)
    requires
        0 <= i < branches.len(),
    ensures
        branches_of(branches, branches[i].kind).contains(i),
    decreases branches.len(),
{
    let kind = branches[i].kind;
    let head = branches_of(branches.drop_last(), kind);
    let all = branches_of(branches, kind);
    if i < branches.len() - 1 {
        lemma_every_branch_is_listed(branches.drop_last(), i);
        let k = choose|k: int| 0 <= k < head.len() && head[k] == i;
        assert(all[k] == i);
    } else {
        assert(all[all.len() - 1] == i);
    }
}

/// Where the branch that is checked out stands among the local branches, or their number.
pub open spec fn head_place(branches: Seq<BranchInfo>, list: Seq<int>, from: int) -> int
    decreases list.len() - from,
{
    if from < 0 || from >= list.len() {
        list.len() as int
    } else if branches[list[from]].is_head {
        from
    } else {
        head_place(branches, list, from + 1)
    }
}

/// The row that is brought into sight: that of the branch that is checked out.
pub fn current_branch_row(snapshot: &RepositorySnapshot) -> (r: Option<usize>)
    ensures
        ({
            let list = branches_of(snapshot.branches@, BranchKind::Local);
            let at = head_place(snapshot.branches@, list, 0);
            match r {
                Some(i) => i == at && at < list.len(),
                None => at >= list.len(),
            }
        }),
{
    let list: Vec<usize> = branch_places(&snapshot.branches, BranchKind::Local);
    let ghost spots = branches_of(snapshot.branches@, BranchKind::Local);
    let mut i: usize = 0;
    while i < list.len()
        invariant
            i <= list@.len(),
            spots == branches_of(snapshot.branches@, BranchKind::Local),
            places(list@) == spots,
            head_place(snapshot.branches@, spots, 0) == head_place(
                snapshot.branches@,
                spots,
                i as int,
            ),
        decreases list@.len() - i,
    {
        proof {
            assert(spots[i as int] == list@[i as int]);
            lemma_listed_in_range(snapshot.branches@, BranchKind::Local, i as int);
        }
        if snapshot.branches[list[i]].is_head {
            return Some(i);
        }
        i = i + 1;
    }
    assert(spots.len() == list@.len());
    None
}

proof fn lemma_listed_in_range(branches: Seq<BranchInfo>, kind: BranchKind, k: int)
    requires
        0 <= k < branches_of(branches, kind).len(),
    ensures
        0 <= branches_of(branches, kind)[k] < branches.len(),
    decreases branches.len(),
{
    let head = branches_of(branches.drop_last(), kind);
    if k < head.len() {
        lemma_listed_in_range(branches.drop_last(), kind, k);
    }
}

/// What a stash entry is shown as.
pub fn stash_row_label(index: usize, message: &str) -> (r: String)
    ensures
        r@ == stash_name(index as nat) + " "@ + message@,
{
    let name: String = stash_label(index);
    cat3(name.as_str(), " ", message)
}

/// The sign that opens or closes a section.
pub fn section_toggle(expanded: bool) -> (r: &'static str)
    ensures
        r == if expanded {
            "∧"
        } else {
            "∨"
        },
{
    if expanded {
        "∧"
    } else {
        "∨"
    }
}

// ---------------------------------------------------------------------------
// Laws
// ---------------------------------------------------------------------------
/// The list of one kind holds only branches of that kind, each once and in their order.
pub proof fn lemma_listed_branches(branches: Seq<BranchInfo>, kind: BranchKind)
    ensures
        forall|a: int|
            0 <= a < branches_of(branches, kind).len() ==> 0 <= (#[trigger] branches_of(
                branches,
                kind,
            )[a]) < branches.len() && branches[branches_of(branches, kind)[a]].kind == kind,
        forall|a: int, b: int|
            0 <= a < b < branches_of(branches, kind).len() ==> (#[trigger] branches_of(
                branches,
                kind,
            )[a]) < (#[trigger] branches_of(branches, kind)[b]),
    decreases branches.len(),
{
    if branches.len() > 0 {
        let head = branches.drop_last();
        lemma_listed_branches(head, kind);
        let all = branches_of(branches, kind);
        let before = branches_of(head, kind);
        assert forall|a: int| 0 <= a < all.len() implies 0 <= (#[trigger] all[a]) < branches.len()
            && branches[all[a]].kind == kind by {
            if a < before.len() {
                assert(all[a] == before[a]);
                assert(head[before[a]] == branches[all[a]]);
            }
        }
        assert forall|a: int, b: int| 0 <= a < b < all.len() implies (#[trigger] all[a]) < (
        #[trigger] all[b]) by {
            assert(all[a] == before[a]);
            if b < before.len() {
                assert(all[b] == before[b]);
            }
        }
    }
}

/// The row of the branch that is checked out is the first one in the list that is.
pub proof fn lemma_head_row(branches: Seq<BranchInfo>, list: Seq<int>, from: int)
    requires
        0 <= from <= list.len(),
    ensures
        from <= head_place(branches, list, from) <= list.len(),
        head_place(branches, list, from) < list.len() ==> branches[list[head_place(
            branches,
            list,
            from,
        )]].is_head,
        forall|i: int|
            from <= i < head_place(branches, list, from) ==> !branches[#[trigger] list[i]].is_head,
    decreases list.len() - from,
{
    if from < list.len() && !branches[list[from]].is_head {
        lemma_head_row(branches, list, from + 1);
    }
}

/// The row of a branch ends with its name; the one that is checked out is marked and looks different
/// from all others, and one that is selected from those that are not.
pub proof fn lemma_branch_rows(a: BranchRow, x: BranchInfo, b: BranchRow, y: BranchInfo, chosen: bool)
    requires
        a.shows(x, chosen),
        b.shows(y, false),
        !y.is_head,
    ensures
        a.name == x.name,
        x.name@.is_suffix_of(a.label@),
        x.kind == BranchKind::Local && x.is_head ==> a.label@ == "* "@ + x.name@,
        x.kind == BranchKind::Local && !x.is_head ==> a.label@ == x.name@,
        x.is_head ==> a.bg != b.bg && a.text != b.text && a.marker_bg != b.marker_bg,
        !x.is_head && chosen ==> a.bg != b.bg && a.border != b.border,
{
    reveal_strlit("");
    let n = x.name@;
    assert(""@ + n =~= n);
    let t = a.label@;
    assert(t.subrange(t.len() - n.len(), t.len() as int) =~= n);
}

/// The side bar lists local branches, remotes and the branches of remotes, and tags and stashes where
/// there are any, each with as many rows as there are of it.
pub proof fn lemma_sections(
    local: nat,
    remote_branches: nat,
    remotes: nat,
    tags: nat,
    stashes: nat,
    repo_open: bool,
    busy: bool,
    loading: bool,
)
    requires
        local <= usize::MAX,
        remote_branches <= usize::MAX,
        remotes <= usize::MAX,
        tags <= usize::MAX,
        stashes <= usize::MAX,
    ensures
        ({
            let s = sidebar_sections(
                local,
                remote_branches,
                remotes,
                tags,
                stashes,
                repo_open,
                busy,
                loading,
            );
            let t = if tags > 0 {
                1int
            } else {
                0
            };
            &&& s.len() == 3 + t + if stashes > 0 {
                1int
            } else {
                0
            }
            &&& s[0].section == SidebarSection::LocalBranches && s[0].rows == local
            &&& s[1].section == SidebarSection::Remotes && s[1].rows == remotes
            &&& s[2].section == SidebarSection::RemoteBranches && s[2].rows == remote_branches
            &&& tags > 0 ==> s[3].section == SidebarSection::Tags && s[3].rows == tags
            &&& stashes > 0 ==> s[3 + t].section == SidebarSection::Stashes && s[3 + t].rows
                == stashes
            &&& s[0].action matches Some(b)
            &&& b.action is NewBranch && b.enabled == (repo_open && !busy)
            &&& s[1].action matches Some(b)
            &&& b.action is ManageRemotes && b.enabled == (repo_open && !busy)
            &&& s[2].action is None
            &&& s[1].placeholder is Some <==> remotes == 0 && loading
            &&& s[2].placeholder is Some <==> remote_branches == 0 && loading
        }),
{
}

} // verus!
