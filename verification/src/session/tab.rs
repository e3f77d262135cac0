//! A tab: one repository, what is known of it and what is shown of it.

use vstd::prelude::*;

use crate::graph::{CommitGraphRow, is_graph_row, lanes_before};
use crate::session::effects::Effect;
use crate::session::selection::{ChangeListIndexes, ChangeSelection, SelectionView};
use crate::strings::{opt_str_eq, opt_view, str_eq};
use crate::types::{BranchInfo, StashInfo, TagInfo, CommitFileChange, CommitInfo, FileDiff, RemoteInfo, RepositorySnapshot, WorktreeChange};

verus! {

/// Differences with more lines than this are not kept in tabs that are not shown.
pub const LARGE_DIFF_CACHE_LINE_LIMIT: usize = 20_000;

/// What tells tabs apart. Tabs are counted from 1 on; what is shown while no tab is open has 0.
#[derive(Clone, Copy, Debug, PartialEq, Eq, Hash, Structural)]
pub struct RepoTabId(pub u64);

#[derive(Clone, Copy, Debug, PartialEq, Eq, Structural)]
pub enum MainMode {
    Worktree,
    History,
}

/// Which commits the history shows.
#[derive(Clone, Copy, Debug, PartialEq, Eq, Structural)]
pub enum HistoryScope {
    CurrentBranch,
    AllBranches,
}

impl Default for HistoryScope {
    fn default() -> (r: Self)
        ensures
            r == HistoryScope::CurrentBranch,
    {
        HistoryScope::CurrentBranch
    }
}

/// What of the history is being loaded.
#[derive(Clone, Copy, Debug, PartialEq, Eq, Structural)]
pub struct HistoryLoading {
    pub commits: bool,
    pub files: bool,
    pub diff: bool,
}

impl HistoryLoading {
    pub open spec fn nothing() -> Self {
        HistoryLoading { commits: false, files: false, diff: false }
    }
}

impl Default for HistoryLoading {
    fn default() -> (r: Self)
        ensures
            r == HistoryLoading::nothing(),
    {
        HistoryLoading { commits: false, files: false, diff: false }
    }
}

/// What of the repository is being loaded.
#[derive(Clone, Copy, Debug, PartialEq, Eq, Structural)]
pub struct RepositoryLoading {
    pub metadata: bool,
    pub status_fast: bool,
    pub status_full: bool,
}

impl RepositoryLoading {
    pub open spec fn nothing() -> Self {
        RepositoryLoading { metadata: false, status_fast: false, status_full: false }
    }

    /// Whether the remotes may still change.
    pub fn remote(self) -> (r: bool)
        ensures
            r == self.metadata,
    {
        self.metadata
    }

    /// Whether the unstaged changes may still change.
    pub fn unstaged(self) -> (r: bool)
        ensures
            r == (self.status_fast || self.status_full),
    {
        self.status_fast || self.status_full
    }

    /// Whether the staged changes may still change.
    pub fn staged(self) -> (r: bool)
        ensures
            r == self.status_fast,
    {
        self.status_fast
    }
}

impl Default for RepositoryLoading {
    fn default() -> (r: Self)
        ensures
            r == RepositoryLoading::nothing(),
    {
        RepositoryLoading { metadata: false, status_fast: false, status_full: false }
    }
}

/// A repository, what is known of it and what is shown of it.
#[derive(Debug, PartialEq, Eq)]
pub struct RepoTabState {
    pub id: RepoTabId,
    pub repo_path: Option<String>,
    pub snapshot: Option<RepositorySnapshot>,
    pub selected_branch: Option<String>,
    pub selected_remote: Option<String>,
    pub change_selection: ChangeSelection,
    pub change_indexes: ChangeListIndexes,
    pub diff: Option<FileDiff>,
    pub diff_headers_expanded: bool,
    pub main_mode: MainMode,
    pub history_commits: Vec<CommitInfo>,
    pub history_has_more: bool,
    pub history_selected_commit: Option<String>,
    pub history_files: Vec<CommitFileChange>,
    pub history_selected_file: Option<String>,
    pub history_diff: Option<FileDiff>,
    pub history_diff_headers_expanded: bool,
    pub history_loading: HistoryLoading,
    pub history_scope: HistoryScope,
    pub history_graph_rows: Vec<CommitGraphRow>,
    pub busy: bool,
    pub loading: RepositoryLoading,
    /// The number of the latest load. What an earlier one brings is dropped.
    pub repository_load_id: u64,
    pub status: String,
    pub last_error: Option<String>,
}

/// What a snapshot holds.
pub struct SnapshotState {
    pub path: String,
    pub head: Option<String>,
    pub branches: Seq<BranchInfo>,
    pub changes: Seq<WorktreeChange>,
    pub remotes: Seq<RemoteInfo>,
    pub tags: Seq<TagInfo>,
    pub stashes: Seq<StashInfo>,
    pub conflicts: Seq<String>,
}

pub open spec fn state_of(s: RepositorySnapshot) -> SnapshotState {
    SnapshotState {
        path: s.path,
        head: s.head,
        branches: s.branches@,
        changes: s.changes@,
        remotes: s.remotes@,
        tags: s.tags@,
        stashes: s.stashes@,
        conflicts: s.conflicts@,
    }
}

pub open spec fn opt_state(s: Option<RepositorySnapshot>) -> Option<SnapshotState> {
    match s {
        Some(s) => Some(state_of(s)),
        None => None,
    }
}

pub struct TabView {
    pub id: RepoTabId,
    pub repo_path: Option<String>,
    pub snapshot: Option<SnapshotState>,
    pub selected_branch: Option<String>,
    pub selected_remote: Option<String>,
    pub selection: SelectionView,
    pub diff: Option<FileDiff>,
    pub diff_headers_expanded: bool,
    pub main_mode: MainMode,
    pub commits: Seq<CommitInfo>,
    pub has_more: bool,
    pub selected_commit: Option<String>,
    pub files: Seq<CommitFileChange>,
    pub selected_file: Option<String>,
    pub history_diff: Option<FileDiff>,
    pub history_headers_expanded: bool,
    pub history_loading: HistoryLoading,
    pub scope: HistoryScope,
    pub busy: bool,
    pub loading: RepositoryLoading,
    pub load_id: u64,
    pub status: Seq<char>,
    pub error: Option<Seq<char>>,
}

impl View for RepoTabState {
    type V = TabView;

    open spec fn view(&self) -> TabView {
        TabView {
            id: self.id,
            repo_path: self.repo_path,
            snapshot: opt_state(self.snapshot),
            selected_branch: self.selected_branch,
            selected_remote: self.selected_remote,
            selection: self.change_selection@,
            diff: self.diff,
            diff_headers_expanded: self.diff_headers_expanded,
            main_mode: self.main_mode,
            commits: self.history_commits@,
            has_more: self.history_has_more,
            selected_commit: self.history_selected_commit,
            files: self.history_files@,
            selected_file: self.history_selected_file,
            history_diff: self.history_diff,
            history_headers_expanded: self.history_diff_headers_expanded,
            history_loading: self.history_loading,
            scope: self.history_scope,
            busy: self.busy,
            loading: self.loading,
            load_id: self.repository_load_id,
            status: self.status@,
            error: opt_view(self.last_error),
        }
    }
}

/// Whether the rows draw the commits.
#[verifier::opaque]
pub open spec fn rows_draw(rows: Seq<CommitGraphRow>, commits: Seq<CommitInfo>) -> bool {
    &&& rows.len() == commits.len()
    &&& forall|n: int|
        0 <= n < rows.len() ==> is_graph_row(
            #[trigger] rows[n],
            lanes_before(commits, n),
            commits[n],
        )
}

/// The changes of a snapshot, if there is one.
pub open spec fn changes_in(snapshot: Option<SnapshotState>) -> Option<Seq<WorktreeChange>> {
    match snapshot {
        Some(s) => Some(s.changes),
        None => None,
    }
}

// ---------------------------------------------------------------------------
// The remote that operations go to
// ---------------------------------------------------------------------------
/// The first remote from `from` on with the given name, or the length.
pub open spec fn remote_place(remotes: Seq<RemoteInfo>, name: Seq<char>, from: int) -> int
    decreases remotes.len() - from,
{
    if from < 0 || from >= remotes.len() {
        remotes.len() as int
    } else if remotes[from].name@ == name {
        from
    } else {
        remote_place(remotes, name, from + 1)
    }
}

/// The selected remote if there is one of that name, else `origin`, else the first.
pub open spec fn preferred_remote(selected: Option<String>, remotes: Seq<RemoteInfo>) -> Option<
    String,
> {
    if selected is Some && remote_place(remotes, selected->0@, 0) < remotes.len() {
        selected
    } else if remote_place(remotes, "origin"@, 0) < remotes.len() {
        Some(remotes[remote_place(remotes, "origin"@, 0)].name)
    } else if remotes.len() > 0 {
        Some(remotes[0].name)
    } else {
        None
    }
}

fn find_remote(remotes: &Vec<RemoteInfo>, name: &str) -> (r: usize)
    ensures
        r == remote_place(remotes@, name@, 0),
        r <= remotes@.len(),
{
    let mut i: usize = 0;
    while i < remotes.len()
        invariant
            i <= remotes@.len(),
            remote_place(remotes@, name@, 0) == remote_place(remotes@, name@, i as int),
        decreases remotes@.len() - i,
    {
        if str_eq(remotes[i].name.as_str(), name) {
            return i;
        }
        i = i + 1;
    }
    i
}

/// The selected remote if there is one of that name, else `origin`, else the first.
pub fn remote_to_use(selected: &Option<String>, remotes: &Vec<RemoteInfo>) -> (r: Option<String>)
    ensures
        r == preferred_remote(*selected, remotes@),
{
    match selected {
        Some(name) => {
            if find_remote(remotes, name.as_str()) < remotes.len() {
                return Some(name.clone());
            }
        },
        None => {},
    }
    let origin: usize = find_remote(remotes, "origin");
    if origin < remotes.len() {
        return Some(remotes[origin].name.clone());
    }
    if remotes.len() > 0 {
        Some(remotes[0].name.clone())
    } else {
        None
    }
}

/// The remote that is used is one of the repository.
pub proof fn lemma_preferred_remote_exists(selected: Option<String>, remotes: Seq<RemoteInfo>)
    ensures
        preferred_remote(selected, remotes) is Some <==> remotes.len() > 0,
        remotes.len() > 0 ==> exists|i: int|
            0 <= i < remotes.len() && (#[trigger] remotes[i]).name@ == preferred_remote(
                selected,
                remotes,
            )->0@,
{
    lemma_remote_place(remotes, "origin"@, 0);
    if selected is Some {
        lemma_remote_place(remotes, selected->0@, 0);
    }
    if remotes.len() > 0 {
        assert(remotes[0].name@ == remotes[0].name@);
    }
}

proof fn lemma_remote_place(remotes: Seq<RemoteInfo>, name: Seq<char>, from: int)
    requires
        0 <= from <= remotes.len(),
    ensures
        from <= remote_place(remotes, name, from) <= remotes.len(),
        remote_place(remotes, name, from) < remotes.len() ==> remotes[remote_place(
            remotes,
            name,
            from,
        )].name@ == name,
    decreases remotes.len() - from,
{
    if from < remotes.len() && remotes[from].name@ != name {
        lemma_remote_place(remotes, name, from + 1);
    }
}

// ---------------------------------------------------------------------------
// What happens to a tab
// ---------------------------------------------------------------------------
impl TabView {
    pub open spec fn empty(id: RepoTabId, repo_path: Option<String>) -> Self {
        TabView {
            id,
            repo_path,
            snapshot: None,
            selected_branch: None,
            selected_remote: None,
            selection: SelectionView::nothing(),
            diff: None,
            diff_headers_expanded: false,
            main_mode: MainMode::Worktree,
            commits: Seq::empty(),
            has_more: false,
            selected_commit: None,
            files: Seq::empty(),
            selected_file: None,
            history_diff: None,
            history_headers_expanded: false,
            history_loading: HistoryLoading::nothing(),
            scope: HistoryScope::CurrentBranch,
            busy: false,
            loading: RepositoryLoading::nothing(),
            load_id: 0,
            status: "就绪"@,
            error: None,
        }
    }

    /// Whether it is a tab with a repository.
    pub open spec fn is_open(self) -> bool {
        self.id.0 != 0 && self.repo_path is Some
    }

    pub open spec fn failing(self, message: Seq<char>) -> Self {
        TabView { error: Some(message), ..self }
    }

    pub open spec fn without_history(self) -> Self {
        TabView {
            commits: Seq::empty(),
            has_more: false,
            selected_commit: None,
            files: Seq::empty(),
            selected_file: None,
            history_diff: None,
            history_headers_expanded: false,
            history_loading: HistoryLoading::nothing(),
            ..self
        }
    }

    /// The tab once a page of the history is asked for, and what is to be done for it.
    pub open spec fn asking_history(self, append: bool) -> (Self, Seq<Effect>) {
        if !self.is_open() {
            (self.failing("请先打开一个仓库"@), Seq::empty())
        } else if self.history_loading.commits {
            (self, Seq::empty())
        } else {
            (
                TabView {
                    history_loading: HistoryLoading { commits: true, ..self.history_loading },
                    status: if append {
                        "正在加载更多提交记录"@
                    } else {
                        "正在加载提交记录"@
                    },
                    error: None,
                    ..self
                },
                seq![
                    Effect::LoadHistoryPage {
                        tab_id: self.id,
                        path: self.repo_path->0,
                        scope: self.scope,
                        offset: if append {
                            self.commits.len() as usize
                        } else {
                            0
                        },
                        append,
                        load_id: self.load_id,
                    },
                ],
            )
        }
    }

    pub open spec fn reloading_history(self) -> (Self, Seq<Effect>) {
        if self.main_mode == MainMode::History {
            self.asking_history(false)
        } else {
            (self, Seq::empty())
        }
    }

    /// The tab once its history is shown.
    pub open spec fn ensuring_history(self) -> (Self, Seq<Effect>) {
        if self.main_mode == MainMode::History && self.repo_path is Some && self.commits.len() == 0
            && !self.history_loading.commits {
            self.asking_history(false)
        } else {
            (self, Seq::empty())
        }
    }

    /// The tab once a commit is selected in the history.
    pub open spec fn selecting_commit(self, oid: String) -> (Self, Seq<Effect>) {
        if opt_view(self.selected_commit) == Some(oid@) && self.files.len() > 0 {
            (self, Seq::empty())
        } else {
            (
                TabView {
                    selected_commit: Some(oid),
                    files: Seq::empty(),
                    selected_file: None,
                    history_diff: None,
                    history_headers_expanded: false,
                    history_loading: HistoryLoading {
                        files: true,
                        diff: false,
                        ..self.history_loading
                    },
                    status: "正在加载提交文件"@,
                    ..self
                },
                if self.is_open() {
                    seq![
                        Effect::ResetHistoryDiffScroll { tab_id: self.id },
                        Effect::LoadHistoryFiles {
                            tab_id: self.id,
                            path: self.repo_path->0,
                            oid,
                            load_id: self.load_id,
                        },
                    ]
                } else {
                    seq![Effect::ResetHistoryDiffScroll { tab_id: self.id }]
                },
            )
        }
    }

    /// The tab once a file of the selected commit is selected.
    pub open spec fn selecting_file(self, file: String, force: bool) -> (Self, Seq<Effect>) {
        if self.selected_commit is None {
            (self, Seq::empty())
        } else if !force && opt_view(self.selected_file) == Some(file@) && self.history_diff is Some {
            (self, Seq::empty())
        } else {
            (
                TabView {
                    selected_file: Some(file),
                    history_diff: None,
                    history_headers_expanded: false,
                    history_loading: HistoryLoading { diff: true, ..self.history_loading },
                    status: "正在加载提交差异"@,
                    ..self
                },
                if self.is_open() {
                    seq![
                        Effect::ResetHistoryDiffScroll { tab_id: self.id },
                        Effect::LoadHistoryDiff {
                            tab_id: self.id,
                            path: self.repo_path->0,
                            oid: self.selected_commit->0,
                            file,
                            load_id: self.load_id,
                        },
                    ]
                } else {
                    seq![Effect::ResetHistoryDiffScroll { tab_id: self.id }]
                },
            )
        }
    }

    /// The tab with another snapshot, and the remote that goes with it.
    pub open spec fn showing(self, snapshot: SnapshotState) -> Self {
        TabView {
            selected_remote: preferred_remote(self.selected_remote, snapshot.remotes),
            snapshot: Some(snapshot),
            ..self
        }
    }

    /// The tab with other changes.
    pub open spec fn with_changes(self, changes: Seq<WorktreeChange>) -> Self {
        let snapshot = match self.snapshot {
            Some(s) => Some(SnapshotState { changes, ..s }),
            None => None,
        };
        TabView {
            snapshot,
            selection: self.selection.pruned(changes_in(snapshot)),
            ..self
        }
    }

    // Events
    pub open spec fn on_started(self, message: Seq<char>) -> Self {
        TabView { busy: true, status: message, error: None, ..self }
    }

    pub open spec fn on_progress(self, message: Seq<char>) -> Self {
        TabView { status: message, ..self }
    }

    pub open spec fn on_failed(self, error: Seq<char>) -> Self {
        TabView {
            busy: false,
            loading: RepositoryLoading::nothing(),
            status: "操作失败"@,
            error: Some(error),
            ..self
        }
    }

    #[verifier::opaque]
    pub open spec fn on_fast(self, message: Seq<char>, snapshot: SnapshotState, load_id: u64) -> (
        Self,
        Seq<Effect>,
    ) {
        if load_id != self.load_id {
            (self, Seq::empty())
        } else {
            let fresh = TabView {
                busy: false,
                loading: RepositoryLoading {
                    metadata: true,
                    status_fast: true,
                    status_full: true,
                },
                status: message,
                error: None,
                diff: None,
                selection: SelectionView::nothing(),
                repo_path: Some(snapshot.path),
                ..self.without_history()
            };
            let (after, effects) = fresh.showing(snapshot).reloading_history();
            (after, seq![Effect::ShowCurrentBranch { tab_id: self.id }] + effects)
        }
    }

    #[verifier::opaque]
    pub open spec fn on_metadata(
        self,
        message: Seq<char>,
        snapshot: SnapshotState,
        load_id: u64,
    ) -> (Self, Seq<Effect>) {
        if load_id != self.load_id {
            (self, Seq::empty())
        } else {
            let next = TabView {
                busy: false,
                loading: RepositoryLoading { metadata: false, ..self.loading },
                status: message,
                repo_path: Some(snapshot.path),
                ..self
            };
            (next.showing(self.merged(snapshot)), seq![Effect::ShowCurrentBranch { tab_id: self.id }])
        }
    }

    /// A snapshot with the changes that were known before.
    pub open spec fn merged(self, snapshot: SnapshotState) -> SnapshotState {
        match self.snapshot {
            Some(s) => SnapshotState { changes: s.changes, ..snapshot },
            None => SnapshotState { changes: Seq::empty(), ..snapshot },
        }
    }

    pub open spec fn on_status_fast(
        self,
        message: Seq<char>,
        changes: Seq<WorktreeChange>,
        load_id: u64,
    ) -> Self {
        if load_id != self.load_id {
            self
        } else {
            let next = TabView {
                loading: RepositoryLoading { status_fast: false, ..self.loading },
                status: message,
                ..self
            };
            next.with_changes(changes)
        }
    }

    pub open spec fn on_status_full(
        self,
        message: Seq<char>,
        changes: Seq<WorktreeChange>,
        load_id: u64,
    ) -> Self {
        if load_id != self.load_id {
            self
        } else {
            let next = TabView {
                loading: RepositoryLoading { status_full: false, ..self.loading },
                status: message,
                ..self
            };
            next.with_changes(changes)
        }
    }

    pub open spec fn on_stage_failed(self, error: Seq<char>, load_id: u64) -> Self {
        if load_id != self.load_id {
            self
        } else {
            TabView {
                loading: RepositoryLoading::nothing(),
                status: "仓库已打开，后台加载失败"@,
                error: Some(error),
                ..self
            }
        }
    }

    /// The tab with the repository as it is after an operation. `own` says whether the operation
    /// was one of this tab.
    pub open spec fn after_operation(self, snapshot: SnapshotState, own: bool) -> (Self, Seq<Effect>) {
        let path = if snapshot.path@.len() > 0 {
            Some(snapshot.path)
        } else {
            self.repo_path
        };
        let next = TabView { repo_path: path, ..self }.showing(snapshot);
        let kept = TabView { selection: next.selection.pruned(Some(snapshot.changes)), ..next };
        let (after, asked) = kept.without_history().reloading_history();
        (
            if own {
                TabView {
                    loading: RepositoryLoading { status_full: true, ..after.loading },
                    ..after
                }
            } else {
                after
            },
            seq![Effect::ShowCurrentBranch { tab_id: self.id }] + asked,
        )
    }

    pub open spec fn with_diff(self, diff: Option<FileDiff>) -> (Self, Seq<Effect>) {
        match diff {
            None => (self, Seq::empty()),
            Some(d) => (
                TabView { diff: Some(d), diff_headers_expanded: false, ..self },
                seq![Effect::ResetDiffScroll { tab_id: self.id }],
            ),
        }
    }

    /// What is to be done to know all changes after an operation.
    pub open spec fn rereading(self) -> Seq<Effect> {
        match self.repo_path {
            Some(path) => seq![
                Effect::LoadFullStatus {
                    tab_id: self.id,
                    path,
                    load_id: self.load_id,
                    message: "变更已补全",
                },
            ],
            None => Seq::empty(),
        }
    }

    /// An operation is done. `own` says whether it was one of this tab.
    #[verifier::opaque]
    pub open spec fn on_finished(
        self,
        message: Seq<char>,
        snapshot: Option<SnapshotState>,
        diff: Option<FileDiff>,
        own: bool,
    ) -> (Self, Seq<Effect>) {
        let done = TabView {
            busy: false,
            loading: RepositoryLoading::nothing(),
            status: message,
            ..self
        };
        let (tab, first) = match snapshot {
            None => (done, Seq::<Effect>::empty()),
            Some(s) => done.after_operation(s, own),
        };
        let (shown, second) = tab.with_diff(diff);
        (
            shown,
            first + second + if own && snapshot is Some {
                shown.rereading()
            } else {
                Seq::<Effect>::empty()
            },
        )
    }

    #[verifier::opaque]
    pub open spec fn on_discarded(
        self,
        message: Seq<char>,
        snapshot: SnapshotState,
        changes: Seq<WorktreeChange>,
        load_id: u64,
    ) -> (Self, Seq<Effect>) {
        if load_id != self.load_id {
            (self, Seq::empty())
        } else {
            let done = TabView {
                busy: false,
                loading: RepositoryLoading::nothing(),
                status: message,
                error: None,
                repo_path: Some(snapshot.path),
                ..self
            };
            let next = TabView {
                diff: None,
                diff_headers_expanded: false,
                ..done.showing(snapshot).with_changes(changes)
            };
            let (after, asked) = next.without_history().reloading_history();
            (after, seq![Effect::ResetDiffScroll { tab_id: self.id }, Effect::ShowCurrentBranch { tab_id: self.id }] + asked)
        }
    }

    /// The tab with a page of the history.
    pub open spec fn with_commits(
        self,
        commits: Seq<CommitInfo>,
        append: bool,
        has_more: bool,
    ) -> Self {
        let got = TabView {
            history_loading: HistoryLoading { commits: false, ..self.history_loading },
            has_more,
            ..self
        };
        if append {
            TabView { commits: self.commits + commits, ..got }
        } else {
            TabView {
                commits,
                selected_commit: None,
                files: Seq::empty(),
                selected_file: None,
                history_diff: None,
                ..got
            }
        }
    }

    #[verifier::opaque]
    pub open spec fn on_commits(
        self,
        commits: Seq<CommitInfo>,
        append: bool,
        has_more: bool,
        scope: HistoryScope,
        load_id: u64,
    ) -> (Self, Seq<Effect>) {
        if load_id != self.load_id || scope != self.scope {
            (self, Seq::empty())
        } else {
            self.with_commits(commits, append, has_more).settling()
        }
    }

    /// The tab with a commit selected in its history, if there is one.
    pub open spec fn settling(self) -> (Self, Seq<Effect>) {
        if self.selected_commit is Some {
            (TabView { status: "提交记录已加载"@, ..self }, Seq::empty())
        } else if self.commits.len() == 0 {
            (TabView { status: "当前分支暂无提交记录"@, ..self }, Seq::empty())
        } else {
            self.selecting_commit(self.commits[0].oid)
        }
    }

    #[verifier::opaque]
    pub open spec fn on_files(self, oid: Seq<char>, files: Seq<CommitFileChange>, load_id: u64) -> (
        Self,
        Seq<Effect>,
    ) {
        if load_id != self.load_id || opt_view(self.selected_commit) != Some(oid) {
            (self, Seq::empty())
        } else {
            let next = TabView {
                history_loading: HistoryLoading { files: false, ..self.history_loading },
                files,
                selected_file: None,
                history_diff: None,
                history_headers_expanded: false,
                ..self
            };
            if files.len() == 0 {
                (TabView { status: "该提交没有文件变更"@, ..next }, Seq::empty())
            } else {
                next.selecting_file(files[0].path, false)
            }
        }
    }

    #[verifier::opaque]
    pub open spec fn on_diff(self, oid: Seq<char>, file: Seq<char>, diff: FileDiff, load_id: u64) -> (
        Self,
        Seq<Effect>,
    ) {
        if load_id != self.load_id || opt_view(self.selected_commit) != Some(oid) || opt_view(
            self.selected_file,
        ) != Some(file) {
            (self, Seq::empty())
        } else {
            (
                TabView {
                    history_loading: HistoryLoading { diff: false, ..self.history_loading },
                    history_diff: Some(diff),
                    history_headers_expanded: false,
                    status: "提交差异已加载"@,
                    ..self
                },
                seq![Effect::ResetHistoryDiffScroll { tab_id: self.id }],
            )
        }
    }

    pub open spec fn on_history_failed(self, error: Seq<char>, load_id: u64) -> Self {
        if load_id != self.load_id {
            self
        } else {
            TabView {
                history_loading: HistoryLoading::nothing(),
                status: "提交记录加载失败"@,
                error: Some(error),
                ..self
            }
        }
    }
}

impl RepoTabState {
    /// What the tab shows of the snapshot goes with it.
    pub open spec fn wf(self) -> bool {
        &&& self.change_selection.wf()
        &&& self.change_indexes.show(
            match self.snapshot {
                Some(s) => s.changes@,
                None => Seq::empty(),
            },
        )
        &&& rows_draw(self.history_graph_rows@, self.history_commits@)
    }

    pub fn new(id: RepoTabId, repo_path: Option<String>) -> (r: Self)
        ensures
            r.wf(),
            r@ == TabView::empty(id, repo_path),
    {
        let r = RepoTabState {
            id,
            repo_path,
            snapshot: None,
            selected_branch: None,
            selected_remote: None,
            change_selection: ChangeSelection::default(),
            change_indexes: ChangeListIndexes::default(),
            diff: None,
            diff_headers_expanded: false,
            main_mode: MainMode::Worktree,
            history_commits: Vec::new(),
            history_has_more: false,
            history_selected_commit: None,
            history_files: Vec::new(),
            history_selected_file: None,
            history_diff: None,
            history_diff_headers_expanded: false,
            history_loading: HistoryLoading::default(),
            history_scope: HistoryScope::default(),
            history_graph_rows: Vec::new(),
            busy: false,
            loading: RepositoryLoading::default(),
            repository_load_id: 0,
            status: "就绪".to_string(),
            last_error: None,
        };
        assert(r.change_indexes.staged@ =~= Seq::<usize>::empty());
        assert(r.change_indexes.unstaged@ =~= Seq::<usize>::empty());
        proof {
            reveal(rows_draw);
        }
        r
    }

    /// What the tab is called, given the last part of its path.
    pub fn display_name(file_name: Option<String>) -> (r: String)
        ensures
            r@ == match opt_view(file_name) {
                Some(name) => if name.len() == 0 {
                    "未命名仓库"@
                } else {
                    name
                },
                None => "未命名仓库"@,
            },
    {
        match file_name {
            Some(name) => {
                let chars: Vec<char> = crate::text::to_chars(name.as_str());
                if chars.len() == 0 {
                    "未命名仓库".to_string()
                } else {
                    name
                }
            },
            None => "未命名仓库".to_string(),
        }
    }

    /// Drops differences that are too large to be kept while the tab is not shown.
    pub fn release_large_diff_caches(&mut self)
        requires
            old(self).wf(),
        ensures
            final(self).wf(),
            final(self)@ == old(self)@.released(),
    {
        let large: bool = match &self.diff {
            Some(diff) => diff.lines.len() > LARGE_DIFF_CACHE_LINE_LIMIT,
            None => false,
        };
        if large {
            self.diff = None;
            self.diff_headers_expanded = false;
        }
        let large: bool = match &self.history_diff {
            Some(diff) => diff.lines.len() > LARGE_DIFF_CACHE_LINE_LIMIT,
            None => false,
        };
        if large {
            self.history_diff = None;
            self.history_diff_headers_expanded = false;
        }
    }

    pub fn fail(&mut self, message: &str)
        requires
            old(self).wf(),
        ensures
            final(self).wf(),
            final(self)@ == old(self)@.failing(message@),
    {
        self.last_error = Some(message.to_string());
    }

    pub fn clear_history(&mut self)
        requires
            old(self).wf(),
        ensures
            final(self).wf(),
            final(self)@ == old(self)@.without_history(),
    {
        self.history_commits = Vec::new();
        self.history_has_more = false;
        self.history_selected_commit = None;
        self.history_files = Vec::new();
        self.history_selected_file = None;
        self.history_diff = None;
        self.history_diff_headers_expanded = false;
        self.history_loading = HistoryLoading::default();
        self.history_graph_rows = Vec::new();
        proof {
            reveal(rows_draw);
        }
    }

    pub fn load_history_page(&mut self, append: bool, effects: &mut Vec<Effect>)
        requires
            old(self).wf(),
        ensures
            final(self).wf(),
            final(self)@ == old(self)@.asking_history(append).0,
            final(effects)@ == old(effects)@ + old(self)@.asking_history(append).1,
    {
        let path: String = match &self.repo_path {
            Some(path) => path.clone(),
            None => {
                self.fail("请先打开一个仓库");
                return ;
            },
        };
        if self.id.0 == 0 {
            self.fail("请先打开一个仓库");
            return ;
        }
        if self.history_loading.commits {
            return ;
        }
        let offset: usize = if append {
            self.history_commits.len()
        } else {
            0
        };
        self.history_loading.commits = true;
        self.status = if append {
            "正在加载更多提交记录".to_string()
        } else {
            "正在加载提交记录".to_string()
        };
        self.last_error = None;
        let ghost before = effects@;
        effects.push(
            Effect::LoadHistoryPage {
                tab_id: self.id,
                path,
                scope: self.history_scope,
                offset,
                append,
                load_id: self.repository_load_id,
            },
        );
        assert(effects@ =~= before + old(self)@.asking_history(append).1);
    }

    pub fn reload_history_if_active(&mut self, effects: &mut Vec<Effect>)
        requires
            old(self).wf(),
        ensures
            final(self).wf(),
            final(self)@ == old(self)@.reloading_history().0,
            final(effects)@ == old(effects)@ + old(self)@.reloading_history().1,
    {
        if self.main_mode == MainMode::History {
            self.load_history_page(false, effects);
        }
    }

    pub fn ensure_history_loaded(&mut self, effects: &mut Vec<Effect>)
        requires
            old(self).wf(),
        ensures
            final(self).wf(),
            final(self)@ == old(self)@.ensuring_history().0,
            final(effects)@ == old(effects)@ + old(self)@.ensuring_history().1,
    {
        if self.main_mode == MainMode::History && self.repo_path.is_some()
            && self.history_commits.len() == 0 && !self.history_loading.commits {
            self.load_history_page(false, effects);
        }
    }

    pub fn select_history_commit(&mut self, oid: String, effects: &mut Vec<Effect>)
        requires
            old(self).wf(),
        ensures
            final(self).wf(),
            final(self)@ == old(self)@.selecting_commit(oid).0,
            final(effects)@ == old(effects)@ + old(self)@.selecting_commit(oid).1,
    {
        if opt_str_eq(&self.history_selected_commit, oid.as_str()) && self.history_files.len() > 0 {
            return ;
        }
        self.history_selected_commit = Some(oid.clone());
        self.history_files = Vec::new();
        self.history_selected_file = None;
        self.history_diff = None;
        self.history_diff_headers_expanded = false;
        self.history_loading.files = true;
        self.history_loading.diff = false;
        self.status = "正在加载提交文件".to_string();
        effects.push(Effect::ResetHistoryDiffScroll { tab_id: self.id });
        if self.id.0 != 0 {
            match &self.repo_path {
                Some(path) => {
                    effects.push(
                        Effect::LoadHistoryFiles {
                            tab_id: self.id,
                            path: path.clone(),
                            oid,
                            load_id: self.repository_load_id,
                        },
                    );
                },
                None => {},
            }
        }
        assert(effects@ =~= old(effects)@ + old(self)@.selecting_commit(oid).1);
    }

    pub fn select_history_file(&mut self, file: String, effects: &mut Vec<Effect>)
        requires
            old(self).wf(),
        ensures
            final(self).wf(),
            final(self)@ == old(self)@.selecting_file(file, false).0,
            final(effects)@ == old(effects)@ + old(self)@.selecting_file(file, false).1,
    {
        self.select_history_file_with_reload(file, false, effects);
    }

    pub fn select_history_file_with_reload(
        &mut self,
        file: String,
        force_reload: bool,
        effects: &mut Vec<Effect>,
    )
        requires
            old(self).wf(),
        ensures
            final(self).wf(),
            final(self)@ == old(self)@.selecting_file(file, force_reload).0,
            final(effects)@ == old(effects)@ + old(self)@.selecting_file(file, force_reload).1,
    {
        let oid: String = match &self.history_selected_commit {
            Some(oid) => oid.clone(),
            None => {
                return ;
            },
        };
        if !force_reload && opt_str_eq(&self.history_selected_file, file.as_str())
            && self.history_diff.is_some() {
            return ;
        }
        self.history_selected_file = Some(file.clone());
        self.history_diff = None;
        self.history_diff_headers_expanded = false;
        self.history_loading.diff = true;
        self.status = "正在加载提交差异".to_string();
        effects.push(Effect::ResetHistoryDiffScroll { tab_id: self.id });
        if self.id.0 != 0 {
            match &self.repo_path {
                Some(path) => {
                    effects.push(
                        Effect::LoadHistoryDiff {
                            tab_id: self.id,
                            path: path.clone(),
                            oid,
                            file,
                            load_id: self.repository_load_id,
                        },
                    );
                },
                None => {},
            }
        }
        assert(effects@ =~= old(effects)@ + old(self)@.selecting_file(file, force_reload).1);
    }

    pub fn sync_selected_remote(&mut self, snapshot: &RepositorySnapshot)
        requires
            old(self).wf(),
        ensures
            final(self).wf(),
            final(self)@ == (TabView {
                selected_remote: preferred_remote(
                    old(self)@.selected_remote,
                    snapshot.remotes@,
                ),
                ..old(self)@
            }),
    {
        self.selected_remote = remote_to_use(&self.selected_remote, &snapshot.remotes);
    }

    pub(crate) fn show_snapshot(&mut self, snapshot: RepositorySnapshot)
        requires
            old(self).wf(),
        ensures
            final(self).wf(),
            final(self)@ == old(self)@.showing(state_of(snapshot)),
    {
        self.sync_selected_remote(&snapshot);
        self.change_indexes = ChangeListIndexes::rebuild(&snapshot.changes);
        self.snapshot = Some(snapshot);
    }

    pub fn merge_metadata_snapshot(&mut self, snapshot: RepositorySnapshot)
        requires
            old(self).wf(),
        ensures
            final(self).wf(),
            final(self)@ == (TabView {
                repo_path: Some(snapshot.path),
                ..old(self)@
            }).showing(old(self)@.merged(state_of(snapshot))),
    {
        let mut known: Option<RepositorySnapshot> = None;
        core::mem::swap(&mut known, &mut self.snapshot);
        let changes: Vec<WorktreeChange> = match known {
            Some(s) => s.changes,
            None => Vec::new(),
        };
        let merged = RepositorySnapshot { changes, ..snapshot };
        self.repo_path = Some(merged.path.clone());
        self.selected_remote = remote_to_use(&self.selected_remote, &merged.remotes);
        self.change_indexes = ChangeListIndexes::rebuild(&merged.changes);
        self.snapshot = Some(merged);
    }

    pub fn replace_changes(&mut self, changes: Vec<WorktreeChange>)
        requires
            old(self).wf(),
        ensures
            final(self).wf(),
            final(self)@ == old(self)@.with_changes(changes@),
    {
        let mut known: Option<RepositorySnapshot> = None;
        core::mem::swap(&mut known, &mut self.snapshot);
        match known {
            Some(s) => {
                let next = RepositorySnapshot { changes, ..s };
                self.change_indexes = ChangeListIndexes::rebuild(&next.changes);
                self.change_selection.prune_change_selection(Some(&next.changes));
                self.snapshot = Some(next);
            },
            None => {
                self.change_indexes = ChangeListIndexes::default();
                assert(self.change_indexes.staged@ =~= Seq::<usize>::empty());
                assert(self.change_indexes.unstaged@ =~= Seq::<usize>::empty());
                self.change_selection.prune_change_selection(None);
            },
        }
    }

    pub fn prune_change_selection(&mut self)
        requires
            old(self).wf(),
        ensures
            final(self).wf(),
            final(self)@ == (TabView {
                selection: old(self)@.selection.pruned(changes_in(old(self)@.snapshot)),
                ..old(self)@
            }),
    {
        match &self.snapshot {
            Some(s) => {
                self.change_selection.prune_change_selection(Some(&s.changes));
            },
            None => {
                self.change_selection.prune_change_selection(None);
            },
        }
    }
}

impl TabView {
    pub open spec fn released(self) -> Self {
        let first = if self.diff is Some && self.diff->0.lines@.len() > LARGE_DIFF_CACHE_LINE_LIMIT {
            TabView { diff: None, diff_headers_expanded: false, ..self }
        } else {
            self
        };
        if self.history_diff is Some && self.history_diff->0.lines@.len()
            > LARGE_DIFF_CACHE_LINE_LIMIT {
            TabView { history_diff: None, history_headers_expanded: false, ..first }
        } else {
            first
        }
    }
}

// ---------------------------------------------------------------------------
// Laws
// ---------------------------------------------------------------------------
/// What one sees of a tab is what it holds.
pub proof fn lemma_tab_is_what_is_seen(tab: RepoTabState)
    ensures
        tab@.id == tab.id,
        tab@.repo_path == tab.repo_path,
        match tab.snapshot {
            Some(s) => {
                &&& tab@.snapshot matches Some(seen)
                &&& seen.path == s.path
                &&& seen.head == s.head
                &&& seen.branches == s.branches@
                &&& seen.changes == s.changes@
                &&& seen.remotes == s.remotes@
                &&& seen.tags == s.tags@
                &&& seen.stashes == s.stashes@
                &&& seen.conflicts == s.conflicts@
            },
            None => tab@.snapshot is None,
        },
        tab@.selected_branch == tab.selected_branch,
        tab@.selected_remote == tab.selected_remote,
        tab@.selection.staged == tab.change_selection.staged@,
        tab@.selection.unstaged == tab.change_selection.unstaged@,
        tab@.diff == tab.diff,
        tab@.diff_headers_expanded == tab.diff_headers_expanded,
        tab@.main_mode == tab.main_mode,
        tab@.commits == tab.history_commits@,
        tab@.has_more == tab.history_has_more,
        tab@.selected_commit == tab.history_selected_commit,
        tab@.files == tab.history_files@,
        tab@.selected_file == tab.history_selected_file,
        tab@.history_diff == tab.history_diff,
        tab@.history_headers_expanded == tab.history_diff_headers_expanded,
        tab@.history_loading == tab.history_loading,
        tab@.scope == tab.history_scope,
        tab@.busy == tab.busy,
        tab@.loading == tab.loading,
        tab@.load_id == tab.repository_load_id,
        tab@.status == tab.status@,
        tab@.error == opt_view(tab.last_error),
{
}

/// A new tab has its number and its path, and nothing else yet.
pub proof fn lemma_new_tab(tab: RepoTabState, id: RepoTabId, repo_path: Option<String>)
    requires
        tab@ == TabView::empty(id, repo_path),
    ensures
        tab.id == id,
        tab.repo_path == repo_path,
        tab.snapshot is None,
        tab.selected_branch is None,
        tab.selected_remote is None,
        tab.change_selection.staged@ == Set::<Seq<char>>::empty(),
        tab.change_selection.unstaged@ == Set::<Seq<char>>::empty(),
        tab.diff is None,
        tab.main_mode == MainMode::Worktree,
        tab.history_commits@.len() == 0,
        !tab.history_has_more,
        tab.history_selected_commit is None,
        tab.history_files@.len() == 0,
        tab.history_selected_file is None,
        tab.history_diff is None,
        !tab.history_loading.commits && !tab.history_loading.files && !tab.history_loading.diff,
        tab.history_scope == HistoryScope::CurrentBranch,
        !tab.busy,
        !tab.loading.metadata && !tab.loading.status_fast && !tab.loading.status_full,
        tab.repository_load_id == 0,
        tab.last_error is None,
{
    assert(tab@.commits.len() == 0);
    assert(tab@.files.len() == 0);
    assert(tab@.error is None);
}

/// The remote that is used is the one that was selected while it is there, else `origin`, else the
/// first.
pub proof fn lemma_remote_that_is_used(selected: Option<String>, remotes: Seq<RemoteInfo>)
    ensures
        ({
            let used = preferred_remote(selected, remotes);
            let is_there = selected is Some && exists|i: int|
                0 <= i < remotes.len() && (#[trigger] remotes[i]).name@ == selected->0@;
            let has_origin = exists|i: int|
                0 <= i < remotes.len() && (#[trigger] remotes[i]).name@ == "origin"@;
            &&& is_there ==> used == selected
            &&& !is_there && has_origin ==> used is Some && used->0@ == "origin"@
            &&& !is_there && !has_origin && remotes.len() > 0 ==> used == Some(remotes[0].name)
            &&& remotes.len() == 0 ==> used is None
        }),
{
    if let Some(name) = selected {
        lemma_first_remote(remotes, name@, 0);
    }
    lemma_first_remote(remotes, "origin"@, 0);
}

proof fn lemma_first_remote(remotes: Seq<RemoteInfo>, name: Seq<char>, from: int)
    requires
        0 <= from <= remotes.len(),
    ensures
        from <= remote_place(remotes, name, from) <= remotes.len(),
        remote_place(remotes, name, from) < remotes.len() ==> remotes[remote_place(
            remotes,
            name,
            from,
        )].name@ == name,
        forall|i: int|
            from <= i < remote_place(remotes, name, from) ==> (#[trigger] remotes[i]).name@ != name,
    decreases remotes.len() - from,
{
    if from < remotes.len() && remotes[from].name@ != name {
        lemma_first_remote(remotes, name, from + 1);
    }
}

/// An operation that starts makes the tab busy and takes the last error away, its reports are shown,
/// and one that fails frees the tab and shows why. Nothing else of the tab changes.
pub proof fn lemma_operations_are_shown(tab: TabView, text: Seq<char>)
    ensures
        ({
            let t = tab.on_started(text);
            &&& t.busy && t.status == text && t.error is None
            &&& (TabView { busy: tab.busy, status: tab.status, error: tab.error, ..t }) == tab
        }),
        ({
            let t = tab.on_progress(text);
            &&& t.status == text
            &&& (TabView { status: tab.status, ..t }) == tab
        }),
        ({
            let t = tab.on_failed(text);
            &&& !t.busy && t.error == Some(text)
            &&& !t.loading.metadata && !t.loading.status_fast && !t.loading.status_full
            &&& (TabView {
                busy: tab.busy,
                loading: tab.loading,
                status: tab.status,
                error: tab.error,
                ..t
            }) == tab
        }),
        ({
            let t = tab.failing(text);
            &&& t.error == Some(text)
            &&& (TabView { error: tab.error, ..t }) == tab
        }),
{
}

/// Asking for the history of an open repository, while no page is on its way, asks for one page: the
/// first, or the one behind the commits that are there. Otherwise nothing is asked for. The commits
/// that are there stay.
pub proof fn lemma_history_is_asked_for(tab: TabView, append: bool)
    ensures
        ({
            let (after, effects) = tab.asking_history(append);
            let open = tab.id.0 != 0 && tab.repo_path is Some;
            &&& open && !tab.history_loading.commits ==> {
                &&& effects.len() == 1
                &&& effects[0] matches Effect::LoadHistoryPage {
                    tab_id,
                    path,
                    scope,
                    offset,
                    append: a,
                    load_id,
                }
                &&& tab_id == tab.id
                &&& path == tab.repo_path->0
                &&& scope == tab.scope
                &&& offset == if append {
                    tab.commits.len() as usize
                } else {
                    0
                }
                &&& a == append
                &&& load_id == tab.load_id
                &&& after.history_loading.commits
                &&& after.error is None
            }
            &&& !open ==> effects.len() == 0 && after.error is Some
            &&& open && tab.history_loading.commits ==> effects.len() == 0 && after == tab
            &&& after.commits == tab.commits
            &&& after.selected_commit == tab.selected_commit
            &&& after.files == tab.files
            &&& after.history_loading.files == tab.history_loading.files
            &&& after.history_loading.diff == tab.history_loading.diff
            &&& after.snapshot == tab.snapshot
            &&& after.selection == tab.selection
            &&& after.load_id == tab.load_id
            &&& after.id == tab.id
            &&& after.repo_path == tab.repo_path
        }),
{
}

/// The history is loaded again only where it is shown, and for the first time only where it is shown
/// and nothing of it is there or on its way.
pub proof fn lemma_history_is_loaded_where_it_is_shown(tab: TabView)
    ensures
        tab.main_mode == MainMode::Worktree ==> tab.reloading_history() == (
            tab,
            Seq::<Effect>::empty(),
        ) && tab.ensuring_history() == (tab, Seq::<Effect>::empty()),
        tab.main_mode == MainMode::History ==> tab.reloading_history() == tab.asking_history(false),
        tab.main_mode == MainMode::History && tab.repo_path is Some && tab.commits.len() == 0
            && !tab.history_loading.commits ==> tab.ensuring_history() == tab.asking_history(false),
        tab.commits.len() > 0 || tab.history_loading.commits || tab.repo_path is None
            ==> tab.ensuring_history() == (tab, Seq::<Effect>::empty()),
{
}

/// A tab without its history has no commit, no file and no difference of one, and loads none; all
/// else stays.
pub proof fn lemma_history_is_cleared(tab: TabView)
    ensures
        ({
            let t = tab.without_history();
            &&& t.commits.len() == 0 && t.files.len() == 0 && !t.has_more
            &&& t.selected_commit is None && t.selected_file is None && t.history_diff is None
            &&& !t.history_loading.commits && !t.history_loading.files && !t.history_loading.diff
            &&& (TabView {
                commits: tab.commits,
                has_more: tab.has_more,
                selected_commit: tab.selected_commit,
                files: tab.files,
                selected_file: tab.selected_file,
                history_diff: tab.history_diff,
                history_headers_expanded: tab.history_headers_expanded,
                history_loading: tab.history_loading,
                ..t
            }) == tab
        }),
{
}

/// Selecting a commit shows it without the files of the one before and asks for its own, unless it is
/// selected already and its files are there.
pub proof fn lemma_selecting_a_commit(tab: TabView, oid: String)
    ensures
        ({
            let (after, effects) = tab.selecting_commit(oid);
            let shown = opt_view(tab.selected_commit) == Some(oid@) && tab.files.len() > 0;
            &&& shown ==> after == tab && effects.len() == 0
            &&& !shown ==> {
                &&& after.selected_commit == Some(oid)
                &&& after.files.len() == 0
                &&& after.selected_file is None
                &&& after.history_diff is None
                &&& after.history_loading.files
                &&& !after.history_loading.diff
                &&& after.history_loading.commits == tab.history_loading.commits
                &&& effects[0] == (Effect::ResetHistoryDiffScroll { tab_id: tab.id })
            }
            &&& !shown && tab.is_open() ==> effects.len() == 2 && effects[1] == (
            Effect::LoadHistoryFiles {
                tab_id: tab.id,
                path: tab.repo_path->0,
                oid,
                load_id: tab.load_id,
            })
            &&& !shown && !tab.is_open() ==> effects.len() == 1
            &&& after.commits == tab.commits
            &&& after.snapshot == tab.snapshot
            &&& after.load_id == tab.load_id
        }),
{
}

/// Selecting a file of the commit that is selected asks for its differences, unless they are there
/// and need not be read again; without a commit nothing happens.
pub proof fn lemma_selecting_a_file(tab: TabView, file: String, force: bool)
    ensures
        ({
            let (after, effects) = tab.selecting_file(file, force);
            let shown = !force && opt_view(tab.selected_file) == Some(file@) && tab.history_diff is Some;
            &&& tab.selected_commit is None || shown ==> after == tab && effects.len() == 0
            &&& tab.selected_commit is Some && !shown ==> {
                &&& after.selected_file == Some(file)
                &&& after.history_diff is None
                &&& after.history_loading.diff
                &&& after.files == tab.files
                &&& after.selected_commit == tab.selected_commit
                &&& effects[0] == (Effect::ResetHistoryDiffScroll { tab_id: tab.id })
            }
            &&& tab.selected_commit is Some && !shown && tab.is_open() ==> effects.len() == 2
                && effects[1] == (Effect::LoadHistoryDiff {
                tab_id: tab.id,
                path: tab.repo_path->0,
                oid: tab.selected_commit->0,
                file,
                load_id: tab.load_id,
            })
            &&& tab.selected_commit is Some && !shown && !tab.is_open() ==> effects.len() == 1
        }),
{
}

/// A tab is open if it has a number other than zero and a path.
pub proof fn lemma_open_tabs(tab: TabView)
    ensures
        tab.is_open() <==> tab.id.0 != 0 && tab.repo_path is Some,
{
}

/// New changes take the place of the old ones in the tab, the rest of what is known stays, and what
/// is selected and still there stays selected.
pub proof fn lemma_changes_are_replaced(tab: TabView, changes: Seq<WorktreeChange>)
    ensures
        ({
            let t = tab.with_changes(changes);
            &&& t.snapshot is Some <==> tab.snapshot is Some
            &&& tab.snapshot matches Some(s) ==> {
                &&& t.snapshot->0.changes == changes
                &&& (SnapshotState { changes: s.changes, ..t.snapshot->0 }) == s
                &&& t.selection == tab.selection.pruned(Some(changes))
            }
            &&& tab.snapshot is None ==> t.selection == tab.selection.pruned(None)
            &&& (TabView { snapshot: tab.snapshot, selection: tab.selection, ..t }) == tab
        }),
{
}

/// The first look at a repository is shown at once, without changes, differences or history of
/// before; the three parts that come later are on their way.
pub proof fn lemma_first_look(tab: TabView, message: Seq<char>, snapshot: SnapshotState)
    ensures
        ({
            let (t, effects) = tab.on_fast(message, snapshot, tab.load_id);
            &&& t.snapshot == Some(snapshot)
            &&& t.repo_path == Some(snapshot.path)
            &&& !t.busy
            &&& t.loading.metadata && t.loading.status_fast && t.loading.status_full
            &&& t.diff is None
            &&& t.selection.staged == Set::<Seq<char>>::empty()
            &&& t.selection.unstaged == Set::<Seq<char>>::empty()
            &&& t.commits.len() == 0
            &&& t.selected_remote == preferred_remote(tab.selected_remote, snapshot.remotes)
            &&& t.load_id == tab.load_id
            &&& t.id == tab.id
            &&& t.main_mode == tab.main_mode
            &&& t.scope == tab.scope
            &&& effects[0] == (Effect::ShowCurrentBranch { tab_id: tab.id })
            &&& tab.main_mode == MainMode::Worktree ==> effects.len() == 1 && t.status == message
        }),
{
    reveal(TabView::on_fast);
}

/// The details of a repository take the place of what was known, but for the changes, which come on
/// their own.
pub proof fn lemma_details(tab: TabView, message: Seq<char>, snapshot: SnapshotState)
    ensures
        ({
            let (t, effects) = tab.on_metadata(message, snapshot, tab.load_id);
            &&& t.snapshot matches Some(s)
            &&& s.head == snapshot.head && s.branches == snapshot.branches && s.remotes
                == snapshot.remotes
            &&& s.tags == snapshot.tags && s.stashes == snapshot.stashes && s.conflicts
                == snapshot.conflicts && s.path == snapshot.path
            &&& s.changes == match tab.snapshot {
                Some(old) => old.changes,
                None => Seq::empty(),
            }
            &&& !t.loading.metadata
            &&& t.loading.status_fast == tab.loading.status_fast
            &&& t.loading.status_full == tab.loading.status_full
            &&& t.selection == tab.selection
            &&& t.commits == tab.commits
            &&& t.status == message
            &&& effects.len() == 1
            &&& effects[0] == (Effect::ShowCurrentBranch { tab_id: tab.id })
        }),
{
    reveal(TabView::on_metadata);
}

/// The changes come twice, first those that are found fast and then all of them; each time the part
/// that was on its way has come.
pub proof fn lemma_changes_come_twice(
    tab: TabView,
    message: Seq<char>,
    changes: Seq<WorktreeChange>,
)
    ensures
        ({
            let t = tab.on_status_fast(message, changes, tab.load_id);
            &&& !t.loading.status_fast
            &&& t.loading.status_full == tab.loading.status_full
            &&& t.loading.metadata == tab.loading.metadata
            &&& t.status == message
            &&& tab.snapshot is Some ==> t.snapshot is Some && t.snapshot->0.changes == changes
            &&& t.commits == tab.commits
        }),
        ({
            let t = tab.on_status_full(message, changes, tab.load_id);
            &&& !t.loading.status_full
            &&& t.loading.status_fast == tab.loading.status_fast
            &&& t.loading.metadata == tab.loading.metadata
            &&& t.status == message
            &&& tab.snapshot is Some ==> t.snapshot is Some && t.snapshot->0.changes == changes
            &&& t.commits == tab.commits
        }),
        ({
            let t = tab.on_stage_failed(message, tab.load_id);
            &&& !t.loading.metadata && !t.loading.status_fast && !t.loading.status_full
            &&& t.error == Some(message)
            &&& t.snapshot == tab.snapshot
            &&& t.selection == tab.selection
        }),
{
}

/// An operation that is finished frees the tab. What it brings is shown: the repository after it,
/// without the history of before, and differences. One of this window reads all changes again.
pub proof fn lemma_finished_operation(
    tab: TabView,
    message: Seq<char>,
    snapshot: Option<SnapshotState>,
    diff: Option<FileDiff>,
    own: bool,
)
    ensures
        ({
            let (t, effects) = tab.on_finished(message, snapshot, diff, own);
            &&& !t.busy
            &&& !t.loading.metadata && !t.loading.status_fast
            &&& t.loading.status_full <==> own && snapshot is Some
            &&& snapshot is None ==> t.snapshot == tab.snapshot && t.commits == tab.commits
                && t.selection == tab.selection && t.repo_path == tab.repo_path && t.status == message
            &&& snapshot matches Some(s) ==> {
                &&& t.snapshot == Some(s)
                &&& t.commits.len() == 0
                &&& t.selection == tab.selection.pruned(Some(s.changes))
                &&& t.repo_path == if s.path@.len() > 0 {
                    Some(s.path)
                } else {
                    tab.repo_path
                }
                &&& effects.contains(Effect::ShowCurrentBranch { tab_id: tab.id })
                &&& own && t.repo_path is Some ==> effects.last() == (Effect::LoadFullStatus {
                    tab_id: tab.id,
                    path: t.repo_path->0,
                    load_id: tab.load_id,
                    message: "变更已补全",
                })
            }
            &&& diff is None ==> t.diff == tab.diff
            &&& diff is Some ==> t.diff == diff && effects.contains(
                Effect::ResetDiffScroll { tab_id: tab.id },
            )
            &&& snapshot is None && diff is None ==> effects.len() == 0
        }),
{
    reveal(TabView::on_finished);
    let (t, effects) = tab.on_finished(message, snapshot, diff, own);
    if snapshot is Some {
        assert(effects[0] == (Effect::ShowCurrentBranch { tab_id: tab.id }));
    }
    if diff is Some {
        let done = TabView {
            busy: false,
            loading: RepositoryLoading::nothing(),
            status: message,
            ..tab
        };
        let first = match snapshot {
            None => Seq::<Effect>::empty(),
            Some(s) => done.after_operation(s, own).1,
        };
        assert(effects[first.len() as int] == (Effect::ResetDiffScroll { tab_id: tab.id }));
    }
}

/// After changes were discarded the tab shows what is left of them, and no difference of before.
pub proof fn lemma_discarded_changes(
    tab: TabView,
    message: Seq<char>,
    snapshot: SnapshotState,
    changes: Seq<WorktreeChange>,
)
    ensures
        ({
            let (t, effects) = tab.on_discarded(message, snapshot, changes, tab.load_id);
            &&& t.snapshot matches Some(s)
            &&& s.changes == changes
            &&& (SnapshotState { changes: snapshot.changes, ..s }) == snapshot
            &&& t.selection == tab.selection.pruned(Some(changes))
            &&& t.diff is None
            &&& !t.busy
            &&& !t.loading.metadata && !t.loading.status_fast && !t.loading.status_full
            &&& t.repo_path == Some(snapshot.path)
            &&& t.commits.len() == 0
            &&& effects[0] == (Effect::ResetDiffScroll { tab_id: tab.id })
            &&& effects[1] == (Effect::ShowCurrentBranch { tab_id: tab.id })
        }),
{
    reveal(TabView::on_discarded);
}

/// A page of the history goes behind the commits that are there, or takes their place; then the
/// selection goes with them, and the first commit is selected.
pub proof fn lemma_page_of_commits(
    tab: TabView,
    commits: Seq<CommitInfo>,
    append: bool,
    has_more: bool,
)
    ensures
        ({
            let (t, effects) = tab.on_commits(commits, append, has_more, tab.scope, tab.load_id);
            &&& append ==> t.commits == tab.commits + commits
            &&& !append ==> t.commits == commits
            &&& t.has_more == has_more
            &&& !t.history_loading.commits
            &&& append && tab.selected_commit is Some ==> t.selected_commit == tab.selected_commit
                && t.files == tab.files && t.history_diff == tab.history_diff && effects.len() == 0
            &&& !append && commits.len() > 0 ==> t.selected_commit == Some(commits[0].oid)
                && t.files.len() == 0
            &&& !append && commits.len() == 0 ==> t.selected_commit is None && effects.len() == 0
            &&& t.snapshot == tab.snapshot
            &&& t.selection == tab.selection
        }),
        forall|other: HistoryScope|
            other != tab.scope ==> #[trigger] tab.on_commits(
                commits,
                append,
                has_more,
                other,
                tab.load_id,
            ) == (tab, Seq::<Effect>::empty()),
{
    reveal(TabView::on_commits);
}

/// The files of the commit that is selected are shown, and the first of them is selected; those of
/// another commit are not. The differences of the file that is selected are shown, and no others.
pub proof fn lemma_files_and_differences(
    tab: TabView,
    oid: Seq<char>,
    files: Seq<CommitFileChange>,
    file: Seq<char>,
    diff: FileDiff,
)
    ensures
        ({
            let (t, effects) = tab.on_files(oid, files, tab.load_id);
            &&& opt_view(tab.selected_commit) != Some(oid) ==> t == tab && effects.len() == 0
            &&& opt_view(tab.selected_commit) == Some(oid) ==> {
                &&& t.files == files
                &&& !t.history_loading.files
                &&& t.selected_commit == tab.selected_commit
                &&& files.len() == 0 ==> t.selected_file is None && effects.len() == 0
                &&& files.len() > 0 ==> t.selected_file == Some(files[0].path)
                    && t.history_loading.diff
            }
        }),
        ({
            let (t, effects) = tab.on_diff(oid, file, diff, tab.load_id);
            let asked = opt_view(tab.selected_commit) == Some(oid) && opt_view(tab.selected_file)
                == Some(file);
            &&& !asked ==> t == tab && effects.len() == 0
            &&& asked ==> {
                &&& t.history_diff == Some(diff)
                &&& !t.history_loading.diff
                &&& t.selected_commit == tab.selected_commit
                &&& t.selected_file == tab.selected_file
                &&& t.files == tab.files
                &&& effects.len() == 1
                &&& effects[0] == (Effect::ResetHistoryDiffScroll { tab_id: tab.id })
            }
        }),
        ({
            let t = tab.on_history_failed(oid, tab.load_id);
            &&& t.error == Some(oid)
            &&& !t.history_loading.commits && !t.history_loading.files && !t.history_loading.diff
            &&& t.commits == tab.commits && t.files == tab.files && t.history_diff
                == tab.history_diff
        }),
{
    reveal(TabView::on_files);
    reveal(TabView::on_diff);
}

/// A tab that is not shown keeps differences up to the limit and lets larger ones go.
pub proof fn lemma_large_differences_are_let_go(tab: TabView)
    ensures
        ({
            let t = tab.released();
            &&& t.diff == match tab.diff {
                Some(d) if d.lines@.len() > 20_000 => None,
                other => other,
            }
            &&& t.history_diff == match tab.history_diff {
                Some(d) if d.lines@.len() > 20_000 => None,
                other => other,
            }
            &&& t.commits == tab.commits && t.files == tab.files && t.snapshot == tab.snapshot
            &&& t.selected_file == tab.selected_file && t.selection == tab.selection
        }),
{
}

} // verus!
