//! Values that the client passes around.

pub mod browse;
pub mod conflicts;

use vstd::prelude::*;

use crate::strings::{cat2, clone_opt, clone_strings, join, joined, opt_view, views};

verus! {

/// What each value of a list stands for.
pub open spec fn views_of<T: View>(s: Seq<T>) -> Seq<T::V> {
    s.map_values(|x: T| x@)
}

// ---------------------------------------------------------------------------
// Errors and progress
// ---------------------------------------------------------------------------
/// Why an operation on a repository did not succeed.
#[derive(Debug, PartialEq, Eq)]
pub enum GitError {
    /// The Git library refused, with its message.
    Git(String),
    /// A file could not be read or written, with the message of the system.
    Io(String),
    InvalidBranchName(String),
    EmptyCommitMessage,
    /// The paths of the files in conflict.
    Conflicts(Vec<String>),
    /// No credential could be had.
    Credential(String),
    Message(String),
}

impl GitError {
    /// Whether this is the plain message `text`.
    pub open spec fn says(self, text: Seq<char>) -> bool {
        self matches GitError::Message(m) && m@ == text
    }

    /// Whether this is a refusal of the Git library with the message `text`.
    pub open spec fn git_says(self, text: Seq<char>) -> bool {
        self matches GitError::Git(m) && m@ == text
    }

    /// Whether this refuses `name` as the name of a branch.
    pub open spec fn refuses_branch(self, name: Seq<char>) -> bool {
        self matches GitError::InvalidBranchName(n) && n@ == name
    }

    /// What the error says to the user.
    pub open spec fn message_text(self) -> Seq<char> {
        match self {
            GitError::Git(m) => m@,
            GitError::Io(m) => m@,
            GitError::Credential(m) => m@,
            GitError::Message(m) => m@,
            GitError::InvalidBranchName(name) => "分支名称无效："@ + name@,
            GitError::EmptyCommitMessage => "提交信息不能为空"@,
            GitError::Conflicts(paths) => "存在冲突："@ + joined(views(paths@), ", "@),
        }
    }

    /// The error in words.
    pub fn message(&self) -> (r: String)
        ensures
            r@ == self.message_text(),
    {
        match self {
            GitError::Git(m) => m.clone(),
            GitError::Io(m) => m.clone(),
            GitError::Credential(m) => m.clone(),
            GitError::Message(m) => m.clone(),
            GitError::InvalidBranchName(name) => cat2("分支名称无效：", name.as_str()),
            GitError::EmptyCommitMessage => "提交信息不能为空".to_string(),
            GitError::Conflicts(paths) => {
                assert(views(paths@).take(paths@.len() as int) =~= views(paths@));
                let listed = join(paths, paths.len(), ", ");
                cat2("存在冲突：", listed.as_str())
            },
        }
    }
}

/// What a running operation reports.
#[derive(Debug, PartialEq, Eq)]
pub enum OperationEvent {
    Started(String),
    Progress(String),
    Finished(String),
}

/// What an [`OperationEvent`] says.
pub enum OperationEventView {
    Started(Seq<char>),
    Progress(Seq<char>),
    Finished(Seq<char>),
}

impl View for OperationEvent {
    type V = OperationEventView;

    open spec fn view(&self) -> OperationEventView {
        match self {
            OperationEvent::Started(m) => OperationEventView::Started(m@),
            OperationEvent::Progress(m) => OperationEventView::Progress(m@),
            OperationEvent::Finished(m) => OperationEventView::Finished(m@),
        }
    }
}

// ---------------------------------------------------------------------------
// Branches, tags, stashes, remotes
// ---------------------------------------------------------------------------
#[derive(Clone, Copy, Debug, PartialEq, Eq, Structural)]
pub enum BranchKind {
    Local,
    Remote,
}

#[derive(Debug, PartialEq, Eq)]
pub struct BranchInfo {
    pub name: String,
    pub kind: BranchKind,
    pub is_head: bool,
    /// The remote branch that a local branch follows.
    pub upstream: Option<String>,
}

pub struct BranchView {
    pub name: Seq<char>,
    pub kind: BranchKind,
    pub is_head: bool,
    pub upstream: Option<Seq<char>>,
}

impl View for BranchInfo {
    type V = BranchView;

    open spec fn view(&self) -> BranchView {
        BranchView {
            name: self.name@,
            kind: self.kind,
            is_head: self.is_head,
            upstream: opt_view(self.upstream),
        }
    }
}

impl Clone for BranchInfo {
    fn clone(&self) -> (r: Self)
        ensures
            r@ == self@,
    {
        BranchInfo {
            name: self.name.clone(),
            kind: self.kind,
            is_head: self.is_head,
            upstream: clone_opt(&self.upstream),
        }
    }
}

#[derive(Debug, PartialEq, Eq)]
pub struct TagInfo {
    pub name: String,
}

impl View for TagInfo {
    type V = Seq<char>;

    open spec fn view(&self) -> Seq<char> {
        self.name@
    }
}

impl Clone for TagInfo {
    fn clone(&self) -> (r: Self)
        ensures
            r@ == self@,
    {
        TagInfo { name: self.name.clone() }
    }
}

#[derive(Debug, PartialEq, Eq)]
pub struct StashInfo {
    pub index: usize,
    pub message: String,
    pub oid: String,
}

pub struct StashView {
    pub index: usize,
    pub message: Seq<char>,
    pub oid: Seq<char>,
}

impl View for StashInfo {
    type V = StashView;

    open spec fn view(&self) -> StashView {
        StashView { index: self.index, message: self.message@, oid: self.oid@ }
    }
}

impl Clone for StashInfo {
    fn clone(&self) -> (r: Self)
        ensures
            r@ == self@,
    {
        StashInfo { index: self.index, message: self.message.clone(), oid: self.oid.clone() }
    }
}

#[derive(Debug, PartialEq, Eq)]
pub struct RemoteInfo {
    pub name: String,
    pub url: String,
}

pub struct RemoteView {
    pub name: Seq<char>,
    pub url: Seq<char>,
}

impl View for RemoteInfo {
    type V = RemoteView;

    open spec fn view(&self) -> RemoteView {
        RemoteView { name: self.name@, url: self.url@ }
    }
}

impl Clone for RemoteInfo {
    fn clone(&self) -> (r: Self)
        ensures
            r@ == self@,
    {
        RemoteInfo { name: self.name.clone(), url: self.url.clone() }
    }
}

// ---------------------------------------------------------------------------
// Changes
// ---------------------------------------------------------------------------
#[derive(Clone, Copy, Debug, PartialEq, Eq, Structural)]
pub enum ChangeState {
    Added,
    Modified,
    Deleted,
    Renamed,
    Typechange,
    Untracked,
    Conflicted,
}

/// A file that differs from the last commit, in the index or in the worktree.
#[derive(Debug, PartialEq, Eq)]
pub struct WorktreeChange {
    pub path: String,
    pub staged: Option<ChangeState>,
    pub unstaged: Option<ChangeState>,
}

pub struct WorktreeChangeView {
    pub path: Seq<char>,
    pub staged: Option<ChangeState>,
    pub unstaged: Option<ChangeState>,
}

impl View for WorktreeChange {
    type V = WorktreeChangeView;

    open spec fn view(&self) -> WorktreeChangeView {
        WorktreeChangeView { path: self.path@, staged: self.staged, unstaged: self.unstaged }
    }
}

impl Clone for WorktreeChange {
    fn clone(&self) -> (r: Self)
        ensures
            r@ == self@,
    {
        WorktreeChange {
            path: self.path.clone(),
            staged: self.staged,
            unstaged: self.unstaged,
        }
    }
}

#[derive(Clone, Copy, Debug, PartialEq, Eq, Structural)]
pub enum DiffScope {
    Staged,
    Unstaged,
}

#[derive(Clone, Copy, Debug, PartialEq, Eq, Structural)]
pub enum ResetMode {
    Soft,
    Mixed,
    Hard,
}

// ---------------------------------------------------------------------------
// Commits
// ---------------------------------------------------------------------------
#[derive(Clone, Copy, Debug, PartialEq, Eq, Structural)]
pub enum CommitRefKind {
    LocalBranch,
    RemoteBranch,
    Tag,
    Head,
}

#[derive(Debug, PartialEq, Eq)]
pub struct CommitRefInfo {
    pub name: String,
    pub kind: CommitRefKind,
}

pub struct CommitRefView {
    pub name: Seq<char>,
    pub kind: CommitRefKind,
}

impl View for CommitRefInfo {
    type V = CommitRefView;

    open spec fn view(&self) -> CommitRefView {
        CommitRefView { name: self.name@, kind: self.kind }
    }
}

impl Clone for CommitRefInfo {
    fn clone(&self) -> (r: Self)
        ensures
            r@ == self@,
    {
        CommitRefInfo { name: self.name.clone(), kind: self.kind }
    }
}

#[derive(Debug, PartialEq, Eq)]
pub struct CommitInfo {
    pub oid: String,
    pub short_oid: String,
    pub summary: String,
    pub author: String,
    /// Seconds since 1970.
    pub time: i64,
    pub parents: Vec<String>,
    pub refs: Vec<CommitRefInfo>,
}

pub struct CommitView {
    pub oid: Seq<char>,
    pub short_oid: Seq<char>,
    pub summary: Seq<char>,
    pub author: Seq<char>,
    pub time: i64,
    pub parents: Seq<Seq<char>>,
    pub refs: Seq<CommitRefView>,
}

impl View for CommitInfo {
    type V = CommitView;

    open spec fn view(&self) -> CommitView {
        CommitView {
            oid: self.oid@,
            short_oid: self.short_oid@,
            summary: self.summary@,
            author: self.author@,
            time: self.time,
            parents: views(self.parents@),
            refs: views_of(self.refs@),
        }
    }
}

#[derive(Debug, PartialEq, Eq)]
pub struct CommitFileChange {
    pub path: String,
    pub old_path: Option<String>,
    pub status: ChangeState,
}

pub struct CommitFileView {
    pub path: Seq<char>,
    pub old_path: Option<Seq<char>>,
    pub status: ChangeState,
}

impl View for CommitFileChange {
    type V = CommitFileView;

    open spec fn view(&self) -> CommitFileView {
        CommitFileView {
            path: self.path@,
            old_path: opt_view(self.old_path),
            status: self.status,
        }
    }
}

impl Clone for CommitFileChange {
    fn clone(&self) -> (r: Self)
        ensures
            r@ == self@,
    {
        CommitFileChange {
            path: self.path.clone(),
            old_path: clone_opt(&self.old_path),
            status: self.status,
        }
    }
}

// ---------------------------------------------------------------------------
// Diffs
// ---------------------------------------------------------------------------
#[derive(Clone, Copy, Debug, PartialEq, Eq, Structural)]
pub enum DiffLineKind {
    Context,
    Added,
    Removed,
    Header,
}

#[derive(Debug, PartialEq, Eq)]
pub struct DiffLine {
    pub kind: DiffLineKind,
    pub old_lineno: Option<u32>,
    pub new_lineno: Option<u32>,
    pub content: String,
}

/// An encoding that the bytes of a diff can be read in.
#[derive(Clone, Copy, Debug, PartialEq, Eq, Structural)]
pub enum DiffEncodingChoice {
    Auto,
    Utf8,
    Gb18030,
    Big5,
}

impl Default for DiffEncodingChoice {
    fn default() -> (r: Self)
        ensures
            r == DiffEncodingChoice::Auto,
    {
        DiffEncodingChoice::Auto
    }
}

impl DiffEncodingChoice {
    pub open spec fn label_text(self) -> Seq<char> {
        match self {
            DiffEncodingChoice::Auto => "自动"@,
            DiffEncodingChoice::Utf8 => "UTF-8"@,
            DiffEncodingChoice::Gb18030 => "GB18030"@,
            DiffEncodingChoice::Big5 => "Big5"@,
        }
    }

    /// The encoding as it is shown.
    pub fn label(self) -> (r: &'static str)
        ensures
            r@ == self.label_text(),
    {
        match self {
            DiffEncodingChoice::Auto => "自动",
            DiffEncodingChoice::Utf8 => "UTF-8",
            DiffEncodingChoice::Gb18030 => "GB18030",
            DiffEncodingChoice::Big5 => "Big5",
        }
    }
}

#[derive(Clone, Copy, Debug, PartialEq, Eq, Structural)]
pub struct DiffEncodingInfo {
    /// What was asked for.
    pub requested: DiffEncodingChoice,
    /// What the bytes were read as.
    pub resolved: DiffEncodingChoice,
    /// Whether some bytes had to be replaced.
    pub lossy: bool,
}

#[derive(Debug, PartialEq, Eq)]
pub struct FileDiff {
    pub path: String,
    pub scope: DiffScope,
    pub is_binary: bool,
    pub encoding: DiffEncodingInfo,
    pub lines: Vec<DiffLine>,
}

// ---------------------------------------------------------------------------
// The repository as a whole
// ---------------------------------------------------------------------------
/// What is known of a repository at one moment.
#[derive(Debug, PartialEq, Eq)]
pub struct RepositorySnapshot {
    pub path: String,
    pub head: Option<String>,
    pub branches: Vec<BranchInfo>,
    pub changes: Vec<WorktreeChange>,
    pub remotes: Vec<RemoteInfo>,
    pub tags: Vec<TagInfo>,
    pub stashes: Vec<StashInfo>,
    pub conflicts: Vec<String>,
}

pub struct SnapshotView {
    pub path: Seq<char>,
    pub head: Option<Seq<char>>,
    pub branches: Seq<BranchView>,
    pub changes: Seq<WorktreeChangeView>,
    pub remotes: Seq<RemoteView>,
    pub tags: Seq<Seq<char>>,
    pub stashes: Seq<StashView>,
    pub conflicts: Seq<Seq<char>>,
}

impl View for RepositorySnapshot {
    type V = SnapshotView;

    open spec fn view(&self) -> SnapshotView {
        SnapshotView {
            path: self.path@,
            head: opt_view(self.head),
            branches: views_of(self.branches@),
            changes: views_of(self.changes@),
            remotes: views_of(self.remotes@),
            tags: views_of(self.tags@),
            stashes: views_of(self.stashes@),
            conflicts: views(self.conflicts@),
        }
    }
}

impl Default for RepositorySnapshot {
    fn default() -> (r: Self)
        ensures
            r.path@.len() == 0,
            r.head is None,
            r.branches@.len() == 0,
            r.changes@.len() == 0,
            r.remotes@.len() == 0,
            r.tags@.len() == 0,
            r.stashes@.len() == 0,
            r.conflicts@.len() == 0,
    {
        RepositorySnapshot {
            path: String::new(),
            head: None,
            branches: Vec::new(),
            changes: Vec::new(),
            remotes: Vec::new(),
            tags: Vec::new(),
            stashes: Vec::new(),
            conflicts: Vec::new(),
        }
    }
}

/// The paths of the files in conflict, in the order of the snapshot.
pub fn conflict_paths(snapshot: Option<&RepositorySnapshot>) -> (r: Vec<String>)
    ensures
        snapshot matches Some(s) ==> views(r@) == views(s.conflicts@),
        snapshot is None ==> r@.len() == 0,
{
    match snapshot {
        Some(s) => clone_strings(&s.conflicts),
        None => Vec::new(),
    }
}

// ---------------------------------------------------------------------------
// Laws
// ---------------------------------------------------------------------------
/// What one sees of a branch is all of it, so a copy that looks the same is the same.
pub proof fn lemma_branch_is_what_is_seen(a: BranchInfo, b: BranchInfo)
    requires
        a@ == b@,
    ensures
        a.name@ == b.name@,
        a.kind == b.kind,
        a.is_head == b.is_head,
        opt_view(a.upstream) == opt_view(b.upstream),
{
}

/// What one sees of a tag, a stash or a remote is all of it.
pub proof fn lemma_names_are_what_is_seen(
    a: (TagInfo, StashInfo, RemoteInfo),
    b: (TagInfo, StashInfo, RemoteInfo),
)
    ensures
        a.0@ == b.0@ ==> a.0.name@ == b.0.name@,
        a.1@ == b.1@ ==> a.1.index == b.1.index && a.1.message@ == b.1.message@ && a.1.oid@
            == b.1.oid@,
        a.2@ == b.2@ ==> a.2.name@ == b.2.name@ && a.2.url@ == b.2.url@,
{
}

/// What one sees of a change is all of it.
pub proof fn lemma_changes_are_what_is_seen(
    a: (WorktreeChange, CommitFileChange),
    b: (WorktreeChange, CommitFileChange),
)
    ensures
        a.0@ == b.0@ ==> a.0.path@ == b.0.path@ && a.0.staged == b.0.staged && a.0.unstaged
            == b.0.unstaged,
        a.1@ == b.1@ ==> a.1.path@ == b.1.path@ && opt_view(a.1.old_path) == opt_view(
            b.1.old_path,
        ) && a.1.status == b.1.status,
{
}

/// What one sees of a commit is all of it.
pub proof fn lemma_commit_is_what_is_seen(a: CommitInfo, b: CommitInfo, i: int)
    requires
        a@ == b@,
    ensures
        a.oid@ == b.oid@,
        a.short_oid@ == b.short_oid@,
        a.summary@ == b.summary@,
        a.author@ == b.author@,
        a.time == b.time,
        a.parents@.len() == b.parents@.len(),
        0 <= i < a.parents@.len() ==> a.parents@[i]@ == b.parents@[i]@,
        a.refs@.len() == b.refs@.len(),
        0 <= i < a.refs@.len() ==> a.refs@[i].name@ == b.refs@[i].name@ && a.refs@[i].kind
            == b.refs@[i].kind,
{
    assert(a@.parents.len() == a.parents@.len());
    assert(b@.parents.len() == b.parents@.len());
    assert(a@.refs.len() == a.refs@.len());
    assert(b@.refs.len() == b.refs@.len());
    if 0 <= i < a.parents@.len() {
        assert(a@.parents[i] == a.parents@[i]@);
        assert(b@.parents[i] == b.parents@[i]@);
    }
    if 0 <= i < a.refs@.len() {
        assert(a@.refs[i] == a.refs@[i]@);
        assert(b@.refs[i] == b.refs@[i]@);
    }
}

/// What one sees of a repository is all of it.
pub proof fn lemma_snapshot_is_what_is_seen(a: RepositorySnapshot, b: RepositorySnapshot, i: int)
    requires
        a@ == b@,
    ensures
        a.path@ == b.path@,
        opt_view(a.head) == opt_view(b.head),
        a.branches@.len() == b.branches@.len(),
        a.changes@.len() == b.changes@.len(),
        a.remotes@.len() == b.remotes@.len(),
        a.tags@.len() == b.tags@.len(),
        a.stashes@.len() == b.stashes@.len(),
        a.conflicts@.len() == b.conflicts@.len(),
        0 <= i < a.branches@.len() ==> a.branches@[i]@ == b.branches@[i]@,
        0 <= i < a.changes@.len() ==> a.changes@[i]@ == b.changes@[i]@,
        0 <= i < a.remotes@.len() ==> a.remotes@[i]@ == b.remotes@[i]@,
        0 <= i < a.tags@.len() ==> a.tags@[i]@ == b.tags@[i]@,
        0 <= i < a.stashes@.len() ==> a.stashes@[i]@ == b.stashes@[i]@,
        0 <= i < a.conflicts@.len() ==> a.conflicts@[i]@ == b.conflicts@[i]@,
{
    assert(a@.branches.len() == a.branches@.len() && b@.branches.len() == b.branches@.len());
    assert(a@.changes.len() == a.changes@.len() && b@.changes.len() == b.changes@.len());
    assert(a@.remotes.len() == a.remotes@.len() && b@.remotes.len() == b.remotes@.len());
    assert(a@.tags.len() == a.tags@.len() && b@.tags.len() == b.tags@.len());
    assert(a@.stashes.len() == a.stashes@.len() && b@.stashes.len() == b.stashes@.len());
    assert(a@.conflicts.len() == a.conflicts@.len() && b@.conflicts.len() == b.conflicts@.len());
    if 0 <= i < a.branches@.len() {
        assert(a@.branches[i] == a.branches@[i]@ && b@.branches[i] == b.branches@[i]@);
    }
    if 0 <= i < a.changes@.len() {
        assert(a@.changes[i] == a.changes@[i]@ && b@.changes[i] == b.changes@[i]@);
    }
    if 0 <= i < a.remotes@.len() {
        assert(a@.remotes[i] == a.remotes@[i]@ && b@.remotes[i] == b.remotes@[i]@);
    }
    if 0 <= i < a.tags@.len() {
        assert(a@.tags[i] == a.tags@[i]@ && b@.tags[i] == b.tags@[i]@);
    }
    if 0 <= i < a.stashes@.len() {
        assert(a@.stashes[i] == a.stashes@[i]@ && b@.stashes[i] == b.stashes@[i]@);
    }
    if 0 <= i < a.conflicts@.len() {
        assert(a@.conflicts[i] == a.conflicts@[i]@ && b@.conflicts[i] == b.conflicts@[i]@);
    }
}

/// An error says what it was made with, and the ones that hold a name or paths show them.
pub proof fn lemma_errors_say_what_they_hold(error: GitError, text: Seq<char>)
    ensures
        error.says(text) <==> (error matches GitError::Message(m) && m@ == text),
        error.git_says(text) <==> (error matches GitError::Git(m) && m@ == text),
        error.refuses_branch(text) <==> (error matches GitError::InvalidBranchName(m) && m@
            == text),
        error.says(text) || error.git_says(text) ==> error.message_text() == text,
        match error {
            GitError::Git(m) | GitError::Io(m) | GitError::Credential(m) | GitError::Message(
                m,
            ) => error.message_text() == m@,
            GitError::InvalidBranchName(name) => name@.is_suffix_of(error.message_text()),
            GitError::EmptyCommitMessage => error.message_text().len() > 0,
            GitError::Conflicts(paths) => joined(views(paths@), ", "@).is_suffix_of(
                error.message_text(),
            ),
        },
{
    match error {
        GitError::InvalidBranchName(name) => {
            let t = error.message_text();
            assert(t.subrange(t.len() - name@.len(), t.len() as int) =~= name@);
        },
        GitError::Conflicts(paths) => {
            let t = error.message_text();
            let p = joined(views(paths@), ", "@);
            assert(t.subrange(t.len() - p.len(), t.len() as int) =~= p);
        },
        GitError::EmptyCommitMessage => {
            reveal_strlit("提交信息不能为空");
        },
        _ => {},
    }
}

/// A report that something started is not one that it goes on or is finished, and each says what
/// it was made with.
pub proof fn lemma_reports_say_what_they_hold(event: OperationEvent, text: Seq<char>)
    ensures
        event@ == OperationEventView::Started(text) <==> (event matches OperationEvent::Started(m)
            && m@ == text),
        event@ == OperationEventView::Progress(text) <==> (
        event matches OperationEvent::Progress(m) && m@ == text),
        event@ == OperationEventView::Finished(text) <==> (
        event matches OperationEvent::Finished(m) && m@ == text),
{
}

/// The encodings are called by different names.
pub proof fn lemma_encoding_names_differ(a: DiffEncodingChoice, b: DiffEncodingChoice)
    requires
        a.label_text() == b.label_text(),
    ensures
        a == b,
{
    reveal_strlit("自动");
    reveal_strlit("UTF-8");
    reveal_strlit("GB18030");
    reveal_strlit("Big5");
    assert("自动"@.len() == 2 && "UTF-8"@.len() == 5 && "GB18030"@.len() == 7 && "Big5"@.len() == 4);
}

} // verus!
