//! The service that runs operations on a repository: what it reports, what it refuses and what
//! it asks the Git library to do.

use std::sync::Arc;

use vstd::prelude::*;
use vstd::string::StringExecFns;

use crate::credentials::CredentialProvider;
use crate::strings::{cat2, cat3, cat4, cat5, decimal, str_eq, trim, trimmed, usize_to_string};
use crate::types::{
    BranchInfo, GitError, OperationEvent, OperationEventView, RemoteInfo, RepositorySnapshot,
    StashInfo, TagInfo, WorktreeChange,
};

verus! {

/// Takes the reports of a running operation.
pub trait ProgressEmitter: Send + Sync {
    fn emit(&self, event: OperationEvent);
}

/// Takes reports and forgets them.
pub struct NoopProgress;

impl ProgressEmitter for NoopProgress {
    fn emit(&self, event: OperationEvent) {
    }
}

/// Runs operations on repositories.
pub struct GitService<C: CredentialProvider, P: ProgressEmitter> {
    pub credential_provider: Arc<C>,
    pub progress: Arc<P>,
}

impl<C: CredentialProvider, P: ProgressEmitter> GitService<C, P> {
    pub fn new(credential_provider: Arc<C>, progress: Arc<P>) -> (r: Self)
        ensures
            r.credential_provider == credential_provider,
            r.progress == progress,
    {
        GitService { credential_provider, progress }
    }
}

// ---------------------------------------------------------------------------
// Reports
// ---------------------------------------------------------------------------
/// The reports at the start and at the end of an operation.
#[derive(Debug, PartialEq, Eq)]
pub struct Reports {
    pub started: OperationEvent,
    pub finished: OperationEvent,
}

impl Reports {
    /// Whether the reports say `started` and `finished`.
    pub open spec fn say(self, started: Seq<char>, finished: Seq<char>) -> bool {
        &&& self.started@ == OperationEventView::Started(started)
        &&& self.finished@ == OperationEventView::Finished(finished)
    }
}

fn reports(started: String, finished: String) -> (r: Reports)
    ensures
        r.say(started@, finished@),
{
    Reports {
        started: OperationEvent::Started(started),
        finished: OperationEvent::Finished(finished),
    }
}

pub fn clone_reports(url: &str) -> (r: Reports)
    ensures
        r.say("正在克隆 "@ + url@, "已克隆 "@ + url@),
{
    reports(cat2("正在克隆 ", url), cat2("已克隆 ", url))
}

pub fn fetch_reports(remote: &str) -> (r: Reports)
    ensures
        r.say("正在获取 "@ + remote@, "已获取 "@ + remote@),
{
    reports(cat2("正在获取 ", remote), cat2("已获取 ", remote))
}

pub fn pull_reports(remote: &str) -> (r: Reports)
    ensures
        r.say("正在拉取 "@ + remote@, "已拉取 "@ + remote@),
{
    reports(cat2("正在拉取 ", remote), cat2("已拉取 ", remote))
}

pub fn push_reports(branch: &str) -> (r: Reports)
    ensures
        r.say("正在推送 "@ + branch@, "已推送 "@ + branch@),
{
    reports(cat2("正在推送 ", branch), cat2("已推送 ", branch))
}

pub fn merge_reports(branch: &str) -> (r: Reports)
    ensures
        r.say("正在合并 "@ + branch@, "已合并 "@ + branch@),
{
    reports(cat2("正在合并 ", branch), cat2("已合并 ", branch))
}

/// How a stash entry is written.
pub open spec fn stash_name(index: nat) -> Seq<char> {
    "stash@{"@ + decimal(index) + "}"@
}

pub fn stash_label(index: usize) -> (r: String)
    ensures
        r@ == stash_name(index as nat),
{
    let n: String = usize_to_string(index);
    cat3("stash@{", n.as_str(), "}")
}

pub fn apply_stash_reports(index: usize) -> (r: Reports)
    ensures
        r.say("正在应用贮藏 "@ + stash_name(index as nat), "已应用贮藏 "@ + stash_name(index as nat)),
{
    let name: String = stash_label(index);
    reports(cat2("正在应用贮藏 ", name.as_str()), cat2("已应用贮藏 ", name.as_str()))
}

pub fn pop_stash_reports(index: usize) -> (r: Reports)
    ensures
        r.say("正在弹出贮藏 "@ + stash_name(index as nat), "已弹出贮藏 "@ + stash_name(index as nat)),
{
    let name: String = stash_label(index);
    reports(cat2("正在弹出贮藏 ", name.as_str()), cat2("已弹出贮藏 ", name.as_str()))
}

pub fn reset_reports() -> (r: Reports)
    ensures
        r.say("正在重置分支"@, "分支已重置"@),
{
    reports("正在重置分支".to_string(), "分支已重置".to_string())
}

pub fn revert_reports() -> (r: Reports)
    ensures
        r.say("正在回滚提交"@, "回滚提交完成"@),
{
    reports("正在回滚提交".to_string(), "回滚提交完成".to_string())
}

/// The report on objects that come in from a remote.
pub fn transfer_progress(received: usize, total: usize) -> (r: OperationEvent)
    ensures
        r@ == OperationEventView::Progress(
            "已接收 "@ + decimal(received as nat) + "/"@ + decimal(total as nat) + " 个对象"@,
        ),
{
    let a: String = usize_to_string(received);
    let b: String = usize_to_string(total);
    OperationEvent::Progress(cat5("已接收 ", a.as_str(), "/", b.as_str(), " 个对象"))
}

// ---------------------------------------------------------------------------
// Names on the remote side
// ---------------------------------------------------------------------------
/// What is pushed where: a branch to the branch of the same name.
pub fn push_refspec(branch: &str) -> (r: String)
    ensures
        r@ == "refs/heads/"@ + branch@ + ":refs/heads/"@ + branch@,
{
    cat4("refs/heads/", branch, ":refs/heads/", branch)
}

/// The remote branch that a branch follows.
pub fn upstream_name(remote: &str, branch: &str) -> (r: String)
    ensures
        r@ == remote@ + "/"@ + branch@,
{
    cat3(remote, "/", branch)
}

/// The reference under which a remote branch is kept.
pub fn remote_ref_name(remote: &str, branch: &str) -> (r: String)
    ensures
        r@ == "refs/remotes/"@ + remote@ + "/"@ + branch@,
{
    cat4("refs/remotes/", remote, "/", branch)
}

pub fn tag_ref_name(tag: &str) -> (r: String)
    ensures
        r@ == "refs/tags/"@ + tag@,
{
    cat2("refs/tags/", tag)
}

// ---------------------------------------------------------------------------
// Checking out
// ---------------------------------------------------------------------------
/// The commit that a branch to check out points to.
pub fn checkout_target(branch: &str, target: Option<String>) -> (r: Result<String, GitError>)
    ensures
        match target {
            Some(t) => r matches Ok(x) && x@ == t@,
            None => r matches Err(e) && e.says("分支 "@ + branch@ + " 没有目标提交"@),
        },
{
    match target {
        Some(t) => Ok(t),
        None => Err(GitError::Message(cat3("分支 ", branch, " 没有目标提交"))),
    }
}

/// The commit that a remote branch to check out points to.
pub fn remote_checkout_target(branch: &str, target: Option<String>) -> (r: Result<
    String,
    GitError,
>)
    ensures
        match target {
            Some(t) => r matches Ok(x) && x@ == t@,
            None => r matches Err(e) && e.says("远端分支 "@ + branch@ + " 没有目标提交"@),
        },
{
    match target {
        Some(t) => Ok(t),
        None => Err(GitError::Message(cat3("远端分支 ", branch, " 没有目标提交"))),
    }
}

/// What is reported when the local branch of a remote one cannot be checked out.
pub fn remote_checkout_error(local_name: &str, error: GitError) -> (r: GitError)
    ensures
        match error {
            GitError::Git(message) => r.says(
                "无法切换到本地分支 "@ + local_name@ + "："@ + message@,
            ),
            other => r == other,
        },
{
    match error {
        GitError::Git(message) => GitError::Message(
            cat4("无法切换到本地分支 ", local_name, "：", message.as_str()),
        ),
        other => other,
    }
}

// ---------------------------------------------------------------------------
// Staging and committing
// ---------------------------------------------------------------------------
/// How a path is staged.
#[derive(Clone, Copy, Debug, PartialEq, Eq, Structural)]
pub enum StageAction {
    /// Everything in the worktree is added.
    AddAll,
    /// The path is taken out of the index.
    Remove,
    /// The path is added.
    Add,
}

/// How to stage `path`, given whether it was deleted in the worktree.
pub fn stage_action(path: &str, deleted: bool) -> (r: StageAction)
    ensures
        r == if path@ == "."@ {
            StageAction::AddAll
        } else if deleted {
            StageAction::Remove
        } else {
            StageAction::Add
        },
{
    if str_eq(path, ".") {
        StageAction::AddAll
    } else if deleted {
        StageAction::Remove
    } else {
        StageAction::Add
    }
}

/// The message to commit with. A blank one is refused before, and open conflicts after.
pub fn commit_message(message: &str, conflicts: Option<Vec<String>>) -> (r: Result<
    String,
    GitError,
>)
    ensures
        if trimmed(message@).len() == 0 {
            r matches Err(e) && e is EmptyCommitMessage
        } else {
            match conflicts {
                Some(paths) => r matches Err(GitError::Conflicts(p)) && p == paths,
                None => r matches Ok(m) && m@ == trimmed(message@),
            }
        },
{
    let m: String = trim(message);
    if m.as_str().is_empty() {
        return Err(GitError::EmptyCommitMessage);
    }
    match conflicts {
        Some(paths) => Err(GitError::Conflicts(paths)),
        None => Ok(m),
    }
}

// ---------------------------------------------------------------------------
// Resetting and reverting
// ---------------------------------------------------------------------------
/// Whether the branch can be reset.
pub fn check_reset(head_detached: bool) -> (r: Result<(), GitError>)
    ensures
        head_detached ==> (r matches Err(e) && e.git_says(
            "当前处于 detached HEAD，不能重置分支"@,
        )),
        !head_detached ==> r is Ok,
{
    if head_detached {
        Err(GitError::Git("当前处于 detached HEAD，不能重置分支".to_string()))
    } else {
        Ok(())
    }
}

/// Whether a commit can be reverted: nothing may be open in the worktree, and the commit may
/// have at most one parent.
pub fn check_revert(changes: usize, conflicts: usize, parent_count: usize) -> (r: Result<
    (),
    GitError,
>)
    ensures
        changes > 0 || conflicts > 0 ==> (r matches Err(e) && e.git_says(
            "回滚提交前需要先提交、暂存或丢弃当前工作区修改"@,
        )),
        changes == 0 && conflicts == 0 && parent_count > 1 ==> (r matches Err(e) && e.git_says(
            "暂不支持回滚合并提交"@,
        )),
        changes == 0 && conflicts == 0 && parent_count <= 1 ==> r is Ok,
{
    if changes > 0 || conflicts > 0 {
        return Err(
            GitError::Git("回滚提交前需要先提交、暂存或丢弃当前工作区修改".to_string()),
        );
    }
    if parent_count > 1 {
        return Err(GitError::Git("暂不支持回滚合并提交".to_string()));
    }
    Ok(())
}

/// What is reported when a revert does not come out clean.
pub fn revert_conflict_error() -> (r: GitError)
    ensures
        r.git_says("回滚提交产生冲突，请解决冲突后再提交"@),
{
    GitError::Git("回滚提交产生冲突，请解决冲突后再提交".to_string())
}

/// The message of a commit that reverts another.
pub fn revert_message(summary: Option<String>, oid: &str) -> (r: String)
    ensures
        r@ == "Revert \""@ + (match summary {
            Some(s) => s@,
            None => "commit"@,
        }) + "\"\n\nThis reverts commit "@ + oid@ + "."@,
{
    let summary: String = match summary {
        Some(s) => s,
        None => "commit".to_string(),
    };
    cat5("Revert \"", summary.as_str(), "\"\n\nThis reverts commit ", oid, ".")
}

// ---------------------------------------------------------------------------
// Merging
// ---------------------------------------------------------------------------
/// What Git says about merging a commit.
#[derive(Clone, Copy, Debug, PartialEq, Eq, Structural)]
pub struct MergeAnalysis {
    pub up_to_date: bool,
    pub fast_forward: bool,
    pub normal: bool,
}

/// How a commit is merged.
#[derive(Clone, Copy, Debug, PartialEq, Eq, Structural)]
pub enum MergeAction {
    /// There is nothing to do.
    Nothing,
    /// The branch moves on to the commit.
    FastForward,
    /// A merge commit is made.
    MergeCommit,
}

/// How to merge what is called `label`.
pub fn merge_action(analysis: MergeAnalysis, label: &str) -> (r: Result<MergeAction, GitError>)
    ensures
        if analysis.up_to_date {
            r == Ok::<MergeAction, GitError>(MergeAction::Nothing)
        } else if analysis.fast_forward {
            r == Ok::<MergeAction, GitError>(MergeAction::FastForward)
        } else if analysis.normal {
            r == Ok::<MergeAction, GitError>(MergeAction::MergeCommit)
        } else {
            r matches Err(e) && e.says("无法合并 "@ + label@ + "：不支持的合并分析结果"@)
        },
{
    if analysis.up_to_date {
        Ok(MergeAction::Nothing)
    } else if analysis.fast_forward {
        Ok(MergeAction::FastForward)
    } else if analysis.normal {
        Ok(MergeAction::MergeCommit)
    } else {
        Err(GitError::Message(cat3("无法合并 ", label, "：不支持的合并分析结果")))
    }
}

/// The message of a merge commit.
pub fn merge_message(label: &str) -> (r: String)
    ensures
        r@ == "Merge branch '"@ + label@ + "'"@,
{
    cat3("Merge branch '", label, "'")
}

// ---------------------------------------------------------------------------
// Snapshots
// ---------------------------------------------------------------------------
/// The directory that a repository is shown as: its worktree, else what holds its `.git`, else
/// that itself.
pub fn snapshot_path(workdir: Option<String>, git_dir_parent: Option<String>, git_dir: String) -> (r:
    String)
    ensures
        r == match workdir {
            Some(w) => w,
            None => match git_dir_parent {
                Some(p) => p,
                None => git_dir,
            },
        },
{
    match workdir {
        Some(w) => w,
        None => match git_dir_parent {
            Some(p) => p,
            None => git_dir,
        },
    }
}

/// A first look at a repository: its head and its local branches.
pub fn fast_snapshot(path: String, head: Option<String>, branches: Vec<BranchInfo>) -> (r:
    RepositorySnapshot)
    ensures
        r.path == path,
        r.head == head,
        r.branches == branches,
        r.changes@.len() == 0,
        r.remotes@.len() == 0,
        r.tags@.len() == 0,
        r.stashes@.len() == 0,
        r.conflicts@.len() == 0,
{
    RepositorySnapshot {
        path,
        head,
        branches,
        changes: Vec::new(),
        remotes: Vec::new(),
        tags: Vec::new(),
        stashes: Vec::new(),
        conflicts: Vec::new(),
    }
}

/// All there is to know of a repository but its changes.
pub fn snapshot_metadata(
    path: String,
    head: Option<String>,
    branches: Vec<BranchInfo>,
    remotes: Vec<RemoteInfo>,
    tags: Vec<TagInfo>,
    stashes: Vec<StashInfo>,
    conflicts: Vec<String>,
) -> (r: RepositorySnapshot)
    ensures
        r.path == path,
        r.head == head,
        r.branches == branches,
        r.changes@.len() == 0,
        r.remotes == remotes,
        r.tags == tags,
        r.stashes == stashes,
        r.conflicts == conflicts,
{
    RepositorySnapshot {
        path,
        head,
        branches,
        changes: Vec::new(),
        remotes,
        tags,
        stashes,
        conflicts,
    }
}

/// All there is to know of a repository.
pub fn snapshot_details(metadata: RepositorySnapshot, changes: Vec<WorktreeChange>) -> (r:
    RepositorySnapshot)
    ensures
        r == (RepositorySnapshot { changes, ..metadata }),
{
    RepositorySnapshot { changes, ..metadata }
}

/// A stash is named by its place, and two stashes by different names.
pub proof fn lemma_stash_names(a: nat, b: nat)
    ensures
        stash_name(a) == "stash@{"@ + decimal(a) + "}"@,
        a != b ==> stash_name(a) != stash_name(b),
{
    reveal_strlit("stash@{");
    reveal_strlit("}");
    crate::strings::lemma_decimal_is_the_number(a);
    crate::strings::lemma_decimal_is_the_number(b);
    assert(stash_name(a).subrange(7, stash_name(a).len() - 1) =~= decimal(a));
    assert(stash_name(b).subrange(7, stash_name(b).len() - 1) =~= decimal(b));
}

/// Reports say that the work started and that it is finished, in the words they were made with.
pub proof fn lemma_reports_are_in_order(r: Reports, started: Seq<char>, finished: Seq<char>)
    ensures
        r.say(started, finished) <==> {
            &&& r.started matches OperationEvent::Started(s)
            &&& s@ == started
            &&& r.finished matches OperationEvent::Finished(f)
            &&& f@ == finished
        },
{
}

} // verus!
