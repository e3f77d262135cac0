//! Steps that look whether a branch exists on a remote before the workflow goes on.

use vstd::prelude::*;

use crate::strings::{cat2, cat3, cat4, cat5, starts_with};
use crate::types::GitError;

verus! {

#[derive(Clone, Copy, Debug, PartialEq, Eq, Structural)]
pub enum RemoteBranchGuardAction {
    /// The workflow stops with an error.
    Fail,
    /// The workflow goes on.
    Continue,
}

pub fn default_guard_fetch() -> (r: bool)
    ensures
        r,
{
    true
}

pub fn default_on_exists() -> (r: RemoteBranchGuardAction)
    ensures
        r == RemoteBranchGuardAction::Fail,
{
    RemoteBranchGuardAction::Fail
}

pub fn default_on_missing() -> (r: RemoteBranchGuardAction)
    ensures
        r == RemoteBranchGuardAction::Continue,
{
    RemoteBranchGuardAction::Continue
}

/// Whether the name of a branch starts with the name of its remote.
pub open spec fn has_remote_prefix(remote: Seq<char>, branch: Seq<char>) -> bool {
    (remote + "/"@).is_prefix_of(branch)
}

/// Checks the name of the branch to look for: it is given without its remote.
pub fn validate_remote_branch_name(remote: &str, branch: &str) -> (r: Result<(), GitError>)
    ensures
        if has_remote_prefix(remote@, branch@) {
            r matches Err(e) && e.says("远端分支名不要带远端名前缀："@ + branch@)
        } else {
            r is Ok
        },
{
    let prefix: String = cat2(remote, "/");
    if starts_with(branch, prefix.as_str()) {
        Err(GitError::Message(cat2("远端分支名不要带远端名前缀：", branch)))
    } else {
        Ok(())
    }
}

pub open spec fn action_word(action: RemoteBranchGuardAction) -> Seq<char> {
    match action {
        RemoteBranchGuardAction::Fail => "停止"@,
        RemoteBranchGuardAction::Continue => "继续"@,
    }
}

fn action_text(action: RemoteBranchGuardAction) -> (r: &'static str)
    ensures
        r@ == action_word(action),
{
    match action {
        RemoteBranchGuardAction::Fail => "停止",
        RemoteBranchGuardAction::Continue => "继续",
    }
}

/// What such a step is called.
pub open spec fn guard_text(
    remote: Seq<char>,
    branch: Seq<char>,
    fetch: bool,
    on_exists: RemoteBranchGuardAction,
    on_missing: RemoteBranchGuardAction,
) -> Seq<char> {
    ("检查远端分支 "@ + remote + "/"@ + branch + "（"@) + (if fetch {
        "先获取远端"@
    } else {
        "基于本地引用"@
    } + "，存在则"@ + action_word(on_exists) + "，不存在则"@ + action_word(on_missing)) + "）"@
}

pub fn guard_summary(
    remote: &str,
    branch: &str,
    fetch: bool,
    on_exists: RemoteBranchGuardAction,
    on_missing: RemoteBranchGuardAction,
) -> (r: String)
    ensures
        r@ == guard_text(remote@, branch@, fetch, on_exists, on_missing),
{
    let head: String = cat5("检查远端分支 ", remote, "/", branch, "（");
    let source: &str = if fetch {
        "先获取远端"
    } else {
        "基于本地引用"
    };
    let body: String = cat5(
        source,
        "，存在则",
        action_text(on_exists),
        "，不存在则",
        action_text(on_missing),
    );
    cat3(head.as_str(), body.as_str(), "）")
}

/// Why a guard stops, given whether the branch exists on the remote.
pub open spec fn guard_fault(
    exists: bool,
    remote: Seq<char>,
    branch: Seq<char>,
    on_exists: RemoteBranchGuardAction,
    on_missing: RemoteBranchGuardAction,
) -> Option<Seq<char>> {
    if exists && on_exists == RemoteBranchGuardAction::Fail {
        Some("远端分支已存在："@ + remote + "/"@ + branch)
    } else if !exists && on_missing == RemoteBranchGuardAction::Fail {
        Some("远端分支不存在："@ + remote + "/"@ + branch)
    } else {
        None
    }
}

/// Goes on or stops, given whether the branch exists on the remote.
pub fn guard_remote_branch(
    exists: bool,
    remote: &str,
    branch: &str,
    on_exists: RemoteBranchGuardAction,
    on_missing: RemoteBranchGuardAction,
) -> (r: Result<(), GitError>)
    ensures
        match guard_fault(exists, remote@, branch@, on_exists, on_missing) {
            Some(text) => r matches Err(e) && e.says(text),
            None => r is Ok,
        },
{
    if exists {
        match on_exists {
            RemoteBranchGuardAction::Fail => Err(
                GitError::Message(cat4("远端分支已存在：", remote, "/", branch)),
            ),
            RemoteBranchGuardAction::Continue => Ok(()),
        }
    } else {
        match on_missing {
            RemoteBranchGuardAction::Fail => Err(
                GitError::Message(cat4("远端分支不存在：", remote, "/", branch)),
            ),
            RemoteBranchGuardAction::Continue => Ok(()),
        }
    }
}

/// A guard stops if and only if what it finds is what it was told to stop on, and then says which
/// branch it looked for.
pub proof fn lemma_guards_stop_as_told(
    exists: bool,
    remote: Seq<char>,
    branch: Seq<char>,
    on_exists: RemoteBranchGuardAction,
    on_missing: RemoteBranchGuardAction,
)
    ensures
        ({
            let fault = guard_fault(exists, remote, branch, on_exists, on_missing);
            let told = if exists {
                on_exists
            } else {
                on_missing
            };
            &&& fault is Some <==> told == RemoteBranchGuardAction::Fail
            &&& fault matches Some(text) ==> (remote + "/"@ + branch).is_suffix_of(text)
        }),
{
    let full = remote + "/"@ + branch;
    if exists {
        let text = "远端分支已存在："@ + remote + "/"@ + branch;
        assert(text =~= "远端分支已存在："@ + full);
        assert(text.subrange(text.len() - full.len(), text.len() as int) =~= full);
    } else {
        let text = "远端分支不存在："@ + remote + "/"@ + branch;
        assert(text =~= "远端分支不存在："@ + full);
        assert(text.subrange(text.len() - full.len(), text.len() as int) =~= full);
    }
}

/// A branch is refused for the name of its remote in front of it, and not for anything else.
pub proof fn lemma_remote_prefix(remote: Seq<char>, branch: Seq<char>)
    ensures
        has_remote_prefix(remote, remote + "/"@ + branch),
        has_remote_prefix(remote, branch) ==> branch.len() > remote.len() && branch.take(
            remote.len() as int,
        ) == remote && branch[remote.len() as int] == '/',
        branch.len() > remote.len() && branch.take(remote.len() as int) == remote
            && branch[remote.len() as int] == '/' ==> has_remote_prefix(remote, branch),
{
    reveal_strlit("/");
    let n = remote.len() as int;
    let full = remote + "/"@ + branch;
    assert((remote + "/"@).is_prefix_of(full)) by {
        assert(full.subrange(0, n + 1) =~= remote + "/"@);
    }
    if has_remote_prefix(remote, branch) {
        assert(branch.subrange(0, n + 1) == remote + "/"@);
        assert(branch.take(n) =~= branch.subrange(0, n + 1).take(n));
        assert((remote + "/"@).take(n) =~= remote);
        assert(branch[n] == branch.subrange(0, n + 1)[n]);
    }
    if branch.len() > n && branch.take(n) == remote && branch[n] == '/' {
        assert(branch.subrange(0, n + 1) =~= remote + "/"@) by {
            assert forall|i: int| 0 <= i < n implies branch[i] == remote[i] by {
                assert(branch.take(n)[i] == remote[i]);
            }
        }
    }
}

/// What a guard is called says what it does if the branch is there and if it is not, and whether it
/// fetches first.
pub proof fn lemma_guards_are_told_apart(
    remote: Seq<char>,
    branch: Seq<char>,
    on_missing: RemoteBranchGuardAction,
)
    ensures
        action_word(RemoteBranchGuardAction::Fail) != action_word(RemoteBranchGuardAction::Continue),
        guard_text(remote, branch, true, RemoteBranchGuardAction::Fail, on_missing) == "检查远端分支 "@
            + remote + "/"@ + branch + "（先获取远端，存在则停止，不存在则"@ + action_word(on_missing) + "）"@,
        guard_text(remote, branch, false, RemoteBranchGuardAction::Continue, on_missing)
            == "检查远端分支 "@ + remote + "/"@ + branch + "（基于本地引用，存在则继续，不存在则"@
            + action_word(on_missing) + "）"@,
{
    reveal_strlit("停止");
    reveal_strlit("继续");
    reveal_strlit("（");
    reveal_strlit("先获取远端");
    reveal_strlit("基于本地引用");
    reveal_strlit("，存在则");
    reveal_strlit("，不存在则");
    reveal_strlit("（先获取远端，存在则停止，不存在则");
    reveal_strlit("（基于本地引用，存在则继续，不存在则");
    assert("停止"@[0] != "继续"@[0]);
    assert("（先获取远端，存在则停止，不存在则"@ =~= "（"@ + "先获取远端"@ + "，存在则"@ + "停止"@
        + "，不存在则"@);
    assert("（基于本地引用，存在则继续，不存在则"@ =~= "（"@ + "基于本地引用"@ + "，存在则"@ + "继续"@
        + "，不存在则"@);
    assert(guard_text(remote, branch, true, RemoteBranchGuardAction::Fail, on_missing)
        =~= "检查远端分支 "@ + remote + "/"@ + branch + "（先获取远端，存在则停止，不存在则"@
        + action_word(on_missing) + "）"@);
    assert(guard_text(remote, branch, false, RemoteBranchGuardAction::Continue, on_missing)
        =~= "检查远端分支 "@ + remote + "/"@ + branch + "（基于本地引用，存在则继续，不存在则"@
        + action_word(on_missing) + "）"@);
}

} // verus!
