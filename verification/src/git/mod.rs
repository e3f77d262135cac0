//! Rules for what is read from and written to a repository.

pub mod conflicts;
pub mod diff;
pub mod history;
pub mod listing;
pub mod outside;
pub mod paths;
pub mod resolve;
pub mod service;

use vstd::prelude::*;
use vstd::string::StringExecFns;
use vstd::utf8::{decode_utf8, encode_utf8, encode_utf8_decode_utf8, encode_utf8_valid_utf8, valid_utf8};

use crate::git::outside::{
    branch_name_check, git_branch_name_is_valid, git_object_id, is_object_id, object_id,
    object_id_fault,
};
use crate::strings::{cat2, cat3, contains_char, find_from, is_blank, position_from, trimmed};
use crate::text::{from_chars, to_chars};
use crate::types::GitError;

verus! {

/// Unchanged lines that a diff shows around each change.
pub const DIFF_CONTEXT_LINES: u32 = 3;

// ---------------------------------------------------------------------------
// Names of branches
// ---------------------------------------------------------------------------
/// Whether a name is refused before Git is asked about it.
pub open spec fn plainly_invalid(name: Seq<char>) -> bool {
    trimmed(name).len() == 0 || name.contains('\\') || (name.len() > 0 && name[0] == '-')
}

/// What comes of checking a branch name, given what Git said of it.
pub open spec fn branch_name_verdict(
    name: Seq<char>,
    check: Result<bool, Seq<char>>,
    r: Result<(), GitError>,
) -> bool {
    if plainly_invalid(name) {
        r matches Err(e) && e.refuses_branch(name)
    } else {
        match check {
            Ok(true) => r is Ok,
            Ok(false) => r matches Err(e) && e.refuses_branch(name),
            Err(message) => r matches Err(e) && e.git_says(message),
        }
    }
}

/// Checks a branch name, given what Git said of it.
pub fn checked_branch_name(name: &str, check: Result<bool, String>) -> (r: Result<(), GitError>)
    ensures
        branch_name_verdict(
            name@,
            match check {
                Ok(valid) => Ok(valid),
                Err(message) => Err(message@),
            },
            r,
        ),
{
    if is_blank(name) || contains_char(name, '\\') || starts_with_char(name, '-') {
        return Err(GitError::InvalidBranchName(name.to_string()));
    }
    match check {
        Ok(valid) => if valid {
            Ok(())
        } else {
            Err(GitError::InvalidBranchName(name.to_string()))
        },
        Err(message) => Err(GitError::Git(message)),
    }
}

fn starts_with_char(s: &str, c: char) -> (r: bool)
    ensures
        r == (s@.len() > 0 && s@[0] == c),
{
    let v: Vec<char> = to_chars(s);
    v.len() > 0 && v[0] == c
}

/// Checks the name of a branch that is to be made.
pub fn validate_branch_name(name: &str) -> (r: Result<(), GitError>)
    ensures
        branch_name_verdict(name@, branch_name_check(name@), r),
{
    checked_branch_name(name, git_branch_name_is_valid(name))
}

/// The remote and the branch that a name such as `origin/main` speaks of.
pub open spec fn remote_branch_parts(name: Seq<char>) -> Option<(Seq<char>, Seq<char>)> {
    let at = position_from(name, '/', 0);
    if at < name.len() && trimmed(name.take(at)).len() > 0 && trimmed(name.skip(at + 1)).len() > 0 {
        Some((name.take(at), name.skip(at + 1)))
    } else {
        None
    }
}

pub fn remote_branch_name_parts(name: &str) -> (r: Result<(String, String), GitError>)
    ensures
        match remote_branch_parts(name@) {
            Some((remote, branch)) => r matches Ok((a, b)) && a@ == remote && b@ == branch,
            None => r matches Err(e) && e.refuses_branch(name@),
        },
{
    let chars: Vec<char> = to_chars(name);
    let at: usize = find_from(&chars, '/', 0);
    if at >= chars.len() {
        return Err(GitError::InvalidBranchName(name.to_string()));
    }
    let remote = from_chars(&chars, 0, at);
    let branch = from_chars(&chars, at + 1, chars.len());
    proof {
        assert(chars@.subrange(0, at as int) =~= name@.take(at as int));
        assert(chars@.subrange(at + 1, chars@.len() as int) =~= name@.skip(at + 1));
    }
    if is_blank(remote.as_str()) || is_blank(branch.as_str()) {
        return Err(GitError::InvalidBranchName(name.to_string()));
    }
    Ok((remote, branch))
}

/// Putting a remote and a branch together and taking them apart again gives both back, if
/// neither is blank and the remote has no `/` in it.
pub proof fn lemma_remote_branch_round_trip(remote: Seq<char>, branch: Seq<char>)
    requires
        trimmed(remote).len() > 0,
        trimmed(branch).len() > 0,
        !remote.contains('/'),
    ensures
        remote_branch_parts(remote + "/"@ + branch) == Some((remote, branch)),
{
    reveal_strlit("/");
    let name = remote + "/"@ + branch;
    lemma_first_slash(name, 0, remote.len() as int);
    assert(name.take(remote.len() as int) =~= remote);
    assert(name.skip(remote.len() as int + 1) =~= branch);
}

proof fn lemma_first_slash(s: Seq<char>, from: int, at: int)
    requires
        0 <= from <= at < s.len(),
        s[at] == '/',
        forall|i: int| from <= i < at ==> s[i] != '/',
    ensures
        position_from(s, '/', from) == at,
    decreases at - from,
{
    if from < at {
        lemma_first_slash(s, from + 1, at);
    }
}

/// The id of a commit, as 40 digits, from what the user or the list gave.
pub fn commit_id(commit_oid: &str) -> (r: Result<String, GitError>)
    ensures
        match r {
            Ok(id) => is_object_id(commit_oid@) && id@ == object_id(commit_oid@),
            Err(e) => !is_object_id(commit_oid@) && e.says(
                "提交 ID 无效："@ + object_id_fault(commit_oid@),
            ),
        },
{
    match git_object_id(commit_oid) {
        Ok(id) => Ok(id),
        Err(message) => Err(GitError::Message(cat2("提交 ID 无效：", message.as_str()))),
    }
}

/// What to do to check out a remote branch as a local one.
pub struct RemoteCheckout {
    pub remote: String,
    pub local_name: String,
    /// The branch that the local one is to follow.
    pub upstream: String,
}

/// Plans the checkout of a remote branch, given what Git says of the local name.
pub fn planned_remote_checkout(parts: (String, String), check: Result<bool, String>) -> (r: Result<
    RemoteCheckout,
    GitError,
>)
    ensures
        match r {
            Ok(plan) => {
                &&& !plainly_invalid(parts.1@)
                &&& check == Ok::<bool, String>(true)
                &&& plan.remote@ == parts.0@
                &&& plan.local_name@ == parts.1@
                &&& plan.upstream@ == parts.0@ + "/"@ + parts.1@
            },
            Err(e) => branch_name_verdict(
                parts.1@,
                match check {
                    Ok(valid) => Ok(valid),
                    Err(message) => Err(message@),
                },
                Err(e),
            ),
        },
{
    match checked_branch_name(parts.1.as_str(), check) {
        Ok(_) => {
            let upstream = cat3(parts.0.as_str(), "/", parts.1.as_str());
            Ok(RemoteCheckout { remote: parts.0, local_name: parts.1, upstream })
        },
        Err(e) => Err(e),
    }
}

/// Plans the checkout of a remote branch.
pub fn checkout_remote_branch(remote_branch: &str) -> (r: Result<RemoteCheckout, GitError>)
    ensures
        match remote_branch_parts(remote_branch@) {
            None => r matches Err(e) && e.refuses_branch(remote_branch@),
            Some((remote, branch)) => match r {
                Ok(plan) => {
                    &&& !plainly_invalid(branch)
                    &&& branch_name_check(branch) == Ok::<bool, Seq<char>>(true)
                    &&& plan.remote@ == remote
                    &&& plan.local_name@ == branch
                    &&& plan.upstream@ == remote + "/"@ + branch
                },
                Err(e) => branch_name_verdict(branch, branch_name_check(branch), Err(e)),
            },
        },
{
    match remote_branch_name_parts(remote_branch) {
        Err(e) => Err(e),
        Ok(parts) => {
            let check = git_branch_name_is_valid(parts.1.as_str());
            planned_remote_checkout(parts, check)
        },
    }
}

/// A name is refused at once if there is nothing in it, if it holds a backslash or if it starts with
/// a dash. Of any other name the Git library decides, and a failure of the library is passed on.
pub proof fn lemma_branch_names(
    name: Seq<char>,
    check: Result<bool, Seq<char>>,
    r: Result<(), GitError>,
)
    requires
        branch_name_verdict(name, check, r),
    ensures
        r is Ok <==> {
            &&& check == Ok::<bool, Seq<char>>(true)
            &&& trimmed(name).len() > 0
            &&& !name.contains('\\')
            &&& name[0] != '-'
        },
        r matches Err(GitError::InvalidBranchName(n)) ==> n@ == name,
        r matches Err(e) ==> (e is InvalidBranchName || (e matches GitError::Git(m) && check
            == Err::<bool, Seq<char>>(m@))),
        check is Ok && r is Err ==> r->Err_0 is InvalidBranchName,
{
    crate::strings::lemma_trimmed(name);
}

/// The two parts of the name of a remote branch are what stands before and behind its first slash,
/// and a name is not one if it has no slash or nothing on one side of it.
pub proof fn lemma_remote_branch_parts(name: Seq<char>)
    ensures
        match remote_branch_parts(name) {
            Some((remote, branch)) => {
                &&& name == remote + "/"@ + branch
                &&& !remote.contains('/')
                &&& trimmed(remote).len() > 0
                &&& trimmed(branch).len() > 0
            },
            None => forall|remote: Seq<char>, branch: Seq<char>|
                #![trigger remote + "/"@ + branch]
                name == remote + "/"@ + branch && !remote.contains('/') ==> trimmed(remote).len()
                    == 0 || trimmed(branch).len() == 0,
        },
{
    reveal_strlit("/");
    crate::strings::lemma_position_from(name, '/', 0);
    let at = position_from(name, '/', 0);
    match remote_branch_parts(name) {
        Some((remote, branch)) => {
            assert(name =~= remote + "/"@ + branch);
            if remote.contains('/') {
                let i = choose|i: int| 0 <= i < remote.len() && remote[i] == '/';
                assert(name[i] == '/');
            }
        },
        None => {
            assert forall|remote: Seq<char>, branch: Seq<char>|
                #![trigger remote + "/"@ + branch]
                name == remote + "/"@ + branch && !remote.contains('/') implies trimmed(
                remote,
            ).len() == 0 || trimmed(branch).len() == 0 by {
                if trimmed(remote).len() > 0 && trimmed(branch).len() > 0 {
                    lemma_remote_branch_round_trip(remote, branch);
                }
            }
        },
    }
}

} // verus!
