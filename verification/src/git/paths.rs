//! Paths inside a worktree, part by part.

use vstd::prelude::*;

use crate::strings::{cat2, join, joined, views};
use crate::types::GitError;

verus! {

/// What one part of a path is.
#[derive(Clone, Copy, Debug, PartialEq, Eq, Structural)]
pub enum PathPart {
    /// The name of a file or a folder.
    Normal,
    /// The folder itself, `.`.
    Current,
    /// The folder above, `..`.
    Parent,
    /// The root of the file system.
    Root,
    /// A drive or a share.
    Prefix,
}

impl PathPart {
    /// Whether the part stays below the folder that the path starts from.
    pub open spec fn stays_below(self) -> bool {
        self == PathPart::Normal || self == PathPart::Current
    }
}

/// Whether a path made of `parts` cannot lead out of the worktree.
pub open spec fn leads_inside(parts: Seq<PathPart>) -> bool {
    forall|i: int| 0 <= i < parts.len() ==> (#[trigger] parts[i]).stays_below()
}

/// Refuses a path that may lead out of the worktree; `refusal` says what is not done.
pub fn ensure_worktree_relative_path(parts: &Vec<PathPart>, refusal: &str) -> (r: Result<
    (),
    GitError,
>)
    ensures
        leads_inside(parts@) ==> r is Ok,
        !leads_inside(parts@) ==> (r matches Err(e) && e.says("路径不在工作区内，"@ + refusal@)),
{
    let mut i: usize = 0;
    while i < parts.len()
        invariant
            i <= parts@.len(),
            leads_inside(parts@.take(i as int)),
        decreases parts@.len() - i,
    {
        let part = parts[i];
        if part != PathPart::Normal && part != PathPart::Current {
            assert(!parts@[i as int].stays_below());
            return Err(GitError::Message(cat2("路径不在工作区内，", refusal)));
        }
        assert forall|j: int| 0 <= j < i + 1 implies (#[trigger] parts@.take(
            i as int + 1,
        )[j]).stays_below() by {
            if j < i {
                assert(parts@.take(i as int)[j].stays_below());
            }
        }
        i = i + 1;
    }
    assert(parts@.take(i as int) =~= parts@);
    Ok(())
}

/// A path as Git writes it: the names of its parts with `/` between them.
pub fn path_to_git(names: &Vec<String>) -> (r: String)
    ensures
        r@ == joined(views(names@), "/"@),
{
    assert(views(names@).take(names@.len() as int) =~= views(names@));
    join(names, names.len(), "/")
}

/// A path stays inside if and only if each of its parts is a name or the folder itself: one step up,
/// a root or a drive anywhere leads out, and what comes before or behind it does not matter.
pub proof fn lemma_inner_paths(before: Seq<PathPart>, part: PathPart, behind: Seq<PathPart>)
    ensures
        leads_inside(Seq::empty()),
        leads_inside(before + seq![part] + behind) <==> {
            &&& leads_inside(before)
            &&& leads_inside(behind)
            &&& part != PathPart::Parent
            &&& part != PathPart::Root
            &&& part != PathPart::Prefix
        },
{
    let whole = before + seq![part] + behind;
    let n = before.len() as int;
    assert(whole[n] == part);
    if leads_inside(whole) {
        assert(part.stays_below());
        assert forall|i: int| 0 <= i < n implies (#[trigger] before[i]).stays_below() by {
            assert(whole[i].stays_below());
        }
        assert forall|i: int| 0 <= i < behind.len() implies (#[trigger] behind[i]).stays_below() by {
            assert(whole[n + 1 + i].stays_below());
        }
    }
    if leads_inside(before) && leads_inside(behind) && part.stays_below() {
        assert forall|i: int| 0 <= i < whole.len() implies (#[trigger] whole[i]).stays_below() by {
            if i < n {
                assert(before[i].stays_below());
            } else if i > n {
                assert(behind[i - n - 1].stays_below());
            }
        }
    }
}

} // verus!
