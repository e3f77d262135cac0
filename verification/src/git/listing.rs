//! Lists read from a repository: branches, changes, tags, remotes, conflicts.

use vstd::prelude::*;
use vstd::string::StringExecFns;
use vstd::utf8::{encode_utf8, encode_utf8_decode_utf8, encode_utf8_valid_utf8, valid_utf8, decode_utf8};

use crate::git::outside::utf8_text;
use crate::order::{is_sorted_copy, key_less, lemma_sorted_copy_map, lemma_sorting_rearranges, sort_by_keys, KeyView, SortKey};
use crate::strset::{lemma_sorted_set_is_unique, strictly_sorted, StringSet};
use crate::strings::{clone_opt, opt_view, lemma_text_less_total, lemma_text_less_transitive, str_eq, str_less, text_less, views};
use crate::types::{
    views_of, BranchInfo, BranchKind, BranchView, ChangeState, CommitFileChange, CommitFileView,
    TagInfo, WorktreeChange,
};

verus! {

// ---------------------------------------------------------------------------
// Branches
// ---------------------------------------------------------------------------
/// Local branches come before remote ones, each by name.
pub open spec fn branch_key(b: BranchView) -> KeyView {
    KeyView {
        rank: if b.kind == BranchKind::Local {
            0
        } else {
            1
        },
        name: b.name,
    }
}

pub open spec fn branch_keys(branches: Seq<BranchInfo>) -> Seq<KeyView> {
    branches.map_values(|b: BranchInfo| branch_key(b@))
}

pub fn sort_branches(branches: Vec<BranchInfo>) -> (r: Vec<BranchInfo>)
    ensures
        is_sorted_copy(branches@, branch_keys(branches@), r@),
{
    let mut keys: Vec<SortKey> = Vec::new();
    let mut i: usize = 0;
    while i < branches.len()
        invariant
            i <= branches@.len(),
            keys@.len() == i,
            forall|j: int| 0 <= j < i ==> (#[trigger] keys@[j])@ == branch_key(branches@[j]@),
        decreases branches@.len() - i,
    {
        let rank: u8 = match branches[i].kind {
            BranchKind::Local => 0,
            BranchKind::Remote => 1,
        };
        keys.push(SortKey { rank, name: branches[i].name.clone() });
        i = i + 1;
    }
    assert(keys@.map_values(|k: SortKey| k@) =~= branch_keys(branches@));
    sort_by_keys(branches, &keys)
}

/// A branch as it is read from a repository.
#[derive(Debug, PartialEq, Eq)]
pub struct BranchEntry {
    /// The name, if it is text.
    pub name: Option<String>,
    pub kind: BranchKind,
    pub is_head: bool,
    /// The name of the branch that it follows, if it follows one and that name is text.
    pub upstream: Option<String>,
}

impl BranchEntry {
    /// What is listed of the branch: nothing without a name, and what it follows only if it is
    /// local.
    pub open spec fn listed(self) -> Option<BranchView> {
        match opt_view(self.name) {
            None => None,
            Some(name) => Some(
                BranchView {
                    name,
                    kind: self.kind,
                    is_head: self.is_head,
                    upstream: if self.kind == BranchKind::Local {
                        opt_view(self.upstream)
                    } else {
                        None
                    },
                },
            ),
        }
    }
}

pub fn branch_info(entry: &BranchEntry) -> (r: Option<BranchInfo>)
    ensures
        match entry.listed() {
            Some(branch) => r matches Some(info) && info@ == branch,
            None => r is None,
        },
{
    match &entry.name {
        None => None,
        Some(name) => {
            let upstream: Option<String> = match entry.kind {
                BranchKind::Local => clone_opt(&entry.upstream),
                BranchKind::Remote => None,
            };
            Some(
                BranchInfo {
                    name: name.clone(),
                    kind: entry.kind,
                    is_head: entry.is_head,
                    upstream,
                },
            )
        },
    }
}

/// What is listed of the branches that were read, in the order in which they were read.
pub open spec fn listed_branches(entries: Seq<BranchEntry>) -> Seq<BranchView>
    decreases entries.len(),
{
    if entries.len() == 0 {
        Seq::empty()
    } else {
        let before = listed_branches(entries.drop_last());
        match entries.last().listed() {
            Some(branch) => before.push(branch),
            None => before,
        }
    }
}

pub open spec fn view_keys(branches: Seq<BranchView>) -> Seq<KeyView> {
    branches.map_values(|b: BranchView| branch_key(b))
}

/// The branches of a repository, in order.
pub fn branches(entries: &Vec<BranchEntry>) -> (r: Vec<BranchInfo>)
    ensures
        is_sorted_copy(
            listed_branches(entries@),
            view_keys(listed_branches(entries@)),
            views_of(r@),
        ),
{
    let mut kept: Vec<BranchInfo> = Vec::new();
    let mut i: usize = 0;
    assert(views_of(kept@) =~= listed_branches(entries@.take(0)));
    while i < entries.len()
        invariant
            i <= entries@.len(),
            views_of(kept@) == listed_branches(entries@.take(i as int)),
        decreases entries@.len() - i,
    {
        let ghost before = kept@;
        assert(entries@.take(i as int + 1).drop_last() =~= entries@.take(i as int));
        match branch_info(&entries[i]) {
            Some(info) => {
                kept.push(info);
                assert(views_of(kept@) =~= views_of(before).push(info@));
            },
            None => {},
        }
        i = i + 1;
    }
    assert(entries@.take(i as int) =~= entries@);
    let ghost before = kept@;
    let sorted: Vec<BranchInfo> = sort_branches(kept);
    proof {
        lemma_sorted_copy_map(before, branch_keys(before), sorted@, |b: BranchInfo| b@);
        assert(before.map_values(|b: BranchInfo| b@) =~= views_of(before));
        assert(sorted@.map_values(|b: BranchInfo| b@) =~= views_of(sorted@));
        assert(branch_keys(before) =~= view_keys(views_of(before)));
    }
    sorted
}

// ---------------------------------------------------------------------------
// Names
// ---------------------------------------------------------------------------
pub open spec fn name_keys(names: Seq<Seq<char>>) -> Seq<KeyView> {
    names.map_values(|n: Seq<char>| KeyView { rank: 0, name: n })
}

pub fn sort_names(names: Vec<String>) -> (r: Vec<String>)
    ensures
        is_sorted_copy(names@, name_keys(views(names@)), r@),
{
    let mut keys: Vec<SortKey> = Vec::new();
    let mut i: usize = 0;
    while i < names.len()
        invariant
            i <= names@.len(),
            keys@.len() == i,
            forall|j: int|
                0 <= j < i ==> (#[trigger] keys@[j])@ == (KeyView { rank: 0, name: names@[j]@ }),
        decreases names@.len() - i,
    {
        keys.push(SortKey { rank: 0, name: names[i].clone() });
        i = i + 1;
    }
    assert(keys@.map_values(|k: SortKey| k@) =~= name_keys(views(names@)));
    sort_by_keys(names, &keys)
}

/// The names that are there.
pub open spec fn present(names: Seq<Option<String>>) -> Seq<String>
    decreases names.len(),
{
    if names.len() == 0 {
        Seq::empty()
    } else {
        match names.last() {
            Some(n) => present(names.drop_last()).push(n),
            None => present(names.drop_last()),
        }
    }
}

fn take_present(names: Vec<Option<String>>) -> (r: Vec<String>)
    ensures
        views(r@) == views(present(names@)),
{
    let mut r: Vec<String> = Vec::new();
    let mut i: usize = 0;
    assert(names@.take(0) =~= Seq::<Option<String>>::empty());
    assert(views(r@) =~= views(present(names@.take(0))));
    while i < names.len()
        invariant
            i <= names@.len(),
            views(r@) == views(present(names@.take(i as int))),
        decreases names@.len() - i,
    {
        let ghost before = r@;
        proof {
            let more = names@.take(i as int + 1);
            assert(more.drop_last() =~= names@.take(i as int));
            assert(more.last() == names@[i as int]);
        }
        match &names[i] {
            Some(name) => {
                r.push(name.clone());
                assert(views(r@) =~= views(before).push(name@));
                assert(views(present(names@.take(i as int + 1))) =~= views(
                    present(names@.take(i as int)),
                ).push(name@));
            },
            None => {},
        }
        i = i + 1;
    }
    assert(names@.take(i as int) =~= names@);
    r
}

/// Whether `after` holds the texts of `before` in order.
pub open spec fn is_sorted_text(before: Seq<Seq<char>>, after: Seq<Seq<char>>) -> bool {
    is_sorted_copy(before, name_keys(before), after)
}

/// The names of the remotes, in order. A name that is no text is left out.
pub fn remotes(names: Vec<Option<String>>) -> (r: Vec<String>)
    ensures
        is_sorted_text(views(present(names@)), views(r@)),
{
    let kept: Vec<String> = take_present(names);
    let ghost texts = views(kept@);
    let ghost before = kept@;
    let sorted: Vec<String> = sort_names(kept);
    proof {
        lemma_sorted_copy_map(
            before,
            name_keys(texts),
            sorted@,
            |s: String| s@,
        );
        assert(before.map_values(|s: String| s@) =~= texts);
        assert(sorted@.map_values(|s: String| s@) =~= views(sorted@));
    }
    sorted
}

/// The tags, by name. A name that is no text is left out.
pub fn tags(names: Vec<Option<String>>) -> (r: Vec<TagInfo>)
    ensures
        is_sorted_text(views(present(names@)), views_of(r@)),
{
    let sorted: Vec<String> = remotes(names);
    let mut r: Vec<TagInfo> = Vec::new();
    let mut i: usize = 0;
    while i < sorted.len()
        invariant
            i <= sorted@.len(),
            r@.len() == i,
            forall|j: int| 0 <= j < i ==> (#[trigger] r@[j])@ == sorted@[j]@,
        decreases sorted@.len() - i,
    {
        r.push(TagInfo { name: sorted[i].clone() });
        i = i + 1;
    }
    assert(views_of(r@) =~= views(sorted@));
    r
}

// ---------------------------------------------------------------------------
// Changes
// ---------------------------------------------------------------------------
/// What Git says of one path.
#[derive(Clone, Copy, Debug, PartialEq, Eq, Structural)]
pub struct StatusFlags {
    pub conflicted: bool,
    pub index_new: bool,
    pub index_modified: bool,
    pub index_deleted: bool,
    pub index_renamed: bool,
    pub index_typechange: bool,
    pub wt_new: bool,
    pub wt_modified: bool,
    pub wt_deleted: bool,
    pub wt_renamed: bool,
    pub wt_typechange: bool,
}

pub struct StatusEntry {
    pub path: String,
    pub flags: StatusFlags,
}

pub open spec fn staged_of_flags(f: StatusFlags) -> Option<ChangeState> {
    if f.conflicted {
        Some(ChangeState::Conflicted)
    } else if f.index_renamed {
        Some(ChangeState::Renamed)
    } else if f.index_typechange {
        Some(ChangeState::Typechange)
    } else if f.index_new {
        Some(ChangeState::Added)
    } else if f.index_modified {
        Some(ChangeState::Modified)
    } else if f.index_deleted {
        Some(ChangeState::Deleted)
    } else {
        None
    }
}

pub open spec fn unstaged_of_flags(f: StatusFlags) -> Option<ChangeState> {
    if f.conflicted {
        Some(ChangeState::Conflicted)
    } else if f.wt_renamed {
        Some(ChangeState::Renamed)
    } else if f.wt_typechange {
        Some(ChangeState::Typechange)
    } else if f.wt_new {
        Some(ChangeState::Untracked)
    } else if f.wt_modified {
        Some(ChangeState::Modified)
    } else if f.wt_deleted {
        Some(ChangeState::Deleted)
    } else {
        None
    }
}

/// How a path differs between the last commit and the index.
pub fn staged_state(status: StatusFlags) -> (r: Option<ChangeState>)
    ensures
        r == staged_of_flags(status),
{
    if status.conflicted {
        Some(ChangeState::Conflicted)
    } else if status.index_renamed {
        Some(ChangeState::Renamed)
    } else if status.index_typechange {
        Some(ChangeState::Typechange)
    } else if status.index_new {
        Some(ChangeState::Added)
    } else if status.index_modified {
        Some(ChangeState::Modified)
    } else if status.index_deleted {
        Some(ChangeState::Deleted)
    } else {
        None
    }
}

/// How a path differs between the index and the worktree.
pub fn unstaged_state(status: StatusFlags) -> (r: Option<ChangeState>)
    ensures
        r == unstaged_of_flags(status),
{
    if status.conflicted {
        Some(ChangeState::Conflicted)
    } else if status.wt_renamed {
        Some(ChangeState::Renamed)
    } else if status.wt_typechange {
        Some(ChangeState::Typechange)
    } else if status.wt_new {
        Some(ChangeState::Untracked)
    } else if status.wt_modified {
        Some(ChangeState::Modified)
    } else if status.wt_deleted {
        Some(ChangeState::Deleted)
    } else {
        None
    }
}

/// What the entries say last of `path` in the index.
pub open spec fn last_staged(entries: Seq<StatusEntry>, path: Seq<char>) -> Option<ChangeState>
    decreases entries.len(),
{
    if entries.len() == 0 {
        None
    } else if entries.last().path@ == path && staged_of_flags(entries.last().flags) is Some {
        staged_of_flags(entries.last().flags)
    } else {
        last_staged(entries.drop_last(), path)
    }
}

/// What the entries say last of `path` in the worktree.
pub open spec fn last_unstaged(entries: Seq<StatusEntry>, path: Seq<char>) -> Option<ChangeState>
    decreases entries.len(),
{
    if entries.len() == 0 {
        None
    } else if entries.last().path@ == path && unstaged_of_flags(entries.last().flags) is Some {
        unstaged_of_flags(entries.last().flags)
    } else {
        last_unstaged(entries.drop_last(), path)
    }
}

pub open spec fn mentions(entries: Seq<StatusEntry>, path: Seq<char>) -> bool {
    exists|i: int| 0 <= i < entries.len() && (#[trigger] entries[i]).path@ == path
}

pub open spec fn lists(changes: Seq<WorktreeChange>, path: Seq<char>) -> bool {
    exists|i: int| 0 <= i < changes.len() && (#[trigger] changes[i]).path@ == path
}

/// Whether `changes` has one row for each path that the entries mention, by path, with what
/// they say last of it.
pub open spec fn is_status(entries: Seq<StatusEntry>, changes: Seq<WorktreeChange>) -> bool {
    &&& forall|i: int, j: int|
        0 <= i < j < changes.len() ==> text_less(
            (#[trigger] changes[i]).path@,
            (#[trigger] changes[j]).path@,
        )
    &&& forall|path: Seq<char>| #[trigger] lists(changes, path) <==> mentions(entries, path)
    &&& forall|i: int|
        0 <= i < changes.len() ==> {
            &&& (#[trigger] changes[i]).staged == last_staged(entries, changes[i].path@)
            &&& changes[i].unstaged == last_unstaged(entries, changes[i].path@)
        }
}

proof fn lemma_unmentioned(entries: Seq<StatusEntry>, path: Seq<char>)
    requires
        !mentions(entries, path),
    ensures
        last_staged(entries, path) is None,
        last_unstaged(entries, path) is None,
    decreases entries.len(),
{
    if entries.len() > 0 {
        assert(entries.last().path@ != path) by {
            assert(entries[entries.len() - 1] == entries.last());
        }
        assert(!mentions(entries.drop_last(), path)) by {
            if mentions(entries.drop_last(), path) {
                let i = choose|i: int|
                    0 <= i < entries.drop_last().len() && (
                    #[trigger] entries.drop_last()[i]).path@ == path;
                assert(entries[i].path@ == path);
            }
        }
        lemma_unmentioned(entries.drop_last(), path);
    }
}

/// Puts what the entries say into one row per path.
pub fn status_with_options(entries: Vec<StatusEntry>) -> (changes: Vec<WorktreeChange>)
    ensures
        is_status(entries@, changes@),
{
    let mut changes: Vec<WorktreeChange> = Vec::new();
    let mut n: usize = 0;
    assert(entries@.take(0) =~= Seq::<StatusEntry>::empty());
    while n < entries.len()
        invariant
            n <= entries@.len(),
            is_status(entries@.take(n as int), changes@),
        decreases entries@.len() - n,
    {
        add_status(&mut changes, &entries[n], Ghost(entries@.take(n as int)));
        assert(entries@.take(n as int + 1) =~= entries@.take(n as int).push(entries@[n as int]));
        n = n + 1;
    }
    assert(entries@.take(n as int) =~= entries@);
    changes
}

/// Adds what one more entry says.
fn add_status(
    changes: &mut Vec<WorktreeChange>,
    entry: &StatusEntry,
    Ghost(done): Ghost<Seq<StatusEntry>>,
)
    requires
        is_status(done, old(changes)@),
    ensures
        is_status(done.push(*entry), final(changes)@),
{
    let mut at: usize = 0;
    while at < changes.len() && str_less(changes[at].path.as_str(), entry.path.as_str())
        invariant
            at <= changes@.len(),
            forall|j: int| 0 <= j < at ==> text_less((#[trigger] changes@[j]).path@, entry.path@),
        decreases changes@.len() - at,
    {
        at = at + 1;
    }
    let staged: Option<ChangeState> = staged_state(entry.flags);
    let unstaged: Option<ChangeState> = unstaged_state(entry.flags);
    let ghost before = changes@;
    let ghost all = done.push(*entry);
    let ghost path = entry.path@;
    assert(all.drop_last() =~= done);
    assert(all.last() == *entry);
    if at < changes.len() && str_eq(changes[at].path.as_str(), entry.path.as_str()) {
        {
            let change = &mut changes[at];
            if staged.is_some() {
                change.staged = staged;
            }
            if unstaged.is_some() {
                change.unstaged = unstaged;
            }
        }
        proof {
            assert(forall|j: int|
                0 <= j < before.len() ==> (#[trigger] changes@[j]).path@ == before[j].path@);
            assert forall|i: int| 0 <= i < changes@.len() implies {
                &&& (#[trigger] changes@[i]).staged == last_staged(all, changes@[i].path@)
                &&& changes@[i].unstaged == last_unstaged(all, changes@[i].path@)
            } by {
                assert(before[i].staged == last_staged(done, before[i].path@));
                if i != at {
                    lemma_text_less_total(before[i].path@, path);
                    if i < at {
                        assert(text_less(before[i].path@, before[at as int].path@));
                    } else {
                        assert(text_less(before[at as int].path@, before[i].path@));
                    }
                }
            }
            assert(lists(before, path)) by {
                assert(before[at as int].path@ == path);
            }
        }
    } else {
        changes.insert(at, WorktreeChange { path: entry.path.clone(), staged, unstaged });
        proof {
            // Nothing was said of this path before.
            assert(!lists(before, path)) by {
                if lists(before, path) {
                    let i = choose|i: int|
                        0 <= i < before.len() && (#[trigger] before[i]).path@ == path;
                    lemma_text_less_total(path, path);
                    if i > at {
                        assert(text_less(before[at as int].path@, before[i].path@));
                    }
                }
            }
            assert(lists(before, path) <==> mentions(done, path));
            lemma_unmentioned(done, path);
            assert forall|i: int| 0 <= i < changes@.len() implies {
                &&& (#[trigger] changes@[i]).staged == last_staged(all, changes@[i].path@)
                &&& changes@[i].unstaged == last_unstaged(all, changes@[i].path@)
            } by {
                if i != at {
                    let x = if i < at {
                        i
                    } else {
                        i - 1
                    };
                    assert(changes@[i] == before[x]);
                    assert(before[x].path@ != path);
                    assert(before[x].staged == last_staged(done, before[x].path@));
                }
            }
            assert forall|i: int, j: int| 0 <= i < j < changes@.len() implies text_less(
                (#[trigger] changes@[i]).path@,
                (#[trigger] changes@[j]).path@,
            ) by {
                let x = if i < at {
                    i
                } else {
                    i - 1
                };
                let y = if j < at {
                    j
                } else {
                    j - 1
                };
                if i != at && j != at {
                    assert(changes@[i] == before[x]);
                    assert(changes@[j] == before[y]);
                } else if i == at {
                    assert(changes@[j] == before[y]);
                    lemma_text_less_total(before[at as int].path@, path);
                    if y > at {
                        assert(text_less(before[at as int].path@, before[y].path@));
                        lemma_text_less_transitive(
                            path,
                            before[at as int].path@,
                            before[y].path@,
                        );
                    }
                } else {
                    assert(changes@[i] == before[i]);
                }
            }
        }
    }
    proof {
        assert forall|p: Seq<char>| #[trigger] lists(changes@, p) <==> mentions(all, p) by {
            if lists(changes@, p) {
                let i = choose|i: int| 0 <= i < changes@.len() && (#[trigger] changes@[i]).path@ == p;
                if p == path {
                    assert(all[done.len() as int].path@ == p);
                } else {
                    assert(lists(before, p)) by {
                        if changes@.len() == before.len() || i < at {
                            assert(before[i].path@ == p);
                        } else {
                            assert(changes@[i] == before[i - 1]);
                        }
                    }
                    assert(mentions(done, p));
                    let k = choose|k: int| 0 <= k < done.len() && (#[trigger] done[k]).path@ == p;
                    assert(all[k].path@ == p);
                }
            }
            if mentions(all, p) {
                let k = choose|k: int| 0 <= k < all.len() && (#[trigger] all[k]).path@ == p;
                if p == path {
                    assert(changes@[at as int].path@ == p);
                } else {
                    assert(all[k] == done[k]);
                    assert(mentions(done, p));
                    assert(lists(before, p));
                    let i = choose|i: int| 0 <= i < before.len() && (#[trigger] before[i]).path@ == p;
                    if changes@.len() == before.len() || i < at {
                        assert(changes@[i].path@ == p);
                    } else {
                        assert(changes@[i + 1] == before[i]);
                    }
                }
            }
        }
    }
}

/// Two lists that say the same of every path are the same list.
pub proof fn lemma_status_is_unique(
    entries: Seq<StatusEntry>,
    a: Seq<WorktreeChange>,
    b: Seq<WorktreeChange>,
)
    requires
        is_status(entries, a),
        is_status(entries, b),
    ensures
        views_of(a) == views_of(b),
{
    let pa = a.map_values(|c: WorktreeChange| c.path@);
    let pb = b.map_values(|c: WorktreeChange| c.path@);
    assert(pa.to_set() =~= pb.to_set()) by {
        assert forall|p: Seq<char>| pa.to_set().contains(p) <==> pb.to_set().contains(p) by {
            assert(lists(a, p) <==> mentions(entries, p));
            assert(lists(b, p) <==> mentions(entries, p));
            if pa.to_set().contains(p) {
                let i = choose|i: int| 0 <= i < pa.len() && pa[i] == p;
                assert(a[i].path@ == p);
                assert(lists(b, p));
                let j = choose|j: int| 0 <= j < b.len() && (#[trigger] b[j]).path@ == p;
                assert(pb[j] == p);
            }
            if pb.to_set().contains(p) {
                let i = choose|i: int| 0 <= i < pb.len() && pb[i] == p;
                assert(b[i].path@ == p);
                assert(lists(a, p));
                let j = choose|j: int| 0 <= j < a.len() && (#[trigger] a[j]).path@ == p;
                assert(pa[j] == p);
            }
        }
    }
    lemma_sorted_set_is_unique(pa, pb);
    assert(views_of(a) =~= views_of(b)) by {
        assert(pa.len() == a.len() && pb.len() == b.len());
        assert forall|i: int| 0 <= i < a.len() implies views_of(a)[i] == views_of(b)[i] by {
            assert(pa[i] == pb[i]);
            assert(a[i].staged == last_staged(entries, a[i].path@));
            assert(b[i].staged == last_staged(entries, b[i].path@));
        }
    }
}

// ---------------------------------------------------------------------------
// Conflicts
// ---------------------------------------------------------------------------
/// The paths, as bytes, under which the sides of a conflict are kept.
pub struct ConflictPaths {
    pub our: Option<Vec<u8>>,
    pub their: Option<Vec<u8>>,
    pub ancestor: Option<Vec<u8>>,
}

impl ConflictPaths {
    /// The path of the first side that is there.
    pub open spec fn bytes(self) -> Option<Seq<u8>> {
        match (self.our, self.their, self.ancestor) {
            (Some(p), _, _) => Some(p@),
            (None, Some(p), _) => Some(p@),
            (None, None, Some(p)) => Some(p@),
            (None, None, None) => None,
        }
    }

    /// The same as text, if it is UTF-8.
    pub open spec fn text(self) -> Option<Seq<char>> {
        match self.bytes() {
            Some(b) => if valid_utf8(b) {
                Some(decode_utf8(b))
            } else {
                None
            },
            None => None,
        }
    }

    pub fn path(&self) -> (r: Option<String>)
        ensures
            opt_view(r) == self.text(),
    {
        let bytes: &Vec<u8> = match &self.our {
            Some(p) => p,
            None => match &self.their {
                Some(p) => p,
                None => match &self.ancestor {
                    Some(p) => p,
                    None => return None,
                },
            },
        };
        let r = utf8_text(bytes.as_slice());
        proof {
            if r is Some {
                encode_utf8_valid_utf8(r->0@);
                encode_utf8_decode_utf8(r->0@);
            }
        }
        r
    }
}

/// Whether one of the conflicts is in the file `path`.
pub open spec fn in_conflict(entries: Seq<ConflictPaths>, path: Seq<char>) -> bool {
    exists|i: int| 0 <= i < entries.len() && (#[trigger] entries[i]).text() == Some(path)
}

/// The files in conflict: the path of every conflict, in order, each once.
pub fn conflicts(entries: &Vec<ConflictPaths>) -> (r: Vec<String>)
    ensures
        strictly_sorted(views(r@)),
        forall|path: Seq<char>| #[trigger] views(r@).contains(path) <==> in_conflict(entries@, path),
{
    let mut set = StringSet::new();
    let mut i: usize = 0;
    while i < entries.len()
        invariant
            i <= entries@.len(),
            set.wf(),
            forall|path: Seq<char>|
                #[trigger] set@.contains(path) <==> in_conflict(entries@.take(i as int), path),
        decreases entries@.len() - i,
    {
        let ghost before = set@;
        let found = entries[i].path();
        proof {
            let head = entries@.take(i as int);
            let more = entries@.take(i as int + 1);
            assert forall|path: Seq<char>| in_conflict(more, path) <==> (in_conflict(head, path)
                || entries@[i as int].text() == Some(path)) by {
                if in_conflict(more, path) {
                    let k = choose|k: int|
                        0 <= k < more.len() && (#[trigger] more[k]).text() == Some(path);
                    if k < i {
                        assert(head[k].text() == Some(path));
                    }
                }
                if in_conflict(head, path) {
                    let k = choose|k: int|
                        0 <= k < head.len() && (#[trigger] head[k]).text() == Some(path);
                    assert(more[k].text() == Some(path));
                }
                if entries@[i as int].text() == Some(path) {
                    assert(more[i as int].text() == Some(path));
                }
            }
        }
        match found {
            Some(path) => {
                set.insert(path);
            },
            None => {},
        }
        i = i + 1;
    }
    assert(entries@.take(i as int) =~= entries@);
    assert forall|path: Seq<char>| #[trigger] views(set.items@).contains(path) <==> in_conflict(
        entries@,
        path,
    ) by {
        assert(set@.contains(path) <==> views(set.items@).contains(path));
    }
    set.items
}

// ---------------------------------------------------------------------------
// Files of a commit
// ---------------------------------------------------------------------------
/// How a file differs between two trees.
#[derive(Clone, Copy, Debug, PartialEq, Eq, Structural)]
pub enum Delta {
    Unmodified,
    Added,
    Deleted,
    Modified,
    Renamed,
    Copied,
    Ignored,
    Untracked,
    Typechange,
    Unreadable,
    Conflicted,
}

pub open spec fn state_of_delta(delta: Delta) -> ChangeState {
    match delta {
        Delta::Added => ChangeState::Added,
        Delta::Deleted => ChangeState::Deleted,
        Delta::Renamed => ChangeState::Renamed,
        Delta::Typechange => ChangeState::Typechange,
        Delta::Conflicted => ChangeState::Conflicted,
        _ => ChangeState::Modified,
    }
}

pub fn change_state_from_delta(delta: Delta) -> (r: ChangeState)
    ensures
        r == state_of_delta(delta),
{
    match delta {
        Delta::Added => ChangeState::Added,
        Delta::Deleted => ChangeState::Deleted,
        Delta::Renamed => ChangeState::Renamed,
        Delta::Typechange => ChangeState::Typechange,
        Delta::Conflicted => ChangeState::Conflicted,
        _ => ChangeState::Modified,
    }
}

/// A file that a commit touched.
pub struct FileDelta {
    pub new_path: Option<String>,
    pub old_path: Option<String>,
    pub delta: Delta,
}

/// The row for one file: none if it has no path.
pub open spec fn delta_row(d: FileDelta) -> Option<CommitFileView> {
    let path = match d.new_path {
        Some(p) => Some(p@),
        None => opt_view(d.old_path),
    };
    match path {
        Some(path) => Some(
            CommitFileView {
                path,
                old_path: opt_view(d.old_path),
                status: state_of_delta(d.delta),
            },
        ),
        None => None,
    }
}

pub open spec fn delta_rows(deltas: Seq<FileDelta>) -> Seq<CommitFileView>
    decreases deltas.len(),
{
    if deltas.len() == 0 {
        Seq::empty()
    } else {
        match delta_row(deltas.last()) {
            Some(row) => delta_rows(deltas.drop_last()).push(row),
            None => delta_rows(deltas.drop_last()),
        }
    }
}

pub open spec fn file_keys(rows: Seq<CommitFileView>) -> Seq<KeyView> {
    rows.map_values(|f: CommitFileView| KeyView { rank: 0, name: f.path })
}

/// The files that a commit touched, by path.
pub fn commit_files(deltas: &Vec<FileDelta>) -> (r: Vec<CommitFileChange>)
    ensures
        is_sorted_copy(delta_rows(deltas@), file_keys(delta_rows(deltas@)), views_of(r@)),
{
    let mut rows: Vec<CommitFileChange> = Vec::new();
    let mut keys: Vec<SortKey> = Vec::new();
    let mut i: usize = 0;
    assert(deltas@.take(0) =~= Seq::<FileDelta>::empty());
    assert(views_of(rows@) =~= delta_rows(deltas@.take(0)));
    while i < deltas.len()
        invariant
            i <= deltas@.len(),
            views_of(rows@) == delta_rows(deltas@.take(i as int)),
            keys@.len() == rows@.len(),
            forall|j: int|
                0 <= j < keys@.len() ==> (#[trigger] keys@[j])@ == (KeyView {
                    rank: 0,
                    name: rows@[j].path@,
                }),
        decreases deltas@.len() - i,
    {
        let ghost before = rows@;
        proof {
            let more = deltas@.take(i as int + 1);
            assert(more.drop_last() =~= deltas@.take(i as int));
            assert(more.last() == deltas@[i as int]);
        }
        let d = &deltas[i];
        let path: Option<String> = match &d.new_path {
            Some(p) => Some(p.clone()),
            None => clone_opt(&d.old_path),
        };
        match path {
            Some(path) => {
                keys.push(SortKey { rank: 0, name: path.clone() });
                rows.push(
                    CommitFileChange {
                        path,
                        old_path: clone_opt(&d.old_path),
                        status: change_state_from_delta(d.delta),
                    },
                );
                assert(views_of(rows@) =~= views_of(before).push(delta_row(*d)->0));
            },
            None => {},
        }
        i = i + 1;
    }
    assert(deltas@.take(i as int) =~= deltas@);
    assert(keys@.map_values(|k: SortKey| k@) =~= file_keys(views_of(rows@)));
    let ghost before = rows@;
    let r = sort_by_keys(rows, &keys);
    proof {
        lemma_sorted_copy_map(
            before,
            file_keys(views_of(before)),
            r@,
            |f: CommitFileChange| f@,
        );
        assert(before.map_values(|f: CommitFileChange| f@) =~= views_of(before));
        assert(r@.map_values(|f: CommitFileChange| f@) =~= views_of(r@));
    }
    r
}

// ---------------------------------------------------------------------------
// Laws of states
// ---------------------------------------------------------------------------
/// What is listed as staged is what Git says of the index: the state that is listed is one whose
/// flag is set, a path is left out only if no flag is set, and what Git says of the worktree does
/// not matter. Of several flags a rename comes first, and then a change of type.
pub proof fn lemma_staged_state_names_its_flag(f: StatusFlags, g: StatusFlags)
    ensures
        match staged_of_flags(f) {
            None => !f.conflicted && !f.index_new && !f.index_modified && !f.index_deleted
                && !f.index_renamed && !f.index_typechange,
            Some(ChangeState::Added) => f.index_new,
            Some(ChangeState::Modified) => f.index_modified,
            Some(ChangeState::Deleted) => f.index_deleted,
            Some(ChangeState::Renamed) => f.index_renamed,
            Some(ChangeState::Typechange) => f.index_typechange,
            Some(ChangeState::Conflicted) => f.conflicted,
            Some(ChangeState::Untracked) => false,
        },
        f.conflicted ==> staged_of_flags(f) == Some(ChangeState::Conflicted),
        f.index_renamed ==> staged_of_flags(f) == Some(ChangeState::Renamed) || f.conflicted,
        f.index_typechange ==> staged_of_flags(f) == Some(ChangeState::Typechange) || f.conflicted
            || f.index_renamed,
        staged_of_flags(f) == Some(ChangeState::Modified) ==> !f.index_new,
        staged_of_flags(f) == Some(ChangeState::Deleted) ==> !f.index_new && !f.index_modified,
        f.conflicted == g.conflicted && f.index_new == g.index_new && f.index_modified
            == g.index_modified && f.index_deleted == g.index_deleted && f.index_renamed
            == g.index_renamed && f.index_typechange == g.index_typechange ==> staged_of_flags(f)
            == staged_of_flags(g),
{
}

/// What is listed as not staged is what Git says of the worktree: the state that is listed is one
/// whose flag is set, where a new file is untracked; a path is left out only if no flag is set,
/// and what Git says of the index does not matter. Of several flags a rename comes first, and
/// then a change of type.
pub proof fn lemma_unstaged_state_names_its_flag(f: StatusFlags, g: StatusFlags)
    ensures
        match unstaged_of_flags(f) {
            None => !f.conflicted && !f.wt_new && !f.wt_modified && !f.wt_deleted && !f.wt_renamed
                && !f.wt_typechange,
            Some(ChangeState::Untracked) => f.wt_new,
            Some(ChangeState::Modified) => f.wt_modified,
            Some(ChangeState::Deleted) => f.wt_deleted,
            Some(ChangeState::Renamed) => f.wt_renamed,
            Some(ChangeState::Typechange) => f.wt_typechange,
            Some(ChangeState::Conflicted) => f.conflicted,
            Some(ChangeState::Added) => false,
        },
        f.conflicted ==> unstaged_of_flags(f) == Some(ChangeState::Conflicted),
        f.wt_renamed ==> unstaged_of_flags(f) == Some(ChangeState::Renamed) || f.conflicted,
        f.wt_typechange ==> unstaged_of_flags(f) == Some(ChangeState::Typechange) || f.conflicted
            || f.wt_renamed,
        unstaged_of_flags(f) == Some(ChangeState::Modified) ==> !f.wt_new,
        unstaged_of_flags(f) == Some(ChangeState::Deleted) ==> !f.wt_new && !f.wt_modified,
        f.conflicted == g.conflicted && f.wt_new == g.wt_new && f.wt_modified == g.wt_modified
            && f.wt_deleted == g.wt_deleted && f.wt_renamed == g.wt_renamed && f.wt_typechange
            == g.wt_typechange ==> unstaged_of_flags(f) == unstaged_of_flags(g),
{
}

/// The list of changes shows of every path what Git says of it: where entry `i` is the only one
/// for its path, there is one row for the path, with the states that the entry names.
pub proof fn lemma_status_shows_each_entry(
    entries: Seq<StatusEntry>,
    changes: Seq<WorktreeChange>,
    i: int,
) -> (row: int)
    requires
        is_status(entries, changes),
        0 <= i < entries.len(),
        forall|j: int|
            0 <= j < entries.len() && j != i ==> (#[trigger] entries[j]).path@ != entries[i].path@,
    ensures
        0 <= row < changes.len(),
        changes[row].path@ == entries[i].path@,
        changes[row].staged == staged_of_flags(entries[i].flags),
        changes[row].unstaged == unstaged_of_flags(entries[i].flags),
        forall|k: int|
            0 <= k < changes.len() && k != row ==> (#[trigger] changes[k]).path@ != entries[i].path@,
{
    let path = entries[i].path@;
    assert(mentions(entries, path));
    assert(lists(changes, path));
    let row = choose|row: int| 0 <= row < changes.len() && (#[trigger] changes[row]).path@ == path;
    lemma_last_said(entries, i);
    assert forall|k: int| 0 <= k < changes.len() && k != row implies (#[trigger] changes[k]).path@
        != path by {
        lemma_text_less_total(path, path);
        if k < row {
            assert(text_less(changes[k].path@, changes[row].path@));
        } else {
            assert(text_less(changes[row].path@, changes[k].path@));
        }
    }
    row
}

proof fn lemma_last_said(entries: Seq<StatusEntry>, i: int)
    requires
        0 <= i < entries.len(),
        forall|j: int|
            0 <= j < entries.len() && j != i ==> (#[trigger] entries[j]).path@ != entries[i].path@,
    ensures
        last_staged(entries, entries[i].path@) == staged_of_flags(entries[i].flags),
        last_unstaged(entries, entries[i].path@) == unstaged_of_flags(entries[i].flags),
    decreases entries.len(),
{
    let before = entries.drop_last();
    if i < entries.len() - 1 {
        assert forall|j: int| 0 <= j < before.len() && j != i implies (#[trigger] before[j]).path@
            != before[i].path@ by {
            assert(entries[j].path@ != entries[i].path@);
        }
        lemma_last_said(before, i);
    } else {
        assert(!mentions(before, entries[i].path@)) by {
            if mentions(before, entries[i].path@) {
                let j = choose|j: int|
                    0 <= j < before.len() && (#[trigger] before[j]).path@ == entries[i].path@;
                assert(entries[j].path@ == entries[i].path@);
            }
        }
        lemma_unmentioned(before, entries[i].path@);
    }
}

/// What a later entry says of a path counts, and it takes nothing back that it does not mention.
pub proof fn lemma_later_entries_win(entries: Seq<StatusEntry>, more: StatusEntry, path: Seq<char>)
    ensures
        last_staged(entries.push(more), path) == if more.path@ == path && staged_of_flags(
            more.flags,
        ) is Some {
            staged_of_flags(more.flags)
        } else {
            last_staged(entries, path)
        },
        last_unstaged(entries.push(more), path) == if more.path@ == path && unstaged_of_flags(
            more.flags,
        ) is Some {
            unstaged_of_flags(more.flags)
        } else {
            last_unstaged(entries, path)
        },
{
    assert(entries.push(more).drop_last() =~= entries);
}

/// A file of a commit is listed under the state that names its difference, and every state that
/// stands for one difference is listed for no other.
pub proof fn lemma_delta_states(delta: Delta)
    ensures
        delta == Delta::Added <==> state_of_delta(delta) == ChangeState::Added,
        delta == Delta::Deleted <==> state_of_delta(delta) == ChangeState::Deleted,
        delta == Delta::Renamed <==> state_of_delta(delta) == ChangeState::Renamed,
        delta == Delta::Typechange <==> state_of_delta(delta) == ChangeState::Typechange,
        delta == Delta::Conflicted <==> state_of_delta(delta) == ChangeState::Conflicted,
        state_of_delta(delta) != ChangeState::Untracked,
{
}

/// A file is listed under its new path, or under its old one if it is gone, and it is left out
/// only if it has neither. Its old path is kept beside it.
pub proof fn lemma_delta_row_paths(d: FileDelta)
    ensures
        delta_row(d) is None <==> d.new_path is None && d.old_path is None,
        delta_row(d) matches Some(row) ==> {
            &&& d.new_path matches Some(p) ==> row.path == p@
            &&& d.new_path is None ==> opt_view(d.old_path) == Some(row.path)
            &&& row.old_path == opt_view(d.old_path)
            &&& row.status == state_of_delta(d.delta)
        },
{
}

/// No file of a commit is lost and none is made up: each stands in the list for itself.
pub proof fn lemma_delta_rows_concat(a: Seq<FileDelta>, b: Seq<FileDelta>)
    ensures
        delta_rows(a + b) == delta_rows(a) + delta_rows(b),
        forall|d: FileDelta|
            #[trigger] delta_rows(seq![d]) == match delta_row(d) {
                Some(row) => seq![row],
                None => Seq::empty(),
            },
    decreases b.len(),
{
    if b.len() == 0 {
        assert(a + b =~= a);
        assert(delta_rows(a) + delta_rows(b) =~= delta_rows(a));
    } else {
        lemma_delta_rows_concat(a, b.drop_last());
        assert((a + b).drop_last() =~= a + b.drop_last());
        assert(delta_rows(a + b) =~= delta_rows(a) + delta_rows(b));
    }
    assert forall|d: FileDelta| #[trigger] delta_rows(seq![d]) == match delta_row(d) {
        Some(row) => seq![row],
        None => Seq::empty(),
    } by {
        reveal_with_fuel(delta_rows, 2);
        assert(seq![d].drop_last() =~= Seq::<FileDelta>::empty());
        assert(delta_rows(seq![d]) =~= match delta_row(d) {
            Some(row) => seq![row],
            None => Seq::empty(),
        });
    }
}

/// A branch is listed with what was read of it, and left out only if its name could not be read.
/// Only a local branch follows another one.
pub proof fn lemma_listed_branch(entry: BranchEntry)
    ensures
        entry.listed() is None <==> entry.name is None,
        entry.listed() matches Some(branch) ==> {
            &&& Some(branch.name) == opt_view(entry.name)
            &&& branch.kind == entry.kind
            &&& branch.is_head == entry.is_head
            &&& branch.upstream is Some ==> branch.upstream == opt_view(entry.upstream)
            &&& branch.upstream is Some <==> entry.upstream is Some && entry.kind == BranchKind::Local
        },
{
}

/// No branch that can be read is lost and none is made up.
pub proof fn lemma_listed_branches_concat(a: Seq<BranchEntry>, b: Seq<BranchEntry>)
    ensures
        listed_branches(a + b) == listed_branches(a) + listed_branches(b),
        forall|e: BranchEntry|
            #[trigger] listed_branches(seq![e]) == match e.listed() {
                Some(branch) => seq![branch],
                None => Seq::empty(),
            },
    decreases b.len(),
{
    if b.len() == 0 {
        assert(a + b =~= a);
        assert(listed_branches(a) + listed_branches(b) =~= listed_branches(a));
    } else {
        lemma_listed_branches_concat(a, b.drop_last());
        assert((a + b).drop_last() =~= a + b.drop_last());
        assert(listed_branches(a + b) =~= listed_branches(a) + listed_branches(b));
    }
    assert forall|e: BranchEntry| #[trigger] listed_branches(seq![e]) == match e.listed() {
        Some(branch) => seq![branch],
        None => Seq::empty(),
    } by {
        reveal_with_fuel(listed_branches, 2);
        assert(seq![e].drop_last() =~= Seq::<BranchEntry>::empty());
        assert(listed_branches(seq![e]) =~= match e.listed() {
            Some(branch) => seq![branch],
            None => Seq::empty(),
        });
    }
}

/// Local branches come before remote ones, and branches of one kind by name.
pub proof fn lemma_branches_are_ordered(a: BranchView, b: BranchView)
    ensures
        a.kind == BranchKind::Local && b.kind == BranchKind::Remote ==> key_less(
            branch_key(a),
            branch_key(b),
        ) && !key_less(branch_key(b), branch_key(a)),
        a.kind == b.kind ==> (key_less(branch_key(a), branch_key(b)) <==> text_less(a.name, b.name)),
{
}

/// The path of a conflict is that of our side where there is one, else that of their side, else
/// that of what both come from.
pub proof fn lemma_conflict_path_is_of_a_side(c: ConflictPaths)
    ensures
        c.bytes() is None <==> c.our is None && c.their is None && c.ancestor is None,
        c.our matches Some(p) ==> c.bytes() == Some(p@),
        c.our is None && c.their is Some ==> c.bytes() == Some(c.their->0@),
        c.our is None && c.their is None && c.ancestor is Some ==> c.bytes() == Some(c.ancestor->0@),
        c.text() matches Some(text) ==> c.bytes() is Some && valid_utf8(c.bytes()->0)
            && decode_utf8(c.bytes()->0) == text,
        c.bytes() matches Some(b) && valid_utf8(b) ==> c.text() is Some,
{
}

/// A list of names that was sorted holds the same names, each as often, and no name before a smaller
/// one.
pub proof fn lemma_names_are_sorted(before: Seq<Seq<char>>, after: Seq<Seq<char>>) -> (order: Seq<
    usize,
>)
    requires
        is_sorted_text(before, after),
    ensures
        after.len() == before.len(),
        order.len() == before.len(),
        order.no_duplicates(),
        forall|i: int|
            0 <= i < after.len() ==> (#[trigger] order[i]) < before.len() && after[i]
                == before[order[i] as int],
        forall|i: int, j: int|
            #![trigger after[i], after[j]]
            0 <= i < j < after.len() ==> after[i] == after[j] || text_less(after[i], after[j]),
{
    let f = |n: Seq<char>| KeyView { rank: 0, name: n };
    let order = lemma_sorting_rearranges(before, name_keys(before), after, f);
    assert forall|i: int, j: int|
        #![trigger after[i], after[j]]
        0 <= i < j < after.len() implies after[i] == after[j] || text_less(after[i], after[j]) by {
        assert(f(after[i]).name == after[i] && f(after[j]).name == after[j]);
    }
    order
}

/// The branches of a repository are those that are listed, local ones first, and those of one kind by
/// their names.
pub proof fn lemma_branches_are_sorted(before: Seq<BranchView>, after: Seq<BranchView>) -> (order: Seq<
    usize,
>)
    requires
        is_sorted_copy(before, view_keys(before), after),
    ensures
        after.len() == before.len(),
        order.len() == before.len(),
        order.no_duplicates(),
        forall|i: int|
            0 <= i < after.len() ==> (#[trigger] order[i]) < before.len() && after[i]
                == before[order[i] as int],
        forall|i: int, j: int|
            #![trigger after[i], after[j]]
            0 <= i < j < after.len() ==> {
                &&& after[i].kind == BranchKind::Remote ==> after[j].kind == BranchKind::Remote
                &&& after[i].kind == after[j].kind ==> after[i].name == after[j].name || text_less(
                    after[i].name,
                    after[j].name,
                )
            },
{
    let f = |b: BranchView| branch_key(b);
    let order = lemma_sorting_rearranges(before, view_keys(before), after, f);
    assert forall|i: int, j: int|
        #![trigger after[i], after[j]]
        0 <= i < j < after.len() implies {
        &&& after[i].kind == BranchKind::Remote ==> after[j].kind == BranchKind::Remote
        &&& after[i].kind == after[j].kind ==> after[i].name == after[j].name || text_less(
            after[i].name,
            after[j].name,
        )
    } by {
        assert(f(after[i]) == branch_key(after[i]) && f(after[j]) == branch_key(after[j]));
    }
    order
}

/// The files of a commit are listed by their paths, each that was touched and no other.
pub proof fn lemma_files_are_sorted(before: Seq<CommitFileView>, after: Seq<CommitFileView>) -> (order:
    Seq<usize>)
    requires
        is_sorted_copy(before, file_keys(before), after),
    ensures
        after.len() == before.len(),
        order.len() == before.len(),
        order.no_duplicates(),
        forall|i: int|
            0 <= i < after.len() ==> (#[trigger] order[i]) < before.len() && after[i]
                == before[order[i] as int],
        forall|i: int, j: int|
            #![trigger after[i], after[j]]
            0 <= i < j < after.len() ==> after[i].path == after[j].path || text_less(
                after[i].path,
                after[j].path,
            ),
{
    let f = |r: CommitFileView| KeyView { rank: 0, name: r.path };
    let order = lemma_sorting_rearranges(before, file_keys(before), after, f);
    assert forall|i: int, j: int|
        #![trigger after[i], after[j]]
        0 <= i < j < after.len() implies after[i].path == after[j].path || text_less(
        after[i].path,
        after[j].path,
    ) by {
        assert(f(after[i]).name == after[i].path && f(after[j]).name == after[j].path);
    }
    order
}

/// The names that are there are kept in their order, and only what is no text is left out.
pub proof fn lemma_present_names(before: Seq<Option<String>>, name: Option<String>, name_text: String)
    ensures
        present(Seq::empty()) == Seq::<String>::empty(),
        name == Some(name_text) ==> present(before.push(name)) == present(before).push(name_text),
        name is None ==> present(before.push(name)) == present(before),
{
    assert(before.push(name).drop_last() =~= before);
}

/// A file is in conflict if a conflict has its path.
pub proof fn lemma_files_in_conflict(entries: Seq<ConflictPaths>, i: int, path: Seq<char>)
    ensures
        0 <= i < entries.len() && entries[i].text() == Some(path) ==> in_conflict(entries, path),
        (forall|k: int| 0 <= k < entries.len() ==> (#[trigger] entries[k]).text() != Some(path))
            ==> !in_conflict(entries, path),
{
}

} // verus!
