//! The commits of a repository and the references that point to them.

use vstd::prelude::*;
use vstd::string::StringExecFns;

use crate::order::{key_less, lemma_key_less_total, KeyView};
use crate::strings::{
    clone_strings, contains_str, contains_text, ends_with, lemma_text_less_transitive, opt_view,
    str_eq, str_less, views,
};
use crate::strset::{strictly_sorted, StringSet};
use crate::text::{from_chars, to_chars};
use crate::types::{views_of, CommitInfo, CommitRefInfo, CommitRefKind, CommitRefView, GitError};

verus! {

// ---------------------------------------------------------------------------
// References
// ---------------------------------------------------------------------------
pub open spec fn kind_rank(kind: CommitRefKind) -> u8 {
    match kind {
        CommitRefKind::Head => 0,
        CommitRefKind::LocalBranch => 1,
        CommitRefKind::RemoteBranch => 2,
        CommitRefKind::Tag => 3,
    }
}

/// The place of a kind of reference in a list: `HEAD`, local branches, remote branches, tags.
pub fn ref_kind_order(kind: &CommitRefKind) -> (r: u8)
    ensures
        r == kind_rank(*kind),
{
    match kind {
        CommitRefKind::Head => 0,
        CommitRefKind::LocalBranch => 1,
        CommitRefKind::RemoteBranch => 2,
        CommitRefKind::Tag => 3,
    }
}

pub open spec fn ref_key(r: CommitRefView) -> KeyView {
    KeyView { rank: kind_rank(r.kind), name: r.name }
}

/// Whether the references come in order, each once.
pub open spec fn refs_sorted(refs: Seq<CommitRefInfo>) -> bool {
    forall|i: int, j: int|
        0 <= i < j < refs.len() ==> key_less(
            ref_key((#[trigger] refs[i])@),
            ref_key((#[trigger] refs[j])@),
        )
}

pub open spec fn has_ref(refs: Seq<CommitRefInfo>, r: CommitRefView) -> bool {
    exists|i: int| 0 <= i < refs.len() && (#[trigger] refs[i])@ == r
}

pub proof fn lemma_ref_key_injective(a: CommitRefView, b: CommitRefView)
    requires
        ref_key(a) == ref_key(b),
    ensures
        a == b,
{
}

proof fn lemma_key_less_transitive(a: KeyView, b: KeyView, c: KeyView)
    requires
        key_less(a, b),
        key_less(b, c),
    ensures
        key_less(a, c),
{
    if a.rank == b.rank && b.rank == c.rank {
        lemma_text_less_transitive(a.name, b.name, c.name);
    }
}

fn ref_less(a: &CommitRefInfo, b: &CommitRefInfo) -> (r: bool)
    ensures
        r == key_less(ref_key(a@), ref_key(b@)),
{
    let x: u8 = ref_kind_order(&a.kind);
    let y: u8 = ref_kind_order(&b.kind);
    x < y || (x == y && str_less(a.name.as_str(), b.name.as_str()))
}

/// Adds a reference to a list in order, unless it is there.
fn insert_ref(refs: &mut Vec<CommitRefInfo>, new: CommitRefInfo)
    requires
        refs_sorted(old(refs)@),
    ensures
        refs_sorted(final(refs)@),
        forall|r: CommitRefView|
            #[trigger] has_ref(final(refs)@, r) <==> (has_ref(old(refs)@, r) || r == new@),
{
    let ghost before = refs@;
    let ghost added = new@;
    let mut at: usize = 0;
    while at < refs.len() && ref_less(&refs[at], &new)
        invariant
            at <= refs@.len(),
            refs@ == before,
            new@ == added,
            forall|j: int| 0 <= j < at ==> key_less(ref_key((#[trigger] refs@[j])@), ref_key(added)),
        decreases refs@.len() - at,
    {
        at = at + 1;
    }
    if at < refs.len() && refs[at].kind == new.kind && str_eq(
        refs[at].name.as_str(),
        new.name.as_str(),
    ) {
        proof {
            assert(before[at as int]@ == added);
            assert forall|r: CommitRefView| #[trigger] has_ref(refs@, r) <==> (has_ref(before, r) || r
                == added) by {}
        }
        return;
    }
    refs.insert(at, new);
    proof {
        assert(refs@ =~= before.insert(at as int, new));
        assert forall|i: int, j: int| 0 <= i < j < refs@.len() implies key_less(
            ref_key((#[trigger] refs@[i])@),
            ref_key((#[trigger] refs@[j])@),
        ) by {
            let x = if i < at {
                i
            } else {
                i - 1
            };
            let y = if j < at {
                j
            } else {
                j - 1
            };
            if i != at && j != at {
                assert(refs@[i] == before[x]);
                assert(refs@[j] == before[y]);
            } else if i == at {
                assert(refs@[j] == before[y]);
                lemma_key_less_total(ref_key(before[at as int]@), ref_key(added));
                if ref_key(before[at as int]@) == ref_key(added) {
                    lemma_ref_key_injective(before[at as int]@, added);
                }
                if y > at {
                    lemma_key_less_transitive(
                        ref_key(added),
                        ref_key(before[at as int]@),
                        ref_key(before[y]@),
                    );
                }
            } else {
                assert(refs@[i] == before[i]);
            }
        }
        assert forall|r: CommitRefView| #[trigger] has_ref(refs@, r) <==> (has_ref(before, r) || r
            == added) by {
            if has_ref(refs@, r) {
                let k = choose|k: int| 0 <= k < refs@.len() && (#[trigger] refs@[k])@ == r;
                if k < at {
                    assert(before[k]@ == r);
                } else if k > at {
                    assert(before[k - 1]@ == r);
                }
            }
            if has_ref(before, r) {
                let k = choose|k: int| 0 <= k < before.len() && (#[trigger] before[k])@ == r;
                if k < at {
                    assert(refs@[k]@ == r);
                } else {
                    assert(refs@[k + 1]@ == r);
                }
            }
            if r == added {
                assert(refs@[at as int]@ == r);
            }
        }
    }
}

/// A branch as it is read from the repository.
pub struct BranchTip {
    pub name: Option<String>,
    pub remote: bool,
    /// The id of what the branch points to.
    pub target: Option<String>,
    /// Whether that is a commit that can be read.
    pub is_commit: bool,
}

/// A tag and the id of the commit that it stands for, if it stands for one.
pub struct TagTip {
    pub name: String,
    pub commit: Option<String>,
}

/// A reference that points to the commit `oid`.
#[derive(Debug, PartialEq, Eq)]
pub struct CommitLabel {
    pub oid: String,
    pub reference: CommitRefInfo,
}

pub struct LabelView {
    pub oid: Seq<char>,
    pub reference: CommitRefView,
}

impl View for CommitLabel {
    type V = LabelView;

    open spec fn view(&self) -> LabelView {
        LabelView { oid: self.oid@, reference: self.reference@ }
    }
}

/// The label of a branch, unless it is the head of a remote or points to no commit.
pub open spec fn branch_label(tip: BranchTip) -> Option<LabelView> {
    match (tip.name, tip.target) {
        (Some(name), Some(target)) => if !(tip.remote && "/HEAD"@.is_suffix_of(name@))
            && tip.is_commit {
            Some(
                LabelView {
                    oid: target@,
                    reference: CommitRefView {
                        name: name@,
                        kind: if tip.remote {
                            CommitRefKind::RemoteBranch
                        } else {
                            CommitRefKind::LocalBranch
                        },
                    },
                },
            )
        } else {
            None
        },
        _ => None,
    }
}

pub open spec fn tag_label(tip: TagTip) -> Option<LabelView> {
    match tip.commit {
        Some(commit) => Some(
            LabelView {
                oid: commit@,
                reference: CommitRefView { name: tip.name@, kind: CommitRefKind::Tag },
            },
        ),
        None => None,
    }
}

pub open spec fn branch_labels(tips: Seq<BranchTip>) -> Seq<LabelView>
    decreases tips.len(),
{
    if tips.len() == 0 {
        Seq::empty()
    } else {
        match branch_label(tips.last()) {
            Some(l) => branch_labels(tips.drop_last()).push(l),
            None => branch_labels(tips.drop_last()),
        }
    }
}

pub open spec fn tag_labels(tips: Seq<TagTip>) -> Seq<LabelView>
    decreases tips.len(),
{
    if tips.len() == 0 {
        Seq::empty()
    } else {
        match tag_label(tips.last()) {
            Some(l) => tag_labels(tips.drop_last()).push(l),
            None => tag_labels(tips.drop_last()),
        }
    }
}

pub open spec fn head_labels(head: Option<String>) -> Seq<LabelView> {
    match head {
        Some(oid) => seq![
            LabelView {
                oid: oid@,
                reference: CommitRefView { name: "HEAD"@, kind: CommitRefKind::Head },
            },
        ],
        None => Seq::empty(),
    }
}

/// All labels: of branches, of tags, and of the head.
pub open spec fn all_labels(
    branches: Seq<BranchTip>,
    tags: Seq<TagTip>,
    head: Option<String>,
) -> Seq<LabelView> {
    branch_labels(branches) + tag_labels(tags) + head_labels(head)
}

/// Whether the walk through the history starts at `oid`: at every branch and at the head.
pub open spec fn is_start(branches: Seq<BranchTip>, head: Option<String>, oid: Seq<char>) -> bool {
    ||| exists|i: int|
        0 <= i < branch_labels(branches).len() && (#[trigger] branch_labels(branches)[i]).oid == oid
    ||| opt_view(head) == Some(oid)
}

/// What is known of the references before the history is walked.
pub struct GraphRefs {
    /// The commits to start from, in order, each once.
    pub starts: Vec<String>,
    pub labels: Vec<CommitLabel>,
}

pub fn commit_graph_refs(
    branches: &Vec<BranchTip>,
    tags: &Vec<TagTip>,
    head: &Option<String>,
) -> (r: GraphRefs)
    ensures
        views_of(r.labels@) == all_labels(branches@, tags@, *head),
        strictly_sorted(views(r.starts@)),
        forall|oid: Seq<char>|
            #[trigger] views(r.starts@).contains(oid) <==> is_start(branches@, *head, oid),
{
    let mut labels: Vec<CommitLabel> = Vec::new();
    let mut starts = StringSet::new();
    let mut i: usize = 0;
    assert(branches@.take(0) =~= Seq::<BranchTip>::empty());
    assert(views_of(labels@) =~= branch_labels(branches@.take(0)));
    while i < branches.len()
        invariant
            i <= branches@.len(),
            views_of(labels@) == branch_labels(branches@.take(i as int)),
            starts.wf(),
            forall|oid: Seq<char>|
                #[trigger] starts@.contains(oid) <==> is_start(
                    branches@.take(i as int),
                    None,
                    oid,
                ),
        decreases branches@.len() - i,
    {
        let ghost before = labels@;
        let ghost tip = branches@[i as int];
        let ghost head_tips = branches@.take(i as int);
        let ghost more = branches@.take(i as int + 1);
        proof {
            assert(more.drop_last() =~= head_tips);
            assert(more.last() == tip);
        }
        let mut label: Option<CommitLabel> = None;
        match (&branches[i].name, &branches[i].target) {
            (Some(name), Some(target)) => {
                let skipped = branches[i].remote && ends_with(name.as_str(), "/HEAD");
                if !skipped && branches[i].is_commit {
                    let kind = if branches[i].remote {
                        CommitRefKind::RemoteBranch
                    } else {
                        CommitRefKind::LocalBranch
                    };
                    label = Some(
                        CommitLabel {
                            oid: target.clone(),
                            reference: CommitRefInfo { name: name.clone(), kind },
                        },
                    );
                }
            },
            _ => {},
        }
        proof {
            assert(match label {
                Some(l) => branch_label(tip) == Some(l@),
                None => branch_label(tip) is None,
            });
            let a = branch_labels(head_tips);
            let b = branch_labels(more);
            assert forall|oid: Seq<char>| is_start(more, None, oid) <==> (is_start(
                head_tips,
                None,
                oid,
            ) || (branch_label(tip) is Some && branch_label(tip)->0.oid == oid)) by {
                if is_start(more, None, oid) {
                    let k = choose|k: int| 0 <= k < b.len() && (#[trigger] b[k]).oid == oid;
                    if k < a.len() {
                        assert(a[k].oid == oid);
                    }
                }
                if is_start(head_tips, None, oid) {
                    let k = choose|k: int| 0 <= k < a.len() && (#[trigger] a[k]).oid == oid;
                    assert(b[k].oid == oid);
                }
                if branch_label(tip) is Some && branch_label(tip)->0.oid == oid {
                    assert(b[a.len() as int].oid == oid);
                }
            }
        }
        match label {
            Some(label) => {
                starts.insert(label.oid.clone());
                labels.push(label);
                assert(views_of(labels@) =~= views_of(before).push(label@));
            },
            None => {},
        }
        i = i + 1;
    }
    assert(branches@.take(i as int) =~= branches@);
    let ghost of_branches = labels@;
    let mut j: usize = 0;
    assert(tags@.take(0) =~= Seq::<TagTip>::empty());
    assert(views_of(labels@) =~= branch_labels(branches@) + tag_labels(tags@.take(0)));
    while j < tags.len()
        invariant
            j <= tags@.len(),
            views_of(labels@) == branch_labels(branches@) + tag_labels(tags@.take(j as int)),
        decreases tags@.len() - j,
    {
        let ghost before = labels@;
        proof {
            let more = tags@.take(j as int + 1);
            assert(more.drop_last() =~= tags@.take(j as int));
            assert(more.last() == tags@[j as int]);
        }
        match &tags[j].commit {
            Some(commit) => {
                let label = CommitLabel {
                    oid: commit.clone(),
                    reference: CommitRefInfo {
                        name: tags[j].name.clone(),
                        kind: CommitRefKind::Tag,
                    },
                };
                labels.push(label);
                assert(views_of(labels@) =~= views_of(before).push(label@));
                assert(views_of(labels@) =~= branch_labels(branches@) + tag_labels(
                    tags@.take(j as int + 1),
                ));
            },
            None => {},
        }
        j = j + 1;
    }
    assert(tags@.take(j as int) =~= tags@);
    let ghost before = labels@;
    let ghost starts_before = starts@;
    match head {
        Some(oid) => {
            starts.insert(oid.clone());
            let label = CommitLabel {
                oid: oid.clone(),
                reference: CommitRefInfo {
                    name: "HEAD".to_string(),
                    kind: CommitRefKind::Head,
                },
            };
            labels.push(label);
            assert(views_of(labels@) =~= views_of(before).push(label@));
            assert(views_of(labels@) =~= all_labels(branches@, tags@, *head));
        },
        None => {
            assert(all_labels(branches@, tags@, *head) =~= branch_labels(branches@) + tag_labels(
                tags@,
            ));
        },
    }
    proof {
        assert forall|oid: Seq<char>| #[trigger] views(starts.items@).contains(oid) <==> is_start(
            branches@,
            *head,
            oid,
        ) by {
            assert(starts@.contains(oid) <==> views(starts.items@).contains(oid));
            assert(starts_before.contains(oid) <==> is_start(branches@, None, oid));
        }
    }
    GraphRefs { starts: starts.items, labels }
}

/// Whether `labels` has the reference `r` on the commit `oid`.
pub open spec fn labelled(labels: Seq<CommitLabel>, oid: Seq<char>, r: CommitRefView) -> bool {
    exists|i: int|
        0 <= i < labels.len() && (#[trigger] labels[i])@ == (LabelView { oid, reference: r })
}

/// The references on one commit, in order, each once.
pub fn refs_of(labels: &Vec<CommitLabel>, oid: &str) -> (refs: Vec<CommitRefInfo>)
    ensures
        refs_sorted(refs@),
        forall|r: CommitRefView|
            #[trigger] has_ref(refs@, r) <==> labelled(labels@, oid@, r),
{
    let mut refs: Vec<CommitRefInfo> = Vec::new();
    let mut i: usize = 0;
    while i < labels.len()
        invariant
            i <= labels@.len(),
            refs_sorted(refs@),
            forall|r: CommitRefView|
                #[trigger] has_ref(refs@, r) <==> labelled(labels@.take(i as int), oid@, r),
        decreases labels@.len() - i,
    {
        let ghost before = refs@;
        proof {
            let head = labels@.take(i as int);
            let more = labels@.take(i as int + 1);
            assert forall|r: CommitRefView| #[trigger]
                labelled(more, oid@, r) <==> (labelled(head, oid@, r) || labels@[i as int]@
                == (LabelView { oid: oid@, reference: r })) by {
                if labelled(more, oid@, r) {
                    let k = choose|k: int|
                        0 <= k < more.len() && (#[trigger] more[k])@ == (LabelView {
                            oid: oid@,
                            reference: r,
                        });
                    if k < i {
                        assert(head[k]@ == more[k]@);
                    }
                }
                if labelled(head, oid@, r) {
                    let k = choose|k: int|
                        0 <= k < head.len() && (#[trigger] head[k])@ == (LabelView {
                            oid: oid@,
                            reference: r,
                        });
                    assert(more[k]@ == head[k]@);
                }
                assert(more[i as int] == labels@[i as int]);
            }
        }
        if str_eq(labels[i].oid.as_str(), oid) {
            insert_ref(&mut refs, labels[i].reference.clone());
        }
        i = i + 1;
    }
    assert(labels@.take(i as int) =~= labels@);
    refs
}

/// There is only one list in order with given references.
pub proof fn lemma_refs_are_unique(a: Seq<CommitRefInfo>, b: Seq<CommitRefInfo>)
    requires
        refs_sorted(a),
        refs_sorted(b),
        forall|r: CommitRefView| #[trigger] has_ref(a, r) <==> has_ref(b, r),
    ensures
        views_of(a) == views_of(b),
    decreases a.len(),
{
    if a.len() == 0 {
        if b.len() > 0 {
            assert(b[0]@ == b[0]@);
            assert(has_ref(b, b[0]@));
            assert(has_ref(a, b[0]@));
        }
        assert(views_of(a) =~= views_of(b));
    } else {
        let x = a.last()@;
        assert(a[a.len() - 1]@ == x);
        assert(has_ref(a, x));
        assert(has_ref(b, x));
        let j = choose|j: int| 0 <= j < b.len() && (#[trigger] b[j])@ == x;
        let y = b.last()@;
        assert(b[b.len() - 1]@ == y);
        assert(has_ref(b, y));
        assert(has_ref(a, y));
        let i = choose|i: int| 0 <= i < a.len() && (#[trigger] a[i])@ == y;
        lemma_key_less_total(ref_key(x), ref_key(y));
        assert(i < a.len() - 1 ==> key_less(ref_key(a[i]@), ref_key(a[a.len() - 1]@)));
        assert(j < b.len() - 1 ==> key_less(ref_key(b[j]@), ref_key(b[b.len() - 1]@)));
        if ref_key(x) == ref_key(y) {
            lemma_ref_key_injective(x, y);
        }
        assert(x == y);
        let a1 = a.drop_last();
        let b1 = b.drop_last();
        assert forall|r: CommitRefView| #[trigger] has_ref(a1, r) <==> has_ref(b1, r) by {
            if has_ref(a1, r) {
                let k = choose|k: int| 0 <= k < a1.len() && (#[trigger] a1[k])@ == r;
                assert(a[k]@ == r);
                assert(has_ref(a, r));
                assert(has_ref(b, r));
                let m = choose|m: int| 0 <= m < b.len() && (#[trigger] b[m])@ == r;
                lemma_key_less_total(ref_key(r), ref_key(x));
                assert(key_less(ref_key(a[k]@), ref_key(a[a.len() - 1]@)));
                assert(b1[m]@ == r);
            }
            if has_ref(b1, r) {
                let k = choose|k: int| 0 <= k < b1.len() && (#[trigger] b1[k])@ == r;
                assert(b[k]@ == r);
                assert(has_ref(b, r));
                assert(has_ref(a, r));
                let m = choose|m: int| 0 <= m < a.len() && (#[trigger] a[m])@ == r;
                lemma_key_less_total(ref_key(r), ref_key(x));
                assert(key_less(ref_key(b[k]@), ref_key(b[b.len() - 1]@)));
                assert(a1[m]@ == r);
            }
        }
        lemma_refs_are_unique(a1, b1);
        assert(views_of(a) =~= views_of(a1).push(x));
        assert(views_of(b) =~= views_of(b1).push(x));
    }
}

// ---------------------------------------------------------------------------
// Commits
// ---------------------------------------------------------------------------
/// At most the first `n` characters.
pub open spec fn shortened(s: Seq<char>, n: int) -> Seq<char> {
    if s.len() <= n {
        s
    } else {
        s.take(n)
    }
}

/// A commit as it is read from the repository.
pub struct RawCommit {
    pub oid: String,
    pub summary: Option<String>,
    pub author: Option<String>,
    pub time: i64,
    pub parents: Vec<String>,
}

/// The row for one commit.
pub fn commit_info(raw: &RawCommit, labels: &Vec<CommitLabel>) -> (r: CommitInfo)
    ensures
        r.oid@ == raw.oid@,
        r.short_oid@ == shortened(raw.oid@, 8),
        r.summary@ == match raw.summary {
            Some(s) => s@,
            None => "(无提交信息)"@,
        },
        r.author@ == match raw.author {
            Some(a) => a@,
            None => "未知作者"@,
        },
        r.time == raw.time,
        views(r.parents@) == views(raw.parents@),
        refs_sorted(r.refs@),
        forall|x: CommitRefView|
            #[trigger] has_ref(r.refs@, x) <==> labelled(labels@, raw.oid@, x),
{
    let chars: Vec<char> = to_chars(raw.oid.as_str());
    let end: usize = if chars.len() < 8 {
        chars.len()
    } else {
        8
    };
    let short_oid = from_chars(&chars, 0, end);
    assert(short_oid@ =~= shortened(raw.oid@, 8));
    let summary: String = match &raw.summary {
        Some(s) => s.clone(),
        None => "(无提交信息)".to_string(),
    };
    let author: String = match &raw.author {
        Some(a) => a.clone(),
        None => "未知作者".to_string(),
    };
    CommitInfo {
        oid: raw.oid.clone(),
        short_oid,
        summary,
        author,
        time: raw.time,
        parents: clone_strings(&raw.parents),
        refs: refs_of(labels, raw.oid.as_str()),
    }
}

/// The part of a walk that a page shows.
pub open spec fn page_of<T>(walk: Seq<T>, offset: int, limit: int) -> Seq<T> {
    let from = if offset < walk.len() {
        offset
    } else {
        walk.len() as int
    };
    let to = if from + limit < walk.len() {
        from + limit
    } else {
        walk.len() as int
    };
    walk.subrange(from, to)
}

/// Pages that follow each other show every commit of the walk once: put together they are
/// one larger page.
pub proof fn lemma_pages_do_not_overlap<T>(walk: Seq<T>, offset: int, first: int, second: int)
    requires
        0 <= offset,
        0 <= first,
        0 <= second,
    ensures
        page_of(walk, offset, first) + page_of(walk, offset + first, second) == page_of(
            walk,
            offset,
            first + second,
        ),
{
    assert(page_of(walk, offset, first) + page_of(walk, offset + first, second) =~= page_of(
        walk,
        offset,
        first + second,
    ));
}

/// Every page is a window of the one page that shows the whole walk: it starts where it is asked
/// to, shows as many commits as it is asked to while there are any, and keeps their order. A
/// walk that comes to no commit twice gives pages without repeats.
pub proof fn lemma_pages_are_windows<T>(walk: Seq<T>, offset: int, limit: int, whole: int)
    requires
        0 <= offset,
        0 <= limit,
        walk.len() <= whole,
    ensures
        page_of(walk, 0, whole) == walk,
        ({
            let all = page_of(walk, 0, whole);
            let n = all.len() as int;
            let from = if offset < n {
                offset
            } else {
                n
            };
            let to = if offset + limit < n {
                offset + limit
            } else {
                n
            };
            page_of(walk, offset, limit) == all.subrange(from, to)
        }),
        walk.no_duplicates() ==> page_of(walk, offset, limit).no_duplicates(),
        walk.len() == 0 ==> page_of(walk, offset, limit).len() == 0,
{
    assert(page_of(walk, 0, whole) =~= walk);
}

/// The ids on one page of a walk through the history.
pub fn commit_page(walk: &Vec<String>, offset: usize, limit: usize) -> (r: Vec<String>)
    ensures
        views(r@) == page_of(views(walk@), offset as int, limit as int),
{
    let from: usize = if offset < walk.len() {
        offset
    } else {
        walk.len()
    };
    let to: usize = if limit < walk.len() - from {
        from + limit
    } else {
        walk.len()
    };
    let mut r: Vec<String> = Vec::new();
    let mut i: usize = from;
    assert(views(r@) =~= views(walk@).subrange(from as int, i as int));
    while i < to
        invariant
            from <= i <= to <= walk@.len(),
            views(r@) == views(walk@).subrange(from as int, i as int),
        decreases to - i,
    {
        let ghost before = r@;
        r.push(walk[i].clone());
        assert(views(r@) =~= views(before).push(walk@[i as int]@));
        assert(views(walk@).subrange(from as int, i as int + 1) =~= views(walk@).subrange(
            from as int,
            i as int,
        ).push(walk@[i as int]@));
        i = i + 1;
    }
    r
}

/// How a failed call into the repository failed.
#[derive(Clone, Copy, Debug, PartialEq, Eq, Structural)]
pub enum FaultCode {
    UnbornBranch,
    NotFound,
    Other,
}

pub open spec fn is_empty_head(code: FaultCode, message: Seq<char>) -> bool {
    code == FaultCode::UnbornBranch || code == FaultCode::NotFound || contains_text(
        message,
        "reference 'refs/heads/"@,
    )
}

/// Whether a failure says only that the repository has no commit yet.
pub fn is_empty_head_error(code: FaultCode, message: &str) -> (r: bool)
    ensures
        r == is_empty_head(code, message@),
{
    code == FaultCode::UnbornBranch || code == FaultCode::NotFound || contains_str(
        message,
        "reference 'refs/heads/",
    )
}

/// Where a walk through the history starts.
#[derive(Debug, PartialEq, Eq)]
pub enum WalkStart {
    /// At what is checked out.
    Head,
    /// At these commits, pushed in this order.
    Commits(Vec<String>),
}

/// Where the walk starts that shows the history of all branches, or of what is checked out. A
/// repository without a branch or a tag to start from shows what is checked out too.
pub fn walk_start(all_branches: bool, refs: &GraphRefs) -> (r: WalkStart)
    ensures
        if all_branches && refs.starts@.len() > 0 {
            r matches WalkStart::Commits(starts) && views(starts@) == views(refs.starts@)
        } else {
            r is Head
        },
{
    if all_branches && refs.starts.len() > 0 {
        WalkStart::Commits(clone_strings(&refs.starts))
    } else {
        WalkStart::Head
    }
}

/// What is shown where a walk cannot start at what is checked out: nothing in a repository
/// without a commit.
pub fn history_without_head(code: FaultCode, message: String) -> (r: Result<
    Vec<CommitInfo>,
    GitError,
>)
    ensures
        if is_empty_head(code, message@) {
            r matches Ok(commits) && commits@.len() == 0
        } else {
            r matches Err(e) && e.git_says(message@)
        },
{
    if is_empty_head_error(code, message.as_str()) {
        Ok(Vec::new())
    } else {
        Err(GitError::Git(message))
    }
}

// ---------------------------------------------------------------------------
// Laws of labels
// ---------------------------------------------------------------------------
/// The head is named first, then the branches, then those of remotes, then the tags.
pub proof fn lemma_kinds_are_ordered()
    ensures
        kind_rank(CommitRefKind::Head) < kind_rank(CommitRefKind::LocalBranch),
        kind_rank(CommitRefKind::LocalBranch) < kind_rank(CommitRefKind::RemoteBranch),
        kind_rank(CommitRefKind::RemoteBranch) < kind_rank(CommitRefKind::Tag),
{
}

/// The labels of a commit are in order: by their kind, and those of one kind by their names.
pub proof fn lemma_refs_are_in_order(refs: Seq<CommitRefInfo>, i: int, j: int)
    requires
        refs_sorted(refs),
        0 <= i < j < refs.len(),
    ensures
        refs[i].kind == refs[j].kind ==> crate::strings::text_less(refs[i].name@, refs[j].name@),
        refs[i].kind == CommitRefKind::Tag ==> refs[j].kind == CommitRefKind::Tag,
        refs[j].kind == CommitRefKind::Head ==> refs[i].kind == CommitRefKind::Head,
        refs[i].kind == CommitRefKind::RemoteBranch ==> refs[j].kind != CommitRefKind::LocalBranch,
{
    assert(key_less(ref_key(refs[i]@), ref_key(refs[j]@)));
}

/// A branch labels the commit that it points to with its own name, as a branch of the repository or
/// of a remote. One without a name or a commit labels nothing, and the head of a remote neither.
pub proof fn lemma_branch_label(tip: BranchTip)
    ensures
        match branch_label(tip) {
            Some(label) => {
                &&& tip.name matches Some(name)
                &&& tip.target matches Some(target)
                &&& tip.is_commit
                &&& !(tip.remote && "/HEAD"@.is_suffix_of(name@))
                &&& label.oid == target@
                &&& label.reference.name == name@
                &&& label.reference.kind == if tip.remote {
                    CommitRefKind::RemoteBranch
                } else {
                    CommitRefKind::LocalBranch
                }
            },
            None => {
                ||| tip.name is None
                ||| tip.target is None
                ||| !tip.is_commit
                ||| tip.remote && "/HEAD"@.is_suffix_of(tip.name->0@)
            },
        },
{
}

/// A tag labels its commit with its own name, and one that leads to none labels nothing.
pub proof fn lemma_tag_label(tip: TagTip)
    ensures
        match tip.commit {
            Some(commit) => tag_label(tip) matches Some(label) && label.oid == commit@
                && label.reference.name == tip.name@ && label.reference.kind == CommitRefKind::Tag,
            None => tag_label(tip) is None,
        },
{
}

/// Every branch that labels a commit has its label in the list, and the list holds no other.
pub proof fn lemma_branch_labels(tips: Seq<BranchTip>, label: LabelView)
    ensures
        branch_labels(tips).contains(label) <==> exists|i: int|
            0 <= i < tips.len() && branch_label(#[trigger] tips[i]) == Some(label),
    decreases tips.len(),
{
    if tips.len() > 0 {
        let head = tips.drop_last();
        lemma_branch_labels(head, label);
        let all = branch_labels(tips);
        let before = branch_labels(head);
        if all.contains(label) {
            let k = choose|k: int| 0 <= k < all.len() && all[k] == label;
            if k < before.len() {
                assert(before[k] == label);
                let i = choose|i: int|
                    0 <= i < head.len() && branch_label(#[trigger] head[i]) == Some(label);
                assert(tips[i] == head[i]);
            } else {
                assert(branch_label(tips[tips.len() - 1]) == Some(label));
            }
        }
        if exists|i: int| 0 <= i < tips.len() && branch_label(#[trigger] tips[i]) == Some(label) {
            let i = choose|i: int|
                0 <= i < tips.len() && branch_label(#[trigger] tips[i]) == Some(label);
            if i < head.len() {
                assert(head[i] == tips[i]);
                let k = choose|k: int| 0 <= k < before.len() && before[k] == label;
                assert(all[k] == label);
            } else {
                assert(all.last() == label);
            }
        }
    }
}

/// Every tag that leads to a commit has its label in the list, and the list holds no other.
pub proof fn lemma_tag_labels(tips: Seq<TagTip>, label: LabelView)
    ensures
        tag_labels(tips).contains(label) <==> exists|i: int|
            0 <= i < tips.len() && tag_label(#[trigger] tips[i]) == Some(label),
    decreases tips.len(),
{
    if tips.len() > 0 {
        let head = tips.drop_last();
        lemma_tag_labels(head, label);
        let all = tag_labels(tips);
        let before = tag_labels(head);
        if all.contains(label) {
            let k = choose|k: int| 0 <= k < all.len() && all[k] == label;
            if k < before.len() {
                assert(before[k] == label);
                let i = choose|i: int|
                    0 <= i < head.len() && tag_label(#[trigger] head[i]) == Some(label);
                assert(tips[i] == head[i]);
            } else {
                assert(tag_label(tips[tips.len() - 1]) == Some(label));
            }
        }
        if exists|i: int| 0 <= i < tips.len() && tag_label(#[trigger] tips[i]) == Some(label) {
            let i = choose|i: int|
                0 <= i < tips.len() && tag_label(#[trigger] tips[i]) == Some(label);
            if i < head.len() {
                assert(head[i] == tips[i]);
                let k = choose|k: int| 0 <= k < before.len() && before[k] == label;
                assert(all[k] == label);
            } else {
                assert(all.last() == label);
            }
        }
    }
}

/// A commit is labelled by exactly the branches and the tags that lead to it, and by the head if it
/// is the commit of the head.
pub proof fn lemma_all_labels(
    branches: Seq<BranchTip>,
    tags: Seq<TagTip>,
    head: Option<String>,
    label: LabelView,
)
    ensures
        all_labels(branches, tags, head).contains(label) <==> {
            ||| exists|i: int|
                0 <= i < branches.len() && branch_label(#[trigger] branches[i]) == Some(label)
            ||| exists|i: int| 0 <= i < tags.len() && tag_label(#[trigger] tags[i]) == Some(label)
            ||| {
                &&& head matches Some(oid)
                &&& label.oid == oid@
                &&& label.reference.name == "HEAD"@
                &&& label.reference.kind == CommitRefKind::Head
            }
        },
{
    lemma_branch_labels(branches, label);
    lemma_tag_labels(tags, label);
    let a = branch_labels(branches);
    let b = tag_labels(tags);
    let c = head_labels(head);
    let all = all_labels(branches, tags, head);
    if all.contains(label) {
        let k = choose|k: int| 0 <= k < all.len() && all[k] == label;
        if k < a.len() {
            assert(a[k] == label);
        } else if k < a.len() + b.len() {
            assert(b[k - a.len()] == label);
        } else {
            assert(c[k - a.len() - b.len()] == label);
        }
    }
    if a.contains(label) {
        let k = choose|k: int| 0 <= k < a.len() && a[k] == label;
        assert(all[k] == label);
    }
    if b.contains(label) {
        let k = choose|k: int| 0 <= k < b.len() && b[k] == label;
        assert(all[a.len() + k] == label);
    }
    if head matches Some(oid) && label.oid == oid@ && label.reference.name == "HEAD"@
        && label.reference.kind == CommitRefKind::Head {
        assert(c[0] == label);
        assert(all[(a.len() + b.len()) as int] == label);
    }
}

/// The history starts from every commit that a branch labels and from the head, and from no other.
pub proof fn lemma_starts(branches: Seq<BranchTip>, head: Option<String>, oid: Seq<char>)
    ensures
        is_start(branches, head, oid) <==> {
            ||| exists|i: int|
                0 <= i < branches.len() && (branch_label(#[trigger] branches[i]) matches Some(label)
                    && label.oid == oid)
            ||| head matches Some(h) && h@ == oid
        },
{
    let labels = branch_labels(branches);
    if exists|i: int| 0 <= i < labels.len() && (#[trigger] labels[i]).oid == oid {
        let i = choose|i: int| 0 <= i < labels.len() && (#[trigger] labels[i]).oid == oid;
        lemma_branch_labels(branches, labels[i]);
        assert(labels.contains(labels[i]));
    }
    if exists|i: int|
        0 <= i < branches.len() && (branch_label(#[trigger] branches[i]) matches Some(label)
            && label.oid == oid) {
        let i = choose|i: int|
            0 <= i < branches.len() && (branch_label(#[trigger] branches[i]) matches Some(label)
                && label.oid == oid);
        let label = branch_label(branches[i])->0;
        lemma_branch_labels(branches, label);
        assert(labels.contains(label));
        let k = choose|k: int| 0 <= k < labels.len() && labels[k] == label;
        assert(labels[k].oid == oid);
    }
}

/// A short name is the start of the name, as long as it may be.
pub proof fn lemma_shortened(s: Seq<char>, n: int)
    requires
        0 <= n,
    ensures
        shortened(s, n).is_prefix_of(s),
        shortened(s, n).len() == if s.len() < n {
            s.len() as int
        } else {
            n
        },
{
    if s.len() > n {
        assert(s.take(n).is_prefix_of(s));
    } else {
        assert(s.is_prefix_of(s));
    }
}

/// A page holds the commits from its offset on, as many as it may and as there are.
pub proof fn lemma_page_holds_what_it_should<T>(walk: Seq<T>, offset: int, limit: int, i: int)
    requires
        0 <= offset,
        0 <= limit,
    ensures
        ({
            let page = page_of(walk, offset, limit);
            &&& page.len() <= limit
            &&& page.len() < limit ==> walk.len() <= offset + page.len()
            &&& 0 <= i < page.len() ==> offset + i < walk.len() && page[i] == walk[offset + i]
        }),
{
}

/// A repository without a commit is one whose branch is not born, whose head is not found, or of
/// whose branch the message says so.
pub proof fn lemma_empty_heads(code: FaultCode, message: Seq<char>)
    ensures
        code is UnbornBranch || code is NotFound ==> is_empty_head(code, message),
        code is Other ==> is_empty_head(code, message) == contains_text(
            message,
            "reference 'refs/heads/"@,
        ),
{
}

/// A commit has a reference if one of the labels is for that commit and that reference.
pub proof fn lemma_labelled(labels: Seq<CommitLabel>, oid: Seq<char>, r: CommitRefView)
    ensures
        labelled(labels, oid, r) <==> exists|i: int|
            0 <= i < labels.len() && (#[trigger] labels[i]).oid@ == oid
                && labels[i].reference.name@ == r.name && labels[i].reference.kind == r.kind,
{
    if exists|i: int|
        0 <= i < labels.len() && (#[trigger] labels[i]).oid@ == oid && labels[i].reference.name@
            == r.name && labels[i].reference.kind == r.kind {
        let i = choose|i: int|
            0 <= i < labels.len() && (#[trigger] labels[i]).oid@ == oid && labels[i].reference.name@
                == r.name && labels[i].reference.kind == r.kind;
        assert(labels[i]@ == (LabelView { oid, reference: r }));
    }
}

} // verus!
