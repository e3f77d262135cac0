//! Laying out the commit graph: which lane each commit is drawn in.

use vstd::prelude::*;

use crate::strings::{str_eq, views};
use crate::types::CommitInfo;

verus! {

/// Where one commit is drawn.
#[derive(Debug, PartialEq, Eq)]
pub struct CommitGraphRow {
    /// The lane of the commit.
    pub lane: usize,
    /// The lanes that pass through the row.
    pub lanes: Vec<usize>,
    /// The lanes that lead on to the parents.
    pub connectors: Vec<usize>,
}

/// What the lanes wait for: each for one commit, or for nothing.
pub type Lanes = Seq<Option<Seq<char>>>;

pub open spec fn lanes_view(lanes: Seq<Option<String>>) -> Lanes {
    lanes.map_values(
        |l: Option<String>|
            match l {
                Some(s) => Some(s@),
                None => None,
            },
    )
}

/// The first lane from `k` on that holds `what`, or the number of lanes.
pub open spec fn lane_of(lanes: Lanes, what: Option<Seq<char>>, k: int) -> int
    decreases lanes.len() - k,
{
    if k < 0 || k >= lanes.len() {
        lanes.len() as int
    } else if lanes[k] == what {
        k
    } else {
        lane_of(lanes, what, k + 1)
    }
}

pub proof fn lemma_lane_of(lanes: Lanes, what: Option<Seq<char>>, k: int)
    requires
        0 <= k <= lanes.len(),
    ensures
        k <= lane_of(lanes, what, k) <= lanes.len(),
        lane_of(lanes, what, k) < lanes.len() ==> lanes[lane_of(lanes, what, k)] == what,
        forall|i: int| k <= i < lane_of(lanes, what, k) ==> lanes[i] != what,
    decreases lanes.len() - k,
{
    if k < lanes.len() && lanes[k] != what {
        lemma_lane_of(lanes, what, k + 1);
    }
}

/// The lane for `oid`: the one that waits for it, else the first free one, else a new one.
pub open spec fn chosen_lane(lanes: Lanes, oid: Seq<char>) -> int {
    let waiting = lane_of(lanes, Some(oid), 0);
    if waiting < lanes.len() {
        waiting
    } else {
        lane_of(lanes, None, 0)
    }
}

/// The lanes once `oid` has its lane.
pub open spec fn with_lane(lanes: Lanes, oid: Seq<char>) -> Lanes {
    let at = chosen_lane(lanes, oid);
    if at < lanes.len() {
        lanes.update(at, Some(oid))
    } else {
        lanes.push(Some(oid))
    }
}

/// The lanes once the parents from the second up to number `n` have theirs.
pub open spec fn with_parents(lanes: Lanes, parents: Seq<Seq<char>>, n: int) -> Lanes
    decreases n,
{
    if n <= 1 {
        lanes
    } else {
        with_lane(with_parents(lanes, parents, n - 1), parents[n - 1])
    }
}

/// The lanes once the commit itself is drawn: its lane waits for its first parent.
pub open spec fn with_first_parent(lanes: Lanes, lane: int, parents: Seq<Seq<char>>) -> Lanes {
    lanes.update(
        lane,
        if parents.len() > 0 {
            Some(parents[0])
        } else {
            None
        },
    )
}

/// The lane that leads to parent `k` of a commit in lane `lane`.
pub open spec fn parent_lane(lanes: Lanes, lane: int, parents: Seq<Seq<char>>, k: int) -> int {
    if k == 0 {
        lane
    } else {
        chosen_lane(
            with_parents(with_first_parent(lanes, lane, parents), parents, k),
            parents[k],
        )
    }
}

/// The lanes without those that wait for a commit outside the list.
pub open spec fn only_loaded(lanes: Lanes, loaded: Set<Seq<char>>) -> Lanes {
    lanes.map_values(
        |l: Option<Seq<char>>|
            match l {
                Some(oid) => if loaded.contains(oid) {
                    Some(oid)
                } else {
                    None
                },
                None => None,
            },
    )
}

/// The ids in a list of commits.
pub open spec fn loaded_ids(commits: Seq<CommitInfo>) -> Set<Seq<char>> {
    commits.map_values(|c: CommitInfo| c.oid@).to_set()
}

/// The lanes before commit `n` is drawn.
pub open spec fn lanes_before(commits: Seq<CommitInfo>, n: int) -> Lanes
    decreases n,
{
    if n <= 0 {
        Seq::empty()
    } else {
        let c = commits[n - 1];
        let open = with_lane(lanes_before(commits, n - 1), c.oid@);
        let lane = chosen_lane(lanes_before(commits, n - 1), c.oid@);
        only_loaded(
            with_parents(
                with_first_parent(open, lane, views(c.parents@)),
                views(c.parents@),
                c.parents@.len() as int,
            ),
            loaded_ids(commits),
        )
    }
}

pub open spec fn increasing(s: Seq<usize>) -> bool {
    forall|i: int, j: int| 0 <= i < j < s.len() ==> (#[trigger] s[i]) < (#[trigger] s[j])
}

/// Whether `row` is where a commit is drawn when `lanes` are the lanes above it.
pub open spec fn is_graph_row(row: CommitGraphRow, lanes: Lanes, c: CommitInfo) -> bool {
    let open = with_lane(lanes, c.oid@);
    let parents = views(c.parents@);
    &&& row.lane == chosen_lane(lanes, c.oid@)
    &&& increasing(row.lanes@)
    &&& forall|k: usize|
        #[trigger] row.lanes@.contains(k) <==> k < open.len() && open[k as int] is Some
    &&& increasing(row.connectors@)
    &&& forall|k: usize|
        #[trigger] row.connectors@.contains(k) <==> exists|p: int|
            0 <= p < parents.len() && k == #[trigger] parent_lane(open, row.lane as int, parents, p)
}

fn find_lane(lanes: &Vec<Option<String>>, oid: &str) -> (r: usize)
    ensures
        r == lane_of(lanes_view(lanes@), Some(oid@), 0),
        r <= lanes@.len(),
{
    let mut i: usize = 0;
    while i < lanes.len()
        invariant
            i <= lanes@.len(),
            lane_of(lanes_view(lanes@), Some(oid@), 0) == lane_of(
                lanes_view(lanes@),
                Some(oid@),
                i as int,
            ),
        decreases lanes@.len() - i,
    {
        match &lanes[i] {
            Some(s) => {
                if str_eq(s.as_str(), oid) {
                    return i;
                }
            },
            None => {},
        }
        i = i + 1;
    }
    i
}

fn find_free_lane(lanes: &Vec<Option<String>>) -> (r: usize)
    ensures
        r == lane_of(lanes_view(lanes@), None, 0),
        r <= lanes@.len(),
{
    let mut i: usize = 0;
    while i < lanes.len()
        invariant
            i <= lanes@.len(),
            lane_of(lanes_view(lanes@), None, 0) == lane_of(lanes_view(lanes@), None, i as int),
        decreases lanes@.len() - i,
    {
        if lanes[i].is_none() {
            return i;
        }
        i = i + 1;
    }
    i
}

/// Gives `oid` its lane.
fn take_lane(lanes: &mut Vec<Option<String>>, oid: &String) -> (at: usize)
    ensures
        at == chosen_lane(lanes_view(old(lanes)@), oid@),
        lanes_view(final(lanes)@) == with_lane(lanes_view(old(lanes)@), oid@),
        at < final(lanes)@.len(),
{
    let ghost before = lanes_view(lanes@);
    proof {
        lemma_lane_of(before, Some(oid@), 0);
        lemma_lane_of(before, None, 0);
    }
    let waiting: usize = find_lane(lanes, oid.as_str());
    if waiting < lanes.len() {
        assert(before.update(waiting as int, Some(oid@)) =~= before);
        return waiting;
    }
    let free: usize = find_free_lane(lanes);
    if free < lanes.len() {
        lanes.set(free, Some(oid.clone()));
        assert(lanes_view(lanes@) =~= before.update(free as int, Some(oid@)));
        free
    } else {
        lanes.push(Some(oid.clone()));
        assert(lanes_view(lanes@) =~= before.push(Some(oid@)));
        free
    }
}

/// The lanes that are in use, in order; the current one is among them.
pub fn active_lane_indices(lanes: &Vec<Option<String>>, current_lane: usize) -> (r: Vec<usize>)
    ensures
        increasing(r@),
        forall|k: usize|
            #[trigger] r@.contains(k) <==> k == current_lane || (k < lanes@.len()
                && lanes@[k as int] is Some),
{
    let mut r: Vec<usize> = Vec::new();
    let mut i: usize = 0;
    while i < lanes.len()
        invariant
            i <= lanes@.len(),
            increasing(r@),
            forall|j: int| 0 <= j < r@.len() ==> (#[trigger] r@[j]) < i,
            forall|k: usize| #[trigger] r@.contains(k) <==> k < i && lanes@[k as int] is Some,
        decreases lanes@.len() - i,
    {
        if lanes[i].is_some() {
            let ghost before = r@;
            r.push(i);
            assert forall|k: usize| #[trigger] r@.contains(k) <==> k < i + 1
                && lanes@[k as int] is Some by {
                if r@.contains(k) {
                    let j = choose|j: int| 0 <= j < r@.len() && r@[j] == k;
                    if j < before.len() {
                        assert(before[j] == k);
                        assert(before.contains(k));
                    }
                }
                if k < i && lanes@[k as int] is Some {
                    assert(before.contains(k));
                    let j = choose|j: int| 0 <= j < before.len() && before[j] == k;
                    assert(r@[j] == k);
                }
                if k == i {
                    assert(r@[before.len() as int] == k);
                }
            }
        }
        i = i + 1;
    }
    insert_index(&mut r, current_lane);
    r
}

/// Adds a number to a list in order, unless it is there.
fn insert_index(list: &mut Vec<usize>, x: usize)
    requires
        increasing(old(list)@),
    ensures
        increasing(final(list)@),
        forall|k: usize|
            #[trigger] final(list)@.contains(k) <==> (old(list)@.contains(k) || k == x),
{
    let ghost before = list@;
    let mut at: usize = 0;
    while at < list.len() && list[at] < x
        invariant
            at <= list@.len(),
            list@ == before,
            forall|j: int| 0 <= j < at ==> (#[trigger] list@[j]) < x,
        decreases list@.len() - at,
    {
        at = at + 1;
    }
    if at < list.len() && list[at] == x {
        assert(before[at as int] == x);
        return;
    }
    list.insert(at, x);
    proof {
        assert(list@ =~= before.insert(at as int, x));
        assert forall|k: usize| #[trigger] list@.contains(k) <==> (before.contains(k) || k == x) by {
            if list@.contains(k) {
                let j = choose|j: int| 0 <= j < list@.len() && list@[j] == k;
                if j < at {
                    assert(before[j] == k);
                } else if j > at {
                    assert(before[j - 1] == k);
                }
            }
            if before.contains(k) {
                let j = choose|j: int| 0 <= j < before.len() && before[j] == k;
                if j < at {
                    assert(list@[j] == k);
                } else {
                    assert(list@[j + 1] == k);
                }
            }
            if k == x {
                assert(list@[at as int] == k);
            }
        }
        assert forall|i: int, j: int| 0 <= i < j < list@.len() implies (#[trigger] list@[i]) < (
        #[trigger] list@[j]) by {
            if i < at && j > at {
                assert(list@[j] == before[j - 1]);
            } else if i == at {
                assert(list@[j] == before[j - 1]);
                assert(before[at as int] <= before[j - 1]);
            } else if i > at {
                assert(list@[i] == before[i - 1]);
                assert(list@[j] == before[j - 1]);
            }
        }
    }
}

fn is_loaded(commits: &Vec<CommitInfo>, oid: &str) -> (r: bool)
    ensures
        r == loaded_ids(commits@).contains(oid@),
{
    let ghost ids = commits@.map_values(|c: CommitInfo| c.oid@);
    let mut i: usize = 0;
    while i < commits.len()
        invariant
            i <= commits@.len(),
            ids == commits@.map_values(|c: CommitInfo| c.oid@),
            forall|j: int| 0 <= j < i ==> #[trigger] ids[j] != oid@,
        decreases commits@.len() - i,
    {
        if str_eq(commits[i].oid.as_str(), oid) {
            assert(ids[i as int] == oid@);
            return true;
        }
        i = i + 1;
    }
    false
}

/// Frees the lanes that wait for a commit outside the list.
fn free_unloaded(lanes: &mut Vec<Option<String>>, commits: &Vec<CommitInfo>)
    ensures
        lanes_view(final(lanes)@) == only_loaded(lanes_view(old(lanes)@), loaded_ids(commits@)),
{
    let ghost before = lanes@;
    let ghost ids = loaded_ids(commits@);
    let mut i: usize = 0;
    while i < lanes.len()
        invariant
            i <= lanes@.len(),
            lanes@.len() == before.len(),
            ids == loaded_ids(commits@),
            forall|j: int| i <= j < before.len() ==> lanes@[j] == #[trigger] before[j],
            forall|j: int|
                0 <= j < i ==> (#[trigger] lanes@[j]) == match before[j] {
                    Some(s) => if ids.contains(s@) {
                        Some(s)
                    } else {
                        None
                    },
                    None => None,
                },
        decreases lanes@.len() - i,
    {
        let gone: bool = match &lanes[i] {
            Some(oid) => !is_loaded(commits, oid.as_str()),
            None => false,
        };
        if gone {
            lanes.set(i, None);
        }
        i = i + 1;
    }
    assert(lanes_view(lanes@) =~= only_loaded(lanes_view(before), ids));
}

/// Draws one commit and moves the lanes on to its parents.
fn draw_commit(lanes: &mut Vec<Option<String>>, commit: &CommitInfo) -> (row: CommitGraphRow)
    ensures
        is_graph_row(row, lanes_view(old(lanes)@), *commit),
        lanes_view(final(lanes)@) == with_parents(
            with_first_parent(
                with_lane(lanes_view(old(lanes)@), commit.oid@),
                row.lane as int,
                views(commit.parents@),
            ),
            views(commit.parents@),
            commit.parents@.len() as int,
        ),
{
    let ghost start = lanes_view(lanes@);
    let ghost parents = views(commit.parents@);
    let lane: usize = take_lane(lanes, &commit.oid);
    let ghost open = lanes_view(lanes@);
    proof {
        lemma_lane_of(start, Some(commit.oid@), 0);
        lemma_lane_of(start, None, 0);
        assert(open[lane as int] is Some);
        assert(lanes@[lane as int] is Some);
    }
    let through: Vec<usize> = active_lane_indices(lanes, lane);
    assert forall|k: usize| #[trigger] through@.contains(k) <==> k < open.len()
        && open[k as int] is Some by {}
    let mut connectors: Vec<usize> = Vec::new();
    if commit.parents.len() > 0 {
        lanes.set(lane, Some(commit.parents[0].clone()));
        connectors.push(lane);
    } else {
        lanes.set(lane, None);
    }
    let ghost first = with_first_parent(open, lane as int, parents);
    assert(lanes_view(lanes@) =~= first);
    let mut n: usize = if commit.parents.len() > 0 {
        1
    } else {
        0
    };
    proof {
        if n == 1 {
            assert(connectors@ =~= seq![lane]);
            assert(connectors@[0] == lane);
            assert forall|k: usize| #[trigger] connectors@.contains(k) <==> exists|p: int|
                0 <= p < 1 && k == #[trigger] parent_lane(open, lane as int, parents, p) by {
                if connectors@.contains(k) {
                    assert(k == parent_lane(open, lane as int, parents, 0));
                }
            }
        } else {
            assert forall|k: usize| #[trigger] connectors@.contains(k) <==> exists|p: int|
                0 <= p < 0 && k == #[trigger] parent_lane(open, lane as int, parents, p) by {}
        }
    }
    while n < commit.parents.len()
        invariant
            n <= commit.parents@.len(),
            n > 0 || commit.parents@.len() == 0,
            parents == views(commit.parents@),
            first == with_first_parent(open, lane as int, parents),
            lanes_view(lanes@) == with_parents(first, parents, n as int),
            increasing(connectors@),
            forall|k: usize|
                #[trigger] connectors@.contains(k) <==> exists|p: int|
                    0 <= p < n && k == #[trigger] parent_lane(open, lane as int, parents, p),
        decreases commit.parents@.len() - n,
    {
        let ghost before = connectors@;
        let at: usize = take_lane(lanes, &commit.parents[n]);
        assert(parents[n as int] == commit.parents@[n as int]@);
        assert(at == parent_lane(open, lane as int, parents, n as int));
        insert_index(&mut connectors, at);
        assert forall|k: usize| #[trigger] connectors@.contains(k) <==> exists|p: int|
            0 <= p < n + 1 && k == #[trigger] parent_lane(open, lane as int, parents, p) by {
            if connectors@.contains(k) {
                if before.contains(k) {
                    let p = choose|p: int|
                        0 <= p < n && k == #[trigger] parent_lane(open, lane as int, parents, p);
                    assert(0 <= p < n + 1);
                } else {
                    assert(k == parent_lane(open, lane as int, parents, n as int));
                }
            }
            if exists|p: int|
                0 <= p < n + 1 && k == #[trigger] parent_lane(open, lane as int, parents, p) {
                let p = choose|p: int|
                    0 <= p < n + 1 && k == #[trigger] parent_lane(open, lane as int, parents, p);
                if p < n {
                    assert(before.contains(k));
                }
            }
        }
        n = n + 1;
    }
    CommitGraphRow { lane, lanes: through, connectors }
}

/// Where the commits of a list are drawn.
pub fn commit_graph_rows(commits: &Vec<CommitInfo>) -> (rows: Vec<CommitGraphRow>)
    ensures
        rows@.len() == commits@.len(),
        forall|n: int|
            0 <= n < rows@.len() ==> is_graph_row(
                #[trigger] rows@[n],
                lanes_before(commits@, n),
                commits@[n],
            ),
        exists|above: Seq<Lanes>, below: Seq<Lanes>|
            draws_history(rows@, commits@, above, below),
{
    let mut lanes: Vec<Option<String>> = Vec::new();
    let mut rows: Vec<CommitGraphRow> = Vec::new();
    let mut n: usize = 0;
    assert(lanes_view(lanes@) =~= Seq::<Option<Seq<char>>>::empty());
    while n < commits.len()
        invariant
            n <= commits@.len(),
            rows@.len() == n,
            lanes_view(lanes@) == lanes_before(commits@, n as int),
            forall|i: int|
                0 <= i < n ==> is_graph_row(
                    #[trigger] rows@[i],
                    lanes_before(commits@, i),
                    commits@[i],
                ),
            forall|i: int|
                0 <= i < n ==> drawn_lanes(
                    lanes_before(commits@, i),
                    #[trigger] commits@[i],
                    commits@[i].parents@.len() as int,
                ).len() <= usize::MAX,
        decreases commits@.len() - n,
    {
        let row = draw_commit(&mut lanes, &commits[n]);
        let count: usize = lanes.len();
        assert(drawn_lanes(
            lanes_before(commits@, n as int),
            commits@[n as int],
            commits@[n as int].parents@.len() as int,
        ).len() == count);
        free_unloaded(&mut lanes, commits);
        rows.push(row);
        n = n + 1;
    }
    proof {
        lemma_rows_draw_history(commits@, rows@);
    }
    rows
}

// ---------------------------------------------------------------------------
// Laws
// ---------------------------------------------------------------------------
/// Every commit is drawn in a lane that passes through its row, and a commit with parents
/// has a connector in its own lane; one without parents has none.
pub proof fn lemma_row_shape(row: CommitGraphRow, lanes: Lanes, c: CommitInfo)
    requires
        is_graph_row(row, lanes, c),
        lanes.len() < usize::MAX,
    ensures
        row.lanes@.contains(row.lane),
        c.parents@.len() > 0 <==> row.connectors@.contains(row.lane),
        c.parents@.len() == 0 ==> row.connectors@.len() == 0,
{
    lemma_lane_of(lanes, Some(c.oid@), 0);
    lemma_lane_of(lanes, None, 0);
    let open = with_lane(lanes, c.oid@);
    let parents = views(c.parents@);
    assert(open[row.lane as int] is Some);
    if c.parents@.len() > 0 {
        assert(row.lane == parent_lane(open, row.lane as int, parents, 0));
    } else {
        if row.connectors@.len() > 0 {
            assert(row.connectors@.contains(row.connectors@[0]));
        }
    }
}

/// A list's lanes wait only for commits of the list.
pub proof fn lemma_lanes_wait_for_loaded(commits: Seq<CommitInfo>, n: int)
    requires
        0 <= n <= commits.len(),
    ensures
        forall|k: int|
            0 <= k < lanes_before(commits, n).len() ==> match #[trigger] lanes_before(commits, n)[k] {
                Some(oid) => loaded_ids(commits).contains(oid),
                None => true,
            },
{
}

/// A history in which every commit has the next one as its only parent, and no commit occurs
/// twice, is drawn as one straight line in the first lane.
pub proof fn lemma_linear_history_is_one_lane(commits: Seq<CommitInfo>, n: int)
    requires
        0 <= n < commits.len(),
        forall|i: int, j: int|
            0 <= i < j < commits.len() ==> (#[trigger] commits[i]).oid@ != (
            #[trigger] commits[j]).oid@,
        forall|i: int|
            0 <= i < commits.len() - 1 ==> views((#[trigger] commits[i]).parents@) == seq![
                commits[i + 1].oid@,
            ],
    ensures
        chosen_lane(lanes_before(commits, n), commits[n].oid@) == 0,
        lanes_before(commits, n).len() <= 1,
        n > 0 ==> lanes_before(commits, n) == seq![Some(commits[n].oid@)],
    decreases n,
{
    if n == 0 {
    } else {
        lemma_linear_history_is_one_lane(commits, n - 1);
        let c = commits[n - 1];
        let before = lanes_before(commits, n - 1);
        let open = with_lane(before, c.oid@);
        let parents = views(c.parents@);
        assert(parents == seq![commits[n].oid@]);
        assert(open.len() == 1);
        let first = with_first_parent(open, 0, parents);
        assert(first =~= seq![Some(commits[n].oid@)]);
        assert(c.parents@.len() == 1) by {
            assert(views(c.parents@).len() == c.parents@.len());
        }
        assert(with_parents(first, parents, 1) == first);
        let ids = commits.map_values(|c: CommitInfo| c.oid@);
        assert(ids[n] == commits[n].oid@);
        assert(loaded_ids(commits).contains(commits[n].oid@));
        assert(only_loaded(first, loaded_ids(commits)) =~= seq![Some(commits[n].oid@)]);
        assert(lanes_before(commits, n)[0] == Some(commits[n].oid@));
    }
}

/// The lanes once a commit is drawn, before those that wait for nothing in the list are freed.
pub open spec fn drawn_lanes(lanes: Lanes, c: CommitInfo, n: int) -> Lanes {
    with_parents(
        with_first_parent(with_lane(lanes, c.oid@), chosen_lane(lanes, c.oid@), views(c.parents@)),
        views(c.parents@),
        n,
    )
}

/// Whether lane `k` leads on from commit `j` of a list to its parent `oid`.
pub open spec fn leads_to(commits: Seq<CommitInfo>, j: int, k: int, oid: Seq<char>) -> bool {
    let lanes = lanes_before(commits, j);
    let parents = views(commits[j].parents@);
    exists|p: int|
        0 <= p < parents.len() && parents[p] == oid && k == #[trigger] parent_lane(
            with_lane(lanes, commits[j].oid@),
            chosen_lane(lanes, commits[j].oid@),
            parents,
            p,
        )
}

/// A lane that is taken keeps what it waits for when another commit gets its lane.
proof fn lemma_with_lane(lanes: Lanes, oid: Seq<char>)
    ensures
        0 <= chosen_lane(lanes, oid) < with_lane(lanes, oid).len(),
        lanes.len() <= with_lane(lanes, oid).len(),
        with_lane(lanes, oid)[chosen_lane(lanes, oid)] == Some(oid),
        forall|k: int|
            0 <= k < with_lane(lanes, oid).len() && k != chosen_lane(lanes, oid) ==> k < lanes.len()
                && #[trigger] with_lane(lanes, oid)[k] == lanes[k],
        forall|k: int|
            0 <= k < lanes.len() && (#[trigger] lanes[k]) is Some ==> with_lane(lanes, oid)[k]
                == lanes[k],
{
    lemma_lane_of(lanes, Some(oid), 0);
    lemma_lane_of(lanes, None, 0);
}

proof fn lemma_drawn_lanes_keep(lanes: Lanes, c: CommitInfo, m: int, n: int, k: int)
    requires
        m <= n,
        0 <= k < drawn_lanes(lanes, c, m).len(),
        drawn_lanes(lanes, c, m)[k] is Some,
    ensures
        k < drawn_lanes(lanes, c, n).len(),
        drawn_lanes(lanes, c, n)[k] == drawn_lanes(lanes, c, m)[k],
    decreases n - m,
{
    if m < n {
        lemma_drawn_lanes_keep(lanes, c, m, n - 1, k);
        if n > 1 {
            lemma_with_lane(drawn_lanes(lanes, c, n - 1), views(c.parents@)[n - 1]);
        }
    }
}

/// A lane waits for what it waited for above the row, or it leads on from the drawn commit.
proof fn lemma_drawn_lanes_origin(lanes: Lanes, c: CommitInfo, n: int, k: int)
    requires
        0 <= n <= c.parents@.len(),
        n >= 1 || c.parents@.len() == 0,
        0 <= k < drawn_lanes(lanes, c, n).len(),
        drawn_lanes(lanes, c, n)[k] is Some,
    ensures
        ({
            let parents = views(c.parents@);
            let oid = drawn_lanes(lanes, c, n)[k]->0;
            ||| k < lanes.len() && lanes[k] == Some(oid)
            ||| exists|p: int|
                0 <= p < parents.len() && parents[p] == oid && k == #[trigger] parent_lane(
                    with_lane(lanes, c.oid@),
                    chosen_lane(lanes, c.oid@),
                    parents,
                    p,
                )
        }),
    decreases n,
{
    let parents = views(c.parents@);
    let open = with_lane(lanes, c.oid@);
    let lane = chosen_lane(lanes, c.oid@);
    lemma_with_lane(lanes, c.oid@);
    if n <= 1 {
        if k == lane {
            assert(parents.len() > 0);
            assert(k == parent_lane(open, lane, parents, 0));
        }
    } else {
        let before = drawn_lanes(lanes, c, n - 1);
        lemma_with_lane(before, parents[n - 1]);
        if k == chosen_lane(before, parents[n - 1]) {
            assert(k == parent_lane(open, lane, parents, n - 1));
        } else {
            lemma_drawn_lanes_origin(lanes, c, n - 1, k);
        }
    }
}

/// Every lane that waits for a commit leads on to it from a row above.
proof fn lemma_waiting_lane_leads_to(commits: Seq<CommitInfo>, n: int, k: int) -> (j: int)
    requires
        0 <= n <= commits.len(),
        0 <= k < lanes_before(commits, n).len(),
        lanes_before(commits, n)[k] is Some,
    ensures
        0 <= j < n,
        leads_to(commits, j, k, lanes_before(commits, n)[k]->0),
    decreases n,
{
    let c = commits[n - 1];
    let lanes = lanes_before(commits, n - 1);
    let oid = lanes_before(commits, n)[k]->0;
    lemma_drawn_lanes_origin(lanes, c, c.parents@.len() as int, k);
    if k < lanes.len() && lanes[k] == Some(oid) {
        lemma_waiting_lane_leads_to(commits, n - 1, k)
    } else {
        assert(leads_to(commits, n - 1, k, oid));
        n - 1
    }
}

/// A lane waits for a parent in the list until the parent is drawn.
proof fn lemma_parent_is_waited_for(commits: Seq<CommitInfo>, child: int, p: int, n: int) -> (k:
    int)
    requires
        0 <= child < n <= commits.len(),
        0 <= p < commits[child].parents@.len(),
        loaded_ids(commits).contains(commits[child].parents@[p]@),
        forall|j: int|
            child < j < n ==> (#[trigger] commits[j]).oid@ != commits[child].parents@[p]@,
    ensures
        0 <= k < lanes_before(commits, n).len(),
        lanes_before(commits, n)[k] == Some(commits[child].parents@[p]@),
    decreases n,
{
    let oid = commits[child].parents@[p]@;
    let c = commits[n - 1];
    let lanes = lanes_before(commits, n - 1);
    let parents = views(c.parents@);
    lemma_with_lane(lanes, c.oid@);
    let count = c.parents@.len() as int;
    if n == child + 1 {
        let k = parent_lane(
            with_lane(lanes, c.oid@),
            chosen_lane(lanes, c.oid@),
            parents,
            p,
        );
        assert(parents[p] == oid);
        if p > 0 {
            lemma_with_lane(drawn_lanes(lanes, c, p), parents[p]);
        }
        assert(drawn_lanes(lanes, c, p + 1)[k] == Some(oid));
        lemma_drawn_lanes_keep(lanes, c, p + 1, count, k);
        k
    } else {
        let k = lemma_parent_is_waited_for(commits, child, p, n - 1);
        assert(with_lane(lanes, c.oid@)[k] == Some(oid));
        assert(k != chosen_lane(lanes, c.oid@));
        assert(drawn_lanes(lanes, c, 0)[k] == Some(oid));
        lemma_drawn_lanes_keep(lanes, c, 0, count, k);
        k
    }
}

/// The lines of the graph meet: where a commit of the list is drawn below one of its children,
/// its lane is among the connectors of a child above it. Between that child and the commit the
/// same commit must not stand a second time.
pub proof fn lemma_parent_lane_is_connected(
    commits: Seq<CommitInfo>,
    rows: Seq<CommitGraphRow>,
    child: int,
    n: int,
) -> (j: int)
    requires
        rows.len() == commits.len(),
        forall|i: int|
            0 <= i < rows.len() ==> is_graph_row(
                #[trigger] rows[i],
                lanes_before(commits, i),
                commits[i],
            ),
        0 <= child < n < commits.len(),
        views(commits[child].parents@).contains(commits[n].oid@),
        forall|i: int| child < i < n ==> (#[trigger] commits[i]).oid@ != commits[n].oid@,
    ensures
        0 <= j < n,
        views(commits[j].parents@).contains(commits[n].oid@),
        rows[j].connectors@.contains(rows[n].lane),
{
    let oid = commits[n].oid@;
    let lanes = lanes_before(commits, n);
    let p = choose|p: int|
        0 <= p < views(commits[child].parents@).len() && views(commits[child].parents@)[p] == oid;
    let ids = commits.map_values(|c: CommitInfo| c.oid@);
    assert(ids[n] == oid);
    let k = lemma_parent_is_waited_for(commits, child, p, n);
    lemma_lane_of(lanes, Some(oid), 0);
    let lane = chosen_lane(lanes, oid);
    assert(lane_of(lanes, Some(oid), 0) <= k);
    assert(lanes[lane] == Some(oid));
    let j = lemma_waiting_lane_leads_to(commits, n, lane);
    let parents = views(commits[j].parents@);
    let q = choose|q: int|
        0 <= q < parents.len() && parents[q] == oid && lane == #[trigger] parent_lane(
            with_lane(lanes_before(commits, j), commits[j].oid@),
            chosen_lane(lanes_before(commits, j), commits[j].oid@),
            parents,
            q,
        );
    assert(parents[q] == oid);
    assert(is_graph_row(rows[j], lanes_before(commits, j), commits[j]));
    assert(is_graph_row(rows[n], lanes, commits[n]));
    assert(rows[n].lane == lane);
    j
}

// ---------------------------------------------------------------------------
// What a drawing has to show
// ---------------------------------------------------------------------------
/// Whether `row` draws a commit with this id and these parents. Lane `k` waits for `above[k]`
/// before the commit is drawn and for `below[k]` after it.
pub open spec fn draws_commit(
    row: CommitGraphRow,
    oid: Seq<char>,
    parents: Seq<Seq<char>>,
    above: Lanes,
    below: Lanes,
) -> bool {
    let lane = row.lane as int;
    // The commit stands in the first lane that waits for it, or else in the first free one.
    &&& if above.contains(Some(oid)) {
        lane < above.len() && above[lane] == Some(oid) && forall|k: int|
            0 <= k < lane ==> #[trigger] above[k] != Some(oid)
    } else {
        lane <= above.len() && (lane < above.len() ==> above[lane] is None) && forall|k: int|
            0 <= k < lane ==> #[trigger] above[k] is Some
    }
    // Its own lane and those that wait for something pass through the row.
    &&& forall|k: usize|
        #[trigger] row.lanes@.contains(k) <==> k == row.lane || (k < above.len()
            && above[k as int] is Some)
    &&& forall|i: int, j: int|
        0 <= i < j < row.lanes@.len() ==> (#[trigger] row.lanes@[i]) < (#[trigger] row.lanes@[j])
    // Its own lane goes on to the first parent, or ends.
    &&& lane < below.len()
    &&& parents.len() == 0 ==> below[lane] is None
    &&& parents.len() > 0 ==> below[lane] == Some(parents[0])
    // From the commit a line leads to every parent, and no line leads to anything else.
    &&& forall|p: int|
        0 <= p < parents.len() ==> exists|k: usize| #[trigger]
            row.connectors@.contains(k) && k < below.len() && below[k as int] == Some(
                #[trigger] parents[p],
            )
    &&& forall|k: usize| #[trigger]
        row.connectors@.contains(k) ==> k < below.len() && below[k as int] is Some
            && parents.contains(below[k as int]->0)
    &&& parents.len() > 0 ==> row.connectors@.contains(row.lane)
    &&& forall|i: int, j: int|
        0 <= i < j < row.connectors@.len() ==> (#[trigger] row.connectors@[i]) < (
        #[trigger] row.connectors@[j])
    // The other lanes that wait for something go on waiting for it.
    &&& above.len() <= below.len()
    &&& forall|k: int|
        0 <= k < above.len() && k != lane && (#[trigger] above[k]) is Some ==> below[k] == above[k]
    // A lane that was free is taken only for a parent that no other lane waits for, and only
    // if there is no free lane before it.
    &&& forall|k: int|
        #![trigger below[k]]
        0 <= k < below.len() && k != lane && below[k] is Some && (k < above.len() ==> above[k] is None)
            ==> {
            &&& k <= usize::MAX ==> row.connectors@.contains(k as usize)
            &&& forall|j: int| 0 <= j < below.len() && j != k ==> #[trigger] below[j] != below[k]
            &&& forall|j: int| 0 <= j < k ==> #[trigger] below[j] is Some
        }
}

/// Whether the rows draw a list of commits from the top down. Lane `k` waits for `above[n][k]`
/// above row `n` and for `below[n][k]` once the commit of the row is drawn; from one row to the
/// next, lanes that wait for a commit outside the list are freed, and nothing else changes.
pub open spec fn draws_history(
    rows: Seq<CommitGraphRow>,
    commits: Seq<CommitInfo>,
    above: Seq<Lanes>,
    below: Seq<Lanes>,
) -> bool {
    &&& rows.len() == commits.len()
    &&& above.len() == commits.len()
    &&& below.len() == commits.len()
    &&& commits.len() > 0 ==> above[0].len() == 0
    &&& forall|n: int|
        0 <= n < commits.len() ==> draws_commit(
            #[trigger] rows[n],
            commits[n].oid@,
            views(commits[n].parents@),
            above[n],
            below[n],
        )
    &&& forall|n: int, k: int|
        #![trigger above[n][k]]
        0 < n < commits.len() && 0 <= k < above[n].len() ==> {
            let before = below[n - 1][k];
            above[n][k] == if before is Some && (exists|i: int|
                0 <= i < commits.len() && (#[trigger] commits[i]).oid@ == before->0) {
                before
            } else {
                None
            }
        }
    &&& forall|n: int| 0 < n < commits.len() ==> (#[trigger] above[n]).len() == below[n - 1].len()
}

/// Whether lane `k` leads to one of the first `n` parents.
#[verifier::opaque]
spec fn is_parent_lane(lanes: Lanes, c: CommitInfo, n: int, k: int) -> bool {
    exists|p: int|
        0 <= p < n && k == #[trigger] parent_lane(
            with_lane(lanes, c.oid@),
            chosen_lane(lanes, c.oid@),
            views(c.parents@),
            p,
        )
}

proof fn lemma_is_parent_lane(lanes: Lanes, c: CommitInfo, n: int, p: int)
    requires
        0 <= p < n,
    ensures
        is_parent_lane(
            lanes,
            c,
            n,
            parent_lane(
                with_lane(lanes, c.oid@),
                chosen_lane(lanes, c.oid@),
                views(c.parents@),
                p,
            ),
        ),
        forall|k: int| #[trigger] is_parent_lane(lanes, c, n - 1, k) ==> is_parent_lane(lanes, c, n, k),
{
    reveal(is_parent_lane);
    assert forall|k: int| #[trigger] is_parent_lane(lanes, c, n - 1, k) implies is_parent_lane(
        lanes,
        c,
        n,
        k,
    ) by {
        let q = choose|q: int|
            0 <= q < n - 1 && k == #[trigger] parent_lane(
                with_lane(lanes, c.oid@),
                chosen_lane(lanes, c.oid@),
                views(c.parents@),
                q,
            );
        assert(0 <= q < n && k == parent_lane(
            with_lane(lanes, c.oid@),
            chosen_lane(lanes, c.oid@),
            views(c.parents@),
            q,
        ));
    }
}

/// The lane of a parent waits for it once the parents up to number `n` have theirs.
proof fn lemma_parent_lane_waits(lanes: Lanes, c: CommitInfo, n: int, p: int)
    requires
        0 <= p < n <= c.parents@.len(),
    ensures
        ({
            let parents = views(c.parents@);
            let b = drawn_lanes(lanes, c, n);
            let k = parent_lane(
                with_lane(lanes, c.oid@),
                chosen_lane(lanes, c.oid@),
                parents,
                p,
            );
            0 <= k < b.len() && b[k] == Some(parents[p])
        }),
{
    let parents = views(c.parents@);
    let k = parent_lane(with_lane(lanes, c.oid@), chosen_lane(lanes, c.oid@), parents, p);
    lemma_with_lane(lanes, c.oid@);
    if p > 0 {
        lemma_with_lane(drawn_lanes(lanes, c, p), parents[p]);
    }
    assert(drawn_lanes(lanes, c, p + 1)[k] == Some(parents[p]));
    lemma_drawn_lanes_keep(lanes, c, p + 1, n, k);
}

/// What lane `k` waits for once the parents up to number `n` have theirs.
proof fn lemma_drawn_lane(lanes: Lanes, c: CommitInfo, n: int, k: int)
    requires
        0 <= n <= c.parents@.len(),
        n >= 1 || c.parents@.len() == 0,
    ensures
        ({
            let parents = views(c.parents@);
            let lane = chosen_lane(lanes, c.oid@);
            let b = drawn_lanes(lanes, c, n);
            &&& 0 <= lane < b.len()
            &&& lanes.len() <= b.len()
            &&& b[lane] == if parents.len() > 0 {
                Some(parents[0])
            } else {
                None
            }
            &&& 0 <= k < lanes.len() && k != lane && lanes[k] is Some ==> b[k] == lanes[k]
            &&& 0 <= k < b.len() && k != lane && b[k] is Some && (k < lanes.len()
                ==> lanes[k] is None) ==> {
                &&& is_parent_lane(lanes, c, n, k)
                &&& forall|j: int| 0 <= j < b.len() && j != k ==> #[trigger] b[j] != b[k]
                &&& forall|j: int| 0 <= j < k ==> #[trigger] b[j] is Some
            }
        }),
    decreases n,
{
    let parents = views(c.parents@);
    let open = with_lane(lanes, c.oid@);
    let lane = chosen_lane(lanes, c.oid@);
    let b = drawn_lanes(lanes, c, n);
    lemma_with_lane(lanes, c.oid@);
    if n <= 1 {
        assert(b == with_first_parent(open, lane, parents));
    } else {
        lemma_drawn_lane(lanes, c, n - 1, k);
        let before = drawn_lanes(lanes, c, n - 1);
        let oid = parents[n - 1];
        let at = chosen_lane(before, oid);
        assert(b == with_lane(before, oid));
        lemma_is_parent_lane(lanes, c, n, n - 1);
        lemma_with_lane(before, oid);
        lemma_lane_of(before, Some(oid), 0);
        lemma_lane_of(before, None, 0);
        if lane_of(before, Some(oid), 0) < before.len() {
            assert(b =~= before);
        } else if 0 <= k < b.len() && k != lane && b[k] is Some && (k < lanes.len()
            ==> lanes[k] is None) {
            if k == at {
                assert forall|j: int| 0 <= j < b.len() && j != k implies #[trigger] b[j] != b[k] by {
                    assert(before[j] != Some(oid));
                }
                assert forall|j: int| 0 <= j < k implies #[trigger] b[j] is Some by {
                    assert(before[j] != None::<Seq<char>>);
                }
            } else {
                assert(before[k] == b[k]);
                assert(before[k] != Some(oid));
                assert forall|j: int| 0 <= j < b.len() && j != k implies #[trigger] b[j] != b[k] by {
                    if j != at {
                        assert(before[j] != before[k]);
                    }
                }
                assert forall|j: int| 0 <= j < k implies #[trigger] b[j] is Some by {
                    assert(before[j] is Some);
                }
            }
        }
    }
}

/// A row shows its commit, and from the commit a line to every one of its parents: there is a
/// connector whose lane waits for the parent once the commit is drawn.
pub proof fn lemma_row_draws_commit(row: CommitGraphRow, lanes: Lanes, c: CommitInfo)
    requires
        is_graph_row(row, lanes, c),
        drawn_lanes(lanes, c, c.parents@.len() as int).len() <= usize::MAX,
    ensures
        draws_commit(
            row,
            c.oid@,
            views(c.parents@),
            lanes,
            drawn_lanes(lanes, c, c.parents@.len() as int),
        ),
{
    let parents = views(c.parents@);
    let n = parents.len() as int;
    let open = with_lane(lanes, c.oid@);
    let lane = row.lane as int;
    let below = drawn_lanes(lanes, c, n);
    lemma_with_lane(lanes, c.oid@);
    lemma_lane_of(lanes, Some(c.oid@), 0);
    lemma_lane_of(lanes, None, 0);
    lemma_drawn_lane(lanes, c, n, lane);
    if lanes.contains(Some(c.oid@)) {
        let k = choose|k: int| 0 <= k < lanes.len() && lanes[k] == Some(c.oid@);
        assert(lane_of(lanes, Some(c.oid@), 0) <= k);
    }
    assert forall|k: usize| #[trigger] row.lanes@.contains(k) <==> k == row.lane || (k < lanes.len()
        && lanes[k as int] is Some) by {
        if k != row.lane && k < open.len() {
            assert(open[k as int] == lanes[k as int]);
        }
    }
    assert forall|p: int| 0 <= p < parents.len() implies exists|k: usize| #[trigger]
        row.connectors@.contains(k) && k < below.len() && below[k as int] == Some(
            #[trigger] parents[p],
        ) by {
        lemma_parent_lane_waits(lanes, c, n, p);
        let k = parent_lane(open, lane, parents, p);
        assert(row.connectors@.contains(k as usize));
    }
    assert forall|k: usize| #[trigger] row.connectors@.contains(k) implies k < below.len()
        && below[k as int] is Some && parents.contains(below[k as int]->0) by {
        let p = choose|p: int|
            0 <= p < parents.len() && k == #[trigger] parent_lane(open, lane, parents, p);
        lemma_parent_lane_waits(lanes, c, n, p);
        assert(parents[p] == below[k as int]->0);
    }
    if parents.len() > 0 {
        assert(lane == parent_lane(open, lane, parents, 0));
    }
    assert forall|k: int|
        0 <= k < lanes.len() && k != lane && (#[trigger] lanes[k]) is Some implies below[k]
        == lanes[k] by {
        lemma_drawn_lane(lanes, c, n, k);
    }
    assert forall|k: int|
        #![trigger below[k]]
        0 <= k < below.len() && k != lane && below[k] is Some && (k < lanes.len()
            ==> lanes[k] is None) implies {
        &&& k <= usize::MAX ==> row.connectors@.contains(k as usize)
        &&& forall|j: int| 0 <= j < below.len() && j != k ==> #[trigger] below[j] != below[k]
        &&& forall|j: int| 0 <= j < k ==> #[trigger] below[j] is Some
    } by {
        lemma_drawn_lane(lanes, c, n, k);
        reveal(is_parent_lane);
    }
}

/// The rows of a list draw it: whatever list it is, every commit has its line to each of its
/// parents, and a line goes on until the commit that it leads to.
pub proof fn lemma_rows_draw_history(commits: Seq<CommitInfo>, rows: Seq<CommitGraphRow>)
    requires
        rows.len() == commits.len(),
        forall|i: int|
            0 <= i < rows.len() ==> is_graph_row(
                #[trigger] rows[i],
                lanes_before(commits, i),
                commits[i],
            ),
        forall|i: int|
            0 <= i < commits.len() ==> drawn_lanes(
                lanes_before(commits, i),
                #[trigger] commits[i],
                commits[i].parents@.len() as int,
            ).len() <= usize::MAX,
    ensures
        draws_history(
            rows,
            commits,
            Seq::new(commits.len(), |i: int| lanes_before(commits, i)),
            Seq::new(
                commits.len(),
                |i: int|
                    drawn_lanes(
                        lanes_before(commits, i),
                        commits[i],
                        commits[i].parents@.len() as int,
                    ),
            ),
        ),
{
    let above = Seq::new(commits.len(), |i: int| lanes_before(commits, i));
    let below = Seq::new(
        commits.len(),
        |i: int|
            drawn_lanes(lanes_before(commits, i), commits[i], commits[i].parents@.len() as int),
    );
    assert forall|n: int| 0 <= n < commits.len() implies draws_commit(
        #[trigger] rows[n],
        commits[n].oid@,
        views(commits[n].parents@),
        above[n],
        below[n],
    ) by {
        assert(is_graph_row(rows[n], lanes_before(commits, n), commits[n]));
        assert(drawn_lanes(
            lanes_before(commits, n),
            commits[n],
            commits[n].parents@.len() as int,
        ).len() <= usize::MAX);
        lemma_row_draws_commit(rows[n], lanes_before(commits, n), commits[n]);
    }
    let ids = commits.map_values(|c: CommitInfo| c.oid@);
    assert forall|oid: Seq<char>| #[trigger] loaded_ids(commits).contains(oid) <==> exists|i: int|
        0 <= i < commits.len() && (#[trigger] commits[i]).oid@ == oid by {
        if loaded_ids(commits).contains(oid) {
            let i = choose|i: int| 0 <= i < ids.len() && ids[i] == oid;
            assert(commits[i].oid@ == oid);
        }
        if exists|i: int| 0 <= i < commits.len() && (#[trigger] commits[i]).oid@ == oid {
            let i = choose|i: int| 0 <= i < commits.len() && (#[trigger] commits[i]).oid@ == oid;
            assert(ids[i] == oid);
        }
    }
    assert forall|n: int| 0 < n < commits.len() implies #[trigger] above[n] == only_loaded(
        below[n - 1],
        loaded_ids(commits),
    ) by {}
    assert forall|n: int, k: int|
        #![trigger above[n][k]]
        0 < n < commits.len() && 0 <= k < above[n].len() implies {
        let before = below[n - 1][k];
        above[n][k] == if before is Some && (exists|i: int|
            0 <= i < commits.len() && (#[trigger] commits[i]).oid@ == before->0) {
            before
        } else {
            None
        }
    } by {
        assert(above[n] == only_loaded(below[n - 1], loaded_ids(commits)));
        let before = below[n - 1][k];
        if before is Some {
            assert(loaded_ids(commits).contains(before->0) <==> exists|i: int|
                0 <= i < commits.len() && (#[trigger] commits[i]).oid@ == before->0);
        }
    }
}

/// The line from a child to a parent that is drawn below it is not broken: a connector of the
/// child stands for it, and its lane waits for the parent and passes through every row from
/// there down to the row of the parent.
pub proof fn lemma_lines_reach_parents(
    rows: Seq<CommitGraphRow>,
    commits: Seq<CommitInfo>,
    above: Seq<Lanes>,
    below: Seq<Lanes>,
    child: int,
    p: int,
    n: int,
) -> (k: usize)
    requires
        draws_history(rows, commits, above, below),
        0 <= child < n < commits.len(),
        0 <= p < commits[child].parents@.len(),
        commits[child].parents@[p]@ == commits[n].oid@,
        forall|i: int| child < i < n ==> (#[trigger] commits[i]).oid@ != commits[n].oid@,
    ensures
        rows[child].connectors@.contains(k),
        forall|i: int|
            #![trigger rows[i]]
            #![trigger above[i]]
            child < i <= n ==> {
                &&& k < above[i].len()
                &&& above[i][k as int] == Some(commits[n].oid@)
                &&& rows[i].lanes@.contains(k)
            },
        rows[n].lane <= k,
{
    let oid = commits[n].oid@;
    let parents = views(commits[child].parents@);
    assert(draws_commit(rows[child], commits[child].oid@, parents, above[child], below[child]));
    assert(parents[p] == oid);
    let k = choose|k: usize| #[trigger]
        rows[child].connectors@.contains(k) && k < below[child].len() && below[child][k as int]
            == Some(oid);
    lemma_line_goes_on(rows, commits, above, below, child, k, n, n);
    assert forall|i: int|
        #![trigger rows[i]]
        #![trigger above[i]]
        child < i <= n implies {
        &&& k < above[i].len()
        &&& above[i][k as int] == Some(oid)
        &&& rows[i].lanes@.contains(k)
    } by {
        lemma_line_goes_on(rows, commits, above, below, child, k, n, i);
        assert(draws_commit(
            rows[i],
            commits[i].oid@,
            views(commits[i].parents@),
            above[i],
            below[i],
        ));
    }
    assert(draws_commit(rows[n], oid, views(commits[n].parents@), above[n], below[n]));
    assert(above[n].contains(Some(oid)));
    k
}

proof fn lemma_line_goes_on(
    rows: Seq<CommitGraphRow>,
    commits: Seq<CommitInfo>,
    above: Seq<Lanes>,
    below: Seq<Lanes>,
    child: int,
    k: usize,
    n: int,
    i: int,
)
    requires
        draws_history(rows, commits, above, below),
        0 <= child < i <= n < commits.len(),
        k < below[child].len(),
        below[child][k as int] == Some(commits[n].oid@),
        forall|j: int| child < j < n ==> (#[trigger] commits[j]).oid@ != commits[n].oid@,
    ensures
        k < above[i].len(),
        above[i][k as int] == Some(commits[n].oid@),
    decreases i,
{
    if i > child + 1 {
        lemma_line_goes_on(rows, commits, above, below, child, k, n, i - 1);
        let j = i - 1;
        assert(draws_commit(
            rows[j],
            commits[j].oid@,
            views(commits[j].parents@),
            above[j],
            below[j],
        ));
        assert(commits[j].oid@ != commits[n].oid@);
        assert(k != rows[j].lane) by {
            if k == rows[j].lane {
                assert(above[j][k as int] is Some);
            }
        }
        assert(below[j][k as int] == above[j][k as int]);
    }
    assert(above[i].len() == below[i - 1].len());
    assert(above[i][k as int] == Some(commits[n].oid@));
}

} // verus!
