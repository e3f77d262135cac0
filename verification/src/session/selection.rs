//! The changes of a worktree, and which of them are selected.

use vstd::prelude::*;

use crate::strings::{clone_opt, contains_string, opt_view, str_eq, views};
use crate::strset::{StringSet, strictly_sorted};
use crate::types::{DiffScope, WorktreeChange};

verus! {

// ---------------------------------------------------------------------------
// The two lists of changes
// ---------------------------------------------------------------------------
/// Whether a change stands in the list of staged or of unstaged changes.
pub open spec fn is_in(change: WorktreeChange, scope: DiffScope) -> bool {
    match scope {
        DiffScope::Staged => change.staged is Some,
        DiffScope::Unstaged => change.unstaged is Some,
    }
}

/// The paths in one of the lists.
pub open spec fn paths_of(changes: Seq<WorktreeChange>, scope: DiffScope) -> Seq<Seq<char>>
    decreases changes.len(),
{
    if changes.len() == 0 {
        Seq::empty()
    } else {
        let head = paths_of(changes.drop_last(), scope);
        if is_in(changes.last(), scope) {
            head.push(changes.last().path@)
        } else {
            head
        }
    }
}

fn stands_in(change: &WorktreeChange, scope: DiffScope) -> (r: bool)
    ensures
        r == is_in(*change, scope),
{
    match scope {
        DiffScope::Staged => change.staged.is_some(),
        DiffScope::Unstaged => change.unstaged.is_some(),
    }
}

/// The paths in one of the lists.
pub fn change_paths(changes: &Vec<WorktreeChange>, scope: DiffScope) -> (r: Vec<String>)
    ensures
        views(r@) == paths_of(changes@, scope),
{
    let mut r: Vec<String> = Vec::new();
    let mut i: usize = 0;
    assert(changes@.take(0) =~= Seq::<WorktreeChange>::empty());
    assert(views(r@) =~= paths_of(changes@.take(0), scope));
    while i < changes.len()
        invariant
            i <= changes@.len(),
            views(r@) == paths_of(changes@.take(i as int), scope),
        decreases changes@.len() - i,
    {
        let ghost before = views(r@);
        proof {
            let more = changes@.take(i as int + 1);
            assert(more.drop_last() =~= changes@.take(i as int));
            assert(more.last() == changes@[i as int]);
        }
        if stands_in(&changes[i], scope) {
            r.push(changes[i].path.clone());
            assert(views(r@) =~= before.push(changes@[i as int].path@));
        }
        i = i + 1;
    }
    assert(changes@.take(i as int) =~= changes@);
    r
}

/// Where the changes of each list stand in a snapshot.
#[derive(Debug, PartialEq, Eq)]
pub struct ChangeListIndexes {
    pub staged: Vec<usize>,
    pub unstaged: Vec<usize>,
}

/// The places of the changes in one of the lists.
pub open spec fn indexes_of(changes: Seq<WorktreeChange>, scope: DiffScope) -> Seq<usize>
    decreases changes.len(),
{
    if changes.len() == 0 {
        Seq::empty()
    } else {
        let head = indexes_of(changes.drop_last(), scope);
        if is_in(changes.last(), scope) {
            head.push((changes.len() - 1) as usize)
        } else {
            head
        }
    }
}

/// The list shows the paths of the changes that it points to.
pub proof fn lemma_indexes_show_paths(changes: Seq<WorktreeChange>, scope: DiffScope, k: int)
    requires
        changes.len() <= usize::MAX,
        0 <= k < paths_of(changes, scope).len(),
    ensures
        indexes_of(changes, scope).len() == paths_of(changes, scope).len(),
        indexes_of(changes, scope)[k] < changes.len(),
        is_in(changes[indexes_of(changes, scope)[k] as int], scope),
        changes[indexes_of(changes, scope)[k] as int].path@ == paths_of(changes, scope)[k],
    decreases changes.len(),
{
    lemma_same_length(changes, scope);
    let head = changes.drop_last();
    lemma_same_length(head, scope);
    if k < paths_of(head, scope).len() {
        lemma_indexes_show_paths(head, scope, k);
    }
}

proof fn lemma_same_length(changes: Seq<WorktreeChange>, scope: DiffScope)
    ensures
        indexes_of(changes, scope).len() == paths_of(changes, scope).len(),
    decreases changes.len(),
{
    if changes.len() > 0 {
        lemma_same_length(changes.drop_last(), scope);
    }
}

impl Default for ChangeListIndexes {
    fn default() -> (r: Self)
        ensures
            r.staged@.len() == 0,
            r.unstaged@.len() == 0,
    {
        ChangeListIndexes { staged: Vec::new(), unstaged: Vec::new() }
    }
}

impl ChangeListIndexes {
    pub open spec fn show(self, changes: Seq<WorktreeChange>) -> bool {
        &&& self.staged@ == indexes_of(changes, DiffScope::Staged)
        &&& self.unstaged@ == indexes_of(changes, DiffScope::Unstaged)
    }

    pub fn rebuild(changes: &Vec<WorktreeChange>) -> (r: Self)
        ensures
            r.show(changes@),
    {
        let mut r = ChangeListIndexes::default();
        let mut i: usize = 0;
        assert(changes@.take(0) =~= Seq::<WorktreeChange>::empty());
        assert(r.staged@ =~= indexes_of(changes@.take(0), DiffScope::Staged));
        assert(r.unstaged@ =~= indexes_of(changes@.take(0), DiffScope::Unstaged));
        while i < changes.len()
            invariant
                i <= changes@.len(),
                r.show(changes@.take(i as int)),
            decreases changes@.len() - i,
        {
            proof {
                let more = changes@.take(i as int + 1);
                assert(more.drop_last() =~= changes@.take(i as int));
                assert(more.last() == changes@[i as int]);
            }
            if changes[i].staged.is_some() {
                r.staged.push(i);
            }
            if changes[i].unstaged.is_some() {
                r.unstaged.push(i);
            }
            i = i + 1;
        }
        assert(changes@.take(i as int) =~= changes@);
        r
    }
}

// ---------------------------------------------------------------------------
// What is selected
// ---------------------------------------------------------------------------
/// Which changes are selected, and from where a range is drawn.
#[derive(Debug, PartialEq, Eq)]
pub struct ChangeSelection {
    pub staged: StringSet,
    pub unstaged: StringSet,
    pub staged_anchor: Option<String>,
    pub unstaged_anchor: Option<String>,
}

pub struct SelectionView {
    pub staged: Set<Seq<char>>,
    pub unstaged: Set<Seq<char>>,
    pub staged_anchor: Option<Seq<char>>,
    pub unstaged_anchor: Option<Seq<char>>,
}

impl View for ChangeSelection {
    type V = SelectionView;

    open spec fn view(&self) -> SelectionView {
        SelectionView {
            staged: self.staged@,
            unstaged: self.unstaged@,
            staged_anchor: opt_view(self.staged_anchor),
            unstaged_anchor: opt_view(self.unstaged_anchor),
        }
    }
}

impl SelectionView {
    pub open spec fn nothing() -> Self {
        SelectionView {
            staged: Set::empty(),
            unstaged: Set::empty(),
            staged_anchor: None,
            unstaged_anchor: None,
        }
    }

    pub open spec fn chosen(self, scope: DiffScope) -> Set<Seq<char>> {
        match scope {
            DiffScope::Staged => self.staged,
            DiffScope::Unstaged => self.unstaged,
        }
    }

    pub open spec fn anchor_of(self, scope: DiffScope) -> Option<Seq<char>> {
        match scope {
            DiffScope::Staged => self.staged_anchor,
            DiffScope::Unstaged => self.unstaged_anchor,
        }
    }

    /// The selection with another set and another anchor in one of the lists.
    pub open spec fn with(
        self,
        scope: DiffScope,
        chosen: Set<Seq<char>>,
        anchor: Option<Seq<char>>,
    ) -> Self {
        match scope {
            DiffScope::Staged => SelectionView { staged: chosen, staged_anchor: anchor, ..self },
            DiffScope::Unstaged => SelectionView {
                unstaged: chosen,
                unstaged_anchor: anchor,
                ..self
            },
        }
    }

    /// The selection without anything in the other list.
    pub open spec fn only_in(self, scope: DiffScope) -> Self {
        match scope {
            DiffScope::Staged => self.with(DiffScope::Unstaged, Set::empty(), None),
            DiffScope::Unstaged => self.with(DiffScope::Staged, Set::empty(), None),
        }
    }

    /// The selection with `path` alone in its list.
    pub open spec fn just(self, path: Seq<char>, scope: DiffScope) -> Self {
        self.with(scope, Set::empty().insert(path), Some(path))
    }

    /// The selection without `path`. A list with nothing selected has no anchor.
    pub open spec fn without(self, path: Seq<char>, scope: DiffScope) -> Self {
        let left = self.chosen(scope).remove(path);
        self.with(
            scope,
            left,
            if left == Set::<Seq<char>>::empty() {
                None
            } else {
                self.anchor_of(scope)
            },
        )
    }

    /// The selection after one more click with the multiple-selection key.
    pub open spec fn toggled(self, path: Seq<char>, scope: DiffScope) -> Self {
        if self.chosen(scope).contains(path) {
            self.without(path, scope)
        } else {
            self.with(scope, self.chosen(scope).insert(path), Some(path))
        }
    }

    /// The selection after a click that draws a range to `path`.
    pub open spec fn ranged(self, paths: Seq<Seq<char>>, path: Seq<char>, scope: DiffScope) -> Self {
        let here = place_of(paths, path, 0);
        if here >= paths.len() {
            self
        } else {
            match self.anchor_of(scope) {
                None => self.just(path, scope),
                Some(anchor) => {
                    let there = place_of(paths, anchor, 0);
                    if there >= paths.len() {
                        self.just(path, scope)
                    } else {
                        let from = if there <= here {
                            there
                        } else {
                            here
                        };
                        let to = if there <= here {
                            here
                        } else {
                            there
                        };
                        self.with(scope, paths.subrange(from, to + 1).to_set(), Some(anchor))
                    }
                },
            }
        }
    }

    /// The selection that is left when the lists hold `staged` and `unstaged`.
    pub open spec fn kept(self, staged: Set<Seq<char>>, unstaged: Set<Seq<char>>) -> Self {
        SelectionView {
            staged: self.staged.intersect(staged),
            unstaged: self.unstaged.intersect(unstaged),
            staged_anchor: kept_anchor(self.staged_anchor, staged),
            unstaged_anchor: kept_anchor(self.unstaged_anchor, unstaged),
        }
    }

    /// The selection that is left for the changes of a snapshot, if there is one.
    pub open spec fn pruned(self, changes: Option<Seq<WorktreeChange>>) -> Self {
        match changes {
            None => SelectionView::nothing(),
            Some(changes) => self.kept(
                paths_of(changes, DiffScope::Staged).to_set(),
                paths_of(changes, DiffScope::Unstaged).to_set(),
            ),
        }
    }
}

pub open spec fn kept_anchor(anchor: Option<Seq<char>>, paths: Set<Seq<char>>) -> Option<Seq<char>> {
    match anchor {
        Some(path) => if paths.contains(path) {
            Some(path)
        } else {
            None
        },
        None => None,
    }
}

/// The first place of `path` from `from` on, or the length.
pub open spec fn place_of(paths: Seq<Seq<char>>, path: Seq<char>, from: int) -> int
    decreases paths.len() - from,
{
    if from < 0 || from >= paths.len() {
        paths.len() as int
    } else if paths[from] == path {
        from
    } else {
        place_of(paths, path, from + 1)
    }
}

fn find_path(paths: &Vec<String>, path: &str) -> (r: usize)
    ensures
        r == place_of(views(paths@), path@, 0),
        r <= paths@.len(),
{
    let mut i: usize = 0;
    while i < paths.len()
        invariant
            i <= paths@.len(),
            place_of(views(paths@), path@, 0) == place_of(views(paths@), path@, i as int),
        decreases paths@.len() - i,
    {
        if str_eq(paths[i].as_str(), path) {
            return i;
        }
        i = i + 1;
    }
    i
}

/// After pruning, only what a list shows is selected in it.
pub proof fn lemma_pruned_selection_is_shown(
    selection: SelectionView,
    changes: Seq<WorktreeChange>,
    scope: DiffScope,
    path: Seq<char>,
)
    requires
        selection.pruned(Some(changes)).chosen(scope).contains(path),
    ensures
        paths_of(changes, scope).contains(path),
        selection.chosen(scope).contains(path),
{
}

/// Pruning twice is pruning once.
pub proof fn lemma_pruning_is_idempotent(
    selection: SelectionView,
    changes: Option<Seq<WorktreeChange>>,
)
    ensures
        selection.pruned(changes).pruned(changes) == selection.pruned(changes),
{
    match changes {
        None => {},
        Some(c) => {
            let once = selection.pruned(changes);
            assert(once.pruned(changes).staged =~= once.staged);
            assert(once.pruned(changes).unstaged =~= once.unstaged);
        },
    }
}

/// Clicking twice with the multiple-selection key selects what was selected.
pub proof fn lemma_toggling_twice(selection: SelectionView, path: Seq<char>, scope: DiffScope)
    ensures
        selection.toggled(path, scope).toggled(path, scope).chosen(scope) == selection.chosen(
            scope,
        ),
{
    let once = selection.toggled(path, scope);
    let twice = once.toggled(path, scope);
    assert(twice.chosen(scope) =~= selection.chosen(scope));
}

impl Default for ChangeSelection {
    fn default() -> (r: Self)
        ensures
            r.wf(),
            r@ == SelectionView::nothing(),
    {
        ChangeSelection {
            staged: StringSet::new(),
            unstaged: StringSet::new(),
            staged_anchor: None,
            unstaged_anchor: None,
        }
    }
}

impl ChangeSelection {
    pub open spec fn wf(self) -> bool {
        self.staged.wf() && self.unstaged.wf()
    }

    pub fn clear(&mut self)
        ensures
            final(self).wf(),
            final(self)@ == SelectionView::nothing(),
    {
        self.staged.clear();
        self.unstaged.clear();
        self.staged_anchor = None;
        self.unstaged_anchor = None;
    }

    pub fn selected(&self, scope: DiffScope) -> (r: &StringSet)
        requires
            self.wf(),
        ensures
            r.wf(),
            r@ == self@.chosen(scope),
    {
        match scope {
            DiffScope::Staged => &self.staged,
            DiffScope::Unstaged => &self.unstaged,
        }
    }

    pub fn anchor(&self, scope: DiffScope) -> (r: Option<String>)
        ensures
            opt_view(r) == self@.anchor_of(scope),
    {
        match scope {
            DiffScope::Staged => clone_opt(&self.staged_anchor),
            DiffScope::Unstaged => clone_opt(&self.unstaged_anchor),
        }
    }

    pub fn set_anchor(&mut self, scope: DiffScope, path: String)
        requires
            old(self).wf(),
        ensures
            final(self).wf(),
            final(self)@ == old(self)@.with(scope, old(self)@.chosen(scope), Some(path@)),
    {
        match scope {
            DiffScope::Staged => {
                self.staged_anchor = Some(path);
            },
            DiffScope::Unstaged => {
                self.unstaged_anchor = Some(path);
            },
        }
    }

    fn replace(&mut self, scope: DiffScope, chosen: StringSet)
        requires
            old(self).wf(),
            chosen.wf(),
        ensures
            final(self).wf(),
            final(self)@ == old(self)@.with(scope, chosen@, old(self)@.anchor_of(scope)),
    {
        match scope {
            DiffScope::Staged => {
                self.staged = chosen;
            },
            DiffScope::Unstaged => {
                self.unstaged = chosen;
            },
        }
    }

    fn insert(&mut self, scope: DiffScope, path: String)
        requires
            old(self).wf(),
        ensures
            final(self).wf(),
            final(self)@ == old(self)@.with(
                scope,
                old(self)@.chosen(scope).insert(path@),
                old(self)@.anchor_of(scope),
            ),
    {
        match scope {
            DiffScope::Staged => {
                self.staged.insert(path);
            },
            DiffScope::Unstaged => {
                self.unstaged.insert(path);
            },
        }
    }

    /// Takes `path` out, and the anchor of a list with nothing selected.
    fn take_out(&mut self, scope: DiffScope, path: &str)
        requires
            old(self).wf(),
        ensures
            final(self).wf(),
            final(self)@ == old(self)@.without(path@, scope),
    {
        match scope {
            DiffScope::Staged => {
                self.staged.remove(path);
            },
            DiffScope::Unstaged => {
                self.unstaged.remove(path);
            },
        }
        self.clear_change_anchor_if_empty(scope);
    }

    fn select_just(&mut self, scope: DiffScope, path: String)
        requires
            old(self).wf(),
        ensures
            final(self).wf(),
            final(self)@ == old(self)@.just(path@, scope),
    {
        let mut chosen: StringSet = StringSet::new();
        chosen.insert(path.clone());
        self.replace(scope, chosen);
        self.set_anchor(scope, path);
    }

    pub fn clear_opposite_change_selection(&mut self, scope: DiffScope)
        requires
            old(self).wf(),
        ensures
            final(self).wf(),
            final(self)@ == old(self)@.only_in(scope),
    {
        match scope {
            DiffScope::Staged => {
                self.unstaged.clear();
                self.unstaged_anchor = None;
            },
            DiffScope::Unstaged => {
                self.staged.clear();
                self.staged_anchor = None;
            },
        }
    }

    pub fn clear_change_anchor_if_empty(&mut self, scope: DiffScope)
        requires
            old(self).wf(),
        ensures
            final(self).wf(),
            final(self)@ == old(self)@.with(
                scope,
                old(self)@.chosen(scope),
                if old(self)@.chosen(scope) == Set::<Seq<char>>::empty() {
                    None
                } else {
                    old(self)@.anchor_of(scope)
                },
            ),
    {
        match scope {
            DiffScope::Staged => {
                if self.staged.is_empty() {
                    self.staged_anchor = None;
                }
            },
            DiffScope::Unstaged => {
                if self.unstaged.is_empty() {
                    self.unstaged_anchor = None;
                }
            },
        }
    }

    /// Selects one change and nothing else, in either list.
    pub fn select_only_change(&mut self, path: String, scope: DiffScope)
        ensures
            final(self).wf(),
            final(self)@ == SelectionView::nothing().just(path@, scope),
    {
        self.clear();
        self.select_just(scope, path);
    }

    pub fn is_change_selected(&self, scope: DiffScope, path: &str) -> (r: bool)
        requires
            self.wf(),
        ensures
            r == self@.chosen(scope).contains(path@),
    {
        self.selected(scope).contains(path)
    }

    /// The selected paths, in order.
    pub fn selected_change_paths(&self, scope: DiffScope) -> (r: Vec<String>)
        requires
            self.wf(),
        ensures
            strictly_sorted(views(r@)),
            views(r@).to_set() == self@.chosen(scope),
    {
        crate::strings::clone_strings(&self.selected(scope).items)
    }

    /// Selects what a click on a change selects. Says whether its differences are to be shown.
    pub fn select_change_from_mouse(
        &mut self,
        changes: &Vec<WorktreeChange>,
        path: String,
        scope: DiffScope,
        shift: bool,
        multi: bool,
    ) -> (load: bool)
        requires
            old(self).wf(),
        ensures
            final(self).wf(),
            ({
                let here = old(self)@.only_in(scope);
                let was = here.chosen(scope).contains(path@);
                let paths = paths_of(changes@, scope);
                if shift {
                    final(self)@ == here.ranged(paths, path@, scope) && load == (place_of(
                        paths,
                        path@,
                        0,
                    ) < paths.len())
                } else if multi {
                    final(self)@ == here.toggled(path@, scope) && load == !was
                } else if was {
                    final(self)@ == here.without(path@, scope) && !load
                } else {
                    final(self)@ == here.just(path@, scope) && load
                }
            }),
    {
        self.clear_opposite_change_selection(scope);
        if shift {
            self.select_change_range(changes, path, scope)
        } else if multi {
            if self.is_change_selected(scope, path.as_str()) {
                self.take_out(scope, path.as_str());
                false
            } else {
                self.insert(scope, path.clone());
                self.set_anchor(scope, path);
                true
            }
        } else if self.is_change_selected(scope, path.as_str()) {
            self.take_out(scope, path.as_str());
            false
        } else {
            self.select_just(scope, path);
            true
        }
    }

    /// Selects everything between the anchor and `path`. Says whether differences are to be
    /// shown.
    pub fn select_change_range(
        &mut self,
        changes: &Vec<WorktreeChange>,
        path: String,
        scope: DiffScope,
    ) -> (load: bool)
        requires
            old(self).wf(),
        ensures
            final(self).wf(),
            final(self)@ == old(self)@.only_in(scope).ranged(
                paths_of(changes@, scope),
                path@,
                scope,
            ),
            load == (place_of(paths_of(changes@, scope), path@, 0) < paths_of(
                changes@,
                scope,
            ).len()),
    {
        self.clear_opposite_change_selection(scope);
        let paths: Vec<String> = change_paths(changes, scope);
        let here: usize = find_path(&paths, path.as_str());
        if here >= paths.len() {
            return false;
        }
        let anchor: String = match self.anchor(scope) {
            Some(anchor) => anchor,
            None => {
                self.select_just(scope, path);
                return true;
            },
        };
        let there: usize = find_path(&paths, anchor.as_str());
        if there >= paths.len() {
            self.select_just(scope, path);
            return true;
        }
        let from: usize = if there <= here {
            there
        } else {
            here
        };
        let to: usize = if there <= here {
            here
        } else {
            there
        };
        let mut between: Vec<String> = Vec::new();
        let mut i: usize = from;
        let end: usize = to + 1;
        while i < end
            invariant
                from <= i <= end <= paths@.len(),
                views(between@) =~= views(paths@).subrange(from as int, i as int),
            decreases end - i,
        {
            let ghost before = views(between@);
            between.push(paths[i].clone());
            assert(views(between@) =~= before.push(views(paths@)[i as int]));
            i = i + 1;
        }
        let chosen: StringSet = StringSet::from_strings(&between);
        self.replace(scope, chosen);
        true
    }

    /// Selects `path` for a menu, unless it is selected. Says whether its differences are to be
    /// shown.
    pub fn ensure_change_context_selection(&mut self, path: String, scope: DiffScope) -> (load: bool)
        requires
            old(self).wf(),
        ensures
            final(self).wf(),
            load == !old(self)@.chosen(scope).contains(path@),
            final(self)@ == if load {
                old(self)@.only_in(scope).just(path@, scope)
            } else {
                old(self)@.only_in(scope)
            },
    {
        self.clear_opposite_change_selection(scope);
        if self.is_change_selected(scope, path.as_str()) {
            false
        } else {
            self.select_just(scope, path);
            true
        }
    }

    /// Takes out what is no longer among the changes.
    pub fn prune_change_selection(&mut self, changes: Option<&Vec<WorktreeChange>>)
        requires
            old(self).wf(),
        ensures
            final(self).wf(),
            final(self)@ == old(self)@.pruned(
                match changes {
                    Some(c) => Some(c@),
                    None => None,
                },
            ),
    {
        match changes {
            None => {
                self.clear();
            },
            Some(changes) => {
                let staged: Vec<String> = change_paths(changes, DiffScope::Staged);
                let unstaged: Vec<String> = change_paths(changes, DiffScope::Unstaged);
                self.staged = retained(&self.staged, &staged, true);
                self.unstaged = retained(&self.unstaged, &unstaged, true);
                assert(self.staged@ =~= old(self)@.staged.intersect(views(staged@).to_set()));
                assert(self.unstaged@ =~= old(self)@.unstaged.intersect(views(unstaged@).to_set()));
                let gone: bool = match &self.staged_anchor {
                    Some(path) => !contains_string(&staged, path.as_str()),
                    None => false,
                };
                if gone {
                    self.staged_anchor = None;
                }
                let gone: bool = match &self.unstaged_anchor {
                    Some(path) => !contains_string(&unstaged, path.as_str()),
                    None => false,
                };
                if gone {
                    self.unstaged_anchor = None;
                }
            },
        }
    }

    /// Takes the given paths out of one of the lists.
    pub fn remove_paths(&mut self, scope: DiffScope, paths: &Vec<String>)
        requires
            old(self).wf(),
        ensures
            final(self).wf(),
            ({
                let left = old(self)@.chosen(scope).difference(views(paths@).to_set());
                final(self)@ == old(self)@.with(
                    scope,
                    left,
                    if left == Set::<Seq<char>>::empty() {
                        None
                    } else {
                        old(self)@.anchor_of(scope)
                    },
                )
            }),
    {
        let left: StringSet = retained(self.selected(scope), paths, false);
        assert(left@ =~= self@.chosen(scope).difference(views(paths@).to_set()));
        self.replace(scope, left);
        self.clear_change_anchor_if_empty(scope);
    }
}

/// The texts of a set that are among `paths`, or those that are not.
fn retained(set: &StringSet, paths: &Vec<String>, among: bool) -> (r: StringSet)
    requires
        set.wf(),
    ensures
        r.wf(),
        forall|p: Seq<char>| #[trigger]
            r@.contains(p) <==> set@.contains(p) && among == views(paths@).contains(p),
{
    let mut r: StringSet = StringSet::new();
    let mut i: usize = 0;
    let ghost all = views(set.items@);
    while i < set.items.len()
        invariant
            i <= set.items@.len(),
            all == views(set.items@),
            r.wf(),
            forall|p: Seq<char>| #[trigger]
                r@.contains(p) <==> all.take(i as int).contains(p) && among == views(
                    paths@,
                ).contains(p),
        decreases set.items@.len() - i,
    {
        let ghost before = r@;
        let kept: bool = contains_string(paths, set.items[i].as_str()) == among;
        if kept {
            r.insert(set.items[i].clone());
        }
        proof {
            let head = all.take(i as int);
            let more = all.take(i as int + 1);
            assert(more =~= head.push(all[i as int]));
            assert forall|p: Seq<char>| #[trigger] r@.contains(p) <==> more.contains(p) && among
                == views(paths@).contains(p) by {
                if more.contains(p) {
                    let k = choose|k: int| 0 <= k < more.len() && more[k] == p;
                    if k < i {
                        assert(head[k] == p);
                    }
                }
                if head.contains(p) {
                    let k = choose|k: int| 0 <= k < head.len() && head[k] == p;
                    assert(more[k] == p);
                }
                assert(more[i as int] == all[i as int]);
                assert(r@.contains(p) <==> before.contains(p) || (kept && p == all[i as int]));
            }
        }
        i = i + 1;
    }
    assert(all.take(i as int) =~= all);
    r
}

// ---------------------------------------------------------------------------
// Laws of lists and selections
// ---------------------------------------------------------------------------
/// A change stands in the list of staged changes if it has a staged state, and in the other list if
/// it has one there; in both if it has both.
pub proof fn lemma_lists_of_changes(change: WorktreeChange)
    ensures
        is_in(change, DiffScope::Staged) <==> change.staged is Some,
        is_in(change, DiffScope::Unstaged) <==> change.unstaged is Some,
{
}

/// The list of one kind holds exactly the changes of that kind, each once and in their order.
pub proof fn lemma_lists_hold_their_changes(
    changes: Seq<WorktreeChange>,
    scope: DiffScope,
    i: int,
) -> (k: int)
    requires
        0 <= i < changes.len() <= usize::MAX,
    ensures
        is_in(changes[i], scope) <==> indexes_of(changes, scope).contains(i as usize),
        is_in(changes[i], scope) ==> 0 <= k < indexes_of(changes, scope).len() && indexes_of(
            changes,
            scope,
        )[k] == i && paths_of(changes, scope)[k] == changes[i].path@,
        forall|a: int, b: int|
            0 <= a < b < indexes_of(changes, scope).len() ==> (#[trigger] indexes_of(
                changes,
                scope,
            )[a]) < (#[trigger] indexes_of(changes, scope)[b]),
        forall|a: int|
            0 <= a < indexes_of(changes, scope).len() ==> (#[trigger] indexes_of(changes, scope)[a])
                < changes.len(),
    decreases changes.len(),
{
    let head = changes.drop_last();
    let all = indexes_of(changes, scope);
    let before = indexes_of(head, scope);
    lemma_same_length(changes, scope);
    lemma_same_length(head, scope);
    let last = changes.len() - 1;
    if head.len() == 0 {
        assert(before.len() == 0);
        if is_in(changes[i], scope) {
            assert(all[0] == i);
            assert(all.contains(i as usize));
        } else {
            assert(all.len() == 0);
        }
        0
    } else if i < last {
        let k = lemma_lists_hold_their_changes(head, scope, i);
        if is_in(changes[i], scope) {
            assert(all[k] == before[k]);
            assert(all.contains(i as usize));
        } else if all.contains(i as usize) {
            let a = choose|a: int| 0 <= a < all.len() && all[a] == i as usize;
            if a < before.len() {
                assert(before[a] == i as usize);
                assert(before.contains(i as usize));
            }
        }
        assert forall|a: int, b: int| 0 <= a < b < all.len() implies (#[trigger] all[a]) < (
        #[trigger] all[b]) by {
            assert(a < before.len());
            assert(all[a] == before[a]);
            if b < before.len() {
                assert(all[b] == before[b]);
            } else {
                assert(before[a] < head.len());
            }
        }
        assert forall|a: int| 0 <= a < all.len() implies (#[trigger] all[a]) < changes.len() by {
            if a < before.len() {
                assert(before[a] < head.len());
            }
        }
        k
    } else {
        let _ = lemma_lists_hold_their_changes(head, scope, 0);
        assert forall|a: int| 0 <= a < all.len() implies (#[trigger] all[a]) < changes.len() by {
            if a < before.len() {
                assert(before[a] < head.len());
            }
        }
        assert forall|a: int, b: int| 0 <= a < b < all.len() implies (#[trigger] all[a]) < (
        #[trigger] all[b]) by {
            assert(a < before.len());
            assert(all[a] == before[a]);
            if b < before.len() {
                assert(all[b] == before[b]);
            } else {
                assert(before[a] < head.len());
            }
        }
        if is_in(changes[i], scope) {
            assert(all[before.len() as int] == i as usize);
            assert(all.contains(i as usize));
        } else if all.contains(i as usize) {
            let a = choose|a: int| 0 <= a < all.len() && all[a] == i as usize;
            assert(before[a] < head.len());
        }
        before.len() as int
    }
}

/// A path is in one of the lists if and only if a change of that kind has it.
pub proof fn lemma_paths_in_a_list(
    changes: Seq<WorktreeChange>,
    scope: DiffScope,
    path: Seq<char>,
)
    ensures
        paths_of(changes, scope).contains(path) <==> exists|i: int|
            0 <= i < changes.len() && is_in(#[trigger] changes[i], scope) && changes[i].path@
                == path,
    decreases changes.len(),
{
    if changes.len() > 0 {
        let head = changes.drop_last();
        lemma_paths_in_a_list(head, scope, path);
        let all = paths_of(changes, scope);
        let before = paths_of(head, scope);
        if all.contains(path) {
            let k = choose|k: int| 0 <= k < all.len() && all[k] == path;
            if k < before.len() {
                assert(before[k] == path);
                let i = choose|i: int|
                    0 <= i < head.len() && is_in(#[trigger] head[i], scope) && head[i].path@
                        == path;
                assert(changes[i] == head[i]);
            } else {
                assert(is_in(changes[changes.len() - 1], scope));
            }
        }
        if exists|i: int|
            0 <= i < changes.len() && is_in(#[trigger] changes[i], scope) && changes[i].path@
                == path {
            let i = choose|i: int|
                0 <= i < changes.len() && is_in(#[trigger] changes[i], scope) && changes[i].path@
                    == path;
            if i < head.len() {
                assert(head[i] == changes[i]);
                let k = choose|k: int| 0 <= k < before.len() && before[k] == path;
                assert(all[k] == path);
            } else {
                assert(all[before.len() as int] == path);
            }
        }
    }
}

/// What one sees of a selection is what it holds; none holds nothing.
pub proof fn lemma_selection_is_what_is_seen(selection: ChangeSelection, scope: DiffScope)
    ensures
        selection@.chosen(DiffScope::Staged) == selection.staged@,
        selection@.chosen(DiffScope::Unstaged) == selection.unstaged@,
        selection@.anchor_of(DiffScope::Staged) == opt_view(selection.staged_anchor),
        selection@.anchor_of(DiffScope::Unstaged) == opt_view(selection.unstaged_anchor),
        SelectionView::nothing().chosen(scope) == Set::<Seq<char>>::empty(),
        SelectionView::nothing().anchor_of(scope) is None,
{
}

/// The other of the two lists.
pub open spec fn other_scope(scope: DiffScope) -> DiffScope {
    match scope {
        DiffScope::Staged => DiffScope::Unstaged,
        DiffScope::Unstaged => DiffScope::Staged,
    }
}

/// Clicking a change with the key for many takes it in or out, and no other change. The one that was
/// taken in is where a range starts from; the other list is left alone.
pub proof fn lemma_toggled(
    selection: SelectionView,
    path: Seq<char>,
    other: Seq<char>,
    scope: DiffScope,
)
    ensures
        ({
            let after = selection.toggled(path, scope);
            &&& after.chosen(scope).contains(path) <==> !selection.chosen(scope).contains(path)
            &&& other != path ==> (after.chosen(scope).contains(other) <==> selection.chosen(
                scope,
            ).contains(other))
            &&& after.chosen(other_scope(scope)) == selection.chosen(other_scope(scope))
            &&& after.anchor_of(other_scope(scope)) == selection.anchor_of(other_scope(scope))
            &&& !selection.chosen(scope).contains(path) ==> after.anchor_of(scope) == Some(path)
            &&& selection.chosen(scope).contains(path) && after.chosen(scope).contains(other)
                ==> after.anchor_of(scope) == selection.anchor_of(scope)
        }),
{
}

/// Selecting one change alone selects nothing else in its list, and a range starts from it.
pub proof fn lemma_just_one(
    selection: SelectionView,
    path: Seq<char>,
    other: Seq<char>,
    scope: DiffScope,
)
    ensures
        ({
            let after = selection.just(path, scope);
            &&& after.chosen(scope).contains(other) <==> other == path
            &&& after.anchor_of(scope) == Some(path)
            &&& after.chosen(other_scope(scope)) == selection.chosen(other_scope(scope))
            &&& after.anchor_of(other_scope(scope)) == selection.anchor_of(other_scope(scope))
        }),
{
}

/// Selecting in one list takes the selection out of the other.
pub proof fn lemma_only_in_one_list(selection: SelectionView, scope: DiffScope)
    ensures
        selection.only_in(scope).chosen(scope) == selection.chosen(scope),
        selection.only_in(scope).anchor_of(scope) == selection.anchor_of(scope),
        selection.only_in(scope).chosen(other_scope(scope)) == Set::<Seq<char>>::empty(),
        selection.only_in(scope).anchor_of(other_scope(scope)) is None,
{
}

/// A range selects what lies between its start and the change that was clicked, both with it, and
/// nothing else; it can be drawn anew from the same start. Without a start that is listed it selects
/// the one change, and a change that is not listed changes nothing.
pub proof fn lemma_ranged(
    selection: SelectionView,
    paths: Seq<Seq<char>>,
    path: Seq<char>,
    other: Seq<char>,
    scope: DiffScope,
    here: int,
    there: int,
)
    requires
        0 <= here < paths.len(),
        0 <= there < paths.len(),
        paths[here] == path,
        forall|i: int| 0 <= i < here ==> #[trigger] paths[i] != path,
        selection.anchor_of(scope) matches Some(anchor) ==> paths[there] == anchor && (forall|i: int|
            0 <= i < there ==> #[trigger] paths[i] != anchor),
    ensures
        ({
            let after = selection.ranged(paths, path, scope);
            let from = if there <= here {
                there
            } else {
                here
            };
            let to = if there <= here {
                here
            } else {
                there
            };
            &&& selection.anchor_of(scope) is Some ==> (after.chosen(scope).contains(other)
                <==> exists|i: int| from <= i <= to && #[trigger] paths[i] == other)
            &&& selection.anchor_of(scope) is Some ==> after.anchor_of(scope)
                == selection.anchor_of(scope)
            &&& selection.anchor_of(scope) is None ==> after == selection.just(path, scope)
            &&& after.chosen(other_scope(scope)) == selection.chosen(other_scope(scope))
        }),
{
    lemma_first_place(paths, path, 0, here);
    if let Some(anchor) = selection.anchor_of(scope) {
        lemma_first_place(paths, anchor, 0, there);
        let from = if there <= here {
            there
        } else {
            here
        };
        let to = if there <= here {
            here
        } else {
            there
        };
        let part = paths.subrange(from, to + 1);
        if part.contains(other) {
            let k = choose|k: int| 0 <= k < part.len() && part[k] == other;
            assert(paths[from + k] == other);
        }
        if exists|i: int| from <= i <= to && #[trigger] paths[i] == other {
            let i = choose|i: int| from <= i <= to && #[trigger] paths[i] == other;
            assert(part[i - from] == other);
        }
    }
}

proof fn lemma_first_place(paths: Seq<Seq<char>>, path: Seq<char>, from: int, at: int)
    requires
        0 <= from <= at < paths.len(),
        paths[at] == path,
        forall|i: int| from <= i < at ==> #[trigger] paths[i] != path,
    ensures
        place_of(paths, path, from) == at,
    decreases at - from,
{
    if from < at {
        assert(paths[from] != path);
        lemma_first_place(paths, path, from + 1, at);
    }
}

/// A range to a change that is not listed changes nothing, and one from a start that is not listed
/// any more selects the one change.
pub proof fn lemma_range_without_an_end(
    selection: SelectionView,
    paths: Seq<Seq<char>>,
    path: Seq<char>,
    scope: DiffScope,
)
    ensures
        !paths.contains(path) ==> selection.ranged(paths, path, scope) == selection,
        paths.contains(path) && (selection.anchor_of(scope) matches Some(anchor)
            && !paths.contains(anchor)) ==> selection.ranged(paths, path, scope) == selection.just(
            path,
            scope,
        ),
{
    lemma_place_of(paths, path, 0);
    if let Some(anchor) = selection.anchor_of(scope) {
        lemma_place_of(paths, anchor, 0);
    }
}

proof fn lemma_place_of(paths: Seq<Seq<char>>, path: Seq<char>, from: int)
    requires
        0 <= from <= paths.len(),
    ensures
        from <= place_of(paths, path, from) <= paths.len(),
        place_of(paths, path, from) < paths.len() ==> paths[place_of(paths, path, from)] == path,
        forall|i: int| from <= i < place_of(paths, path, from) ==> #[trigger] paths[i] != path,
    decreases paths.len() - from,
{
    if from < paths.len() && paths[from] != path {
        lemma_place_of(paths, path, from + 1);
    }
}

/// When the changes are read again, what was selected and is still listed stays selected, and nothing
/// else is; the start of a range stays if it is listed. Without a repository nothing is selected.
pub proof fn lemma_pruned(
    selection: SelectionView,
    changes: Seq<WorktreeChange>,
    scope: DiffScope,
    path: Seq<char>,
)
    ensures
        ({
            let after = selection.pruned(Some(changes));
            let listed = exists|i: int|
                0 <= i < changes.len() && is_in(#[trigger] changes[i], scope) && changes[i].path@
                    == path;
            &&& after.chosen(scope).contains(path) <==> selection.chosen(scope).contains(path)
                && listed
            &&& selection.anchor_of(scope) == Some(path) && listed ==> after.anchor_of(scope)
                == Some(path)
            &&& selection.anchor_of(scope) == Some(path) && !listed ==> after.anchor_of(
                scope,
            ) is None
            &&& selection.anchor_of(scope) is None ==> after.anchor_of(scope) is None
        }),
        selection.pruned(None).chosen(scope) == Set::<Seq<char>>::empty(),
        selection.pruned(None).anchor_of(scope) is None,
{
    lemma_paths_in_a_list(changes, scope, path);
}

} // verus!
