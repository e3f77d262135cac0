//! Selecting, showing and discarding changes.

use vstd::prelude::*;

use crate::session::commands::discarded_message;
use crate::session::effects::Effect;
use crate::session::popups::{ContextMenu, DialogState, DiscardTarget, Popups};
use crate::session::selection::SelectionView;
use crate::session::tab::{MainMode, RepoTabState, TabView};
use crate::session::view::{RepositoryView, Spot, ViewState};
use crate::session::view_tabs::{next_load, next_load_id};
use crate::strings::{cat2, find_from, lowercase, position_from, str_eq, views};
use crate::text::{from_chars, to_chars};
use crate::textmap::TextMap;
use crate::types::{BranchInfo, BranchKind, DiffEncodingChoice, DiffScope, WorktreeChange};

verus! {

impl RepoTabState {
    /// Selects what a click on a change selects. Says whether its differences are to be shown.
    fn click_change(&mut self, path: String, scope: DiffScope, shift: bool, multi: bool) -> (load:
        bool)
        requires
            old(self).wf(),
        ensures
            final(self).wf(),
            ({
                let here = old(self)@.selection.only_in(scope);
                let paths = match old(self)@.snapshot {
                    Some(s) => crate::session::selection::paths_of(s.changes, scope),
                    None => Seq::empty(),
                };
                let was = here.chosen(scope).contains(path@);
                let (selection, shown) = if shift {
                    (
                        here.ranged(paths, path@, scope),
                        crate::session::selection::place_of(paths, path@, 0) < paths.len(),
                    )
                } else if multi {
                    (here.toggled(path@, scope), !was)
                } else if was {
                    (here.without(path@, scope), false)
                } else {
                    (here.just(path@, scope), true)
                };
                final(self)@ == (TabView { selection, ..old(self)@ }) && load == shown
            }),
    {
        match &self.snapshot {
            Some(s) => self.change_selection.select_change_from_mouse(
                &s.changes,
                path,
                scope,
                shift,
                multi,
            ),
            None => {
                let none: Vec<WorktreeChange> = Vec::new();
                assert(crate::session::selection::paths_of(none@, scope) =~= Seq::<Seq<char>>::empty());
                self.change_selection.select_change_from_mouse(&none, path, scope, shift, multi)
            },
        }
    }
}

impl RepositoryView {
    /// Selects what a click on a change selects, and shows its differences.
    pub fn select_change_from_mouse(
        &mut self,
        path: String,
        scope: DiffScope,
        shift: bool,
        multi: bool,
        effects: &mut Vec<Effect>,
    )
        requires
            old(self).wf(),
        ensures
            final(self).wf(),
            ({
                let (selection, load) = old(self)@.clicked(path@, scope, shift, multi);
                let (after, done) = old(self)@.picking(selection, load, path, scope);
                final(self)@ == after && final(effects)@ == old(effects)@ + done
            }),
    {
        let ghost (selection, shown) = self@.clicked(path@, scope, shift, multi);
        let ghost picked = self@.picking(selection, shown, path, scope);
        let spot: Spot = self.spot(None);
        let tab = self.tab_at(spot);
        let load: bool = tab.click_change(path.clone(), scope, shift, multi);
        assert(load == shown);
        if load {
            self.load_diff(path, scope, effects);
        } else {
            assert(effects@ =~= old(effects)@ + Seq::<Effect>::empty());
        }
    }

    /// Opens the menu of a change, which is selected for it.
    pub fn open_change_context_menu(
        &mut self,
        path: String,
        scope: DiffScope,
        effects: &mut Vec<Effect>,
    )
        requires
            old(self).wf(),
        ensures
            final(self).wf(),
            ({
                let here = old(self)@.current().selection;
                let load = !here.chosen(scope).contains(path@);
                let selection = if load {
                    here.only_in(scope).just(path@, scope)
                } else {
                    here.only_in(scope)
                };
                let (after, done) = old(self)@.picking(selection, load, path, scope);
                &&& final(effects)@ == old(effects)@ + done
                &&& final(self)@ == (ViewState {
                    popups: Popups {
                        active_dialog: None,
                        menu: Some(ContextMenu::Change { path, scope }),
                        encoding_menu_target: None,
                        ..after.popups
                    },
                    ..after
                })
            }),
    {
        let spot: Spot = self.spot(None);
        let tab = self.tab_at(spot);
        let load: bool = tab.change_selection.ensure_change_context_selection(path.clone(), scope);
        if load {
            self.load_diff(path.clone(), scope, effects);
        } else {
            assert(effects@ =~= old(effects)@ + Seq::<Effect>::empty());
        }
        self.popups.open_menu(ContextMenu::Change { path, scope });
    }

    /// Opens the menu of a commit, which is selected for it.
    pub fn open_commit_context_menu(
        &mut self,
        oid: String,
        short_oid: String,
        summary: String,
        parent_count: usize,
        effects: &mut Vec<Effect>,
    )
        requires
            old(self).wf(),
        ensures
            final(self).wf(),
            ({
                let (tab, done) = old(self)@.current().selecting_commit(oid);
                &&& final(effects)@ == old(effects)@ + done
                &&& final(self)@ == (ViewState {
                    popups: Popups {
                        active_dialog: None,
                        menu: Some(ContextMenu::Commit { oid, short_oid, summary, parent_count }),
                        encoding_menu_target: None,
                        ..old(self)@.popups
                    },
                    ..old(self)@.put(old(self)@.spot(None), tab)
                })
            }),
    {
        let spot: Spot = self.spot(None);
        let tab = self.tab_at(spot);
        tab.select_history_commit(oid.clone(), effects);
        self.popups.open_menu(ContextMenu::Commit { oid, short_oid, summary, parent_count });
    }

    /// Asks whether changes are to be discarded.
    pub fn open_discard_change_confirm_dialog(
        &mut self,
        paths: Vec<String>,
        scope: DiffScope,
        target: DiscardTarget,
    )
        requires
            old(self).wf(),
        ensures
            final(self).wf(),
            final(self)@ == old(self)@.confirming(paths, scope, target),
    {
        let spot: Spot = self.spot(None);
        if paths.len() == 0 {
            self.fail("没有可回滚的文件");
            self.close_change_menu();
            return ;
        }
        self.ready_discard(spot, &paths, scope, target);
        self.popups.open_dialog(DialogState::ConfirmDiscardChange { scope, target, paths });
    }

    fn ready_discard(
        &mut self,
        spot: Spot,
        paths: &Vec<String>,
        scope: DiffScope,
        target: DiscardTarget,
    )
        requires
            old(self).wf(),
            old(self)@.is_place(spot),
            paths@.len() > 0,
        ensures
            final(self).wf(),
            final(self)@ == old(self)@.put(
                spot,
                TabView {
                    selection: if target == DiscardTarget::Single {
                        SelectionView::nothing().just(paths@[0]@, scope)
                    } else {
                        old(self)@.at(spot).selection.only_in(scope)
                    },
                    error: None,
                    ..old(self)@.at(spot)
                },
            ),
    {
        let tab = self.tab_at(spot);
        match target {
            DiscardTarget::Single => {
                tab.change_selection.select_only_change(paths[0].clone(), scope);
            },
            _ => {
                tab.change_selection.clear_opposite_change_selection(scope);
            },
        }
        tab.last_error = None;
    }

    fn close_change_menu(&mut self)
        requires
            old(self).wf(),
        ensures
            final(self).wf(),
            final(self)@ == (ViewState {
                popups: old(self)@.popups.without_change_menu(),
                ..old(self)@
            }),
    {
        let change: bool = match &self.popups.menu {
            Some(ContextMenu::Change { .. }) => true,
            _ => false,
        };
        if change {
            self.popups.menu = None;
        }
    }

    /// Discards changes of the repository that is shown.
    pub fn discard_change(
        &mut self,
        paths: Vec<String>,
        scope: DiffScope,
        target: DiscardTarget,
        effects: &mut Vec<Effect>,
    )
        requires
            old(self).wf(),
        ensures
            final(self).wf(),
            final(self)@ == old(self)@.discarding(paths, scope, target).0,
            final(effects)@ == old(effects)@ + old(self)@.discarding(paths, scope, target).1,
    {
        let ghost done = self@.discarding(paths, scope, target);
        match self.active_repository() {
            None => {
                self.fail("请先打开一个仓库");
            },
            Some((tab_id, path)) => {
                let spot: Spot = self.spot(None);
                self.popups.close_dialog();
                self.close_change_menu();
                let load_id: u64 = self.clear_discarded(spot, &paths, scope);
                effects.push(Effect::ResetDiffScroll { tab_id });
                proof {
                    crate::session::view::lemma_same_ids(old(self)@.tabs, self@.tabs, tab_id, 0);
                }
                if self.spawn_operation(Some(tab_id), "正在回滚文件更改", false) {
                    effects.push(
                        Effect::RunDiscard {
                            tab_id,
                            path,
                            paths,
                            scope,
                            message: discarded_message(scope, target),
                            load_id,
                        },
                    );
                }
            },
        }
        assert(effects@ =~= old(effects)@ + done.1);
    }

    fn clear_discarded(&mut self, spot: Spot, paths: &Vec<String>, scope: DiffScope) -> (load_id:
        u64)
        requires
            old(self).wf(),
            old(self)@.is_place(spot),
        ensures
            final(self).wf(),
            load_id == next_load(old(self)@.at(spot).load_id),
            ({
                let tab = old(self)@.at(spot);
                let left = tab.selection.chosen(scope).difference(views(paths@).to_set());
                final(self)@ == old(self)@.put(
                    spot,
                    TabView {
                        selection: tab.selection.with(
                            scope,
                            left,
                            if left == Set::<Seq<char>>::empty() {
                                None
                            } else {
                                tab.selection.anchor_of(scope)
                            },
                        ),
                        diff: None,
                        diff_headers_expanded: false,
                        load_id,
                        ..tab
                    },
                )
            }),
            old(self)@.tabs.len() == final(self)@.tabs.len(),
            forall|i: int|
                0 <= i < old(self)@.tabs.len() ==> (#[trigger] old(self)@.tabs[i]).id == (
                #[trigger] final(self)@.tabs[i]).id,
    {
        let tab = self.tab_at(spot);
        tab.change_selection.remove_paths(scope, paths);
        tab.diff = None;
        tab.diff_headers_expanded = false;
        let load_id: u64 = next_load_id(tab.repository_load_id);
        tab.repository_load_id = load_id;
        load_id
    }

    /// Shows the worktree or the history.
    pub fn set_main_mode(&mut self, mode: MainMode, effects: &mut Vec<Effect>)
        requires
            old(self).wf(),
        ensures
            final(self).wf(),
            ({
                let (tab, done) = (TabView {
                    main_mode: mode,
                    ..old(self)@.current()
                }).ensuring_history();
                final(self)@ == (ViewState {
                    popups: Popups::none(),
                    ..old(self)@.put(old(self)@.spot(None), tab)
                }) && final(effects)@ == old(effects)@ + done
            }),
    {
        let spot: Spot = self.spot(None);
        let tab = self.tab_at(spot);
        tab.main_mode = mode;
        tab.ensure_history_loaded(effects);
        self.popups.close_popups();
    }

    /// The id of a commit was copied.
    pub fn copied_commit_sha(&mut self)
        requires
            old(self).wf(),
        ensures
            final(self).wf(),
            final(self)@ == (ViewState {
                popups: old(self)@.popups.without_commit_menu(),
                ..old(self)@.put(
                    old(self)@.spot(None),
                    TabView { status: "已复制提交 SHA"@, error: None, ..old(self)@.current() },
                )
            }),
    {
        let spot: Spot = self.spot(None);
        let commit: bool = match &self.popups.menu {
            Some(ContextMenu::Commit { .. }) => true,
            _ => false,
        };
        if commit {
            self.popups.menu = None;
        }
        let tab = self.tab_at(spot);
        tab.status = "已复制提交 SHA".to_string();
        tab.last_error = None;
    }

    /// Whether there is a local branch for a branch of a remote.
    pub fn has_local_branch_for_remote(&self, remote_branch: &str) -> (r: bool)
        requires
            self.wf(),
        ensures
            r == self@.has_local_for(remote_branch@),
    {
        let chars: Vec<char> = to_chars(remote_branch);
        let at: usize = find_from(&chars, '/', 0);
        if at >= chars.len() {
            return false;
        }
        let name: String = from_chars(&chars, at + 1, chars.len());
        assert(name@ =~= remote_branch@.skip(at + 1));
        let tab: &RepoTabState = match self.spot(None) {
            Spot::Tab(i) => &self.tabs[i],
            _ => &self.fallback_tab,
        };
        match &tab.snapshot {
            Some(s) => any_local(&s.branches, name.as_str()),
            None => false,
        }
    }

    /// Shows differences in another encoding. `label` is what the encoding is called.
    pub fn encoding_changed(&mut self, label: &str, effects: &mut Vec<Effect>)
        requires
            old(self).wf(),
        ensures
            final(self).wf(),
            final(self)@ == old(self)@.reencoding(label@).0,
            final(effects)@ == old(effects)@ + old(self)@.reencoding(label@).1,
    {
        let ghost done = self@.reencoding(label@);
        let spot: Spot = self.spot(None);
        let tab = self.tab_at(spot);
        tab.status = cat2("差异编码已切换为 ", label);
        let shown: Option<(String, DiffScope)> = match &tab.diff {
            Some(diff) => Some((diff.path.clone(), diff.scope)),
            None => None,
        };
        match shown {
            Some((file, scope)) => {
                self.load_diff(file, scope, effects);
            },
            None => {},
        }
        self.reload_history_diff(effects);
        assert(effects@ =~= old(effects)@ + done.1);
    }

    fn reload_history_diff(&mut self, effects: &mut Vec<Effect>)
        requires
            old(self).wf(),
        ensures
            final(self).wf(),
            ({
                let (tab, done) = old(self)@.current().rereading_file();
                final(self)@ == old(self)@.put(old(self)@.spot(None), tab) && final(effects)@
                    == old(effects)@ + done
            }),
    {
        let spot: Spot = self.spot(None);
        let ghost before = self@;
        let tab = self.tab_at(spot);
        let file: Option<String> = if tab.main_mode == MainMode::History {
            crate::strings::clone_opt(&tab.history_selected_file)
        } else {
            None
        };
        match file {
            Some(file) => {
                tab.select_history_file_with_reload(file, true, effects);
            },
            None => {
                assert(effects@ =~= old(effects)@ + Seq::<Effect>::empty());
            },
        }
    }
}

impl TabView {
    /// The differences of the selected file of the history are read again.
    pub open spec fn rereading_file(self) -> (Self, Seq<Effect>) {
        if self.main_mode == MainMode::History && self.selected_file is Some {
            self.selecting_file(self.selected_file->0, true)
        } else {
            (self, Seq::empty())
        }
    }
}

impl Popups {
    pub open spec fn without_change_menu(self) -> Self {
        Popups {
            menu: if self.menu is Some && self.menu->0 is Change {
                None
            } else {
                self.menu
            },
            ..self
        }
    }

    pub open spec fn without_commit_menu(self) -> Self {
        Popups {
            menu: if self.menu is Some && self.menu->0 is Commit {
                None
            } else {
                self.menu
            },
            ..self
        }
    }
}

fn any_local(branches: &Vec<BranchInfo>, name: &str) -> (r: bool)
    ensures
        r == has_local(branches@, name@),
{
    let mut i: usize = 0;
    while i < branches.len()
        invariant
            i <= branches@.len(),
            forall|k: int|
                0 <= k < i ==> !((#[trigger] branches@[k]).kind == BranchKind::Local
                    && branches@[k].name@ == name@),
        decreases branches@.len() - i,
    {
        if branches[i].kind == BranchKind::Local && str_eq(branches[i].name.as_str(), name) {
            return true;
        }
        i = i + 1;
    }
    false
}

/// Whether there is a local branch of the given name.
pub open spec fn has_local(branches: Seq<BranchInfo>, name: Seq<char>) -> bool {
    exists|k: int|
        0 <= k < branches.len() && (#[trigger] branches[k]).kind == BranchKind::Local
            && branches[k].name@ == name
}

impl ViewState {
    /// Changes are to be discarded once that is confirmed.
    pub open spec fn confirming(
        self,
        paths: Vec<String>,
        scope: DiffScope,
        target: DiscardTarget,
    ) -> Self {
        if paths@.len() == 0 {
            ViewState {
                popups: self.popups.without_change_menu(),
                ..self.failing("没有可回滚的文件"@)
            }
        } else {
            ViewState {
                popups: Popups {
                    active_dialog: Some(
                        DialogState::ConfirmDiscardChange { scope, target, paths },
                    ),
                    ..Popups::none()
                },
                ..self.put(
                    self.spot(None),
                    TabView {
                        selection: if target == DiscardTarget::Single {
                            SelectionView::nothing().just(paths@[0]@, scope)
                        } else {
                            self.current().selection.only_in(scope)
                        },
                        error: None,
                        ..self.current()
                    },
                )
            }
        }
    }

    pub open spec fn has_local_for(self, remote_branch: Seq<char>) -> bool {
        let at = position_from(remote_branch, '/', 0);
        &&& at < remote_branch.len()
        &&& self.current().snapshot is Some
        &&& has_local(self.current().snapshot->0.branches, remote_branch.skip(at + 1))
    }

    /// What is shown is read again in another encoding.
    pub open spec fn reencoding(self, label: Seq<char>) -> (Self, Seq<Effect>) {
        let told = self.put(
            self.spot(None),
            TabView { status: "差异编码已切换为 "@ + label, ..self.current() },
        );
        let (next, first) = match self.current().diff {
            Some(diff) => told.asking_diff(diff.path, diff.scope),
            None => (told, Seq::<Effect>::empty()),
        };
        let (tab, second) = next.current().rereading_file();
        (next.put(next.spot(None), tab), first + second)
    }
}

/// The encodings that were chosen for repositories, by their keys.
#[derive(Debug, PartialEq, Eq)]
pub struct DiffEncodingPreferences {
    pub repositories: TextMap<DiffEncodingChoice>,
}

impl DiffEncodingPreferences {
    pub fn new() -> (r: Self)
        ensures
            r.repositories.wf(),
            r.repositories@ == Map::<Seq<char>, DiffEncodingChoice>::empty(),
    {
        DiffEncodingPreferences { repositories: TextMap::new() }
    }

    /// The encoding of a repository.
    pub open spec fn choice(self, key: Seq<char>) -> DiffEncodingChoice {
        if self.repositories@.contains_key(key) {
            self.repositories@[key]
        } else {
            DiffEncodingChoice::Auto
        }
    }

    /// The encoding that was chosen for the repository at a path.
    pub fn diff_encoding_choice_for_path(&self, resolved: &str) -> (r: DiffEncodingChoice)
        requires
            self.repositories.wf(),
        ensures
            r == self.choice(lowercase(resolved@)),
    {
        let key: String = crate::session::paths::path_key(resolved);
        match self.repositories.get(key.as_str()) {
            Some(choice) => *choice,
            None => DiffEncodingChoice::default(),
        }
    }

    /// Chooses an encoding for the repository at a path.
    pub fn set_diff_encoding(&mut self, resolved: &str, encoding: DiffEncodingChoice)
        requires
            old(self).repositories.wf(),
        ensures
            final(self).repositories.wf(),
            final(self).repositories@ == if encoding == DiffEncodingChoice::Auto {
                old(self).repositories@.remove(lowercase(resolved@))
            } else {
                old(self).repositories@.insert(lowercase(resolved@), encoding)
            },
            final(self).choice(lowercase(resolved@)) == encoding,
    {
        let key: String = crate::session::paths::path_key(resolved);
        if encoding == DiffEncodingChoice::Auto {
            self.repositories.remove(key.as_str());
        } else {
            self.repositories.insert(key, encoding);
        }
    }
}

// ---------------------------------------------------------------------------
// Laws
// ---------------------------------------------------------------------------
/// Discarding is confirmed first, for exactly the files that it is about, in a dialog over which
/// nothing else is open; without a file there is nothing to confirm, and the tab says so. A single
/// file is selected alone meanwhile.
pub proof fn lemma_discarding_is_confirmed(
    state: ViewState,
    paths: Vec<String>,
    scope: DiffScope,
    target: DiscardTarget,
)
    requires
        state.is_place(state.spot(None)),
    ensures
        ({
            let after = state.confirming(paths, scope, target);
            let tab = after.at(state.spot(None));
            &&& paths@.len() == 0 ==> tab.error is Some && after.popups.active_dialog
                == state.popups.active_dialog && tab.selection == state.current().selection
            &&& paths@.len() > 0 ==> {
                &&& after.popups.active_dialog == Some(
                    DialogState::ConfirmDiscardChange { scope, target, paths },
                )
                &&& after.popups.open_count() == 1
                &&& tab.error is None
                &&& target == DiscardTarget::Single ==> tab.selection.chosen(scope) == Set::<
                    Seq<char>,
                >::empty().insert(paths@[0]@)
                &&& target != DiscardTarget::Single ==> tab.selection.chosen(scope)
                    == state.current().selection.chosen(scope)
                &&& tab.selection.chosen(crate::session::selection::other_scope(scope)) == Set::<
                    Seq<char>,
                >::empty()
            }
        }),
{
}

/// A branch of a remote has a local one if the repository has a local branch that is called like it
/// without the name of the remote; a branch of a remote of the same name is none.
pub proof fn lemma_local_branches(
    state: ViewState,
    remote: Seq<char>,
    branch: Seq<char>,
)
    requires
        !remote.contains('/'),
    ensures
        state.has_local_for(remote + "/"@ + branch) <==> {
            &&& state.current().snapshot matches Some(s)
            &&& exists|k: int|
                0 <= k < s.branches.len() && (#[trigger] s.branches[k]).kind == BranchKind::Local
                    && s.branches[k].name@ == branch
        },
        !state.has_local_for(remote),
{
    reveal_strlit("/");
    let full = remote + "/"@ + branch;
    let n = remote.len() as int;
    crate::strings::lemma_position_from(full, '/', 0);
    crate::strings::lemma_position_from(remote, '/', 0);
    let at = position_from(full, '/', 0);
    assert(full[n] == '/');
    if at < n {
        assert(remote[at] == '/');
    }
    assert(at == n);
    assert(full.skip(n + 1) =~= branch);
    let none = position_from(remote, '/', 0);
    if none < n {
        assert(remote[none] == '/');
    }
}

/// With another encoding the differences that are shown are read again: those of the worktree, and
/// in the history those of the file that is selected.
pub proof fn lemma_reading_again(tab: TabView)
    ensures
        tab.main_mode == MainMode::History && tab.selected_file is Some ==> tab.rereading_file()
            == tab.selecting_file(tab.selected_file->0, true),
        tab.main_mode == MainMode::Worktree || tab.selected_file is None ==> tab.rereading_file()
            == (tab, Seq::<Effect>::empty()),
{
}

/// Only the menu that is meant is closed.
pub proof fn lemma_menus_that_close(popups: Popups)
    ensures
        popups.menu is Some && popups.menu->0 is Change ==> popups.without_change_menu().menu
            is None && popups.without_commit_menu().menu == popups.menu,
        popups.menu is Some && popups.menu->0 is Commit ==> popups.without_commit_menu().menu
            is None && popups.without_change_menu().menu == popups.menu,
        popups.without_change_menu().active_dialog == popups.active_dialog,
        popups.without_commit_menu().active_dialog == popups.active_dialog,
        popups.without_change_menu().encoding_menu_target == popups.encoding_menu_target,
        popups.without_commit_menu().encoding_menu_target == popups.encoding_menu_target,
{
}

/// A repository is shown in the encoding that was chosen for it, and in the one that is found out if
/// none was.
pub proof fn lemma_chosen_encoding(preferences: DiffEncodingPreferences, key: Seq<char>)
    ensures
        preferences.repositories@.contains_key(key) ==> preferences.choice(key)
            == preferences.repositories@[key],
        !preferences.repositories@.contains_key(key) ==> preferences.choice(key)
            == DiffEncodingChoice::Auto,
{
}

/// Another encoding is named in the tab, and what is shown is read again with it; where nothing is
/// shown nothing is read.
pub proof fn lemma_another_encoding(state: ViewState, label: Seq<char>)
    requires
        state.wf(),
        state.current().diff is None,
        state.current().main_mode == MainMode::Worktree,
    ensures
        ({
            let (after, effects) = state.reencoding(label);
            &&& effects.len() == 0
            &&& label.is_suffix_of(after.at(state.spot(None)).status)
        }),
{
    let status = "差异编码已切换为 "@ + label;
    assert(status.subrange(status.len() - label.len(), status.len() as int) =~= label);
    let tab = TabView { status, ..state.current() };
    let told = state.put(state.spot(None), tab);
    if let Some(id) = state.active {
        crate::session::view_open::lemma_place(state.tabs, id, 0);
        crate::session::view::lemma_same_ids(state.tabs, told.tabs, id, 0);
    }
    assert(told.spot(None) == state.spot(None));
    assert(told.current() == tab);
}

} // verus!
