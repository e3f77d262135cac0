//! Operations that the user asks for.

use vstd::prelude::*;

use crate::session::commands::{RepoCommand, said_after};
use crate::session::effects::Effect;
use crate::session::popups::{DiscardTarget, Popups};
use crate::session::selection::{SelectionView, change_paths, paths_of};
use crate::session::tab::{
    RepoTabId, RepoTabState, RepositoryLoading, TabView, preferred_remote, remote_to_use,
};
use crate::session::view::{RepositoryView, Spot, ViewState};
use crate::session::view_tabs::{next_load, next_load_id};
use crate::strings::{is_blank, trim, trimmed, views};
use crate::strset::strictly_sorted;
use crate::types::DiffScope;

verus! {

/// The tab once an operation runs in it.
pub open spec fn running(tab: TabView, started: Seq<char>, bump: bool) -> TabView {
    TabView {
        load_id: if bump {
            next_load(tab.load_id)
        } else {
            tab.load_id
        },
        loading: RepositoryLoading::nothing(),
        busy: true,
        status: started,
        error: None,
        ..tab
    }
}

impl ViewState {
    /// Whether an operation can start in a tab: no other one runs in it.
    pub open spec fn can_start(self, tab_id: Option<RepoTabId>) -> bool {
        self.spot(tab_id) != Spot::Nowhere && !self.at(self.spot(tab_id)).busy
    }

    /// An operation is to start in a tab. With `bump`, what was being loaded is given up.
    pub open spec fn spawning(self, tab_id: Option<RepoTabId>, started: Seq<char>, bump: bool) -> Self {
        let spot = self.spot(tab_id);
        if spot == Spot::Nowhere {
            self
        } else if self.at(spot).busy {
            self.put(spot, self.at(spot).failing("已有操作正在运行"@))
        } else {
            ViewState {
                popups: Popups::none(),
                ..self.put(spot, running(self.at(spot), started, bump))
            }
        }
    }

    /// Whether a repository is shown.
    pub open spec fn shows_repository(self) -> bool {
        self.active is Some && self.current().repo_path is Some
    }

    /// An operation is to run on the repository that is shown.
    pub open spec fn commanding(self, command: RepoCommand) -> (Self, Seq<Effect>) {
        if !self.shows_repository() {
            (self.without_repository(), Seq::empty())
        } else {
            (
                self.spawning(self.active, command.text(), true),
                if self.can_start(self.active) {
                    seq![
                        Effect::RunCommand {
                            tab_id: self.active->0,
                            path: self.current().repo_path->0,
                            command,
                        },
                    ]
                } else {
                    Seq::empty()
                },
            )
        }
    }

    /// The remote that operations of the tab that is shown go to.
    pub open spec fn remote_in_use(self) -> Option<String> {
        match self.current().snapshot {
            Some(s) => preferred_remote(self.current().selected_remote, s.remotes),
            None => None,
        }
    }

    /// The differences of a file are to be shown.
    pub open spec fn asking_diff(self, file: String, scope: DiffScope) -> (Self, Seq<Effect>) {
        if !self.shows_repository() {
            (self, seq![Effect::ResetDiffScroll { tab_id: self.current().id }])
        } else {
            (
                self.spawning(self.active, "正在加载差异"@, true),
                if self.can_start(self.active) {
                    seq![
                        Effect::ResetDiffScroll { tab_id: self.current().id },
                        Effect::LoadDiff {
                            tab_id: self.active->0,
                            path: self.current().repo_path->0,
                            file,
                            scope,
                        },
                    ]
                } else {
                    seq![Effect::ResetDiffScroll { tab_id: self.current().id }]
                },
            )
        }
    }

    pub open spec fn selecting(self, selection: SelectionView) -> Self {
        self.put(self.spot(None), TabView { selection, ..self.current() })
    }

    /// The paths in one of the lists of the tab that is shown.
    pub open spec fn shown_paths(self, scope: DiffScope) -> Seq<Seq<char>> {
        match self.current().snapshot {
            Some(s) => paths_of(s.changes, scope),
            None => Seq::empty(),
        }
    }
}

impl RepositoryView {
    /// Starts an operation in a tab, unless one runs. Says whether it starts.
    pub fn spawn_operation(&mut self, tab_id: Option<RepoTabId>, started: &str, bump: bool) -> (
        starts: bool)
        requires
            old(self).wf(),
        ensures
            final(self).wf(),
            final(self)@ == old(self)@.spawning(tab_id, started@, bump),
            starts == old(self)@.can_start(tab_id),
    {
        let spot: Spot = self.spot(tab_id);
        if spot == Spot::Nowhere {
            return false;
        }
        let tab = self.tab_at(spot);
        if tab.busy {
            tab.fail("已有操作正在运行");
            return false;
        }
        if bump {
            tab.repository_load_id = next_load_id(tab.repository_load_id);
        }
        tab.loading = RepositoryLoading::default();
        tab.busy = true;
        tab.status = started.to_string();
        tab.last_error = None;
        self.popups.close_popups();
        true
    }

    /// Runs an operation on the repository that is shown.
    pub fn with_repo(&mut self, command: RepoCommand, effects: &mut Vec<Effect>)
        requires
            old(self).wf(),
        ensures
            final(self).wf(),
            final(self)@ == old(self)@.commanding(command).0,
            final(effects)@ == old(effects)@ + old(self)@.commanding(command).1,
    {
        let ghost done = self@.commanding(command);
        match self.active_repository() {
            None => {
                self.fail("请先打开一个仓库");
            },
            Some((tab_id, path)) => {
                if self.spawn_operation(Some(tab_id), command.label(), true) {
                    effects.push(Effect::RunCommand { tab_id, path, command });
                }
            },
        }
        assert(effects@ =~= old(effects)@ + done.1);
    }

    pub fn current_remote(&self) -> (r: Option<String>)
        requires
            self.wf(),
        ensures
            r == self@.remote_in_use(),
    {
        let tab: &RepoTabState = match self.spot(None) {
            Spot::Tab(i) => &self.tabs[i],
            _ => &self.fallback_tab,
        };
        match &tab.snapshot {
            Some(s) => remote_to_use(&tab.selected_remote, &s.remotes),
            None => None,
        }
    }

    pub fn fetch(&mut self, effects: &mut Vec<Effect>)
        requires
            old(self).wf(),
        ensures
            final(self).wf(),
            match old(self)@.remote_in_use() {
                None => final(self)@ == old(self)@.failing("当前仓库没有远端"@) && final(effects)@
                    == old(effects)@,
                Some(remote) => final(self)@ == old(self)@.commanding(
                    RepoCommand::Fetch { remote },
                ).0 && final(effects)@ == old(effects)@ + old(self)@.commanding(
                    RepoCommand::Fetch { remote },
                ).1,
            },
    {
        match self.current_remote() {
            Some(remote) => self.with_repo(RepoCommand::Fetch { remote }, effects),
            None => self.fail("当前仓库没有远端"),
        }
    }

    pub fn pull(&mut self, effects: &mut Vec<Effect>)
        requires
            old(self).wf(),
        ensures
            final(self).wf(),
            match old(self)@.remote_in_use() {
                None => final(self)@ == old(self)@.failing("当前仓库没有远端"@) && final(effects)@
                    == old(effects)@,
                Some(remote) => final(self)@ == old(self)@.commanding(
                    RepoCommand::Pull { remote },
                ).0 && final(effects)@ == old(effects)@ + old(self)@.commanding(
                    RepoCommand::Pull { remote },
                ).1,
            },
    {
        match self.current_remote() {
            Some(remote) => self.with_repo(RepoCommand::Pull { remote }, effects),
            None => self.fail("当前仓库没有远端"),
        }
    }

    pub fn push(&mut self, effects: &mut Vec<Effect>)
        requires
            old(self).wf(),
        ensures
            final(self).wf(),
            match old(self)@.remote_in_use() {
                None => final(self)@ == old(self)@.failing("当前仓库没有远端"@) && final(effects)@
                    == old(effects)@,
                Some(remote) => final(self)@ == old(self)@.commanding(
                    RepoCommand::Push { remote },
                ).0 && final(effects)@ == old(effects)@ + old(self)@.commanding(
                    RepoCommand::Push { remote },
                ).1,
            },
    {
        match self.current_remote() {
            Some(remote) => self.with_repo(RepoCommand::Push { remote }, effects),
            None => self.fail("当前仓库没有远端"),
        }
    }

    /// Creates the branch that a field names.
    pub fn create_branch(&mut self, field: &str, effects: &mut Vec<Effect>)
        requires
            old(self).wf(),
        ensures
            final(self).wf(),
            trimmed(field@).len() == 0 ==> final(self)@ == old(self)@.failing("需要填写分支名称"@)
                && final(effects)@ == old(effects)@,
            trimmed(field@).len() > 0 ==> exists|name: String|
                name@ == trimmed(field@) && final(self)@ == (#[trigger] old(self)@.commanding(
                    RepoCommand::CreateBranch { name },
                )).0 && final(effects)@ == old(effects)@ + old(self)@.commanding(
                    RepoCommand::CreateBranch { name },
                ).1,
    {
        let name: String = trim(field);
        if is_blank(field) {
            self.fail("需要填写分支名称");
            return ;
        }
        self.with_repo(RepoCommand::CreateBranch { name }, effects);
    }

    /// Gives a branch the name that a field holds.
    pub fn rename_branch(&mut self, old_name: String, field: &str, effects: &mut Vec<Effect>)
        requires
            old(self).wf(),
        ensures
            final(self).wf(),
            trimmed(field@).len() == 0 ==> final(self)@ == old(self)@.failing(
                "需要填写新的分支名称"@,
            ) && final(effects)@ == old(effects)@,
            trimmed(field@).len() > 0 ==> exists|new_name: String|
                new_name@ == trimmed(field@) && final(self)@ == (#[trigger] old(self)@.commanding(
                    RepoCommand::RenameBranch { old_name, new_name },
                )).0 && final(effects)@ == old(effects)@ + old(self)@.commanding(
                    RepoCommand::RenameBranch { old_name, new_name },
                ).1,
    {
        let new_name: String = trim(field);
        if is_blank(field) {
            self.fail("需要填写新的分支名称");
            return ;
        }
        self.with_repo(RepoCommand::RenameBranch { old_name, new_name }, effects);
    }

    /// Commits with the message that a field holds. Says whether the field is to be cleared.
    pub fn commit(&mut self, field: &str, effects: &mut Vec<Effect>) -> (clear: bool)
        requires
            old(self).wf(),
        ensures
            final(self).wf(),
            clear == (trimmed(field@).len() > 0),
            !clear ==> final(self)@ == old(self)@.failing("需要填写提交信息"@) && final(effects)@
                == old(effects)@,
            clear ==> exists|message: String|
                message@ == trimmed(field@) && final(self)@ == (#[trigger] old(self)@.commanding(
                    RepoCommand::Commit { message },
                )).0 && final(effects)@ == old(effects)@ + old(self)@.commanding(
                    RepoCommand::Commit { message },
                ).1,
    {
        let message: String = trim(field);
        if is_blank(field) {
            self.fail("需要填写提交信息");
            return false;
        }
        self.with_repo(RepoCommand::Commit { message }, effects);
        true
    }

    /// Shows the differences of a file.
    pub fn load_diff(&mut self, file: String, scope: DiffScope, effects: &mut Vec<Effect>)
        requires
            old(self).wf(),
        ensures
            final(self).wf(),
            final(self)@ == old(self)@.asking_diff(file, scope).0,
            final(effects)@ == old(effects)@ + old(self)@.asking_diff(file, scope).1,
    {
        let ghost done = self@.asking_diff(file, scope);
        effects.push(Effect::ResetDiffScroll { tab_id: self.shown_id() });
        match self.active_repository() {
            None => {},
            Some((tab_id, path)) => {
                if self.spawn_operation(Some(tab_id), "正在加载差异", true) {
                    effects.push(Effect::LoadDiff { tab_id, path, file, scope });
                }
            },
        }
        assert(effects@ =~= old(effects)@ + done.1);
    }

    /// The paths in one of the lists of the tab that is shown.
    pub fn change_paths(&self, scope: DiffScope) -> (r: Vec<String>)
        requires
            self.wf(),
        ensures
            views(r@) == self@.shown_paths(scope),
    {
        let tab: &RepoTabState = match self.spot(None) {
            Spot::Tab(i) => &self.tabs[i],
            _ => &self.fallback_tab,
        };
        match &tab.snapshot {
            Some(s) => change_paths(&s.changes, scope),
            None => {
                let r: Vec<String> = Vec::new();
                assert(views(r@) =~= Seq::<Seq<char>>::empty());
                r
            },
        }
    }

    /// The paths that are selected in one of the lists, in order.
    pub fn selected_change_paths(&self, scope: DiffScope) -> (r: Vec<String>)
        requires
            self.wf(),
        ensures
            strictly_sorted(views(r@)),
            views(r@).to_set() == self@.current().selection.chosen(scope),
    {
        let tab: &RepoTabState = match self.spot(None) {
            Spot::Tab(i) => &self.tabs[i],
            _ => &self.fallback_tab,
        };
        tab.change_selection.selected_change_paths(scope)
    }

    pub fn stage_selected(&mut self, effects: &mut Vec<Effect>)
        requires
            old(self).wf(),
        ensures
            final(self).wf(),
            ({
                let chosen = old(self)@.current().selection.unstaged;
                if chosen == Set::<Seq<char>>::empty() {
                    final(self)@ == old(self)@.failing("请先在修改区选择文件"@) && final(effects)@
                        == old(effects)@
                } else {
                    exists|paths: Vec<String>|
                        strictly_sorted(views(paths@)) && views(paths@).to_set() == chosen && final(
                            self)@ == (#[trigger] old(self)@.commanding(
                            RepoCommand::StageSelected { paths },
                        )).0 && final(effects)@ == old(effects)@ + old(self)@.commanding(
                            RepoCommand::StageSelected { paths },
                        ).1
                }
            }),
    {
        let paths: Vec<String> = self.selected_change_paths(DiffScope::Unstaged);
        proof {
            lemma_empty_list(views(paths@));
        }
        if paths.len() == 0 {
            self.fail("请先在修改区选择文件");
            return ;
        }
        self.with_repo(RepoCommand::StageSelected { paths }, effects);
    }

    pub fn unstage_selected(&mut self, effects: &mut Vec<Effect>)
        requires
            old(self).wf(),
        ensures
            final(self).wf(),
            ({
                let chosen = old(self)@.current().selection.staged;
                if chosen == Set::<Seq<char>>::empty() {
                    final(self)@ == old(self)@.failing("请先在暂存区选择文件"@) && final(effects)@
                        == old(effects)@
                } else {
                    exists|paths: Vec<String>|
                        strictly_sorted(views(paths@)) && views(paths@).to_set() == chosen && final(
                            self)@ == (#[trigger] old(self)@.commanding(
                            RepoCommand::UnstageSelected { paths },
                        )).0 && final(effects)@ == old(effects)@ + old(self)@.commanding(
                            RepoCommand::UnstageSelected { paths },
                        ).1
                }
            }),
    {
        let paths: Vec<String> = self.selected_change_paths(DiffScope::Staged);
        proof {
            lemma_empty_list(views(paths@));
        }
        if paths.len() == 0 {
            self.fail("请先在暂存区选择文件");
            return ;
        }
        self.with_repo(RepoCommand::UnstageSelected { paths }, effects);
    }

    pub fn stage_all(&mut self, effects: &mut Vec<Effect>)
        requires
            old(self).wf(),
        ensures
            final(self).wf(),
            ({
                let shown = old(self)@.shown_paths(DiffScope::Unstaged);
                if shown.len() == 0 {
                    final(self)@ == old(self)@.failing("修改区没有可暂存文件"@) && final(effects)@
                        == old(effects)@
                } else {
                    exists|paths: Vec<String>|
                        views(paths@) == shown && final(self)@ == (
                        #[trigger] old(self)@.commanding(RepoCommand::StageAll { paths })).0
                            && final(effects)@ == old(effects)@ + old(self)@.commanding(
                            RepoCommand::StageAll { paths },
                        ).1
                }
            }),
    {
        let paths: Vec<String> = self.change_paths(DiffScope::Unstaged);
        assert(views(paths@).len() == paths@.len());
        if paths.len() == 0 {
            self.fail("修改区没有可暂存文件");
            return ;
        }
        self.with_repo(RepoCommand::StageAll { paths }, effects);
    }

    pub fn unstage_all(&mut self, effects: &mut Vec<Effect>)
        requires
            old(self).wf(),
        ensures
            final(self).wf(),
            ({
                let shown = old(self)@.shown_paths(DiffScope::Staged);
                if shown.len() == 0 {
                    final(self)@ == old(self)@.failing("暂存区没有可取消暂存文件"@) && final(
                        effects)@ == old(effects)@
                } else {
                    exists|paths: Vec<String>|
                        views(paths@) == shown && final(self)@ == (
                        #[trigger] old(self)@.commanding(RepoCommand::UnstageAll { paths })).0
                            && final(effects)@ == old(effects)@ + old(self)@.commanding(
                            RepoCommand::UnstageAll { paths },
                        ).1
                }
            }),
    {
        let paths: Vec<String> = self.change_paths(DiffScope::Staged);
        assert(views(paths@).len() == paths@.len());
        if paths.len() == 0 {
            self.fail("暂存区没有可取消暂存文件");
            return ;
        }
        self.with_repo(RepoCommand::UnstageAll { paths }, effects);
    }
}

proof fn lemma_empty_list(s: Seq<Seq<char>>)
    ensures
        s.len() == 0 <==> s.to_set() == Set::<Seq<char>>::empty(),
{
    if s.len() == 0 {
        assert(s.to_set() =~= Set::<Seq<char>>::empty());
    } else {
        assert(s.to_set().contains(s[0]));
    }
}

// ---------------------------------------------------------------------------
// Selecting and discarding changes
// ---------------------------------------------------------------------------
impl ViewState {
    /// A click on a change has selected it or not, and its differences are to be shown or not.
    pub open spec fn picking(self, selection: SelectionView, load: bool, file: String, scope: DiffScope) -> (
        Self,
        Seq<Effect>,
    ) {
        let next = self.selecting(selection);
        if load {
            next.asking_diff(file, scope)
        } else {
            (next, Seq::empty())
        }
    }

    /// What a click on a change selects, and whether its differences are to be shown.
    pub open spec fn clicked(
        self,
        path: Seq<char>,
        scope: DiffScope,
        shift: bool,
        multi: bool,
    ) -> (SelectionView, bool) {
        let here = self.current().selection.only_in(scope);
        let paths = self.shown_paths(scope);
        let was = here.chosen(scope).contains(path);
        if shift {
            (
                here.ranged(paths, path, scope),
                crate::session::selection::place_of(paths, path, 0) < paths.len(),
            )
        } else if multi {
            (here.toggled(path, scope), !was)
        } else if was {
            (here.without(path, scope), false)
        } else {
            (here.just(path, scope), true)
        }
    }

    /// Changes are to be discarded.
    pub open spec fn discarding(
        self,
        paths: Vec<String>,
        scope: DiffScope,
        target: DiscardTarget,
    ) -> (Self, Seq<Effect>) {
        if !self.shows_repository() {
            (self.without_repository(), Seq::empty())
        } else {
            let spot = self.spot(None);
            let tab = self.current();
            let load_id = next_load(tab.load_id);
            let left = tab.selection.chosen(scope).difference(views(paths@).to_set());
            let cleared = ViewState {
                popups: Popups {
                    active_dialog: None,
                    menu: if self.popups.menu is Some && self.popups.menu->0 is Change {
                        None
                    } else {
                        self.popups.menu
                    },
                    ..self.popups
                },
                ..self.put(
                    spot,
                    TabView {
                        selection: tab.selection.with(
                            scope,
                            left,
                            if left == Set::<Seq<char>>::empty() {
                                None
                            } else {
                                tab.selection.anchor_of(scope)
                            },
                        ),
                        diff: None,
                        diff_headers_expanded: false,
                        load_id,
                        ..tab
                    },
                )
            };
            (
                cleared.spawning(self.active, "正在回滚文件更改"@, false),
                if tab.busy {
                    seq![Effect::ResetDiffScroll { tab_id: self.active->0 }]
                } else {
                    seq![
                        Effect::ResetDiffScroll { tab_id: self.active->0 },
                        Effect::RunDiscard {
                            tab_id: self.active->0,
                            path: tab.repo_path->0,
                            paths,
                            scope,
                            message: said_after(scope, target),
                            load_id,
                        },
                    ]
                },
            )
        }
    }
}

// ---------------------------------------------------------------------------
// Laws
// ---------------------------------------------------------------------------
/// An operation starts where no other is running: its tab is then busy, shows what was started and
/// no error, and nothing is open over it. Where one is running it is refused, and the tab goes on.
pub proof fn lemma_starting_an_operation(
    state: ViewState,
    tab_id: Option<RepoTabId>,
    started: Seq<char>,
    bump: bool,
)
    requires
        state.is_place(state.spot(tab_id)),
    ensures
        ({
            let spot = state.spot(tab_id);
            let after = state.spawning(tab_id, started, bump);
            let tab = state.at(spot);
            &&& state.can_start(tab_id) <==> !tab.busy
            &&& !tab.busy ==> {
                &&& after.at(spot).busy
                &&& after.at(spot).status == started
                &&& after.at(spot).error is None
                &&& after.at(spot).load_id == if bump {
                    next_load(tab.load_id)
                } else {
                    tab.load_id
                }
                &&& !after.at(spot).loading.metadata && !after.at(spot).loading.status_fast
                    && !after.at(spot).loading.status_full
                &&& after.at(spot).snapshot == tab.snapshot
                &&& after.at(spot).selection == tab.selection
                &&& after.at(spot).commits == tab.commits
                &&& after.popups == Popups::none()
            }
            &&& tab.busy ==> after.at(spot).error is Some && after.at(spot).busy && after.at(
                spot,
            ).status == tab.status && after.popups == state.popups
            &&& after.active == state.active
            &&& after.queue == state.queue
        }),
{
}

/// An operation is run on the repository that is shown, once, with what it was asked for, unless
/// another is running there; without a repository it is not run.
pub proof fn lemma_running_a_command(state: ViewState, command: RepoCommand)
    requires
        state.wf(),
    ensures
        ({
            let (after, effects) = state.commanding(command);
            let there = state.active is Some && state.current().repo_path is Some;
            &&& !there ==> effects.len() == 0 && after == state.failing("请先打开一个仓库"@)
            &&& there && state.current().busy ==> effects.len() == 0
            &&& there && !state.current().busy ==> effects == seq![
                Effect::RunCommand {
                    tab_id: state.active->0,
                    path: state.current().repo_path->0,
                    command,
                },
            ] && after.at(state.spot(None)).busy
        }),
{
    if let Some(id) = state.active {
        crate::session::view_open::lemma_place(state.tabs, id, 0);
    }
}

/// The differences of a file are read from the repository that is shown, for the list that the file
/// is in; the view of them goes to its start either way.
pub proof fn lemma_asking_for_differences(state: ViewState, file: String, scope: DiffScope)
    requires
        state.wf(),
    ensures
        ({
            let (after, effects) = state.asking_diff(file, scope);
            let there = state.active is Some && state.current().repo_path is Some;
            &&& effects.len() >= 1
            &&& effects[0] == (Effect::ResetDiffScroll { tab_id: state.current().id })
            &&& there && !state.current().busy ==> effects.len() == 2 && effects[1] == (
            Effect::LoadDiff {
                tab_id: state.active->0,
                path: state.current().repo_path->0,
                file,
                scope,
            })
            &&& !(there && !state.current().busy) ==> effects.len() == 1
            &&& !there ==> after == state
        }),
{
}

/// The remote in use is the one that the tab prefers among those of its repository.
pub proof fn lemma_remote_in_use(state: ViewState)
    ensures
        match state.current().snapshot {
            Some(s) => state.remote_in_use() == preferred_remote(
                state.current().selected_remote,
                s.remotes,
            ),
            None => state.remote_in_use() is None,
        },
{
}

/// A click selects: with the key for ranges up to the change, with the key for many also the change,
/// else the change alone, or not any more if it was. A change that is selected anew is shown. A
/// selection in the other list goes.
pub proof fn lemma_clicks_select(
    state: ViewState,
    path: Seq<char>,
    scope: DiffScope,
    shift: bool,
    multi: bool,
)
    ensures
        ({
            let (selection, load) = state.clicked(path, scope, shift, multi);
            let before = state.current().selection.chosen(scope);
            let other = crate::session::selection::other_scope(scope);
            &&& selection.chosen(other) == Set::<Seq<char>>::empty()
            &&& !shift && !multi && !before.contains(path) ==> load && selection.chosen(scope)
                == Set::<Seq<char>>::empty().insert(path)
            &&& !shift && !multi && before.contains(path) ==> !load && selection.chosen(scope)
                == before.remove(path)
            &&& !shift && multi ==> (load <==> !before.contains(path)) && selection.chosen(scope)
                == if before.contains(path) {
                before.remove(path)
            } else {
                before.insert(path)
            }
            &&& shift ==> selection == state.current().selection.only_in(scope).ranged(
                state.shown_paths(scope),
                path,
                scope,
            )
        }),
{
}

/// Changes that are discarded leave the selection and are not shown any more. They are discarded in
/// the repository that is shown, with a new load number, unless something else is running there.
pub proof fn lemma_discarding_changes(
    state: ViewState,
    paths: Vec<String>,
    scope: DiffScope,
    target: DiscardTarget,
    path: Seq<char>,
)
    requires
        state.wf(),
        state.active is Some,
        state.current().repo_path is Some,
    ensures
        ({
            let (after, effects) = state.discarding(paths, scope, target);
            let tab = state.current();
            let t = after.at(state.spot(None));
            &&& t.selection.chosen(scope).contains(path) <==> tab.selection.chosen(scope).contains(
                path,
            ) && !views(paths@).contains(path)
            &&& t.diff is None
            &&& t.load_id == next_load(tab.load_id)
            &&& effects[0] == (Effect::ResetDiffScroll { tab_id: state.active->0 })
            &&& tab.busy ==> effects.len() == 1 && t.error is Some
            &&& !tab.busy ==> {
                &&& effects.len() == 2
                &&& effects[1] == (Effect::RunDiscard {
                    tab_id: state.active->0,
                    path: tab.repo_path->0,
                    paths,
                    scope,
                    message: said_after(scope, target),
                    load_id: next_load(tab.load_id),
                })
                &&& t.busy
            }
        }),
{
    let id = state.active->0;
    crate::session::view_open::lemma_place(state.tabs, id, 0);
    let spot = state.spot(None);
    let tab = state.current();
    let left = tab.selection.chosen(scope).difference(views(paths@).to_set());
    let next = TabView {
        selection: tab.selection.with(
            scope,
            left,
            if left == Set::<Seq<char>>::empty() {
                None
            } else {
                tab.selection.anchor_of(scope)
            },
        ),
        diff: None,
        diff_headers_expanded: false,
        load_id: next_load(tab.load_id),
        ..tab
    };
    let put = state.put(spot, next);
    crate::session::view::lemma_same_ids(state.tabs, put.tabs, id, 0);
    assert(views(paths@).to_set().contains(path) == views(paths@).contains(path));
}

} // verus!
