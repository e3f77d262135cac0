//! Opening what was open before, and cloning.

use vstd::prelude::*;

use crate::session::effects::Effect;
use crate::session::paths::{
    RestorePlan, keys_of, lost, path_key, restore_failure, restore_plan, usable_places,
};
use crate::session::tab::{RepoTabId, TabView};
use crate::session::view::{LoadPriority, RepositoryView, ViewState};
use crate::session::view_open::{key_place, lemma_found};
use crate::strings::{decimal, lowercase, str_eq, trim, trimmed, views};

verus! {

/// A tab and the path that it loads.
pub struct ToLoad {
    pub id: RepoTabId,
    pub path: String,
}

impl ViewState {
    /// Tabs are open for the first `n` of the given places.
    pub open spec fn with_tabs(self, paths: Seq<String>, places: Seq<usize>, n: int) -> Self
        decreases n,
    {
        if n <= 0 {
            self
        } else {
            self.with_tabs(paths, places, n - 1).with_tab(paths[places[n - 1] as int])
        }
    }

    /// The repositories from `from` on wait to be loaded.
    pub open spec fn loading_all(self, list: Seq<ToLoad>, from: int) -> (Self, Seq<Effect>)
        decreases list.len() - from,
    {
        if from < 0 || from >= list.len() {
            (self, Seq::empty())
        } else {
            let (next, first) = self.queueing(
                list[from].id,
                list[from].path,
                "正在恢复仓库",
                "仓库已恢复",
                LoadPriority::Background,
            );
            let (after, rest) = next.loading_all(list, from + 1);
            (after, first + rest)
        }
    }

    /// What is left to load: each tab, and its path.
    pub open spec fn to_load(self) -> Seq<ToLoad> {
        self.tabs.map_values(|t: TabView| ToLoad { id: t.id, path: t.repo_path->0 })
    }

    /// It is said how many repositories cannot be opened again.
    pub open spec fn telling_lost(self, failed: nat, all: bool) -> Self {
        if failed > 0 {
            ViewState {
                fallback: TabView {
                    error: Some(decimal(failed) + " 个上次打开的仓库无法恢复"@),
                    status: if all {
                        "会话恢复失败"@
                    } else {
                        self.fallback.status
                    },
                    ..self.fallback
                },
                ..self
            }
        } else {
            self
        }
    }

    /// The repository that was shown is shown, if its tab is open.
    pub open spec fn showing_again(
        self,
        keys: Seq<Seq<char>>,
        places: Seq<usize>,
        active: Option<Seq<char>>,
    ) -> Self {
        match active {
            Some(key) => {
                let at = last_place(keys, places, key, places.len() as int);
                if at >= 0 {
                    ViewState { active: Some(self.tabs[at].id), ..self }
                } else {
                    self
                }
            },
            None => self,
        }
    }

    /// What was open is open again, as far as it can be.
    pub open spec fn restored(
        self,
        paths: Seq<String>,
        keys: Seq<Seq<char>>,
        usable: Seq<bool>,
        active: Option<Seq<char>>,
    ) -> (Self, Seq<Effect>) {
        let places = usable_places(keys, usable, keys.len() as int);
        let failed = lost(keys, usable, keys.len() as int);
        let told = self.telling_lost(failed, places.len() == 0);
        if places.len() == 0 {
            let done = ViewState { restoring: false, ..told };
            (done, done.saving())
        } else {
            let open = ViewState { restoring: true, ..told }.with_tabs(
                paths,
                places,
                places.len() as int,
            );
            let shown = open.showing_again(keys, places, active);
            let (after, effects) = shown.loading_all(shown.to_load(), 0);
            let done = ViewState { restoring: false, ..after };
            (done, effects + done.saving())
        }
    }
}

/// The last of the first `n` places whose key is the given one, or -1.
pub open spec fn last_place(keys: Seq<Seq<char>>, places: Seq<usize>, key: Seq<char>, n: int) -> int
    decreases n,
{
    if n <= 0 {
        -1
    } else if keys[places[n - 1] as int] == key {
        n - 1
    } else {
        last_place(keys, places, key, n - 1)
    }
}

proof fn lemma_with_tabs(state: ViewState, paths: Seq<String>, places: Seq<usize>, n: int)
    requires
        0 <= n,
        state.next + n <= u64::MAX,
    ensures
        state.with_tabs(paths, places, n).tabs.len() == state.tabs.len() + n,
        state.with_tabs(paths, places, n).next == state.next + n,
        forall|i: int|
            0 <= i < state.tabs.len() ==> state.with_tabs(paths, places, n).tabs[i]
                == state.tabs[i],
        forall|i: int|
            state.tabs.len() <= i < state.tabs.len() + n ==> (#[trigger] state.with_tabs(
                paths,
                places,
                n,
            ).tabs[i]).repo_path is Some,
    decreases n,
{
    if n > 0 {
        lemma_with_tabs(state, paths, places, n - 1);
    }
}

proof fn lemma_places_in_range(keys: Seq<Seq<char>>, usable: Seq<bool>, n: int)
    requires
        0 <= n <= usize::MAX,
    ensures
        usable_places(keys, usable, n).len() <= n,
        forall|i: int|
            0 <= i < usable_places(keys, usable, n).len() ==> (#[trigger] usable_places(
                keys,
                usable,
                n,
            )[i]) < n,
    decreases n,
{
    if n > 0 {
        lemma_places_in_range(keys, usable, n - 1);
    }
}

impl RepositoryView {
    /// Opens what was open before. `resolved` and `usable` say for each path what the file system
    /// gives for it, and whether there is a repository; `active` is the path that was shown, as
    /// the file system gives it.
    pub fn restore_session(
        &mut self,
        paths: &Vec<String>,
        resolved: &Vec<String>,
        usable: &Vec<bool>,
        active: &Option<String>,
        effects: &mut Vec<Effect>,
    )
        requires
            old(self).wf(),
            old(self).tabs@.len() == 0,
            old(self).next_tab_id + paths@.len() < u64::MAX,
            paths@.len() == resolved@.len(),
            paths@.len() == usable@.len(),
        ensures
            final(self).wf(),
            ({
                let (after, done) = old(self)@.restored(
                    paths@,
                    keys_of(views(resolved@)),
                    usable@,
                    match *active {
                        Some(path) => Some(lowercase(path@)),
                        None => None,
                    },
                );
                final(self)@ == after && final(effects)@ == old(effects)@ + done
            }),
    {
        let plan: RestorePlan = restore_plan(resolved, usable);
        let ghost keys = keys_of(views(resolved@));
        let ghost places = usable_places(keys, usable@, keys.len() as int);
        let ghost active_key = match active {
            Some(path) => Some(lowercase(path@)),
            None => None,
        };
        let ghost whole = self@.restored(paths@, keys, usable@, active_key);
        let ghost first = self@;
        let count: usize = resolved.len();
        proof {
            assert(keys.len() == count);
            lemma_places_in_range(keys, usable@, keys.len() as int);
        }
        self.tell_lost(plan.failed, plan.restored.len() == 0);
        if plan.restored.len() == 0 {
            self.restoring_session = false;
            self.save_session(effects);
            return ;
        }
        self.restoring_session = true;
        let ghost told = self@;
        self.open_all(paths, &plan.restored);
        proof {
            lemma_with_tabs(told, paths@, places, places.len() as int);
        }
        self.show_again(resolved, &plan.restored, active);
        proof {
            assert(self@.to_load().len() == places.len());
            assert forall|i: int| 0 <= i < self@.tabs.len() implies (
            #[trigger] self@.tabs[i]).repo_path is Some by {
                assert(told.with_tabs(paths@, places, places.len() as int).tabs[i].repo_path is Some);
            }
        }
        let ghost shown = self@;
        self.load_all(effects);
        self.restoring_session = false;
        self.save_session(effects);
        assert(effects@ =~= old(effects)@ + whole.1);
    }

    fn tell_lost(&mut self, failed: usize, all: bool)
        requires
            old(self).wf(),
        ensures
            final(self).wf(),
            final(self)@ == old(self)@.telling_lost(failed as nat, all),
    {
        if failed > 0 {
            self.fallback_tab.last_error = Some(restore_failure(failed));
            if all {
                self.fallback_tab.status = "会话恢复失败".to_string();
            }
        }
    }

    fn show_again(&mut self, resolved: &Vec<String>, places: &Vec<usize>, active: &Option<String>)
        requires
            old(self).wf(),
            old(self)@.tabs.len() == places@.len(),
            forall|i: int| 0 <= i < places@.len() ==> (#[trigger] places@[i]) < resolved@.len(),
        ensures
            final(self).wf(),
            final(self)@ == old(self)@.showing_again(
                keys_of(views(resolved@)),
                places@,
                match *active {
                    Some(path) => Some(lowercase(path@)),
                    None => None,
                },
            ),
    {
        match active {
            Some(path) => {
                let key: String = path_key(path.as_str());
                match find_last(resolved, places, key.as_str()) {
                    Some(at) => {
                        self.active_tab = Some(self.tabs[at].id);
                        proof {
                            assert(self@.tabs[at as int].id == self.tabs@[at as int].id);
                            lemma_found(self@.tabs, at as int);
                        }
                    },
                    None => {},
                }
            },
            None => {},
        }
    }

    fn open_all(&mut self, paths: &Vec<String>, places: &Vec<usize>)
        requires
            old(self).wf(),
            old(self).next_tab_id + places@.len() < u64::MAX,
            forall|i: int| 0 <= i < places@.len() ==> (#[trigger] places@[i]) < paths@.len(),
        ensures
            final(self).wf(),
            final(self)@ == old(self)@.with_tabs(paths@, places@, places@.len() as int),
    {
        let ghost first = self@;
        let mut i: usize = 0;
        while i < places.len()
            invariant
                i <= places@.len(),
                self.wf(),
                self@ == first.with_tabs(paths@, places@, i as int),
                self.next_tab_id == first.next + i,
                first.next + places@.len() < u64::MAX,
                forall|k: int| 0 <= k < places@.len() ==> (#[trigger] places@[k]) < paths@.len(),
            decreases places@.len() - i,
        {
            let path: String = paths[places[i]].clone();
            self.push_tab(path);
            i = i + 1;
        }
    }

    fn load_all(&mut self, effects: &mut Vec<Effect>)
        requires
            old(self).wf(),
            forall|i: int|
                0 <= i < old(self)@.tabs.len() ==> (#[trigger] old(self)@.tabs[i]).repo_path is Some,
        ensures
            final(self).wf(),
            final(self)@ == old(self)@.loading_all(old(self)@.to_load(), 0).0,
            final(effects)@ == old(effects)@ + old(self)@.loading_all(old(self)@.to_load(), 0).1,
    {
        let ghost list = self@.to_load();
        let ghost whole = self@.loading_all(list, 0);
        let (ids, paths): (Vec<RepoTabId>, Vec<String>) = self.tabs_to_load();
        let mut i: usize = 0;
        assert(effects@ + whole.1 =~= old(effects)@ + whole.1);
        while i < ids.len()
            invariant
                i <= ids@.len(),
                ids@.len() == list.len(),
                paths@.len() == list.len(),
                forall|k: int|
                    0 <= k < list.len() ==> (#[trigger] list[k]).id == ids@[k] && list[k].path
                        == paths@[k],
                self.wf(),
                self@.loading_all(list, i as int).0 == whole.0,
                effects@ + self@.loading_all(list, i as int).1 == old(effects)@ + whole.1,
            decreases ids@.len() - i,
        {
            let ghost before = self@;
            let ghost so_far = effects@;
            assert(list[i as int].id == ids@[i as int]);
            self.queue_repository_load(
                ids[i],
                paths[i].clone(),
                "正在恢复仓库",
                "仓库已恢复",
                LoadPriority::Background,
                effects,
            );
            proof {
                let step = before.queueing(
                    list[i as int].id,
                    list[i as int].path,
                    "正在恢复仓库",
                    "仓库已恢复",
                    LoadPriority::Background,
                ).1;
                let rest = self@.loading_all(list, i + 1).1;
                assert(so_far + (step + rest) =~= so_far + step + rest);
            }
            i = i + 1;
        }
        assert(effects@ =~= old(effects)@ + whole.1);
    }

    fn tabs_to_load(&self) -> (r: (Vec<RepoTabId>, Vec<String>))
        requires
            forall|i: int|
                0 <= i < self@.tabs.len() ==> (#[trigger] self@.tabs[i]).repo_path is Some,
        ensures
            (r.0)@.len() == self@.tabs.len(),
            (r.1)@.len() == self@.tabs.len(),
            forall|k: int|
                0 <= k < self@.tabs.len() ==> (#[trigger] self@.to_load()[k]).id == (r.0)@[k]
                    && self@.to_load()[k].path == (r.1)@[k],
    {
        let mut ids: Vec<RepoTabId> = Vec::new();
        let mut paths: Vec<String> = Vec::new();
        let mut i: usize = 0;
        while i < self.tabs.len()
            invariant
                i <= self.tabs@.len(),
                ids@.len() == i,
                paths@.len() == i,
                forall|k: int|
                    0 <= k < self@.tabs.len() ==> (#[trigger] self@.tabs[k]).repo_path is Some,
                forall|k: int|
                    0 <= k < i ==> (#[trigger] self@.to_load()[k]).id == ids@[k]
                        && self@.to_load()[k].path == paths@[k],
            decreases self.tabs@.len() - i,
        {
            assert(self@.tabs[i as int].repo_path is Some);
            let path: String = match &self.tabs[i].repo_path {
                Some(path) => path.clone(),
                None => String::new(),
            };
            ids.push(self.tabs[i].id);
            paths.push(path);
            i = i + 1;
        }
        (ids, paths)
    }

    /// Clones a repository into a tab of its own. `path` is where it goes, `resolved` what the
    /// file system gives for it, `exists` whether something is there, and `open` holds the path
    /// that the file system gives for each tab.
    pub fn clone_repo(
        &mut self,
        url: &str,
        path: String,
        resolved: &str,
        exists: bool,
        open: &Vec<Option<String>>,
        effects: &mut Vec<Effect>,
    )
        requires
            old(self).wf(),
            open@.len() == old(self).tabs@.len(),
            old(self).next_tab_id < u64::MAX,
        ensures
            final(self).wf(),
            ({
                let state = old(self)@;
                let at = key_place(open@, lowercase(resolved@), 0);
                if exists {
                    final(self)@ == state.failing("目标仓库文件夹已存在"@) && final(effects)@
                        == old(effects)@
                } else if at < state.tabs.len() {
                    final(self)@ == (ViewState {
                        active: Some(state.tabs[at].id),
                        ..state
                    }).failing("该仓库已经打开"@) && final(effects)@ == old(effects)@ + state.saving()
                } else {
                    let open = state.with_tab(path);
                    let id = RepoTabId(state.next);
                    &&& final(self)@ == open.spawning(Some(id), "正在克隆仓库"@, true)
                    &&& exists|address: String|
                        address@ == trimmed(url@) && final(effects)@ == old(effects)@
                            + state.saving() + seq![
                            #[trigger] cloning(id, address, path),
                        ]
                }
            }),
    {
        if exists {
            self.fail("目标仓库文件夹已存在");
            return ;
        }
        let key: String = path_key(resolved);
        let at: usize = crate::session::view_open::find_key(open, key.as_str());
        if at < open.len() {
            let id: RepoTabId = self.tabs[at].id;
            self.active_tab = Some(id);
            proof {
                assert(self@.tabs[at as int].id == id);
                lemma_found(self@.tabs, at as int);
            }
            self.save_session(effects);
            self.fail("该仓库已经打开");
            return ;
        }
        let ghost state = self@;
        let id: RepoTabId = self.push_tab(path.clone());
        self.save_session(effects);
        let ghost open_now = self@;
        proof {
            let n = state.tabs.len() as int;
            assert(open_now.tabs[n].id == id);
            crate::session::view_open::lemma_place(open_now.tabs, id, 0);
            assert forall|i: int| 0 <= i < n implies (#[trigger] open_now.tabs[i]).id != id by {
                assert(open_now.tabs[i] == state.tabs[i]);
            }
            assert(tab_place_is(open_now, id, n));
        }
        let starts: bool = self.spawn_operation(Some(id), "正在克隆仓库", true);
        let address: String = trim(url);
        if starts {
            effects.push(Effect::RunClone { tab_id: id, url: address, path });
            assert(effects@ =~= old(effects)@ + state.saving() + seq![cloning(id, address, path)]);
        }
    }
}

spec fn tab_place_is(state: ViewState, id: RepoTabId, at: int) -> bool {
    crate::session::view::tab_place(state.tabs, id, 0) == at
}

/// What is to be done for a clone.
pub open spec fn cloning(id: RepoTabId, url: String, path: String) -> Effect {
    Effect::RunClone { tab_id: id, url, path }
}

fn find_last(resolved: &Vec<String>, places: &Vec<usize>, key: &str) -> (r: Option<usize>)
    requires
        forall|i: int| 0 <= i < places@.len() ==> (#[trigger] places@[i]) < resolved@.len(),
    ensures
        ({
            let at = last_place(
                keys_of(views(resolved@)),
                places@,
                key@,
                places@.len() as int,
            );
            match r {
                Some(i) => i == at && i < places@.len(),
                None => at == -1,
            }
        }),
{
    let mut n: usize = places.len();
    while n > 0
        invariant
            n <= places@.len(),
            forall|i: int| 0 <= i < places@.len() ==> (#[trigger] places@[i]) < resolved@.len(),
            last_place(keys_of(views(resolved@)), places@, key@, places@.len() as int)
                == last_place(keys_of(views(resolved@)), places@, key@, n as int),
        decreases n,
    {
        assert(places@[n - 1] < resolved@.len());
        let k: String = path_key(resolved[places[n - 1]].as_str());
        if str_eq(k.as_str(), key) {
            return Some(n - 1);
        }
        n = n - 1;
    }
    None
}

/// The tabs that are opened again are those of the given places, in their order, with their paths.
pub proof fn lemma_reopened_tabs(
    state: ViewState,
    paths: Seq<String>,
    places: Seq<usize>,
    n: int,
    k: int,
)
    requires
        0 <= k < n <= places.len(),
        state.next + n <= u64::MAX,
    ensures
        ({
            let after = state.with_tabs(paths, places, n);
            &&& after.tabs.len() == state.tabs.len() + n
            &&& after.tabs[state.tabs.len() + k].repo_path == Some(paths[places[k] as int])
            &&& after.tabs[state.tabs.len() + k].id == RepoTabId((state.next + k) as u64)
            &&& after.next == state.next + n
            &&& after.queue == state.queue
        }),
    decreases n,
{
    lemma_with_tabs(state, paths, places, n - 1);
    if k < n - 1 {
        lemma_reopened_tabs(state, paths, places, n - 1, k);
    } else {
        lemma_kept_queue(state, paths, places, n - 1);
    }
}

proof fn lemma_kept_queue(state: ViewState, paths: Seq<String>, places: Seq<usize>, n: int)
    requires
        0 <= n,
    ensures
        state.with_tabs(paths, places, n).queue == state.queue,
    decreases n,
{
    if n > 0 {
        lemma_kept_queue(state, paths, places, n - 1);
    }
}

/// The tab that was shown last is shown again, if its repository could be opened.
pub proof fn lemma_shown_again(
    state: ViewState,
    keys: Seq<Seq<char>>,
    places: Seq<usize>,
    key: Seq<char>,
    at: int,
)
    requires
        -1 <= at < places.len(),
        at >= 0 ==> keys[places[at] as int] == key,
        forall|i: int| at < i < places.len() ==> keys[(#[trigger] places[i]) as int] != key,
    ensures
        at >= 0 ==> state.showing_again(keys, places, Some(key)).active == Some(state.tabs[at].id),
        at < 0 ==> state.showing_again(keys, places, Some(key)) == state,
        state.showing_again(keys, places, None) == state,
        state.showing_again(keys, places, Some(key)).tabs == state.tabs,
{
    lemma_last_place(keys, places, key, places.len() as int, at);
}

proof fn lemma_last_place(
    keys: Seq<Seq<char>>,
    places: Seq<usize>,
    key: Seq<char>,
    n: int,
    at: int,
)
    requires
        -1 <= at < n <= places.len() || n == 0 && at == -1,
        at >= 0 ==> keys[places[at] as int] == key,
        forall|i: int| at < i < n ==> keys[(#[trigger] places[i]) as int] != key,
    ensures
        last_place(keys, places, key, n) == at,
    decreases n,
{
    if n > 0 && at < n - 1 {
        assert(keys[places[n - 1] as int] != key);
        lemma_last_place(keys, places, key, n - 1, at);
    }
}

/// Repositories that could not be opened are told of by their number, and that none could be opened
/// is told apart; if all could, nothing is said.
pub proof fn lemma_lost_repositories_are_told(state: ViewState, failed: nat, all: bool)
    ensures
        failed == 0 ==> state.telling_lost(failed, all) == state,
        failed > 0 ==> {
            let after = state.telling_lost(failed, all);
            &&& after.fallback.error matches Some(text)
            &&& decimal(failed).is_prefix_of(text)
            &&& !all ==> after.fallback.status == state.fallback.status
            &&& all ==> after.fallback.status == "会话恢复失败"@
            &&& after.tabs == state.tabs
            &&& after.active == state.active
        },
{
    let text = decimal(failed) + " 个上次打开的仓库无法恢复"@;
    assert(text.subrange(0, decimal(failed).len() as int) =~= decimal(failed));
}

/// If no repository can be opened again no tab is, and what is open is saved.
pub proof fn lemma_nothing_to_restore(
    state: ViewState,
    paths: Seq<String>,
    keys: Seq<Seq<char>>,
    usable: Seq<bool>,
    active: Option<Seq<char>>,
)
    requires
        usable_places(keys, usable, keys.len() as int).len() == 0,
    ensures
        state.restored(paths, keys, usable, active).0.tabs == state.tabs,
        !state.restored(paths, keys, usable, active).0.restoring,
        state.restored(paths, keys, usable, active).1 == seq![Effect::SaveSession],
{
}

/// Every tab is loaded from its own path.
pub proof fn lemma_what_is_loaded(state: ViewState, i: int)
    requires
        0 <= i < state.tabs.len(),
        state.tabs[i].repo_path is Some,
    ensures
        state.to_load().len() == state.tabs.len(),
        state.to_load()[i].id == state.tabs[i].id,
        state.to_load()[i].path == state.tabs[i].repo_path->0,
{
}

} // verus!
