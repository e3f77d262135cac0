//! Opening, showing and closing tabs.

use vstd::prelude::*;

use crate::credential_forms::{empty_form, prompt_form, CredentialForm};
use crate::session::effects::Effect;
use crate::session::paths::path_key;
use crate::session::popups::Popups;
use crate::session::tab::{RepoTabId, RepoTabState, TabView};
use crate::session::view::{
    LoadPriority, PendingCredential, RepositoryView, Spot, ViewState, lemma_same_ids, tab_place,
};
use crate::strings::{lowercase, str_eq};

verus! {

// ---------------------------------------------------------------------------
// Requests for credentials
// ---------------------------------------------------------------------------
/// The first request from `from` on whose tab is open, or the length.
pub open spec fn next_live(state: ViewState, from: int) -> int
    decreases state.waiting.len() - from,
{
    if from < 0 || from >= state.waiting.len() {
        state.waiting.len() as int
    } else {
        match state.waiting[from].tab_id {
            Some(id) => if state.has_tab(id) {
                from
            } else {
                next_live(state, from + 1)
            },
            None => from,
        }
    }
}

/// The requests of other tabs.
pub open spec fn waiting_for_others(waiting: Seq<PendingCredential>, id: RepoTabId) -> Seq<
    PendingCredential,
>
    decreases waiting.len(),
{
    if waiting.len() == 0 {
        Seq::empty()
    } else {
        let head = waiting_for_others(waiting.drop_last(), id);
        if waiting.last().tab_id != Some(id) {
            head.push(waiting.last())
        } else {
            head
        }
    }
}

/// The answers to the requests of a tab that is closed.
pub open spec fn declined(waiting: Seq<PendingCredential>, id: RepoTabId) -> Seq<Effect>
    decreases waiting.len(),
{
    if waiting.len() == 0 {
        Seq::empty()
    } else {
        let head = declined(waiting.drop_last(), id);
        if waiting.last().tab_id == Some(id) {
            head.push(Effect::DeclineCredential { ticket: waiting.last().ticket })
        } else {
            head
        }
    }
}

impl ViewState {
    /// The next request is shown, if there is one.
    pub open spec fn showing_next(self) -> Self {
        let k = next_live(self, 0);
        if k < self.waiting.len() {
            ViewState {
                pending: Some(self.waiting[k]),
                waiting: self.waiting.skip(k + 1),
                form: prompt_form(self.waiting[k].request),
                ..self
            }
        } else {
            ViewState { pending: None, waiting: Seq::empty(), ..self }
        }
    }

    /// The form is the prompt for the request that is shown.
    pub open spec fn prompting(self) -> Self {
        match self.pending {
            Some(pending) => ViewState { form: prompt_form(pending.request), ..self },
            None => self,
        }
    }

    /// A request is shown, or waits until those before it are answered.
    pub open spec fn enqueued(self, pending: PendingCredential) -> Self {
        if pending.tab_id is Some && !self.has_tab(pending.tab_id->0) {
            self
        } else if self.pending is None {
            ViewState { pending: Some(pending), ..self }
        } else {
            ViewState { waiting: self.waiting.push(pending), ..self }
        }
    }

    // -----------------------------------------------------------------------
    // Tabs
    // -----------------------------------------------------------------------
    /// A new tab is open and shown.
    pub open spec fn with_tab(self, path: String) -> Self {
        ViewState {
            tabs: self.tabs.push(TabView::empty(RepoTabId(self.next), Some(path))),
            active: Some(RepoTabId(self.next)),
            next: (self.next + 1) as u64,
            ..self
        }
    }

    /// The tab with a path is shown; it is opened if it is not. `open` holds the path that the
    /// file system gives for each tab.
    pub open spec fn opening(self, path: String, resolved: Seq<char>, open: Seq<Option<String>>) -> (
        Self,
        RepoTabId,
    ) {
        let at = key_place(open, lowercase(resolved), 0);
        if at < self.tabs.len() {
            (ViewState { active: Some(self.tabs[at].id), ..self }, self.tabs[at].id)
        } else {
            (self.with_tab(path), RepoTabId(self.next))
        }
    }

    /// Another tab is shown.
    pub open spec fn activating(self, id: RepoTabId) -> (Self, Seq<Effect>) {
        if self.active == Some(id) || !self.has_tab(id) {
            (self, Seq::empty())
        } else {
            let closed = ViewState { popups: Popups::none(), ..self };
            let left = closed.put(closed.spot(None), closed.current().released());
            let released = if self.active is Some {
                left
            } else {
                closed
            };
            let shown = ViewState { active: Some(id), ..released };
            let (tab, effects) = shown.current().ensuring_history();
            (shown.put(shown.spot(None), tab), effects + self.saving())
        }
    }

    /// The tab that is shown once the one at `at` is gone.
    pub open spec fn neighbour(tabs: Seq<TabView>, at: int) -> Option<RepoTabId> {
        if at < tabs.len() {
            Some(tabs[at].id)
        } else if 0 < at <= tabs.len() {
            Some(tabs[at - 1].id)
        } else {
            None
        }
    }

    /// A tab is closed.
    pub open spec fn closing(self, id: RepoTabId) -> (Self, Seq<Effect>) {
        let at = tab_place(self.tabs, id, 0);
        if at >= self.tabs.len() {
            (self, Seq::empty())
        } else {
            let tabs = self.tabs.remove(at);
            let gone = ViewState {
                tabs,
                active: if self.active == Some(id) {
                    Self::neighbour(tabs, at)
                } else {
                    self.active
                },
                popups: Popups::none(),
                waiting: waiting_for_others(self.waiting, id),
                queue: crate::session::view_tabs::of_others(self.queue, id),
                ..self
            };
            let asked = self.pending is Some && self.pending->0.tab_id == Some(id);
            let answered = if asked {
                gone.showing_next()
            } else {
                gone
            };
            (
                answered,
                declined(self.waiting, id) + (if asked {
                    seq![Effect::DeclineCredential { ticket: self.pending->0.ticket }]
                } else {
                    Seq::<Effect>::empty()
                }) + self.saving(),
            )
        }
    }
}

/// The first tab from `from` on whose path has the given key, or the length.
pub open spec fn key_place(open: Seq<Option<String>>, key: Seq<char>, from: int) -> int
    decreases open.len() - from,
{
    if from < 0 || from >= open.len() {
        open.len() as int
    } else if open[from] is Some && lowercase(open[from]->0@) == key {
        from
    } else {
        key_place(open, key, from + 1)
    }
}

pub(crate) fn find_key(open: &Vec<Option<String>>, key: &str) -> (r: usize)
    ensures
        r == key_place(open@, key@, 0),
        r <= open@.len(),
{
    let mut i: usize = 0;
    while i < open.len()
        invariant
            i <= open@.len(),
            key_place(open@, key@, 0) == key_place(open@, key@, i as int),
        decreases open@.len() - i,
    {
        match &open[i] {
            Some(path) => {
                let k: String = path_key(path.as_str());
                if str_eq(k.as_str(), key) {
                    return i;
                }
            },
            None => {},
        }
        i = i + 1;
    }
    i
}

pub proof fn lemma_place(tabs: Seq<TabView>, id: RepoTabId, from: int)
    requires
        0 <= from <= tabs.len(),
    ensures
        from <= tab_place(tabs, id, from) <= tabs.len(),
        tab_place(tabs, id, from) < tabs.len() ==> tabs[tab_place(tabs, id, from)].id == id,
        forall|i: int|
            from <= i < tabs.len() && (#[trigger] tabs[i]).id == id ==> tab_place(tabs, id, from)
                <= i,
    decreases tabs.len() - from,
{
    if from < tabs.len() && tabs[from].id != id {
        lemma_place(tabs, id, from + 1);
    }
}

/// A tab that is in the list is found.
pub proof fn lemma_found(tabs: Seq<TabView>, i: int)
    requires
        0 <= i < tabs.len(),
    ensures
        tab_place(tabs, tabs[i].id, 0) < tabs.len(),
{
    lemma_place(tabs, tabs[i].id, 0);
}

/// Closing a tab leaves every other tab as it is.
pub proof fn lemma_closing_keeps_others(state: ViewState, id: RepoTabId, other: RepoTabId)
    requires
        state.wf(),
        state.has_tab(other),
        other != id,
    ensures
        state.closing(id).0.has_tab(other),
        state.closing(id).0.at(state.closing(id).0.spot(Some(other))) == state.at(
            state.spot(Some(other)),
        ),
        state.active == Some(other) ==> state.closing(id).0.active == Some(other),
{
    let at = tab_place(state.tabs, id, 0);
    let place = tab_place(state.tabs, other, 0);
    lemma_place(state.tabs, other, 0);
    lemma_place(state.tabs, id, 0);
    if at < state.tabs.len() {
        let tabs = state.tabs.remove(at);
        let there = if place < at {
            place
        } else {
            place - 1
        };
        assert(tabs[there] == state.tabs[place]);
        lemma_place(tabs, other, 0);
        let found = tab_place(tabs, other, 0);
        if found < there {
            let before = if found < at {
                found
            } else {
                found + 1
            };
            assert(tabs[found] == state.tabs[before]);
            assert(state.tabs[before].id == state.tabs[place].id);
        }
    }
}

impl RepositoryView {
    pub fn new() -> (r: Self)
        ensures
            r.wf(),
            r@.tabs.len() == 0,
            r@.active is None,
            r@.next == 1,
            r@.fallback == TabView::empty(RepoTabId(0), None),
            !r@.restoring,
            r@.pending is None,
            r@.waiting.len() == 0,
            r@.queue.len() == 0,
            r@.loads == 0,
            r@.popups == Popups::none(),
            r@.records.len() == 0,
            r@.form == empty_form(false),
    {
        RepositoryView {
            tabs: Vec::new(),
            active_tab: None,
            next_tab_id: 1,
            fallback_tab: RepoTabState::new(RepoTabId(0), None),
            restoring_session: false,
            pending_credential: None,
            pending_credentials: Vec::new(),
            form: CredentialForm::new(),
            repository_load_queue: Vec::new(),
            active_repository_loads: 0,
            popups: Popups::new(),
            credential_records: Vec::new(),
        }
    }

    pub(crate) fn push_tab(&mut self, path: String) -> (id: RepoTabId)
        requires
            old(self).wf(),
            old(self).next_tab_id < u64::MAX,
        ensures
            final(self).wf(),
            final(self)@ == old(self)@.with_tab(path),
            id == RepoTabId(old(self).next_tab_id),
    {
        let id: RepoTabId = RepoTabId(self.next_tab_id);
        let ghost before = self@.tabs;
        self.next_tab_id = self.next_tab_id + 1;
        self.tabs.push(RepoTabState::new(id, Some(path)));
        self.active_tab = Some(id);
        let count: usize = self.tabs.len();
        proof {
            let tab = TabView::empty(id, Some(path));
            assert(self@.tabs =~= before.push(tab));
            let n = before.len() as int;
            assert(self@.tabs[n].id == id);
            lemma_found(self@.tabs, n);
            assert forall|i: int, j: int| 0 <= i < j < self@.tabs.len() implies (
            #[trigger] self@.tabs[i]).id != (#[trigger] self@.tabs[j]).id by {
                assert(self@.tabs[i] == before[i]);
                if j < n {
                    assert(self@.tabs[j] == before[j]);
                }
            }
            assert forall|i: int| 0 <= i < self@.tabs.len() implies 0 < (
            #[trigger] self@.tabs[i]).id.0 < self@.next by {
                if i < n {
                    assert(self@.tabs[i] == before[i]);
                }
            }
            assert(self@.tabs.len() == count);
        }
        id
    }

    /// Shows the tab with a path, and opens it if it is not open. `open` holds the path that the
    /// file system gives for each tab.
    pub fn ensure_tab_for_path(
        &mut self,
        path: String,
        resolved: &str,
        open: &Vec<Option<String>>,
        effects: &mut Vec<Effect>,
    ) -> (id: RepoTabId)
        requires
            old(self).wf(),
            open@.len() == old(self).tabs@.len(),
            old(self).next_tab_id < u64::MAX,
        ensures
            final(self).wf(),
            final(self)@ == old(self)@.opening(path, resolved@, open@).0,
            id == old(self)@.opening(path, resolved@, open@).1,
            final(self)@.has_tab(id),
            final(self)@.active == Some(id),
            final(effects)@ == old(effects)@ + old(self)@.saving(),
    {
        let key: String = path_key(resolved);
        let at: usize = find_key(open, key.as_str());
        if at < open.len() {
            let id: RepoTabId = self.tabs[at].id;
            self.active_tab = Some(id);
            proof {
                assert(self@.tabs[at as int].id == id);
                lemma_found(self@.tabs, at as int);
            }
            self.save_session(effects);
            id
        } else {
            let id: RepoTabId = self.push_tab(path);
            self.save_session(effects);
            id
        }
    }

    /// Opens a repository in a tab of its own, or shows the tab that it has.
    pub fn open_repo(
        &mut self,
        path: String,
        resolved: &str,
        open: &Vec<Option<String>>,
        effects: &mut Vec<Effect>,
    )
        requires
            old(self).wf(),
            open@.len() == old(self).tabs@.len(),
            old(self).next_tab_id < u64::MAX,
        ensures
            final(self).wf(),
            ({
                let (shown, id) = old(self)@.opening(path, resolved@, open@);
                let (after, done) = shown.queueing(
                    id,
                    path,
                    "正在打开仓库",
                    "仓库已打开",
                    LoadPriority::User,
                );
                final(self)@ == after && final(effects)@ == old(effects)@ + old(self)@.saving()
                    + done
            }),
    {
        let id: RepoTabId = self.ensure_tab_for_path(path.clone(), resolved, open, effects);
        self.queue_repository_load(
            id,
            path,
            "正在打开仓库",
            "仓库已打开",
            LoadPriority::User,
            effects,
        );
    }

    /// Loads the repository that is shown once more.
    pub fn refresh(&mut self, effects: &mut Vec<Effect>)
        requires
            old(self).wf(),
        ensures
            final(self).wf(),
            match old(self)@.current().repo_path {
                Some(path) => if old(self)@.active is Some {
                    let (after, done) = old(self)@.queueing(
                        old(self)@.active->0,
                        path,
                        "正在刷新仓库",
                        "已刷新",
                        LoadPriority::User,
                    );
                    final(self)@ == after && final(effects)@ == old(effects)@ + done
                } else {
                    final(self)@ == old(self)@.without_repository() && final(effects)@ == old(
                        effects)@
                },
                None => final(self)@ == old(self)@.without_repository() && final(effects)@ == old(
                    effects)@,
            },
    {
        match self.active_repository() {
            Some((id, path)) => {
                self.queue_repository_load(
                    id,
                    path,
                    "正在刷新仓库",
                    "已刷新",
                    LoadPriority::User,
                    effects,
                );
            },
            None => {
                self.fail("请先打开一个仓库");
            },
        }
    }

    /// The tab that is shown and the path of its repository, if there is one.
    pub(crate) fn active_repository(&self) -> (r: Option<(RepoTabId, String)>)
        requires
            self.wf(),
        ensures
            match r {
                Some((id, path)) => self@.active == Some(id) && self@.current().repo_path == Some(
                    path,
                ),
                None => self@.active is None || self@.current().repo_path is None,
            },
    {
        match self.active_tab {
            Some(id) => {
                let at: usize = self.find_tab(id);
                if at < self.tabs.len() {
                    match &self.tabs[at].repo_path {
                        Some(path) => Some((id, path.clone())),
                        None => None,
                    }
                } else {
                    None
                }
            },
            None => None,
        }
    }

    /// Says what is wrong, in the tab that is shown.
    pub fn fail(&mut self, message: &str)
        requires
            old(self).wf(),
        ensures
            final(self).wf(),
            final(self)@ == old(self)@.failing(message@),
    {
        let spot: Spot = self.spot(None);
        let tab = self.tab_at(spot);
        tab.fail(message);
    }

    /// Shows another tab.
    pub fn activate_tab(&mut self, id: RepoTabId, effects: &mut Vec<Effect>)
        requires
            old(self).wf(),
        ensures
            final(self).wf(),
            final(self)@ == old(self)@.activating(id).0,
            final(effects)@ == old(effects)@ + old(self)@.activating(id).1,
    {
        let same: bool = match self.active_tab {
            Some(active) => active == id,
            None => false,
        };
        let place: usize = self.find_tab(id);
        if same || place >= self.tabs.len() {
            assert(effects@ =~= old(effects)@ + Seq::<Effect>::empty());
            return ;
        }
        self.popups.close_popups();
        if self.active_tab.is_some() {
            self.release();
        }
        proof {
            lemma_same_ids(old(self)@.tabs, self@.tabs, id, 0);
        }
        self.active_tab = Some(id);
        self.ensure_history(effects);
        self.save_session(effects);
        assert(effects@ =~= old(effects)@ + old(self)@.activating(id).1);
    }

    fn release(&mut self)
        requires
            old(self).wf(),
        ensures
            final(self).wf(),
            final(self)@ == old(self)@.put(
                old(self)@.spot(None),
                old(self)@.current().released(),
            ),
            forall|i: int|
                0 <= i < old(self)@.tabs.len() ==> (#[trigger] old(self)@.tabs[i]).id == (
                #[trigger] final(self)@.tabs[i]).id,
            old(self)@.tabs.len() == final(self)@.tabs.len(),
    {
        let spot: Spot = self.spot(None);
        let tab = self.tab_at(spot);
        tab.release_large_diff_caches();
    }

    fn ensure_history(&mut self, effects: &mut Vec<Effect>)
        requires
            old(self).wf(),
        ensures
            final(self).wf(),
            final(self)@ == old(self)@.put(
                old(self)@.spot(None),
                old(self)@.current().ensuring_history().0,
            ),
            final(effects)@ == old(effects)@ + old(self)@.current().ensuring_history().1,
    {
        let spot: Spot = self.spot(None);
        let tab = self.tab_at(spot);
        tab.ensure_history_loaded(effects);
    }
}

impl ViewState {
    pub open spec fn failing(self, message: Seq<char>) -> Self {
        self.put(self.spot(None), self.current().failing(message))
    }

    pub open spec fn without_repository(self) -> Self {
        self.failing("请先打开一个仓库"@)
    }
}

// ---------------------------------------------------------------------------
// Laws
// ---------------------------------------------------------------------------
/// A request for a credential is asked when nothing else is; otherwise it waits behind the others. A
/// request of a tab that is closed is forgotten.
pub proof fn lemma_requests_wait_in_order(state: ViewState, pending: PendingCredential)
    ensures
        ({
            let after = state.enqueued(pending);
            let live = pending.tab_id is None || state.has_tab(pending.tab_id->0);
            &&& !live ==> after == state
            &&& live && state.pending is None ==> after.pending == Some(pending) && after.waiting
                == state.waiting
            &&& live && state.pending is Some ==> after.pending == state.pending && after.waiting
                == state.waiting.push(pending)
            &&& after.tabs == state.tabs && after.queue == state.queue
        }),
{
}

/// The next request is the first that waits for a tab that is still open, or for none; those before
/// it are forgotten, those behind it go on waiting. If there is none, nothing is asked any more.
pub proof fn lemma_next_request(state: ViewState, k: int)
    requires
        0 <= k <= state.waiting.len(),
        forall|i: int|
            0 <= i < k ==> (#[trigger] state.waiting[i]).tab_id is Some && !state.has_tab(
                state.waiting[i].tab_id->0,
            ),
        k < state.waiting.len() ==> state.waiting[k].tab_id is None || state.has_tab(
            state.waiting[k].tab_id->0,
        ),
    ensures
        ({
            let after = state.showing_next();
            &&& k < state.waiting.len() ==> {
                &&& after.pending == Some(state.waiting[k])
                &&& after.waiting == state.waiting.skip(k + 1)
                &&& after.form == prompt_form(state.waiting[k].request)
            }
            &&& k == state.waiting.len() ==> after.pending is None && after.waiting.len() == 0
            &&& after.tabs == state.tabs && after.active == state.active && after.queue
                == state.queue
        }),
{
    lemma_next_live(state, 0, k);
}

proof fn lemma_next_live(state: ViewState, from: int, k: int)
    requires
        0 <= from <= k <= state.waiting.len(),
        forall|i: int|
            from <= i < k ==> (#[trigger] state.waiting[i]).tab_id is Some && !state.has_tab(
                state.waiting[i].tab_id->0,
            ),
        k < state.waiting.len() ==> state.waiting[k].tab_id is None || state.has_tab(
            state.waiting[k].tab_id->0,
        ),
    ensures
        next_live(state, from) == k,
    decreases k - from,
{
    if from < k {
        assert(state.waiting[from].tab_id is Some);
        lemma_next_live(state, from + 1, k);
    }
}

/// Closing a tab declines every request that waits for it, in their order, and keeps the others.
pub proof fn lemma_requests_of_a_closed_tab(
    waiting: Seq<PendingCredential>,
    id: RepoTabId,
    request: PendingCredential,
)
    ensures
        waiting_for_others(waiting, id).contains(request) <==> waiting.contains(request)
            && request.tab_id != Some(id),
        declined(waiting, id).len() + waiting_for_others(waiting, id).len() == waiting.len(),
        waiting.contains(request) && request.tab_id == Some(id) ==> declined(waiting, id).contains(
            Effect::DeclineCredential { ticket: request.ticket },
        ),
    decreases waiting.len(),
{
    if waiting.len() > 0 {
        let head = waiting.drop_last();
        lemma_requests_of_a_closed_tab(head, id, request);
        let kept = waiting_for_others(waiting, id);
        let before = waiting_for_others(head, id);
        if kept.contains(request) {
            let k = choose|k: int| 0 <= k < kept.len() && kept[k] == request;
            if k < before.len() {
                assert(before[k] == request);
                let j = choose|j: int| 0 <= j < head.len() && head[j] == request;
                assert(waiting[j] == request);
            } else {
                assert(waiting[waiting.len() - 1] == request);
            }
        }
        if waiting.contains(request) {
            let j = choose|j: int| 0 <= j < waiting.len() && waiting[j] == request;
            if j < head.len() {
                assert(head[j] == request);
            }
            if request.tab_id != Some(id) {
                if j < head.len() {
                    let k = choose|k: int| 0 <= k < before.len() && before[k] == request;
                    assert(kept[k] == request);
                } else {
                    assert(kept[before.len() as int] == request);
                }
            } else {
                let effect = Effect::DeclineCredential { ticket: request.ticket };
                let gone = declined(head, id);
                if j < head.len() {
                    let k = choose|k: int| 0 <= k < gone.len() && gone[k] == effect;
                    assert(declined(waiting, id)[k] == effect);
                } else {
                    assert(declined(waiting, id)[gone.len() as int] == effect);
                }
            }
        }
    }
}

/// A new tab is the last one and is shown; it has the next number, which no other will have.
pub proof fn lemma_opened_tab(state: ViewState, path: String)
    requires
        state.next < u64::MAX,
    ensures
        ({
            let after = state.with_tab(path);
            &&& after.tabs.len() == state.tabs.len() + 1
            &&& after.tabs.last().id == RepoTabId(state.next)
            &&& after.tabs.last().repo_path == Some(path)
            &&& after.active == Some(RepoTabId(state.next))
            &&& after.next == state.next + 1
            &&& after.tabs.drop_last() == state.tabs
            &&& after.queue == state.queue && after.pending == state.pending
        }),
{
    assert(state.with_tab(path).tabs.drop_last() =~= state.tabs);
}

/// A repository that is open already is shown in its tab, whatever the size of the letters in its
/// path; another gets a tab of its own.
pub proof fn lemma_opening_a_repository(
    state: ViewState,
    path: String,
    resolved: Seq<char>,
    open: Seq<Option<String>>,
    at: int,
)
    requires
        open.len() == state.tabs.len(),
        0 <= at <= open.len(),
        forall|i: int|
            0 <= i < at ==> !((#[trigger] open[i]) is Some && lowercase(open[i]->0@) == lowercase(
                resolved,
            )),
        at < open.len() ==> open[at] is Some && lowercase(open[at]->0@) == lowercase(resolved),
    ensures
        at < open.len() ==> {
            &&& state.opening(path, resolved, open).0.tabs == state.tabs
            &&& state.opening(path, resolved, open).0.active == Some(state.tabs[at].id)
            &&& state.opening(path, resolved, open).1 == state.tabs[at].id
        },
        at == open.len() ==> state.opening(path, resolved, open) == (
            state.with_tab(path),
            RepoTabId(state.next),
        ),
{
    lemma_key_place(open, lowercase(resolved), 0, at);
}

proof fn lemma_key_place(open: Seq<Option<String>>, key: Seq<char>, from: int, at: int)
    requires
        0 <= from <= at <= open.len(),
        forall|i: int|
            from <= i < at ==> !((#[trigger] open[i]) is Some && lowercase(open[i]->0@) == key),
        at < open.len() ==> open[at] is Some && lowercase(open[at]->0@) == key,
    ensures
        key_place(open, key, from) == at,
    decreases at - from,
{
    if from < at {
        assert(!(open[from] is Some && lowercase(open[from]->0@) == key));
        lemma_key_place(open, key, from + 1, at);
    }
}

/// Going to another tab shows it and closes what was open over the old one; the old tab lets large
/// differences go. Going to the tab that is shown, or to one that is not there, does nothing.
pub proof fn lemma_going_to_a_tab(state: ViewState, id: RepoTabId)
    requires
        state.wf(),
    ensures
        ({
            let (after, effects) = state.activating(id);
            let goes = state.active != Some(id) && state.has_tab(id);
            &&& !goes ==> after == state && effects.len() == 0
            &&& goes ==> {
                &&& after.active == Some(id)
                &&& after.popups == Popups::none()
                &&& after.tabs.len() == state.tabs.len()
                &&& after.queue == state.queue
                &&& after.pending == state.pending
                &&& !state.restoring ==> effects.len() > 0 && effects.last() is SaveSession
            }
        }),
{
    if state.active != Some(id) && state.has_tab(id) {
        let closed = ViewState { popups: Popups::none(), ..state };
        let left = closed.put(closed.spot(None), closed.current().released());
        if let Some(old) = state.active {
            lemma_place(state.tabs, old, 0);
        }
        let released = if state.active is Some {
            left
        } else {
            closed
        };
        assert(released.tabs.len() == state.tabs.len());
        let shown = ViewState { active: Some(id), ..released };
        lemma_place(state.tabs, id, 0);
        lemma_place(shown.tabs, id, 0);
        assert(shown.put(shown.spot(None), shown.current().ensuring_history().0).tabs.len()
            == state.tabs.len());
        let effects = state.activating(id).1;
        if !state.restoring {
            assert(effects.last() == state.saving().last());
        }
    }
}

/// The tab that is shown after the one at a place was taken out is the one that has moved there, or
/// the one before if it was the last; none if none is left.
pub proof fn lemma_neighbours(tabs: Seq<TabView>, at: int)
    requires
        0 <= at <= tabs.len(),
    ensures
        at < tabs.len() ==> ViewState::neighbour(tabs, at) == Some(tabs[at].id),
        at == tabs.len() && at > 0 ==> ViewState::neighbour(tabs, at) == Some(tabs[at - 1].id),
        tabs.len() == 0 ==> ViewState::neighbour(tabs, at) is None,
{
}

/// A tab that is closed is gone with the loads and the requests that were for it; if it was shown, a
/// neighbour is. The request that it was asking is declined too, and the next one is asked.
pub proof fn lemma_closing_a_tab(state: ViewState, at: int)
    requires
        state.wf(),
        0 <= at < state.tabs.len(),
    ensures
        ({
            let id = state.tabs[at].id;
            let (after, effects) = state.closing(id);
            let asked = state.pending matches Some(p) && p.tab_id == Some(id);
            &&& after.tabs == state.tabs.remove(at)
            &&& after.popups == Popups::none()
            &&& after.queue == crate::session::view_tabs::of_others(state.queue, id)
            &&& state.active == Some(id) && at < state.tabs.len() - 1 ==> after.active == Some(
                state.tabs[at + 1].id,
            )
            &&& state.active == Some(id) && at == state.tabs.len() - 1 && at > 0 ==> after.active
                == Some(state.tabs[at - 1].id)
            &&& state.active == Some(id) && state.tabs.len() == 1 ==> after.active is None
            &&& state.active != Some(id) ==> after.active == state.active
            &&& !asked ==> after.pending == state.pending
            &&& asked ==> effects.contains(
                Effect::DeclineCredential { ticket: state.pending->0.ticket },
            )
            &&& !state.restoring ==> effects.last() is SaveSession
        }),
{
    let id = state.tabs[at].id;
    lemma_place(state.tabs, id, 0);
    let place = tab_place(state.tabs, id, 0);
    if place < at {
        assert(state.tabs[place].id != state.tabs[at].id);
    }
    let (after, effects) = state.closing(id);
    let asked = state.pending is Some && state.pending->0.tab_id == Some(id);
    if asked {
        let n = declined(state.waiting, id).len() as int;
        assert(effects[n] == (Effect::DeclineCredential { ticket: state.pending->0.ticket }));
    }
}

/// A failure is shown in the tab that is shown, and nothing else changes.
pub proof fn lemma_failures_are_shown(state: ViewState, message: Seq<char>)
    requires
        state.wf(),
    ensures
        state.failing(message).current().error == Some(message),
        state.failing(message).active == state.active,
        state.failing(message).queue == state.queue,
        state.failing(message).popups == state.popups,
        state.without_repository().current().error is Some,
{
    lemma_shown_tab_stays(state, state.current().failing(message));
    lemma_shown_tab_stays(state, state.current().failing("请先打开一个仓库"@));
}

proof fn lemma_shown_tab_stays(state: ViewState, tab: TabView)
    requires
        state.wf(),
        tab.id == state.current().id,
    ensures
        state.put(state.spot(None), tab).spot(None) == state.spot(None),
        state.put(state.spot(None), tab).current() == tab,
{
    let after = state.put(state.spot(None), tab);
    if let Some(id) = state.active {
        lemma_place(state.tabs, id, 0);
        crate::session::view::lemma_same_ids(state.tabs, after.tabs, id, 0);
    }
}

} // verus!
