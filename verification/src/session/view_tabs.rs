//! Opening, loading and closing tabs.

use vstd::prelude::*;

use crate::session::effects::Effect;
use crate::session::popups::Popups;
use crate::session::tab::{RepoTabId, RepositoryLoading, TabView};
use crate::session::view::{
    LoadPriority, MAX_CONCURRENT_REPO_LOADS, RepositoryLoadRequest, RepositoryView, Spot, ViewState,
};

verus! {

/// The number of the load after `id`.
pub open spec fn next_load(id: u64) -> u64 {
    if id == u64::MAX {
        0
    } else {
        (id + 1) as u64
    }
}

pub(crate) fn next_load_id(id: u64) -> (r: u64)
    ensures
        r == next_load(id),
{
    if id == u64::MAX {
        0
    } else {
        id + 1
    }
}

/// The requests of other tabs.
pub open spec fn of_others(queue: Seq<RepositoryLoadRequest>, id: RepoTabId) -> Seq<
    RepositoryLoadRequest,
>
    decreases queue.len(),
{
    if queue.len() == 0 {
        Seq::empty()
    } else {
        let head = of_others(queue.drop_last(), id);
        if queue.last().tab_id != id {
            head.push(queue.last())
        } else {
            head
        }
    }
}

/// Whether a tab waits to be loaded.
pub open spec fn is_queued(queue: Seq<RepositoryLoadRequest>, id: RepoTabId) -> bool {
    exists|i: int| 0 <= i < queue.len() && (#[trigger] queue[i]).tab_id == id
}

impl ViewState {
    pub open spec fn saving(self) -> Seq<Effect> {
        if self.restoring {
            Seq::empty()
        } else {
            seq![Effect::SaveSession]
        }
    }

    /// The loads that start now, in the order of the queue.
    pub open spec fn starting(self) -> (Self, Seq<Effect>)
        decreases self.queue.len(),
    {
        if self.loads >= MAX_CONCURRENT_REPO_LOADS || self.queue.len() == 0 {
            (self, Seq::empty())
        } else {
            let request = self.queue[0];
            let rest = ViewState { queue: self.queue.skip(1), ..self };
            if !self.has_tab(request.tab_id) {
                rest.starting()
            } else {
                let (after, effects) = ViewState {
                    loads: (self.loads + 1) as usize,
                    ..rest
                }.starting();
                (
                    after,
                    seq![
                        Effect::StartLoad {
                            tab_id: request.tab_id,
                            path: request.path,
                            started: request.started,
                            finished: request.finished,
                            load_id: self.at(self.spot(Some(request.tab_id))).load_id,
                        },
                    ] + effects,
                )
            }
        }
    }

    /// A repository waits to be loaded, unless it is loaded at once.
    pub open spec fn queueing(
        self,
        tab_id: RepoTabId,
        path: String,
        started: &'static str,
        finished: &'static str,
        priority: LoadPriority,
    ) -> (Self, Seq<Effect>) {
        if !self.has_tab(tab_id) {
            (self, Seq::empty())
        } else {
            let spot = self.spot(Some(tab_id));
            let tab = self.at(spot);
            let loading = TabView {
                load_id: next_load(tab.load_id),
                repo_path: Some(path),
                busy: true,
                loading: RepositoryLoading::nothing(),
                status: started@,
                error: None,
                ..tab
            };
            let request = RepositoryLoadRequest { tab_id, path, started, finished };
            let others = of_others(self.queue, tab_id);
            let queued = ViewState {
                popups: Popups::none(),
                queue: if priority == LoadPriority::User {
                    seq![request] + others
                } else {
                    others.push(request)
                },
                ..self.put(spot, loading)
            };
            let (after, effects) = queued.starting();
            (
                if is_queued(after.queue, tab_id) {
                    after.put(spot, TabView { status: "等待加载仓库"@, ..after.at(spot) })
                } else {
                    after
                },
                self.saving() + effects,
            )
        }
    }
}

proof fn lemma_of_others(queue: Seq<RepositoryLoadRequest>, id: RepoTabId)
    ensures
        of_others(queue, id).len() <= queue.len(),
        !is_queued(of_others(queue, id), id),
    decreases queue.len(),
{
    if queue.len() > 0 {
        lemma_of_others(queue.drop_last(), id);
        let head = of_others(queue.drop_last(), id);
        let all = of_others(queue, id);
        if is_queued(all, id) {
            let i = choose|i: int| 0 <= i < all.len() && (#[trigger] all[i]).tab_id == id;
            if i < head.len() {
                assert(head[i].tab_id == id);
            }
        }
    }
}

/// Starting loads changes the queue and the number of loads alone, and never more than the limit
/// run at once.
pub proof fn lemma_starting_keeps_tabs(state: ViewState)
    requires
        state.loads <= MAX_CONCURRENT_REPO_LOADS,
    ensures
        ({
            let after = state.starting().0;
            &&& after == (ViewState { queue: after.queue, loads: after.loads, ..state })
            &&& after.loads <= MAX_CONCURRENT_REPO_LOADS
            &&& after.loads < MAX_CONCURRENT_REPO_LOADS ==> after.queue.len() == 0
            &&& after.loads - state.loads == state.starting().1.len()
            &&& after.queue.len() <= state.queue.len()
            &&& after.queue == state.queue.skip(state.queue.len() - after.queue.len())
        }),
    decreases state.queue.len(),
{
    if state.loads >= MAX_CONCURRENT_REPO_LOADS || state.queue.len() == 0 {
        assert(state.queue.skip(0) =~= state.queue);
    } else {
        let rest = ViewState { queue: state.queue.skip(1), ..state };
        let next = ViewState { loads: (state.loads + 1) as usize, ..rest };
        let tail = state.queue.skip(1);
        let after = state.starting().0;
        if !state.has_tab(state.queue[0].tab_id) {
            lemma_starting_keeps_tabs(rest);
        } else {
            lemma_starting_keeps_tabs(next);
        }
        assert(after.queue =~= state.queue.skip(state.queue.len() - after.queue.len()));
    }
}

impl RepositoryView {
    pub(crate) fn save_session(&self, effects: &mut Vec<Effect>)
        ensures
            final(effects)@ == old(effects)@ + self@.saving(),
    {
        if !self.restoring_session {
            effects.push(Effect::SaveSession);
        }
        assert(effects@ =~= old(effects)@ + self@.saving());
    }

    /// Starts loads while fewer than the limit run.
    pub fn start_queued_repository_loads(&mut self, effects: &mut Vec<Effect>)
        requires
            old(self).wf(),
        ensures
            final(self).wf(),
            final(self)@ == old(self)@.starting().0,
            final(effects)@ == old(effects)@ + old(self)@.starting().1,
    {
        let ghost whole = self@.starting();
        let ghost first = *self;
        assert(effects@ + self@.starting().1 =~= old(effects)@ + whole.1);
        while self.active_repository_loads < MAX_CONCURRENT_REPO_LOADS
            && self.repository_load_queue.len() > 0
            invariant
                self.wf(),
                self@.starting().0 == whole.0,
                effects@ + self@.starting().1 == old(effects)@ + whole.1,
            decreases self.repository_load_queue@.len(),
        {
            let ghost before = self@;
            let ghost so_far = effects@;
            let request: RepositoryLoadRequest = self.repository_load_queue.remove(0);
            assert(self.repository_load_queue@ =~= before.queue.skip(1));
            let place: usize = self.find_tab(request.tab_id);
            if place < self.tabs.len() {
                self.active_repository_loads = self.active_repository_loads + 1;
                let load_id: u64 = self.tabs[place].repository_load_id;
                let effect = Effect::StartLoad {
                    tab_id: request.tab_id,
                    path: request.path,
                    started: request.started,
                    finished: request.finished,
                    load_id,
                };
                effects.push(effect);
                proof {
                    let tail = self@.starting().1;
                    assert(so_far + (seq![effect] + tail) =~= so_far.push(effect) + tail);
                }
            }
        }
        assert(effects@ =~= old(effects)@ + whole.1);
    }

    pub(crate) fn drop_requests(&mut self, id: RepoTabId)
        requires
            old(self).wf(),
        ensures
            final(self).wf(),
            final(self)@ == (ViewState { queue: of_others(old(self)@.queue, id), ..old(self)@ }),
    {
        let mut left: Vec<RepositoryLoadRequest> = Vec::new();
        let mut queue: Vec<RepositoryLoadRequest> = Vec::new();
        core::mem::swap(&mut queue, &mut self.repository_load_queue);
        let ghost all = queue@;
        let ghost mut n: int = 0;
        assert(all.take(0) =~= Seq::<RepositoryLoadRequest>::empty());
        assert(all.skip(0) =~= all);
        while queue.len() > 0
            invariant
                0 <= n <= all.len(),
                queue@ == all.skip(n),
                left@ == of_others(all.take(n), id),
            decreases queue@.len(),
        {
            let request: RepositoryLoadRequest = queue.remove(0);
            proof {
                assert(request == all[n]);
                assert(all.take(n + 1).drop_last() =~= all.take(n));
                assert(queue@ =~= all.skip(n + 1));
                n = n + 1;
            }
            if request.tab_id != id {
                left.push(request);
            }
        }
        assert(all.take(n) =~= all);
        self.repository_load_queue = left;
    }

    fn is_load_queued(&self, id: RepoTabId) -> (r: bool)
        ensures
            r == is_queued(self@.queue, id),
    {
        let mut i: usize = 0;
        while i < self.repository_load_queue.len()
            invariant
                i <= self.repository_load_queue@.len(),
                forall|k: int|
                    0 <= k < i ==> (#[trigger] self.repository_load_queue@[k]).tab_id != id,
            decreases self.repository_load_queue@.len() - i,
        {
            if self.repository_load_queue[i].tab_id == id {
                return true;
            }
            i = i + 1;
        }
        false
    }

    /// Asks for a repository to be loaded: before others if the user waits for it.
    pub fn queue_repository_load(
        &mut self,
        tab_id: RepoTabId,
        path: String,
        started: &'static str,
        finished: &'static str,
        priority: LoadPriority,
        effects: &mut Vec<Effect>,
    )
        requires
            old(self).wf(),
        ensures
            final(self).wf(),
            final(self)@ == old(self)@.queueing(tab_id, path, started, finished, priority).0,
            final(effects)@ == old(effects)@ + old(self)@.queueing(
                tab_id,
                path,
                started,
                finished,
                priority,
            ).1,
    {
        let spot: Spot = self.spot(Some(tab_id));
        let known: bool = match spot {
            Spot::Tab(_) => true,
            _ => false,
        };
        if !known {
            assert(effects@ =~= old(effects)@ + Seq::<Effect>::empty());
            return ;
        }
        let ghost first = self@;
        let ghost done = self@.queueing(tab_id, path, started, finished, priority);
        self.start_loading(spot, path.clone(), started);
        self.popups.close_popups();
        self.save_session(effects);
        self.drop_requests(tab_id);
        let request = RepositoryLoadRequest { tab_id, path, started, finished };
        let ghost others = self@.queue;
        if priority == LoadPriority::User {
            self.repository_load_queue.insert(0, request);
            assert(self.repository_load_queue@ =~= seq![request] + others);
        } else {
            self.repository_load_queue.push(request);
        }
        let ghost queued = self@;
        proof {
            lemma_starting_keeps_tabs(queued);
        }
        self.start_queued_repository_loads(effects);
        if self.is_load_queued(tab_id) {
            self.wait(spot);
        }
        assert(effects@ =~= old(effects)@ + done.1);
    }

    fn start_loading(&mut self, spot: Spot, path: String, started: &'static str)
        requires
            old(self).wf(),
            old(self)@.is_place(spot),
        ensures
            final(self).wf(),
            final(self)@ == old(self)@.put(
                spot,
                TabView {
                    load_id: next_load(old(self)@.at(spot).load_id),
                    repo_path: Some(path),
                    busy: true,
                    loading: RepositoryLoading::nothing(),
                    status: started@,
                    error: None,
                    ..old(self)@.at(spot)
                },
            ),
    {
        let tab = self.tab_at(spot);
        tab.repository_load_id = next_load_id(tab.repository_load_id);
        tab.repo_path = Some(path);
        tab.busy = true;
        tab.loading = RepositoryLoading::default();
        tab.status = started.to_string();
        tab.last_error = None;
    }

    fn wait(&mut self, spot: Spot)
        requires
            old(self).wf(),
            old(self)@.is_place(spot),
        ensures
            final(self).wf(),
            final(self)@ == old(self)@.put(
                spot,
                TabView { status: "等待加载仓库"@, ..old(self)@.at(spot) },
            ),
    {
        let tab = self.tab_at(spot);
        tab.status = "等待加载仓库".to_string();
    }
}

/// The loads of one tab are taken out of the queue, and the others stay in their order.
pub proof fn lemma_loads_of_others(
    queue: Seq<RepositoryLoadRequest>,
    id: RepoTabId,
    request: RepositoryLoadRequest,
)
    ensures
        of_others(queue, id).contains(request) <==> queue.contains(request) && request.tab_id != id,
        !is_queued(queue, id) ==> of_others(queue, id) == queue,
    decreases queue.len(),
{
    if queue.len() > 0 {
        let head = queue.drop_last();
        lemma_loads_of_others(head, id, request);
        let kept = of_others(queue, id);
        let before = of_others(head, id);
        if kept.contains(request) {
            let k = choose|k: int| 0 <= k < kept.len() && kept[k] == request;
            if k < before.len() {
                assert(before[k] == request);
                let j = choose|j: int| 0 <= j < head.len() && head[j] == request;
                assert(queue[j] == request);
            } else {
                assert(queue[queue.len() - 1] == request);
            }
        }
        if queue.contains(request) && request.tab_id != id {
            let j = choose|j: int| 0 <= j < queue.len() && queue[j] == request;
            if j < head.len() {
                assert(head[j] == request);
                let k = choose|k: int| 0 <= k < before.len() && before[k] == request;
                assert(kept[k] == request);
            } else {
                assert(kept[before.len() as int] == request);
            }
        }
        if !is_queued(queue, id) {
            assert(queue[queue.len() - 1].tab_id != id);
            if is_queued(head, id) {
                let j = choose|j: int| 0 <= j < head.len() && (#[trigger] head[j]).tab_id == id;
                assert(queue[j].tab_id == id);
            }
            assert(kept =~= queue);
        }
    } else {
        assert(of_others(queue, id) =~= queue);
    }
}

/// A new load of a tab has another number than the one before it.
pub proof fn lemma_load_numbers(id: u64)
    ensures
        next_load(id) != id,
        id < u64::MAX ==> next_load(id) == id + 1,
        id == u64::MAX ==> next_load(id) == 0,
{
}

/// The first load in the queue is started if there is room and its tab is open, with its own path,
/// texts and number; one of a tab that is closed is dropped.
pub proof fn lemma_first_load_is_started(state: ViewState)
    requires
        state.loads < 2,
        state.queue.len() > 0,
    ensures
        ({
            let request = state.queue[0];
            let rest = ViewState { queue: state.queue.skip(1), ..state };
            &&& !state.has_tab(request.tab_id) ==> state.starting() == rest.starting()
            &&& state.has_tab(request.tab_id) ==> {
                &&& state.starting().1.len() > 0
                &&& state.starting().1[0] == (Effect::StartLoad {
                    tab_id: request.tab_id,
                    path: request.path,
                    started: request.started,
                    finished: request.finished,
                    load_id: state.at(state.spot(Some(request.tab_id))).load_id,
                })
                &&& state.starting().0 == (ViewState {
                    loads: (state.loads + 1) as usize,
                    ..rest
                }).starting().0
            }
        }),
{
}

/// Without room, or with nothing in the queue, no load is started.
pub proof fn lemma_no_load_is_started(state: ViewState)
    requires
        state.loads >= 2 || state.queue.len() == 0,
    ensures
        state.starting() == (state, Seq::<Effect>::empty()),
{
}

/// A tab whose repository is to be loaded has a new load number, so that what the old load brings is
/// late, and is busy. A load that was asked for by hand goes before the others, and any other goes
/// behind them; an older one of the same tab is dropped.
pub proof fn lemma_queued_load(
    state: ViewState,
    tab_id: RepoTabId,
    path: String,
    started: &'static str,
    finished: &'static str,
    priority: LoadPriority,
)
    requires
        state.wf(),
        state.has_tab(tab_id),
        state.loads >= 2,
    ensures
        ({
            let (after, effects) = state.queueing(tab_id, path, started, finished, priority);
            let spot = state.spot(Some(tab_id));
            let request = RepositoryLoadRequest { tab_id, path, started, finished };
            let others = of_others(state.queue, tab_id);
            &&& after.at(spot).load_id == next_load(state.at(spot).load_id)
            &&& after.at(spot).repo_path == Some(path)
            &&& after.at(spot).busy
            &&& after.at(spot).error is None
            &&& after.at(spot).snapshot == state.at(spot).snapshot
            &&& after.popups == Popups::none()
            &&& priority == LoadPriority::User ==> after.queue == seq![request] + others
            &&& priority == LoadPriority::Background ==> after.queue == others.push(request)
            &&& effects == state.saving()
            &&& after.tabs.len() == state.tabs.len()
            &&& after.active == state.active
        }),
{
    crate::session::view_open::lemma_place(state.tabs, tab_id, 0);
    let effects = state.queueing(tab_id, path, started, finished, priority).1;
    assert(effects =~= state.saving());
}

/// What is open is saved after it changed, but not while it is opened again.
pub proof fn lemma_saving(state: ViewState)
    ensures
        state.restoring ==> state.saving().len() == 0,
        !state.restoring ==> state.saving() == seq![Effect::SaveSession],
{
}

} // verus!
