//! Everything that the client has open.

use vstd::prelude::*;

use crate::credential_forms::{CredentialForm, FormView};
use crate::credentials::{CredentialRecord, CredentialRequest};
use crate::session::popups::Popups;
use crate::session::tab::{RepoTabId, RepoTabState, TabView};

verus! {

/// How many repositories are loaded at the same time.
pub const MAX_CONCURRENT_REPO_LOADS: usize = 2;

/// A request for a credential. The ticket stands for the one who waits for the answer.
#[derive(Debug, PartialEq, Eq)]
pub struct PendingCredential {
    pub tab_id: Option<RepoTabId>,
    pub request: CredentialRequest,
    pub ticket: u64,
}

/// A repository that waits to be loaded.
#[derive(Debug, PartialEq, Eq)]
pub struct RepositoryLoadRequest {
    pub tab_id: RepoTabId,
    pub path: String,
    pub started: &'static str,
    pub finished: &'static str,
}

#[derive(Clone, Copy, Debug, PartialEq, Eq, PartialOrd, Ord, Structural)]
pub enum LoadPriority {
    Background,
    User,
}

/// Everything that the client has open.
pub struct RepositoryView {
    pub tabs: Vec<RepoTabState>,
    pub active_tab: Option<RepoTabId>,
    pub next_tab_id: u64,
    /// What is shown while no tab is open.
    pub fallback_tab: RepoTabState,
    pub restoring_session: bool,
    pub pending_credential: Option<PendingCredential>,
    pub pending_credentials: Vec<PendingCredential>,
    /// The form for credentials: the prompt of the request that is shown, or a new credential.
    pub form: CredentialForm,
    pub repository_load_queue: Vec<RepositoryLoadRequest>,
    pub active_repository_loads: usize,
    pub popups: Popups,
    pub credential_records: Vec<CredentialRecord>,
}

/// What a [`RepositoryView`] holds.
pub struct ViewState {
    pub tabs: Seq<TabView>,
    pub active: Option<RepoTabId>,
    pub next: u64,
    pub fallback: TabView,
    pub restoring: bool,
    pub pending: Option<PendingCredential>,
    pub waiting: Seq<PendingCredential>,
    pub form: FormView,
    pub queue: Seq<RepositoryLoadRequest>,
    pub loads: usize,
    pub popups: Popups,
    pub records: Seq<CredentialRecord>,
}

pub open spec fn tab_views(tabs: Seq<RepoTabState>) -> Seq<TabView> {
    tabs.map_values(|t: RepoTabState| t@)
}

impl View for RepositoryView {
    type V = ViewState;

    open spec fn view(&self) -> ViewState {
        ViewState {
            tabs: tab_views(self.tabs@),
            active: self.active_tab,
            next: self.next_tab_id,
            fallback: self.fallback_tab@,
            restoring: self.restoring_session,
            pending: self.pending_credential,
            waiting: self.pending_credentials@,
            form: self.form@,
            queue: self.repository_load_queue@,
            loads: self.active_repository_loads,
            popups: self.popups,
            records: self.credential_records@,
        }
    }
}

/// The first tab from `from` on with the given id, or the length.
pub open spec fn tab_place(tabs: Seq<TabView>, id: RepoTabId, from: int) -> int
    decreases tabs.len() - from,
{
    if from < 0 || from >= tabs.len() {
        tabs.len() as int
    } else if tabs[from].id == id {
        from
    } else {
        tab_place(tabs, id, from + 1)
    }
}

/// Which tab something is about.
#[derive(Clone, Copy, Debug, PartialEq, Eq, Structural)]
pub enum Spot {
    Tab(usize),
    Fallback,
    Nowhere,
}

impl ViewState {
    pub open spec fn has_tab(self, id: RepoTabId) -> bool {
        tab_place(self.tabs, id, 0) < self.tabs.len()
    }

    /// The tabs are told apart by their ids, and the active one is open.
    pub open spec fn wf(self) -> bool {
        &&& self.tabs.len() <= usize::MAX
        &&& forall|i: int, j: int|
            0 <= i < j < self.tabs.len() ==> (#[trigger] self.tabs[i]).id != (
            #[trigger] self.tabs[j]).id
        &&& forall|i: int| 0 <= i < self.tabs.len() ==> 0 < (#[trigger] self.tabs[i]).id.0 < self.next
        &&& self.next >= 1
        &&& self.fallback.id.0 == 0
        &&& match self.active {
            Some(id) => self.has_tab(id),
            None => self.tabs.len() == 0,
        }
        &&& self.loads <= MAX_CONCURRENT_REPO_LOADS
    }

    /// The tab that a message is about: the given one, or the one that is shown.
    pub open spec fn spot(self, tab_id: Option<RepoTabId>) -> Spot {
        match tab_id {
            Some(id) => if self.has_tab(id) {
                Spot::Tab(tab_place(self.tabs, id, 0) as usize)
            } else {
                Spot::Nowhere
            },
            None => match self.active {
                Some(id) => if self.has_tab(id) {
                    Spot::Tab(tab_place(self.tabs, id, 0) as usize)
                } else {
                    Spot::Fallback
                },
                None => Spot::Fallback,
            },
        }
    }

    pub open spec fn is_place(self, spot: Spot) -> bool {
        match spot {
            Spot::Tab(i) => i < self.tabs.len(),
            Spot::Fallback => true,
            Spot::Nowhere => false,
        }
    }

    pub open spec fn at(self, spot: Spot) -> TabView {
        match spot {
            Spot::Tab(i) => self.tabs[i as int],
            _ => self.fallback,
        }
    }

    pub open spec fn put(self, spot: Spot, tab: TabView) -> Self {
        match spot {
            Spot::Tab(i) => ViewState { tabs: self.tabs.update(i as int, tab), ..self },
            Spot::Fallback => ViewState { fallback: tab, ..self },
            Spot::Nowhere => self,
        }
    }

    /// The tab that is shown.
    pub open spec fn current(self) -> TabView {
        self.at(self.spot(None))
    }
}

/// Putting a tab in the place of one with its id keeps the tabs in order.
proof fn lemma_tab_put(view: RepositoryView, i: int, tab: RepoTabState)
    requires
        view.wf(),
        0 <= i < view.tabs@.len(),
    ensures
        tab_views(view.tabs@.update(i, tab)) == view@.tabs.update(i, tab@),
        tab.id == view.tabs@[i].id ==> view@.put(Spot::Tab(i as usize), tab@).wf(),
{
    assert(tab_views(view.tabs@.update(i, tab)) =~= view@.tabs.update(i, tab@));
    if tab.id == view.tabs@[i].id {
        let before = view@.tabs;
        let after = before.update(i, tab@);
        assert(before[i].id == tab@.id);
        assert forall|k: int| 0 <= k < after.len() implies (#[trigger] after[k]).id == before[k].id by {}
        assert forall|a: int, b: int| 0 <= a < b < after.len() implies (#[trigger] after[a]).id != (
        #[trigger] after[b]).id by {
            assert(before[a].id != before[b].id);
        }
        if view.active_tab is Some {
            lemma_same_ids(view@.tabs, after, view.active_tab->0, 0);
        }
    }
}

/// Tabs with the same ids are found in the same places.
pub proof fn lemma_same_ids(a: Seq<TabView>, b: Seq<TabView>, id: RepoTabId, from: int)
    requires
        a.len() == b.len(),
        0 <= from <= a.len(),
        forall|i: int| 0 <= i < a.len() ==> (#[trigger] a[i]).id == (#[trigger] b[i]).id,
    ensures
        tab_place(a, id, from) == tab_place(b, id, from),
    decreases a.len() - from,
{
    if from < a.len() && a[from].id != id {
        lemma_same_ids(a, b, id, from + 1);
    }
}

impl RepositoryView {
    pub open spec fn wf(self) -> bool {
        &&& self@.wf()
        &&& self.fallback_tab.wf()
        &&& forall|i: int| 0 <= i < self.tabs@.len() ==> (#[trigger] self.tabs@[i]).wf()
    }

    pub(crate) fn find_tab(&self, id: RepoTabId) -> (r: usize)
        ensures
            r == tab_place(self@.tabs, id, 0),
            r <= self.tabs@.len(),
    {
        let mut i: usize = 0;
        while i < self.tabs.len()
            invariant
                i <= self.tabs@.len(),
                tab_place(self@.tabs, id, 0) == tab_place(self@.tabs, id, i as int),
            decreases self.tabs@.len() - i,
        {
            if self.tabs[i].id == id {
                return i;
            }
            i = i + 1;
        }
        i
    }

    pub(crate) fn spot(&self, tab_id: Option<RepoTabId>) -> (r: Spot)
        ensures
            r == self@.spot(tab_id),
            r is Tab ==> self@.is_place(r),
            tab_id is None ==> self@.is_place(r),
    {
        match tab_id {
            Some(id) => {
                let i: usize = self.find_tab(id);
                if i < self.tabs.len() {
                    Spot::Tab(i)
                } else {
                    Spot::Nowhere
                }
            },
            None => match self.active_tab {
                Some(id) => {
                    let i: usize = self.find_tab(id);
                    if i < self.tabs.len() {
                        Spot::Tab(i)
                    } else {
                        Spot::Fallback
                    }
                },
                None => Spot::Fallback,
            },
        }
    }

    /// The id of the tab that is shown.
    pub(crate) fn shown_id(&self) -> (r: RepoTabId)
        ensures
            r == self@.current().id,
    {
        match self.spot(None) {
            Spot::Tab(i) => self.tabs[i].id,
            _ => self.fallback_tab.id,
        }
    }

    pub(crate) fn tab_at(&mut self, spot: Spot) -> (r: &mut RepoTabState)
        requires
            old(self).wf(),
            old(self)@.is_place(spot),
        ensures
            r.wf(),
            r@ == old(self)@.at(spot),
            final(self)@ == old(self)@.put(spot, final(r)@),
            final(r).wf() && final(r).id == r.id ==> final(self).wf(),
    {
        match spot {
            Spot::Tab(i) => {
                let r = &mut self.tabs[i];
                proof {
                    lemma_tab_put(*old(self), i as int, *final(r));
                }
                r
            },
            _ => &mut self.fallback_tab,
        }
    }
}

// ---------------------------------------------------------------------------
// Laws
// ---------------------------------------------------------------------------
/// What one sees of the window is what it holds.
pub proof fn lemma_window_is_what_is_seen(view: RepositoryView, i: int)
    ensures
        view@.tabs.len() == view.tabs@.len(),
        0 <= i < view.tabs@.len() ==> view@.tabs[i] == view.tabs@[i]@,
        view@.active == view.active_tab,
        view@.next == view.next_tab_id,
        view@.fallback == view.fallback_tab@,
        view@.restoring == view.restoring_session,
        view@.pending == view.pending_credential,
        view@.waiting == view.pending_credentials@,
        view@.form == view.form@,
        view@.queue == view.repository_load_queue@,
        view@.loads == view.active_repository_loads,
        view@.popups == view.popups,
        view@.records == view.credential_records@,
{
}

/// A tab is where its number is, and a number that no tab has is nowhere. Without a number the tab
/// that is shown is meant, and what stands in for one while none is open.
pub proof fn lemma_spots(state: ViewState, id: RepoTabId)
    requires
        state.tabs.len() <= usize::MAX,
    ensures
        match state.spot(Some(id)) {
            Spot::Tab(i) => i < state.tabs.len() && state.tabs[i as int].id == id && forall|j: int|
                0 <= j < i ==> (#[trigger] state.tabs[j]).id != id,
            Spot::Nowhere => forall|j: int|
                0 <= j < state.tabs.len() ==> (#[trigger] state.tabs[j]).id != id,
            Spot::Fallback => false,
        },
        state.active is None ==> state.spot(None) is Fallback,
        state.active == Some(id) && state.spot(Some(id)) is Tab ==> state.spot(None) == state.spot(
            Some(id),
        ),
        state.active == Some(id) && state.spot(Some(id)) is Nowhere ==> state.spot(None)
            is Fallback,
        state.has_tab(id) <==> exists|j: int|
            0 <= j < state.tabs.len() && (#[trigger] state.tabs[j]).id == id,
{
    lemma_first_tab(state.tabs, id, 0);
}

proof fn lemma_first_tab(tabs: Seq<TabView>, id: RepoTabId, from: int)
    requires
        0 <= from <= tabs.len(),
    ensures
        from <= tab_place(tabs, id, from) <= tabs.len(),
        tab_place(tabs, id, from) < tabs.len() ==> tabs[tab_place(tabs, id, from)].id == id,
        forall|i: int| from <= i < tab_place(tabs, id, from) ==> (#[trigger] tabs[i]).id != id,
    decreases tabs.len() - from,
{
    if from < tabs.len() && tabs[from].id != id {
        lemma_first_tab(tabs, id, from + 1);
    }
}

/// What is put somewhere is found there, everything else stays where it is, and what is put nowhere
/// changes nothing.
pub proof fn lemma_put_is_found(state: ViewState, spot: Spot, tab: TabView, other: int)
    requires
        state.is_place(spot) || spot is Nowhere,
    ensures
        state.is_place(spot) ==> state.put(spot, tab).at(spot) == tab,
        spot is Nowhere ==> state.put(spot, tab) == state,
        state.put(spot, tab).tabs.len() == state.tabs.len(),
        0 <= other < state.tabs.len() && !(spot matches Spot::Tab(i) && i == other) ==> state.put(
            spot,
            tab,
        ).tabs[other] == state.tabs[other],
        !(spot is Fallback) ==> state.put(spot, tab).fallback == state.fallback,
        ({
            let after = state.put(spot, tab);
            &&& after.active == state.active && after.next == state.next && after.queue
                == state.queue
            &&& after.pending == state.pending && after.waiting == state.waiting && after.popups
                == state.popups
            &&& after.loads == state.loads && after.records == state.records
        }),
{
}

} // verus!
