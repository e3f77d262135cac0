//! Closing tabs, and the requests for credentials.

use vstd::prelude::*;

use crate::credential_forms::{prompt_for_request, CredentialForm};
use crate::credentials::CredentialRequest;
use crate::session::effects::Effect;
use crate::session::tab::{RepoTabId, TabView};
use crate::session::view::{PendingCredential, RepositoryView, Spot, ViewState, tab_place};
use crate::session::view_open::{declined, lemma_found, lemma_place, next_live, waiting_for_others};

verus! {

impl RepositoryView {
    fn prepare_current_credential_prompt(&mut self)
        requires
            old(self).wf(),
        ensures
            final(self).wf(),
            final(self)@ == old(self)@.prompting(),
    {
        match &self.pending_credential {
            Some(pending) => {
                let form: CredentialForm = prompt_for_request(&pending.request);
                self.form = form;
            },
            None => {},
        }
    }

    /// Shows the next request for a credential whose tab is still open.
    pub fn show_next_credential_request(&mut self)
        requires
            old(self).wf(),
        ensures
            final(self).wf(),
            final(self)@ == old(self)@.showing_next(),
    {
        let ghost first = self@;
        let ghost mut n: int = 0;
        self.pending_credential = None;
        assert(first.waiting.skip(0) =~= first.waiting);
        while self.pending_credentials.len() > 0
            invariant_except_break
                next_live(first, 0) == next_live(first, n),
                0 <= n <= first.waiting.len(),
                n == first.waiting.len() ==> first.waiting.skip(n) =~= Seq::empty(),
                self.pending_credentials@ == first.waiting.skip(n),
                self.wf(),
                self@ == (ViewState {
                    pending: None,
                    waiting: first.waiting.skip(n),
                    ..first
                }),
            ensures
                self.wf(),
                self@ == first.showing_next(),
            decreases self.pending_credentials@.len(),
        {
            let pending: PendingCredential = self.pending_credentials.remove(0);
            let live: bool = match pending.tab_id {
                Some(id) => self.find_tab(id) < self.tabs.len(),
                None => true,
            };
            proof {
                assert(pending == first.waiting[n]);
                assert(self.pending_credentials@ =~= first.waiting.skip(n + 1));
            }
            if live {
                self.pending_credential = Some(pending);
                assert(next_live(first, 0) == n);
                self.prepare_current_credential_prompt();
                break ;
            }
            proof {
                n = n + 1;
            }
        }
    }

    /// Shows a request for a credential, or lets it wait.
    pub fn enqueue_credential_request(&mut self, pending: PendingCredential)
        requires
            old(self).wf(),
        ensures
            final(self).wf(),
            final(self)@ == old(self)@.enqueued(pending),
    {
        let gone: bool = match pending.tab_id {
            Some(id) => self.find_tab(id) >= self.tabs.len(),
            None => false,
        };
        if gone {
            return ;
        }
        if self.pending_credential.is_none() {
            self.pending_credential = Some(pending);
        } else {
            self.pending_credentials.push(pending);
        }
    }

    /// A request for a credential comes in: it is declined if its tab is gone.
    pub fn credential_requested(
        &mut self,
        tab_id: Option<RepoTabId>,
        request: CredentialRequest,
        ticket: u64,
        effects: &mut Vec<Effect>,
    )
        requires
            old(self).wf(),
        ensures
            final(self).wf(),
            final(self)@ == old(self)@.requesting(tab_id, request, ticket).0,
            final(effects)@ == old(effects)@ + old(self)@.requesting(tab_id, request, ticket).1,
    {
        let spot: Spot = self.spot(tab_id);
        let ghost done = self@.requesting(tab_id, request, ticket);
        if spot == Spot::Nowhere {
            effects.push(Effect::DeclineCredential { ticket });
            assert(effects@ =~= old(effects)@ + done.1);
            return ;
        }
        self.say(spot, "需要凭据");
        proof {
            if tab_id is Some {
                crate::session::view::lemma_same_ids(
                    old(self)@.tabs,
                    self@.tabs,
                    tab_id->0,
                    0,
                );
            }
        }
        self.enqueue_credential_request(PendingCredential { tab_id, request, ticket });
        self.prepare_current_credential_prompt();
        assert(effects@ =~= old(effects)@ + done.1);
    }

    pub(crate) fn say(&mut self, spot: Spot, message: &str)
        requires
            old(self).wf(),
            old(self)@.is_place(spot),
        ensures
            final(self).wf(),
            final(self)@ == old(self)@.put(
                spot,
                TabView { status: message@, ..old(self)@.at(spot) },
            ),
            old(self)@.tabs.len() == final(self)@.tabs.len(),
            forall|i: int|
                0 <= i < old(self)@.tabs.len() ==> (#[trigger] old(self)@.tabs[i]).id == (
                #[trigger] final(self)@.tabs[i]).id,
    {
        let tab = self.tab_at(spot);
        tab.status = message.to_string();
    }

    fn decline_waiting(&mut self, id: RepoTabId, effects: &mut Vec<Effect>)
        requires
            old(self).wf(),
        ensures
            final(self).wf(),
            final(self)@ == (ViewState {
                waiting: waiting_for_others(old(self)@.waiting, id),
                ..old(self)@
            }),
            final(effects)@ == old(effects)@ + declined(old(self)@.waiting, id),
    {
        let mut left: Vec<PendingCredential> = Vec::new();
        let mut waiting: Vec<PendingCredential> = Vec::new();
        core::mem::swap(&mut waiting, &mut self.pending_credentials);
        let ghost all = waiting@;
        let ghost mut n: int = 0;
        assert(all.take(0) =~= Seq::<PendingCredential>::empty());
        assert(all.skip(0) =~= all);
        assert(effects@ =~= old(effects)@ + declined(all.take(0), id));
        while waiting.len() > 0
            invariant
                0 <= n <= all.len(),
                waiting@ == all.skip(n),
                left@ == waiting_for_others(all.take(n), id),
                effects@ == old(effects)@ + declined(all.take(n), id),
            decreases waiting@.len(),
        {
            let pending: PendingCredential = waiting.remove(0);
            let ghost so_far = declined(all.take(n), id);
            proof {
                assert(pending == all[n]);
                assert(all.take(n + 1).drop_last() =~= all.take(n));
                assert(waiting@ =~= all.skip(n + 1));
                n = n + 1;
            }
            let own: bool = match pending.tab_id {
                Some(tab) => tab == id,
                None => false,
            };
            if own {
                let effect = Effect::DeclineCredential { ticket: pending.ticket };
                effects.push(effect);
                assert(effects@ =~= old(effects)@ + so_far.push(effect));
            } else {
                left.push(pending);
            }
        }
        assert(all.take(n) =~= all);
        self.pending_credentials = left;
    }

    /// Closes a tab: its requests are declined, its load is given up, and its neighbour is shown.
    pub fn close_tab(&mut self, id: RepoTabId, effects: &mut Vec<Effect>)
        requires
            old(self).wf(),
        ensures
            final(self).wf(),
            final(self)@ == old(self)@.closing(id).0,
            final(effects)@ == old(effects)@ + old(self)@.closing(id).1,
    {
        let at: usize = self.find_tab(id);
        let ghost done = self@.closing(id);
        if at >= self.tabs.len() {
            assert(effects@ =~= old(effects)@ + Seq::<Effect>::empty());
            return ;
        }
        let asked: bool = match &self.pending_credential {
            Some(pending) => match pending.tab_id {
                Some(tab) => tab == id,
                None => false,
            },
            None => false,
        };
        let shown: bool = match self.active_tab {
            Some(active) => active == id,
            None => false,
        };
        let ghost first = *self;
        self.popups.close_popups();
        self.take_out(at, id);
        self.decline_waiting(id, effects);
        self.drop_requests(id);
        if asked {
            match &self.pending_credential {
                Some(pending) => {
                    effects.push(Effect::DeclineCredential { ticket: pending.ticket });
                },
                None => {},
            }
            self.show_next_credential_request();
        }
        self.save_session(effects);
        assert(effects@ =~= old(effects)@ + done.1);
    }

    /// Takes a tab out of the list. If it was shown, its neighbour is.
    fn take_out(&mut self, at: usize, id: RepoTabId)
        requires
            old(self).wf(),
            at == tab_place(old(self)@.tabs, id, 0),
            at < old(self)@.tabs.len(),
        ensures
            final(self).wf(),
            final(self)@ == (ViewState {
                tabs: old(self)@.tabs.remove(at as int),
                active: if old(self)@.active == Some(id) {
                    ViewState::neighbour(old(self)@.tabs.remove(at as int), at as int)
                } else {
                    old(self)@.active
                },
                ..old(self)@
            }),
    {
        let ghost first = *self;
        let ghost before = self@.tabs;
        let shown: bool = match self.active_tab {
            Some(active) => active == id,
            None => false,
        };
        self.tabs.remove(at);
        proof {
            assert(self@.tabs =~= before.remove(at as int));
            lemma_place(before, id, 0);
        }
        if shown {
            self.active_tab = if at < self.tabs.len() {
                Some(self.tabs[at].id)
            } else if at > 0 {
                Some(self.tabs[at - 1].id)
            } else {
                None
            };
        }
        proof {
            let after = self@.tabs;
            assert forall|i: int| 0 <= i < after.len() implies 0 < (#[trigger] after[i]).id.0
                < first@.next && after[i].id != id by {
                let k = if i < at {
                    i
                } else {
                    i + 1
                };
                assert(after[i] == before[k]);
                assert(before[k].id != before[at as int].id);
            }
            assert forall|i: int, j: int| 0 <= i < j < after.len() implies (#[trigger] after[i]).id
                != (#[trigger] after[j]).id by {
                let x = if i < at {
                    i
                } else {
                    i + 1
                };
                let y = if j < at {
                    j
                } else {
                    j + 1
                };
                assert(after[i] == before[x]);
                assert(after[j] == before[y]);
            }
            assert forall|i: int| 0 <= i < self.tabs@.len() implies (#[trigger] self.tabs@[i]).wf() by {
                let k = if i < at {
                    i
                } else {
                    i + 1
                };
                assert(self.tabs@[i] == first.tabs@[k]);
            }
            if shown {
                if at < after.len() {
                    lemma_found(after, at as int);
                } else if at > 0 {
                    lemma_found(after, at - 1);
                }
            } else if first.active_tab is Some {
                let active = first.active_tab->0;
                lemma_place(before, active, 0);
                let p = tab_place(before, active, 0);
                let q = if p < at {
                    p
                } else {
                    p - 1
                };
                assert(after[q] == before[p]);
                lemma_found(after, q);
            }
        }
    }

    /// Gives up the request that is shown: the next one is shown. The caller gets the ticket, and
    /// answers the one who waits.
    pub fn cancel_credential_request(&mut self) -> (ticket: Option<u64>)
        requires
            old(self).wf(),
        ensures
            final(self).wf(),
            match old(self)@.pending {
                None => ticket is None && final(self)@ == old(self)@,
                Some(pending) => ticket == Some(pending.ticket) && final(self)@ == old(
                    self)@.answered("凭据输入已取消"@),
            },
    {
        self.answer_credential_request("凭据输入已取消")
    }

    /// Goes on after the request that is shown was answered.
    pub fn answer_credential_request(&mut self, message: &str) -> (ticket: Option<u64>)
        requires
            old(self).wf(),
        ensures
            final(self).wf(),
            match old(self)@.pending {
                None => ticket is None && final(self)@ == old(self)@,
                Some(pending) => ticket == Some(pending.ticket) && final(self)@ == old(
                    self)@.answered(message@),
            },
    {
        let (tab_id, ticket): (Option<RepoTabId>, u64) = match &self.pending_credential {
            Some(pending) => (pending.tab_id, pending.ticket),
            None => {
                return None;
            },
        };
        self.show_next_credential_request();
        let spot: Spot = self.spot(tab_id);
        if spot != Spot::Nowhere {
            let tab = self.tab_at(spot);
            tab.status = message.to_string();
            tab.last_error = None;
        }
        Some(ticket)
    }
}

impl ViewState {
    /// A request for a credential has come in.
    pub open spec fn requesting(
        self,
        tab_id: Option<RepoTabId>,
        request: CredentialRequest,
        ticket: u64,
    ) -> (Self, Seq<Effect>) {
        let spot = self.spot(tab_id);
        if spot == Spot::Nowhere {
            (self, seq![Effect::DeclineCredential { ticket }])
        } else {
            let told = self.put(spot, TabView { status: "需要凭据"@, ..self.at(spot) });
            (
                told.enqueued(PendingCredential { tab_id, request, ticket }).prompting(),
                Seq::empty(),
            )
        }
    }

    /// The request that was shown is answered: the next one is shown, and the tab goes on.
    pub open spec fn answered(self, message: Seq<char>) -> Self {
        let next = self.showing_next();
        let spot = next.spot(self.pending->0.tab_id);
        next.put(spot, TabView { status: message, error: None, ..next.at(spot) })
    }
}

/// A request of a tab that is closed is declined at once. Any other is shown in its tab and asked, or
/// waits for its turn; it is declined by nobody.
pub proof fn lemma_requests_are_asked(
    state: ViewState,
    tab_id: Option<RepoTabId>,
    request: CredentialRequest,
    ticket: u64,
)
    requires
        state.wf(),
    ensures
        ({
            let (after, effects) = state.requesting(tab_id, request, ticket);
            let there = tab_id is None || state.has_tab(tab_id->0);
            let asked = PendingCredential { tab_id, request, ticket };
            &&& !there ==> after == state && effects.len() == 1 && effects[0] == (
            Effect::DeclineCredential { ticket })
            &&& there ==> effects.len() == 0
            &&& there && state.pending is None ==> after.pending == Some(asked) && after.form
                == crate::credential_forms::prompt_form(request)
            &&& there && state.pending is Some ==> after.pending == state.pending && after.waiting
                == state.waiting.push(asked)
        }),
{
    if let Some(id) = tab_id {
        let told = state.put(
            state.spot(tab_id),
            TabView { status: "需要凭据"@, ..state.at(state.spot(tab_id)) },
        );
        if state.has_tab(id) {
            crate::session::view_open::lemma_place(state.tabs, id, 0);
            crate::session::view::lemma_same_ids(state.tabs, told.tabs, id, 0);
        }
    }
}

/// A request that was answered is gone, the next one is asked, and its tab says what became of it.
pub proof fn lemma_answered_requests(state: ViewState, message: Seq<char>)
    requires
        state.wf(),
        state.pending is Some,
    ensures
        ({
            let after = state.answered(message);
            let spot = state.spot(state.pending->0.tab_id);
            &&& after.pending == state.showing_next().pending
            &&& after.waiting == state.showing_next().waiting
            &&& state.is_place(spot) ==> after.at(spot).status == message && after.at(
                spot,
            ).error is None
            &&& after.active == state.active
            &&& after.queue == state.queue
        }),
{
}

/// A request that is asked fills the form with what it says.
pub proof fn lemma_prompts(state: ViewState)
    ensures
        match state.pending {
            Some(pending) => state.prompting().form == crate::credential_forms::prompt_form(
                pending.request,
            ),
            None => state.prompting() == state,
        },
        state.prompting().pending == state.pending,
        state.prompting().tabs == state.tabs,
{
}

} // verus!
