//! What happens to everything that is open when something is reported.

use vstd::prelude::*;

use crate::credentials::CredentialRecord;
use crate::session::effects::Effect;
use crate::session::events::UiEvent;
use crate::session::tab::{RepoTabId, TabView, opt_state, state_of};
use crate::session::view::{RepositoryView, Spot, ViewState};

verus! {

impl ViewState {
    /// One tab changes, and something is to be done.
    pub open spec fn changing(self, spot: Spot, change: (TabView, Seq<Effect>)) -> (
        Self,
        Seq<Effect>,
    ) {
        if self.is_place(spot) {
            (self.put(spot, change.0), change.1)
        } else {
            (self, Seq::empty())
        }
    }

    /// One tab changes, and nothing is to be done.
    pub open spec fn quietly(self, spot: Spot, tab: TabView) -> (Self, Seq<Effect>) {
        self.changing(spot, (tab, Seq::empty()))
    }

    /// A load has ended: another one may start.
    pub open spec fn load_ended(self, tab_id: RepoTabId, load_id: u64) -> (Self, Seq<Effect>) {
        let spot = self.spot(Some(tab_id));
        let fewer = ViewState {
            loads: if self.loads > 0 {
                (self.loads - 1) as usize
            } else {
                0
            },
            ..self
        };
        let freed = if self.is_place(spot) && self.at(spot).load_id == load_id {
            fewer.put(spot, TabView { busy: false, ..self.at(spot) })
        } else {
            fewer
        };
        freed.starting()
    }

    pub open spec fn records_loaded(self, records: Seq<CredentialRecord>, message: Seq<char>) -> Self {
        let spot = self.spot(None);
        ViewState {
            records,
            ..self.put(
                spot,
                TabView { busy: false, status: message, error: None, ..self.at(spot) },
            )
        }
    }

    /// What an event makes of everything that is open, and what is to be done.
    pub open spec fn after(self, event: UiEvent) -> (Self, Seq<Effect>) {
        match event {
            UiEvent::OperationStarted { tab_id, message } => {
                let spot = self.spot(tab_id);
                self.quietly(spot, self.at(spot).on_started(message@))
            },
            UiEvent::OperationProgress { tab_id, message } => {
                let spot = self.spot(tab_id);
                self.quietly(spot, self.at(spot).on_progress(message@))
            },
            UiEvent::RepositoryFastLoaded { tab_id, message, snapshot, load_id } => {
                let spot = self.spot(Some(tab_id));
                self.changing(
                    spot,
                    self.at(spot).on_fast(message@, state_of(snapshot), load_id),
                )
            },
            UiEvent::RepositoryMetadataLoaded { tab_id, message, snapshot, load_id } => {
                let spot = self.spot(Some(tab_id));
                self.changing(
                    spot,
                    self.at(spot).on_metadata(message@, state_of(snapshot), load_id),
                )
            },
            UiEvent::RepositoryStatusFastLoaded { tab_id, message, changes, load_id } => {
                let spot = self.spot(Some(tab_id));
                self.quietly(spot, self.at(spot).on_status_fast(message@, changes@, load_id))
            },
            UiEvent::RepositoryStatusFullLoaded { tab_id, message, changes, load_id } => {
                let spot = self.spot(Some(tab_id));
                self.quietly(spot, self.at(spot).on_status_full(message@, changes@, load_id))
            },
            UiEvent::RepositoryLoadStageFailed { tab_id, error, load_id } => {
                let spot = self.spot(Some(tab_id));
                self.quietly(spot, self.at(spot).on_stage_failed(error@, load_id))
            },
            UiEvent::RepositoryLoadFinished { tab_id, load_id } => self.load_ended(
                tab_id,
                load_id,
            ),
            UiEvent::OperationFinished { tab_id, message, snapshot, diff } => {
                let spot = self.spot(tab_id);
                self.changing(
                    spot,
                    self.at(spot).on_finished(
                        message@,
                        opt_state(snapshot),
                        diff,
                        tab_id is Some,
                    ),
                )
            },
            UiEvent::DiscardChangeFinished { tab_id, message, snapshot, changes, load_id } => {
                let spot = self.spot(Some(tab_id));
                self.changing(
                    spot,
                    self.at(spot).on_discarded(message@, state_of(snapshot), changes@, load_id),
                )
            },
            UiEvent::HistoryCommitsLoaded {
                tab_id,
                commits,
                append,
                has_more,
                scope,
                load_id,
            } => {
                let spot = self.spot(Some(tab_id));
                self.changing(
                    spot,
                    self.at(spot).on_commits(commits@, append, has_more, scope, load_id),
                )
            },
            UiEvent::HistoryFilesLoaded { tab_id, commit_oid, files, load_id } => {
                let spot = self.spot(Some(tab_id));
                self.changing(spot, self.at(spot).on_files(commit_oid@, files@, load_id))
            },
            UiEvent::HistoryDiffLoaded { tab_id, commit_oid, path, diff, load_id } => {
                let spot = self.spot(Some(tab_id));
                self.changing(spot, self.at(spot).on_diff(commit_oid@, path@, diff, load_id))
            },
            UiEvent::HistoryLoadFailed { tab_id, error, load_id } => {
                let spot = self.spot(Some(tab_id));
                self.quietly(spot, self.at(spot).on_history_failed(error@, load_id))
            },
            UiEvent::OperationFailed { tab_id, error } => {
                let spot = self.spot(tab_id);
                self.quietly(spot, self.at(spot).on_failed(error@))
            },
            UiEvent::CredentialRecordsLoaded { records, message } => (
                self.records_loaded(records@, message@),
                Seq::empty(),
            ),
            UiEvent::CredentialRequested { tab_id, request, ticket } => self.requesting(
                tab_id,
                request,
                ticket,
            ),
        }
    }
}

/// What is reported about a tab that is closed changes nothing and asks for nothing, except that
/// its load has ended.
pub proof fn lemma_closed_tabs_hear_nothing(state: ViewState, tab_id: RepoTabId, event: UiEvent)
    requires
        !state.has_tab(tab_id),
        match event {
            UiEvent::OperationStarted { tab_id: t, .. } => t == Some(tab_id),
            UiEvent::OperationProgress { tab_id: t, .. } => t == Some(tab_id),
            UiEvent::OperationFinished { tab_id: t, .. } => t == Some(tab_id),
            UiEvent::OperationFailed { tab_id: t, .. } => t == Some(tab_id),
            UiEvent::RepositoryFastLoaded { tab_id: t, .. } => t == tab_id,
            UiEvent::RepositoryMetadataLoaded { tab_id: t, .. } => t == tab_id,
            UiEvent::RepositoryStatusFastLoaded { tab_id: t, .. } => t == tab_id,
            UiEvent::RepositoryStatusFullLoaded { tab_id: t, .. } => t == tab_id,
            UiEvent::RepositoryLoadStageFailed { tab_id: t, .. } => t == tab_id,
            UiEvent::DiscardChangeFinished { tab_id: t, .. } => t == tab_id,
            UiEvent::HistoryCommitsLoaded { tab_id: t, .. } => t == tab_id,
            UiEvent::HistoryFilesLoaded { tab_id: t, .. } => t == tab_id,
            UiEvent::HistoryDiffLoaded { tab_id: t, .. } => t == tab_id,
            UiEvent::HistoryLoadFailed { tab_id: t, .. } => t == tab_id,
            _ => false,
        },
    ensures
        state.after(event) == (state, Seq::<Effect>::empty()),
{
}

/// What is reported about one tab leaves the others as they are.
pub proof fn lemma_other_tabs_are_left_alone(
    state: ViewState,
    spot: Spot,
    change: (TabView, Seq<Effect>),
    other: int,
)
    requires
        state.is_place(spot),
        0 <= other < state.tabs.len(),
        spot != Spot::Tab(other as usize),
        state.tabs.len() <= usize::MAX,
    ensures
        state.changing(spot, change).0.tabs.len() == state.tabs.len(),
        state.changing(spot, change).0.tabs[other] == state.tabs[other],
        state.changing(spot, change).0.active == state.active,
{
}

impl RepositoryView {
    fn load_finished(&mut self, tab_id: RepoTabId, load_id: u64, effects: &mut Vec<Effect>)
        requires
            old(self).wf(),
        ensures
            final(self).wf(),
            final(self)@ == old(self)@.load_ended(tab_id, load_id).0,
            final(effects)@ == old(effects)@ + old(self)@.load_ended(tab_id, load_id).1,
    {
        let spot: Spot = self.spot(Some(tab_id));
        if self.active_repository_loads > 0 {
            self.active_repository_loads = self.active_repository_loads - 1;
        }
        if spot != Spot::Nowhere {
            let tab = self.tab_at(spot);
            if tab.repository_load_id == load_id {
                tab.busy = false;
            }
        }
        proof {
            let state = old(self)@;
            if state.is_place(spot) && state.at(spot).load_id != load_id {
                assert(state.tabs.update(spot->0 as int, state.at(spot)) =~= state.tabs);
            }
        }
        self.start_queued_repository_loads(effects);
    }

    fn take_records(&mut self, records: Vec<CredentialRecord>, message: String)
        requires
            old(self).wf(),
        ensures
            final(self).wf(),
            final(self)@ == old(self)@.records_loaded(records@, message@),
    {
        let spot: Spot = self.spot(None);
        self.credential_records = records;
        let tab = self.tab_at(spot);
        tab.busy = false;
        tab.status = message;
        tab.last_error = None;
    }

    /// Takes in what is reported. What is to be done outside goes to `effects`.
    pub fn handle_ui_event(&mut self, event: UiEvent, effects: &mut Vec<Effect>)
        requires
            old(self).wf(),
        ensures
            final(self).wf(),
            final(self)@ == old(self)@.after(event).0,
            final(effects)@ == old(effects)@ + old(self)@.after(event).1,
    {
        let ghost done = self@.after(event);
        match event {
            UiEvent::OperationStarted { tab_id, message } => {
                let spot: Spot = self.spot(tab_id);
                if spot != Spot::Nowhere {
                    let tab = self.tab_at(spot);
                    tab.operation_started(message);
                }
            },
            UiEvent::OperationProgress { tab_id, message } => {
                let spot: Spot = self.spot(tab_id);
                if spot != Spot::Nowhere {
                    let tab = self.tab_at(spot);
                    tab.operation_progress(message);
                }
            },
            UiEvent::RepositoryFastLoaded { tab_id, message, snapshot, load_id } => {
                let spot: Spot = self.spot(Some(tab_id));
                if spot != Spot::Nowhere {
                    let tab = self.tab_at(spot);
                    tab.repository_fast_loaded(message, snapshot, load_id, effects);
                }
            },
            UiEvent::RepositoryMetadataLoaded { tab_id, message, snapshot, load_id } => {
                let spot: Spot = self.spot(Some(tab_id));
                if spot != Spot::Nowhere {
                    let tab = self.tab_at(spot);
                    tab.repository_metadata_loaded(message, snapshot, load_id, effects);
                }
            },
            UiEvent::RepositoryStatusFastLoaded { tab_id, message, changes, load_id } => {
                let spot: Spot = self.spot(Some(tab_id));
                if spot != Spot::Nowhere {
                    let tab = self.tab_at(spot);
                    tab.repository_status_fast_loaded(message, changes, load_id);
                }
            },
            UiEvent::RepositoryStatusFullLoaded { tab_id, message, changes, load_id } => {
                let spot: Spot = self.spot(Some(tab_id));
                if spot != Spot::Nowhere {
                    let tab = self.tab_at(spot);
                    tab.repository_status_full_loaded(message, changes, load_id);
                }
            },
            UiEvent::RepositoryLoadStageFailed { tab_id, error, load_id } => {
                let spot: Spot = self.spot(Some(tab_id));
                if spot != Spot::Nowhere {
                    let tab = self.tab_at(spot);
                    tab.repository_load_stage_failed(error, load_id);
                }
            },
            UiEvent::RepositoryLoadFinished { tab_id, load_id } => {
                self.load_finished(tab_id, load_id, effects);
            },
            UiEvent::OperationFinished { tab_id, message, snapshot, diff } => {
                let spot: Spot = self.spot(tab_id);
                if spot != Spot::Nowhere {
                    let own: bool = tab_id.is_some();
                    let tab = self.tab_at(spot);
                    tab.operation_finished(message, snapshot, diff, own, effects);
                }
            },
            UiEvent::DiscardChangeFinished { tab_id, message, snapshot, changes, load_id } => {
                let spot: Spot = self.spot(Some(tab_id));
                if spot != Spot::Nowhere {
                    let tab = self.tab_at(spot);
                    tab.discard_change_finished(message, snapshot, changes, load_id, effects);
                }
            },
            UiEvent::HistoryCommitsLoaded {
                tab_id,
                commits,
                append,
                has_more,
                scope,
                load_id,
            } => {
                let spot: Spot = self.spot(Some(tab_id));
                if spot != Spot::Nowhere {
                    let tab = self.tab_at(spot);
                    tab.history_commits_loaded(commits, append, has_more, scope, load_id, effects);
                }
            },
            UiEvent::HistoryFilesLoaded { tab_id, commit_oid, files, load_id } => {
                let spot: Spot = self.spot(Some(tab_id));
                if spot != Spot::Nowhere {
                    let tab = self.tab_at(spot);
                    tab.history_files_loaded(commit_oid.as_str(), files, load_id, effects);
                }
            },
            UiEvent::HistoryDiffLoaded { tab_id, commit_oid, path, diff, load_id } => {
                let spot: Spot = self.spot(Some(tab_id));
                if spot != Spot::Nowhere {
                    let tab = self.tab_at(spot);
                    tab.history_diff_loaded(
                        commit_oid.as_str(),
                        path.as_str(),
                        diff,
                        load_id,
                        effects,
                    );
                }
            },
            UiEvent::HistoryLoadFailed { tab_id, error, load_id } => {
                let spot: Spot = self.spot(Some(tab_id));
                if spot != Spot::Nowhere {
                    let tab = self.tab_at(spot);
                    tab.history_load_failed(error, load_id);
                }
            },
            UiEvent::OperationFailed { tab_id, error } => {
                let spot: Spot = self.spot(tab_id);
                if spot != Spot::Nowhere {
                    let tab = self.tab_at(spot);
                    tab.operation_failed(error);
                }
            },
            UiEvent::CredentialRecordsLoaded { records, message } => {
                self.take_records(records, message);
            },
            UiEvent::CredentialRequested { tab_id, request, ticket } => {
                self.credential_requested(tab_id, request, ticket, effects);
            },
        }
        assert(effects@ =~= old(effects)@ + done.1);
    }
}

/// What happened is told to the tab that it is for, and to no other part of the window.
pub proof fn lemma_events_go_to_their_tab(
    state: ViewState,
    event: UiEvent,
    spot: Spot,
    tab: TabView,
)
    requires
        state.is_place(spot),
        tab == state.at(spot),
        match event {
            UiEvent::OperationStarted { tab_id, .. }
            | UiEvent::OperationProgress { tab_id, .. }
            | UiEvent::OperationFailed { tab_id, .. }
            | UiEvent::OperationFinished { tab_id, .. } => spot == state.spot(tab_id),
            UiEvent::RepositoryFastLoaded { tab_id, .. }
            | UiEvent::RepositoryMetadataLoaded { tab_id, .. }
            | UiEvent::RepositoryStatusFastLoaded { tab_id, .. }
            | UiEvent::RepositoryStatusFullLoaded { tab_id, .. }
            | UiEvent::RepositoryLoadStageFailed { tab_id, .. }
            | UiEvent::DiscardChangeFinished { tab_id, .. }
            | UiEvent::HistoryCommitsLoaded { tab_id, .. }
            | UiEvent::HistoryFilesLoaded { tab_id, .. }
            | UiEvent::HistoryDiffLoaded { tab_id, .. }
            | UiEvent::HistoryLoadFailed { tab_id, .. } => spot == state.spot(Some(tab_id)),
            _ => false,
        },
    ensures
        ({
            let (after, effects) = state.after(event);
            &&& match event {
                UiEvent::OperationStarted { message, .. } => after.at(spot) == tab.on_started(
                    message@,
                ) && effects.len() == 0,
                UiEvent::OperationProgress { message, .. } => after.at(spot) == tab.on_progress(
                    message@,
                ) && effects.len() == 0,
                UiEvent::OperationFailed { error, .. } => after.at(spot) == tab.on_failed(error@)
                    && effects.len() == 0,
                UiEvent::OperationFinished { tab_id, message, snapshot, diff } => {
                    (after.at(spot), effects) == tab.on_finished(
                        message@,
                        opt_state(snapshot),
                        diff,
                        tab_id is Some,
                    )
                },
                UiEvent::RepositoryFastLoaded { message, snapshot, load_id, .. } => {
                    (after.at(spot), effects) == tab.on_fast(message@, state_of(snapshot), load_id)
                },
                UiEvent::RepositoryMetadataLoaded { message, snapshot, load_id, .. } => {
                    (after.at(spot), effects) == tab.on_metadata(
                        message@,
                        state_of(snapshot),
                        load_id,
                    )
                },
                UiEvent::RepositoryStatusFastLoaded { message, changes, load_id, .. } => {
                    after.at(spot) == tab.on_status_fast(message@, changes@, load_id)
                },
                UiEvent::RepositoryStatusFullLoaded { message, changes, load_id, .. } => {
                    after.at(spot) == tab.on_status_full(message@, changes@, load_id)
                },
                UiEvent::RepositoryLoadStageFailed { error, load_id, .. } => after.at(spot)
                    == tab.on_stage_failed(error@, load_id),
                UiEvent::DiscardChangeFinished { message, snapshot, changes, load_id, .. } => {
                    (after.at(spot), effects) == tab.on_discarded(
                        message@,
                        state_of(snapshot),
                        changes@,
                        load_id,
                    )
                },
                UiEvent::HistoryCommitsLoaded { commits, append, has_more, scope, load_id, .. } => {
                    (after.at(spot), effects) == tab.on_commits(
                        commits@,
                        append,
                        has_more,
                        scope,
                        load_id,
                    )
                },
                UiEvent::HistoryFilesLoaded { commit_oid, files, load_id, .. } => {
                    (after.at(spot), effects) == tab.on_files(commit_oid@, files@, load_id)
                },
                UiEvent::HistoryDiffLoaded { commit_oid, path, diff, load_id, .. } => {
                    (after.at(spot), effects) == tab.on_diff(commit_oid@, path@, diff, load_id)
                },
                UiEvent::HistoryLoadFailed { error, load_id, .. } => after.at(spot)
                    == tab.on_history_failed(error@, load_id),
                _ => true,
            }
            &&& after.active == state.active
            &&& after.queue == state.queue
            &&& after.loads == state.loads
            &&& after.tabs.len() == state.tabs.len()
            &&& forall|i: int|
                0 <= i < state.tabs.len() && spot != Spot::Tab(i as usize) && state.tabs.len()
                    <= usize::MAX ==> #[trigger] after.tabs[i] == state.tabs[i]
        }),
{
}

/// A load that ends leaves room for the next one in the queue, and frees its tab unless another load
/// of the tab was asked for since.
pub proof fn lemma_load_that_ends(state: ViewState, tab_id: RepoTabId, load_id: u64)
    requires
        state.queue.len() == 0,
    ensures
        ({
            let (after, effects) = state.load_ended(tab_id, load_id);
            let spot = state.spot(Some(tab_id));
            &&& effects.len() == 0
            &&& after.loads == if state.loads > 0 {
                state.loads - 1
            } else {
                0
            }
            &&& state.is_place(spot) && state.at(spot).load_id == load_id ==> !after.at(spot).busy
            &&& state.is_place(spot) && state.at(spot).load_id != load_id ==> after.at(spot)
                == state.at(spot)
            &&& after.active == state.active
        }),
{
}

/// The credentials that were read are listed, and the tab that is shown says so.
pub proof fn lemma_listed_credentials(
    state: ViewState,
    records: Seq<CredentialRecord>,
    message: Seq<char>,
)
    ensures
        state.records_loaded(records, message).records == records,
        state.records_loaded(records, message).at(state.spot(None)).status == message || !(
        state.is_place(state.spot(None))),
        state.records_loaded(records, message).active == state.active,
        state.records_loaded(records, message).queue == state.queue,
{
}

} // verus!
