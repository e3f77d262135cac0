//! Resolving conflicts.

use vstd::prelude::*;

use crate::session::commands::RepoCommand;
use crate::session::effects::Effect;
use crate::session::tab::{RepoTabId, TabView};
use crate::session::view::{RepositoryView, Spot, ViewState};
use crate::types::conflicts::ConflictResolutionSide;

verus! {

impl ViewState {
    /// No differences are shown any more.
    pub open spec fn without_diff(self) -> Self {
        self.put(
            self.spot(None),
            TabView { diff: None, diff_headers_expanded: false, ..self.current() },
        )
    }
}

impl RepositoryView {
    fn clear_diff(&mut self, effects: &mut Vec<Effect>)
        requires
            old(self).wf(),
        ensures
            final(self).wf(),
            final(self)@ == old(self)@.without_diff(),
            final(effects)@ == old(effects)@.push(
                Effect::ResetDiffScroll { tab_id: old(self)@.current().id },
            ),
    {
        let tab_id: RepoTabId = self.shown_id();
        let spot: Spot = self.spot(None);
        let tab = self.tab_at(spot);
        tab.diff = None;
        tab.diff_headers_expanded = false;
        effects.push(Effect::ResetDiffScroll { tab_id });
    }

    /// Takes one side of a file in conflict.
    pub fn resolve_conflict_with_side(
        &mut self,
        path: String,
        side: ConflictResolutionSide,
        effects: &mut Vec<Effect>,
    )
        requires
            old(self).wf(),
        ensures
            final(self).wf(),
            ({
                let (view, done) = old(self)@.without_diff().commanding(
                    RepoCommand::ResolveConflict { path, side },
                );
                final(self)@ == view && final(effects)@ == old(effects)@.push(
                    Effect::ResetDiffScroll { tab_id: old(self)@.current().id },
                ) + done
            }),
    {
        self.clear_diff(effects);
        self.with_repo(RepoCommand::ResolveConflict { path, side }, effects);
    }

    /// Says that a file is in conflict no more.
    pub fn mark_conflict_resolved(&mut self, path: String, effects: &mut Vec<Effect>)
        requires
            old(self).wf(),
        ensures
            final(self).wf(),
            ({
                let (view, done) = old(self)@.without_diff().commanding(
                    RepoCommand::MarkResolved { path },
                );
                final(self)@ == view && final(effects)@ == old(effects)@.push(
                    Effect::ResetDiffScroll { tab_id: old(self)@.current().id },
                ) + done
            }),
    {
        self.clear_diff(effects);
        self.with_repo(RepoCommand::MarkResolved { path }, effects);
    }
}

/// The differences that are shown are closed, and nothing else of the tab changes.
pub proof fn lemma_differences_are_closed(state: ViewState)
    requires
        state.is_place(state.spot(None)),
    ensures
        ({
            let tab = state.without_diff().at(state.spot(None));
            &&& tab.diff is None
            &&& !tab.diff_headers_expanded
            &&& tab.snapshot == state.current().snapshot
            &&& tab.selection == state.current().selection
            &&& tab.history_diff == state.current().history_diff
        }),
        state.without_diff().active == state.active,
        state.without_diff().popups == state.popups,
{
}

} // verus!
