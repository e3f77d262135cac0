//! What the client asks of the outside after something happened.

use vstd::prelude::*;

use crate::session::commands::RepoCommand;
use crate::session::tab::{HistoryScope, RepoTabId};
use crate::types::DiffScope;

verus! {

/// Something that is to be done outside.
#[derive(Debug, PartialEq, Eq)]
pub enum Effect {
    /// To bring the branch that is checked out into sight, in the list of a tab. The id 0 stands
    /// for the window without tabs, here and in the next two.
    ShowCurrentBranch { tab_id: RepoTabId },
    /// To go to the start of the differences that a tab shows.
    ResetDiffScroll { tab_id: RepoTabId },
    /// To go to the start of the differences in the history of a tab.
    ResetHistoryDiffScroll { tab_id: RepoTabId },
    /// To save which repositories are open.
    SaveSession,
    /// To load a repository, stage after stage.
    StartLoad {
        tab_id: RepoTabId,
        path: String,
        started: &'static str,
        finished: &'static str,
        load_id: u64,
    },
    /// To read the whole status of a repository.
    LoadFullStatus { tab_id: RepoTabId, path: String, load_id: u64, message: &'static str },
    LoadHistoryPage {
        tab_id: RepoTabId,
        path: String,
        scope: HistoryScope,
        offset: usize,
        append: bool,
        load_id: u64,
    },
    LoadHistoryFiles { tab_id: RepoTabId, path: String, oid: String, load_id: u64 },
    LoadHistoryDiff {
        tab_id: RepoTabId,
        path: String,
        oid: String,
        file: String,
        load_id: u64,
    },
    /// To read the differences of a changed file.
    LoadDiff { tab_id: RepoTabId, path: String, file: String, scope: DiffScope },
    /// To run an operation on a repository.
    RunCommand { tab_id: RepoTabId, path: String, command: RepoCommand },
    /// To discard changes. The result carries the number of the load.
    RunDiscard {
        tab_id: RepoTabId,
        path: String,
        paths: Vec<String>,
        scope: DiffScope,
        message: &'static str,
        load_id: u64,
    },
    /// To clone a repository.
    RunClone { tab_id: RepoTabId, url: String, path: String },
    /// To answer a request for a credential: there is none.
    DeclineCredential { ticket: u64 },
}

} // verus!
