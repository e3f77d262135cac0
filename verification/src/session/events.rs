//! What loads, operations and requests report to the window.

use vstd::prelude::*;

use crate::credentials::{CredentialRecord, CredentialRequest};
use crate::session::tab::{HistoryScope, RepoTabId};
use crate::types::{CommitFileChange, CommitInfo, FileDiff, OperationEvent, RepositorySnapshot, WorktreeChange};

verus! {

/// Something that happened outside.
#[derive(Debug, PartialEq, Eq)]
pub enum UiEvent {
    OperationStarted { tab_id: Option<RepoTabId>, message: String },
    OperationProgress { tab_id: Option<RepoTabId>, message: String },
    RepositoryFastLoaded {
        tab_id: RepoTabId,
        message: String,
        snapshot: RepositorySnapshot,
        load_id: u64,
    },
    RepositoryMetadataLoaded {
        tab_id: RepoTabId,
        message: String,
        snapshot: RepositorySnapshot,
        load_id: u64,
    },
    RepositoryStatusFastLoaded {
        tab_id: RepoTabId,
        message: String,
        changes: Vec<WorktreeChange>,
        load_id: u64,
    },
    RepositoryStatusFullLoaded {
        tab_id: RepoTabId,
        message: String,
        changes: Vec<WorktreeChange>,
        load_id: u64,
    },
    RepositoryLoadStageFailed { tab_id: RepoTabId, error: String, load_id: u64 },
    RepositoryLoadFinished { tab_id: RepoTabId, load_id: u64 },
    OperationFinished {
        tab_id: Option<RepoTabId>,
        message: String,
        snapshot: Option<RepositorySnapshot>,
        diff: Option<FileDiff>,
    },
    DiscardChangeFinished {
        tab_id: RepoTabId,
        message: String,
        snapshot: RepositorySnapshot,
        changes: Vec<WorktreeChange>,
        load_id: u64,
    },
    HistoryCommitsLoaded {
        tab_id: RepoTabId,
        commits: Vec<CommitInfo>,
        append: bool,
        has_more: bool,
        scope: HistoryScope,
        load_id: u64,
    },
    HistoryFilesLoaded {
        tab_id: RepoTabId,
        commit_oid: String,
        files: Vec<CommitFileChange>,
        load_id: u64,
    },
    HistoryDiffLoaded {
        tab_id: RepoTabId,
        commit_oid: String,
        path: String,
        diff: FileDiff,
        load_id: u64,
    },
    HistoryLoadFailed { tab_id: RepoTabId, error: String, load_id: u64 },
    OperationFailed { tab_id: Option<RepoTabId>, error: String },
    CredentialRecordsLoaded { records: Vec<CredentialRecord>, message: String },
    CredentialRequested { tab_id: Option<RepoTabId>, request: CredentialRequest, ticket: u64 },
}

/// What the reports of an operation are to the window of its tab.
pub fn progress_event(tab_id: RepoTabId, event: OperationEvent) -> (r: UiEvent)
    ensures
        r == match event {
            OperationEvent::Started(message) => UiEvent::OperationStarted {
                tab_id: Some(tab_id),
                message,
            },
            OperationEvent::Progress(message) => UiEvent::OperationProgress {
                tab_id: Some(tab_id),
                message,
            },
            OperationEvent::Finished(message) => UiEvent::OperationProgress {
                tab_id: Some(tab_id),
                message,
            },
        },
{
    match event {
        OperationEvent::Started(message) => UiEvent::OperationStarted {
            tab_id: Some(tab_id),
            message,
        },
        OperationEvent::Progress(message) => UiEvent::OperationProgress {
            tab_id: Some(tab_id),
            message,
        },
        OperationEvent::Finished(message) => UiEvent::OperationProgress {
            tab_id: Some(tab_id),
            message,
        },
    }
}

} // verus!
