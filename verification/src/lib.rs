//! Verified core of a desktop Git client.
//!
//! The crate holds the rules of the client: conflict editing, commit graph
//! layout, workflow resolution, text fields, repository tabs and the credential
//! dialogue. Reading repositories, drawing windows and talking to the network
//! belong to the programs that use it.

pub mod clock;
pub mod credential_forms;
pub mod credential_provider;
pub mod credentials;
pub mod git;
pub mod graph;
pub mod migration;
pub mod order;
pub mod session;
pub mod strings;
pub mod strset;
pub mod text;
pub mod text_input;
pub mod textmap;
pub mod types;
pub mod ui;
pub mod workflow;

pub use credentials::{
    CredentialProvider, CredentialRecord, CredentialRequest, CredentialScope, GitCredential,
    RemoteCredentialBinding, RemoteCredentialBindings, RemoteCredentialPolicy,
};
pub use git::service::{GitService, NoopProgress, ProgressEmitter};
pub use migration::LegacyImportSummary;
pub use types::browse::{BrowseEntry, BrowseEntryKind, BrowseFileContent, BrowseTarget};
pub use types::conflicts::{
    ConflictBlock, ConflictBlockResolution, ConflictDraftStatus, ConflictFileKind,
    ConflictFileView, ConflictResolutionSide,
};
pub use types::{
    BranchInfo, BranchKind, ChangeState, CommitFileChange, CommitInfo, CommitRefInfo,
    CommitRefKind, DiffEncodingChoice, DiffEncodingInfo, DiffLine, DiffLineKind, DiffScope,
    FileDiff, GitError, OperationEvent, RemoteInfo, RepositorySnapshot, ResetMode, StashInfo,
    TagInfo, WorktreeChange,
};
pub use workflow::remote_branch_guard::RemoteBranchGuardAction;
pub use workflow::run::{
    WorkflowExecutor, WorkflowPreview, WorkflowPreviewStep, WorkflowProgressEvent,
    WorkflowRunResult,
};
pub use workflow::{
    WorkflowDefinition, WorkflowInputDefinition, WorkflowRunOptions, WorkflowStep,
};
