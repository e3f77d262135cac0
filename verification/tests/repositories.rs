//! Repositories on disk, read and changed through libgit2 as the library decides.

use std::collections::BTreeSet;
use std::io::Write;
use std::path::{Component, Path, PathBuf};
use std::sync::atomic::{AtomicUsize, Ordering};
use std::sync::Arc;

use git2::build::{CheckoutBuilder, RepoBuilder};
use git2::{
    Oid, RepositoryInitOptions,
    AnnotatedCommit, BranchType, Cred, CredentialType, DiffFormat, DiffOptions, ErrorCode,
    FetchOptions, IndexAddOption, MergeFileOptions, MergeOptions, ObjectType, PushOptions,
    Reference, RemoteCallbacks, Repository, ResetType, Signature, Sort, StashApplyOptions, Status,
    StatusOptions,
};
use tempfile::TempDir;

use khaslana::credential_provider::{
    authentication_required, credential_for_remote as sources_for_remote, CredentialSource,
};
use khaslana::credentials::{AllowedTypes, CredentialProvider, CredentialRequest, GitCredential};
use khaslana::git::diff::{file_diff_from_diff, PatchLine};
use khaslana::git::history::{
    commit_graph_refs, commit_info, commit_page, history_without_head, is_empty_head_error,
    walk_start, BranchTip, FaultCode, GraphRefs, RawCommit, TagTip, WalkStart,
};
use khaslana::git::listing::{
    self, status_with_options, BranchEntry, ConflictPaths, Delta, FileDelta, StatusEntry, StatusFlags,
};
use khaslana::git::paths::{self, PathPart};
use khaslana::git::resolve::{
    self, Begun, ConflictEntry, ConflictLookup, DraftWrite, PathState, Planned, ResolvedEntry,
    SideAction,
};
use khaslana::git::service::{
    self, GitService, MergeAction, MergeAnalysis, NoopProgress, ProgressEmitter, Reports, StageAction,
};
use khaslana::git::{checkout_remote_branch, commit_id, validate_branch_name};
use khaslana::session::paths::path_key;
use khaslana::workflow::remote_branch_guard::RemoteBranchGuardAction;
use khaslana::workflow::resolver::{
    HeadState, RepositoryFacts, WorkflowEvalContext, WorkflowResolver,
};
use khaslana::workflow::run::{
    ensure_clean_worktree, ResolvedWorkflowStep, RunNext, StepAction, StepAnswer, WorkflowExecutor,
    WorkflowPreview,
    WorkflowProgressEvent, WorkflowRun, WorkflowRunResult,
};
use khaslana::workflow::steps::{read_defaults, read_input, read_steps, FieldFault, FieldValue, StepField};
use khaslana::workflow::{
    validate_definition, WorkflowDefaults, WorkflowDefinition, WorkflowRunOptions, WorkflowStep,
};
use khaslana::textmap::TextMap;
use khaslana::types::conflicts::{
    ConflictBlockResolution, ConflictDraftStatus, ConflictFileKind, ConflictFileView,
    ConflictResolutionSide,
};
use khaslana::types::{
    BranchInfo, ChangeState, CommitRefKind, DiffLineKind, BranchKind, CommitFileChange, CommitInfo, DiffEncodingChoice, DiffEncodingInfo,
    DiffScope, FileDiff, GitError, RemoteInfo, RepositorySnapshot, ResetMode, StashInfo,
    WorktreeChange,
};

type Result<T> = std::result::Result<T, GitError>;

const DIFF_CONTEXT_LINES: u32 = 3;

/// The error of a refusal by libgit2.
fn refused(error: git2::Error) -> GitError {
    GitError::Git(error.message().to_string())
}

fn path_to_git(path: &Path) -> String {
    let names = path
        .components()
        .map(|component| component.as_os_str().to_string_lossy().into_owned())
        .collect();
    paths::path_to_git(&names)
}

fn parts(path: &Path) -> Vec<PathPart> {
    path.components()
        .map(|component| match component {
            Component::Normal(_) => PathPart::Normal,
            Component::CurDir => PathPart::Current,
            Component::ParentDir => PathPart::Parent,
            Component::RootDir => PathPart::Root,
            Component::Prefix(_) => PathPart::Prefix,
        })
        .collect()
}

fn text(path: &Path) -> String {
    path.to_string_lossy().into_owned()
}

/// The path as it stands: the tests use no links.
fn resolved(path: &Path) -> String {
    text(path)
}

/// The key under which settings of a repository are kept.
fn repo_key(path: &Path) -> String {
    path_key(&resolved(path))
}

fn signature(repo: &Repository) -> Result<Signature<'static>> {
    repo.signature()
        .or_else(|_| Signature::now("Khaslana", "khaslana@example.invalid"))
        .map_err(refused)
}

fn parents(repo: &Repository) -> Vec<git2::Commit<'_>> {
    match repo.head().and_then(|head| head.peel_to_commit()) {
        Ok(commit) => vec![commit],
        Err(_) => Vec::new(),
    }
}

fn fault(error: &git2::Error) -> FaultCode {
    match error.code() {
        ErrorCode::UnbornBranch => FaultCode::UnbornBranch,
        ErrorCode::NotFound => FaultCode::NotFound,
        _ => FaultCode::Other,
    }
}

fn no_head(error: &git2::Error) -> bool {
    is_empty_head_error(fault(error), error.message())
}

fn flags(status: Status) -> StatusFlags {
    StatusFlags {
        conflicted: status.contains(Status::CONFLICTED),
        index_new: status.contains(Status::INDEX_NEW),
        index_modified: status.contains(Status::INDEX_MODIFIED),
        index_deleted: status.contains(Status::INDEX_DELETED),
        index_renamed: status.contains(Status::INDEX_RENAMED),
        index_typechange: status.contains(Status::INDEX_TYPECHANGE),
        wt_new: status.contains(Status::WT_NEW),
        wt_modified: status.contains(Status::WT_MODIFIED),
        wt_deleted: status.contains(Status::WT_DELETED),
        wt_renamed: status.contains(Status::WT_RENAMED),
        wt_typechange: status.contains(Status::WT_TYPECHANGE),
    }
}

fn delta(delta: git2::Delta) -> Delta {
    match delta {
        git2::Delta::Unmodified => Delta::Unmodified,
        git2::Delta::Added => Delta::Added,
        git2::Delta::Deleted => Delta::Deleted,
        git2::Delta::Modified => Delta::Modified,
        git2::Delta::Renamed => Delta::Renamed,
        git2::Delta::Copied => Delta::Copied,
        git2::Delta::Ignored => Delta::Ignored,
        git2::Delta::Untracked => Delta::Untracked,
        git2::Delta::Typechange => Delta::Typechange,
        git2::Delta::Unreadable => Delta::Unreadable,
        git2::Delta::Conflicted => Delta::Conflicted,
    }
}

fn allowed(types: CredentialType) -> AllowedTypes {
    AllowedTypes {
        user_pass_plaintext: types.contains(CredentialType::USER_PASS_PLAINTEXT),
        ssh_key: types.contains(CredentialType::SSH_KEY),
        default: types.contains(CredentialType::DEFAULT),
    }
}

/// The credential as libgit2 takes it.
fn to_git_credential(credential: GitCredential) -> std::result::Result<Cred, git2::Error> {
    match credential {
        GitCredential::UserPass {
            username, secret, ..
        } => Cred::userpass_plaintext(&username, &secret),
        GitCredential::SshPassphrase {
            username,
            private_key_path: Some(key),
            passphrase,
            ..
        } => Cred::ssh_key(&username, None, Path::new(&key), passphrase.as_deref()),
        GitCredential::SshPassphrase { username, .. } => Cred::ssh_key_from_agent(&username),
    }
}

fn credential_for_remote(
    config: Option<&git2::Config>,
    provider: &dyn CredentialProvider,
    url: &str,
    username_from_url: Option<&str>,
    allowed_types: CredentialType,
    repo_key: Option<String>,
    remote_name: Option<String>,
) -> std::result::Result<Cred, git2::Error> {
    let request = CredentialRequest {
        url: url.to_string(),
        username_from_url: username_from_url.map(str::to_string),
        allowed_types: allowed(allowed_types),
        repo_key,
        remote_name,
    };
    for source in sources_for_remote(config.is_some(), &request) {
        let found = match (source, config) {
            (CredentialSource::Helper, Some(config)) => {
                Cred::credential_helper(config, url, username_from_url).ok()
            }
            (CredentialSource::Helper, None) => None,
            (CredentialSource::SshAgent { username }, _) => {
                Cred::ssh_key_from_agent(&username).ok()
            }
            (CredentialSource::SystemDefault, _) => Cred::default().ok(),
            (CredentialSource::Provider, _) => break,
        };
        if let Some(cred) = found {
            return Ok(cred);
        }
    }
    match provider.credential_for(request) {
        Ok(Some(credential)) => to_git_credential(credential),
        Ok(None) => Err(git2::Error::from_str(&authentication_required(url))),
        Err(error) => Err(git2::Error::from_str(&error.message())),
    }
}

/// Runs operations on repositories.
struct Backend<C: CredentialProvider, P: ProgressEmitter> {
    service: GitService<C, P>,
}

impl<C: CredentialProvider, P: ProgressEmitter> Backend<C, P> {
    fn new(service: GitService<C, P>) -> Self {
        Backend { service }
    }

    fn started(&self, reports: Reports) -> khaslana::types::OperationEvent {
        self.service.progress.emit(reports.started);
        reports.finished
    }

    /// Reports that an operation on a conflict has started, if it has.
    fn begin<T>(&self, begun: Begun<T>) -> Result<Planned<T>> {
        if let Some(event) = begun.started {
            self.service.progress.emit(event);
        }
        begun.next
    }

    fn finished(&self, event: khaslana::types::OperationEvent) {
        self.service.progress.emit(event);
    }

    fn open(&self, path: &Path) -> Result<RepositorySnapshot> {
        let mut repo = Repository::open(path).map_err(refused)?;
        self.snapshot(&mut repo)
    }

    fn open_fast(&self, path: &Path) -> Result<RepositorySnapshot> {
        let repo = Repository::open(path).map_err(refused)?;
        self.fast_snapshot(&repo)
    }

    fn clone_repo(&self, url: &str, into: &Path) -> Result<RepositorySnapshot> {
        let done = self.started(service::clone_reports(url));
        let mut fetch_options = FetchOptions::new();
        fetch_options.remote_callbacks(self.remote_callbacks(None, None));
        let mut repo = RepoBuilder::new()
            .fetch_options(fetch_options)
            .clone(url, into)
            .map_err(refused)?;
        self.finished(done);
        self.snapshot(&mut repo)
    }

    fn snapshot(&self, repo: &mut Repository) -> Result<RepositorySnapshot> {
        let metadata = self.snapshot_metadata(repo)?;
        let changes = self.status_full(repo)?;
        Ok(service::snapshot_details(metadata, changes))
    }

    fn fast_snapshot(&self, repo: &Repository) -> Result<RepositorySnapshot> {
        let branches = self.branches(repo, Some(BranchType::Local))?;
        Ok(service::fast_snapshot(
            self.directory(repo),
            self.head_name(repo),
            branches,
        ))
    }

    fn snapshot_metadata(&self, repo: &mut Repository) -> Result<RepositorySnapshot> {
        let branches = self.branches(repo, None)?;
        let remotes = self.remotes(repo)?;
        let tags = listing::tags(self.tag_names(repo)?);
        let stashes = self.stashes(repo)?;
        let conflicts = self.conflicts(repo)?;
        Ok(service::snapshot_metadata(
            self.directory(repo),
            self.head_name(repo),
            branches,
            remotes,
            tags,
            stashes,
            conflicts,
        ))
    }

    fn directory(&self, repo: &Repository) -> String {
        service::snapshot_path(
            repo.workdir().map(text),
            repo.path().parent().map(text),
            text(repo.path()),
        )
    }

    fn head_name(&self, repo: &Repository) -> Option<String> {
        let head = repo.head().ok()?;
        head.shorthand().ok().map(str::to_string)
    }

    /// The branch that is checked out, if one is.
    fn current_branch(&self, repo: &Repository) -> Option<String> {
        let head = repo.head().ok()?;
        if head.is_branch() {
            head.shorthand().ok().map(str::to_string)
        } else {
            None
        }
    }

    fn branches(
        &self,
        repo: &Repository,
        filter: Option<BranchType>,
    ) -> Result<Vec<BranchInfo>> {
        let mut entries = Vec::new();
        for branch in repo.branches(filter).map_err(refused)? {
            let (branch, branch_type) = branch.map_err(refused)?;
            entries.push(BranchEntry {
                name: branch.name().map_err(refused)?.map(str::to_string),
                kind: match branch_type {
                    BranchType::Local => BranchKind::Local,
                    BranchType::Remote => BranchKind::Remote,
                },
                is_head: branch.is_head(),
                upstream: branch
                    .upstream()
                    .ok()
                    .and_then(|upstream| upstream.name().ok().flatten().map(str::to_string)),
            });
        }
        Ok(listing::branches(&entries))
    }

    fn status_fast(&self, repo: &Repository) -> Result<Vec<WorktreeChange>> {
        self.status(repo, false)
    }

    fn status_full(&self, repo: &Repository) -> Result<Vec<WorktreeChange>> {
        self.status(repo, true)
    }

    fn status(&self, repo: &Repository, untracked: bool) -> Result<Vec<WorktreeChange>> {
        let mut options = StatusOptions::new();
        options
            .include_untracked(untracked)
            .recurse_untracked_dirs(untracked)
            .renames_head_to_index(true)
            .renames_index_to_workdir(true);
        let statuses = repo.statuses(Some(&mut options)).map_err(refused)?;
        let mut entries = Vec::new();
        for entry in statuses.iter() {
            entries.push(StatusEntry {
                path: entry.path().map_err(refused)?.to_string(),
                flags: flags(entry.status()),
            });
        }
        Ok(status_with_options(entries))
    }

    fn remotes(&self, repo: &Repository) -> Result<Vec<RemoteInfo>> {
        let mut names = Vec::new();
        for name in repo.remotes().map_err(refused)?.iter() {
            names.push(name.map_err(refused)?.map(str::to_string));
        }
        Ok(listing::remotes(names)
            .into_iter()
            .map(|name| {
                let url = repo
                    .find_remote(&name)
                    .ok()
                    .and_then(|remote| remote.url().ok().map(str::to_string))
                    .unwrap_or_default();
                RemoteInfo { name, url }
            })
            .collect())
    }

    fn tag_names(&self, repo: &Repository) -> Result<Vec<Option<String>>> {
        let names = repo.tag_names(None).map_err(refused)?;
        Ok(names
            .iter()
            .flatten()
            .map(|name| name.map(str::to_string))
            .collect())
    }

    fn stashes(&self, repo: &mut Repository) -> Result<Vec<StashInfo>> {
        let mut stashes = Vec::new();
        repo.stash_foreach(|index, message, oid| {
            stashes.push(StashInfo {
                index,
                message: message.to_string(),
                oid: oid.to_string(),
            });
            true
        })
        .map_err(refused)?;
        Ok(stashes)
    }

    fn conflicts(&self, repo: &Repository) -> Result<Vec<String>> {
        let index = repo.index().map_err(refused)?;
        if !index.has_conflicts() {
            return Ok(Vec::new());
        }
        let mut entries = Vec::new();
        for conflict in index.conflicts().map_err(refused)? {
            let conflict = conflict.map_err(refused)?;
            entries.push(ConflictPaths {
                our: conflict.our.map(|entry| entry.path),
                their: conflict.their.map(|entry| entry.path),
                ancestor: conflict.ancestor.map(|entry| entry.path),
            });
        }
        Ok(listing::conflicts(&entries))
    }

    fn fetch(&self, repo: &mut Repository, remote: &str) -> Result<RepositorySnapshot> {
        let done = self.started(service::fetch_reports(remote));
        {
            let mut handle = repo.find_remote(remote).map_err(refused)?;
            let mut options = FetchOptions::new();
            options.remote_callbacks(self.remote_callbacks(Some(&*repo), Some(remote)));
            handle
                .fetch(&[] as &[&str], Some(&mut options), Some("khaslana fetch"))
                .map_err(refused)?;
        }
        self.finished(done);
        self.snapshot(repo)
    }

    fn pull(&self, repo: &mut Repository, remote: &str) -> Result<RepositorySnapshot> {
        let done = self.started(service::pull_reports(remote));
        self.fetch(repo, remote)?;
        let branch = self.head_shorthand(repo)?;
        {
            let reference = self.remote_ref_for_branch(repo, remote, &branch)?;
            let annotated = repo
                .reference_to_annotated_commit(&reference)
                .map_err(refused)?;
            self.merge_annotated(repo, &annotated, &service::upstream_name(remote, &branch))?;
        }
        self.finished(done);
        self.snapshot(repo)
    }

    fn push(&self, repo: &mut Repository, remote: &str) -> Result<RepositorySnapshot> {
        let branch = self.head_shorthand(repo)?;
        self.push_branch(repo, remote, &branch, true)
    }

    fn push_branch(
        &self,
        repo: &mut Repository,
        remote: &str,
        branch: &str,
        set_upstream: bool,
    ) -> Result<RepositorySnapshot> {
        let done = self.started(service::push_reports(branch));
        {
            let mut handle = repo.find_remote(remote).map_err(refused)?;
            let mut options = PushOptions::new();
            options.remote_callbacks(self.remote_callbacks(Some(&*repo), Some(remote)));
            let refspec = service::push_refspec(branch);
            handle
                .push(&[refspec.as_str()], Some(&mut options))
                .map_err(refused)?;
        }
        if set_upstream {
            if let Ok(mut local) = repo.find_branch(branch, BranchType::Local) {
                let _ = local.set_upstream(Some(&service::upstream_name(remote, branch)));
            }
        }
        self.finished(done);
        self.snapshot(repo)
    }

    fn head_shorthand(&self, repo: &Repository) -> Result<String> {
        let head = repo.head().map_err(refused)?;
        head.shorthand().map(str::to_string).map_err(refused)
    }

    fn merge_branch(&self, repo: &mut Repository, branch: &str) -> Result<RepositorySnapshot> {
        let done = self.started(service::merge_reports(branch));
        {
            let reference = self.find_branch_reference(repo, branch)?;
            let annotated = repo
                .reference_to_annotated_commit(&reference)
                .map_err(refused)?;
            self.merge_annotated(repo, &annotated, branch)?;
        }
        self.finished(done);
        self.snapshot(repo)
    }

    fn checkout_branch(
        &self,
        repo: &mut Repository,
        branch: &str,
    ) -> Result<RepositorySnapshot> {
        {
            let handle = repo
                .find_branch(branch, BranchType::Local)
                .map_err(refused)?;
            let reference = handle.get();
            let target = service::checkout_target(
                branch,
                reference.target().map(|target| target.to_string()),
            )?;
            let object = repo
                .find_object(git2::Oid::from_str(&target).map_err(refused)?, None)
                .map_err(refused)?;
            let mut checkout = CheckoutBuilder::new();
            checkout.safe();
            repo.checkout_tree(&object, Some(&mut checkout))
                .map_err(refused)?;
            repo.set_head(reference.name().map_err(refused)?)
                .map_err(refused)?;
        }
        self.snapshot(repo)
    }

    fn checkout_remote_branch(
        &self,
        repo: &mut Repository,
        remote_branch: &str,
    ) -> Result<RepositorySnapshot> {
        let plan = checkout_remote_branch(remote_branch)?;
        {
            let handle = repo
                .find_branch(remote_branch, BranchType::Remote)
                .map_err(refused)?;
            let target = service::remote_checkout_target(
                remote_branch,
                handle.get().target().map(|target| target.to_string()),
            )?;
            let commit = repo
                .find_commit(git2::Oid::from_str(&target).map_err(refused)?)
                .map_err(refused)?;
            let mut local = match repo.find_branch(&plan.local_name, BranchType::Local) {
                Ok(local) => local,
                Err(_) => repo
                    .branch(&plan.local_name, &commit, false)
                    .map_err(refused)?,
            };
            local
                .set_upstream(Some(&plan.upstream))
                .map_err(refused)?;
        }
        self.checkout_branch(repo, &plan.local_name)
            .map_err(|error| service::remote_checkout_error(&plan.local_name, error))
    }

    fn checkout_tag(&self, repo: &mut Repository, tag: &str) -> Result<RepositorySnapshot> {
        {
            let object = repo
                .revparse_single(&service::tag_ref_name(tag))
                .map_err(refused)?;
            let commit = object.peel_to_commit().map_err(refused)?;
            let mut checkout = CheckoutBuilder::new();
            checkout.safe();
            repo.checkout_tree(commit.as_object(), Some(&mut checkout))
                .map_err(refused)?;
            repo.set_head_detached(commit.id()).map_err(refused)?;
        }
        self.snapshot(repo)
    }

    fn create_branch(&self, repo: &mut Repository, branch: &str) -> Result<RepositorySnapshot> {
        self.create_branch_from(repo, branch, None, false)
    }

    /// Makes a branch at another one, or at the head, and checks it out if asked to.
    fn create_branch_from(
        &self,
        repo: &mut Repository,
        branch: &str,
        from: Option<&str>,
        checkout: bool,
    ) -> Result<RepositorySnapshot> {
        validate_branch_name(branch)?;
        {
            let start = match from {
                Some(name) => self.find_branch_reference(repo, name)?,
                None => repo.head().map_err(refused)?,
            };
            let commit = start.peel_to_commit().map_err(refused)?;
            repo.branch(branch, &commit, false).map_err(refused)?;
        }
        if checkout {
            self.checkout_branch(repo, branch)
        } else {
            self.snapshot(repo)
        }
    }

    fn delete_branch(&self, repo: &mut Repository, branch: &str) -> Result<RepositorySnapshot> {
        repo.find_branch(branch, BranchType::Local)
            .and_then(|mut handle| handle.delete())
            .map_err(refused)?;
        self.snapshot(repo)
    }

    fn rename_branch(
        &self,
        repo: &mut Repository,
        old: &str,
        new: &str,
    ) -> Result<RepositorySnapshot> {
        validate_branch_name(new)?;
        repo.find_branch(old, BranchType::Local)
            .and_then(|mut handle| handle.rename(new, false).map(|_| ()))
            .map_err(refused)?;
        self.snapshot(repo)
    }

    fn stage_paths(
        &self,
        repo: &mut Repository,
        paths: &[String],
    ) -> Result<RepositorySnapshot> {
        let mut index = repo.index().map_err(refused)?;
        for path in paths {
            let deleted = repo
                .status_file(Path::new(path))
                .map(|status| status.contains(Status::WT_DELETED))
                .unwrap_or(false);
            match service::stage_action(path, deleted) {
                StageAction::AddAll => index.add_all(["*"].iter(), IndexAddOption::DEFAULT, None),
                StageAction::Remove => index.remove_path(Path::new(path)),
                StageAction::Add => index.add_path(Path::new(path)),
            }
            .map_err(refused)?;
        }
        index.write().map_err(refused)?;
        self.snapshot(repo)
    }

    fn unstage_paths(
        &self,
        repo: &mut Repository,
        paths: &[String],
    ) -> Result<RepositorySnapshot> {
        {
            let tree = repo.head().ok().and_then(|head| head.peel_to_tree().ok());
            repo.reset_default(tree.as_ref().map(|tree| tree.as_object()), paths)
                .map_err(refused)?;
        }
        self.snapshot(repo)
    }

    fn commit(&self, repo: &mut Repository, message: &str) -> Result<RepositorySnapshot> {
        service::commit_message(message, None)?;
        let mut index = repo.index().map_err(refused)?;
        let conflicts = if index.has_conflicts() {
            Some(self.conflicts(repo)?)
        } else {
            None
        };
        let message = service::commit_message(message, conflicts)?;
        {
            let tree_id = index.write_tree().map_err(refused)?;
            let tree = repo.find_tree(tree_id).map_err(refused)?;
            let signature = signature(repo)?;
            let parents = parents(repo);
            let parent_refs = parents.iter().collect::<Vec<_>>();
            repo.commit(
                Some("HEAD"),
                &signature,
                &signature,
                &message,
                &tree,
                &parent_refs,
            )
            .map_err(refused)?;
            repo.cleanup_state().map_err(refused)?;
        }
        self.snapshot(repo)
    }

    fn apply_stash(&self, repo: &mut Repository, index: usize) -> Result<RepositorySnapshot> {
        let done = self.started(service::apply_stash_reports(index));
        repo.stash_apply(index, Some(&mut StashApplyOptions::new()))
            .map_err(refused)?;
        self.finished(done);
        self.snapshot(repo)
    }

    fn pop_stash(&self, repo: &mut Repository, index: usize) -> Result<RepositorySnapshot> {
        let done = self.started(service::pop_stash_reports(index));
        repo.stash_pop(index, Some(&mut StashApplyOptions::new()))
            .map_err(refused)?;
        self.finished(done);
        self.snapshot(repo)
    }

    fn diff_for_path(
        &self,
        repo: &Repository,
        path: &Path,
        scope: DiffScope,
        encoding: DiffEncodingChoice,
    ) -> Result<FileDiff> {
        let mut options = DiffOptions::new();
        options
            .pathspec(path)
            .include_untracked(true)
            .context_lines(DIFF_CONTEXT_LINES);
        let diff = match scope {
            DiffScope::Staged => {
                let tree = repo.head().ok().and_then(|head| head.peel_to_tree().ok());
                repo.diff_tree_to_index(tree.as_ref(), None, Some(&mut options))
            }
            DiffScope::Unstaged => repo.diff_index_to_workdir(None, Some(&mut options)),
        }
        .map_err(refused)?;
        self.file_diff(diff, path_to_git(path), scope, encoding)
    }

    fn file_diff(
        &self,
        diff: git2::Diff<'_>,
        path: String,
        scope: DiffScope,
        requested: DiffEncodingChoice,
    ) -> Result<FileDiff> {
        let binary = diff
            .deltas()
            .map(|delta| delta.flags().contains(git2::DiffFlags::BINARY))
            .collect::<Vec<_>>();
        let mut lines = Vec::new();
        let mut lossy = false;
        diff.print(DiffFormat::Patch, |_delta, _hunk, line| {
            lossy = lossy || std::str::from_utf8(line.content()).is_err();
            lines.push(PatchLine {
                origin: line.origin(),
                old_lineno: line.old_lineno(),
                new_lineno: line.new_lineno(),
                content: line.content().to_vec(),
            });
            true
        })
        .map_err(refused)?;
        Ok(file_diff_from_diff(
            &lines,
            &binary,
            path,
            scope,
            DiffEncodingInfo {
                requested,
                resolved: DiffEncodingChoice::Utf8,
                lossy,
            },
        ))
    }

    fn reset_to_commit(
        &self,
        repo: &mut Repository,
        commit_oid: &str,
        mode: ResetMode,
    ) -> Result<RepositorySnapshot> {
        service::check_reset(repo.head_detached().map_err(refused)?)?;
        {
            let commit = self.find_commit(repo, commit_oid)?;
            let done = self.started(service::reset_reports());
            let kind = match mode {
                ResetMode::Soft => ResetType::Soft,
                ResetMode::Mixed => ResetType::Mixed,
                ResetMode::Hard => ResetType::Hard,
            };
            repo.reset(commit.as_object(), kind, None)
                .map_err(refused)?;
            self.finished(done);
        }
        self.snapshot(repo)
    }

    fn revert_commit(
        &self,
        repo: &mut Repository,
        commit_oid: &str,
    ) -> Result<RepositorySnapshot> {
        let changes = self.status_full(repo)?.len();
        let conflicts = self.conflicts(repo)?.len();
        service::check_revert(changes, conflicts, 0)?;
        {
            let commit = self.find_commit(repo, commit_oid)?;
            service::check_revert(changes, conflicts, commit.parent_count())?;
            let head = repo
                .head()
                .and_then(|head| head.peel_to_commit())
                .map_err(refused)?;
            let done = self.started(service::revert_reports());
            let mut index = repo
                .revert_commit(&commit, &head, 0, None)
                .map_err(refused)?;
            if index.has_conflicts() {
                index.write().map_err(refused)?;
                repo.checkout_index(Some(&mut index), None)
                    .map_err(refused)?;
                return Err(service::revert_conflict_error());
            }
            let tree_id = index.write_tree_to(repo).map_err(refused)?;
            let tree = repo.find_tree(tree_id).map_err(refused)?;
            let signature = signature(repo)?;
            let summary = commit.summary().ok().flatten().map(str::to_string);
            let message = service::revert_message(summary, &commit.id().to_string());
            repo.commit(
                Some("HEAD"),
                &signature,
                &signature,
                &message,
                &tree,
                &[&head],
            )
            .map_err(refused)?;
            let mut checkout = CheckoutBuilder::new();
            checkout.force();
            repo.checkout_head(Some(&mut checkout)).map_err(refused)?;
            self.finished(done);
        }
        self.snapshot(repo)
    }

    fn graph_refs(&self, repo: &Repository) -> Result<GraphRefs> {
        let mut branches = Vec::new();
        let listed = match repo.branches(None) {
            Ok(listed) => Some(listed),
            Err(error) if no_head(&error) => None,
            Err(error) => return Err(refused(error)),
        };
        for branch in listed.into_iter().flatten() {
            let (branch, branch_type) = branch.map_err(refused)?;
            let target = branch.get().target();
            branches.push(BranchTip {
                name: branch.name().map_err(refused)?.map(str::to_string),
                remote: branch_type == BranchType::Remote,
                target: target.map(|oid| oid.to_string()),
                is_commit: target
                    .map(|oid| repo.find_commit(oid).is_ok())
                    .unwrap_or(false),
            });
        }
        let mut tags = Vec::new();
        for name in self.tag_names(repo)?.into_iter().flatten() {
            let commit = repo
                .find_reference(&service::tag_ref_name(&name))
                .and_then(|reference| reference.peel(ObjectType::Commit))
                .ok()
                .map(|object| object.id().to_string());
            tags.push(TagTip { name, commit });
        }
        let head = repo
            .head()
            .and_then(|head| head.peel_to_commit())
            .ok()
            .map(|commit| commit.id().to_string());
        Ok(commit_graph_refs(&branches, &tags, &head))
    }

    /// A page of the history: of all branches, or of the one that is checked out.
    fn commit_graph(
        &self,
        repo: &Repository,
        all_branches: bool,
        offset: usize,
        limit: usize,
    ) -> Result<Vec<CommitInfo>> {
        let refs = self.graph_refs(repo)?;
        let mut walk = repo.revwalk().map_err(refused)?;
        walk.set_sorting(Sort::TOPOLOGICAL | Sort::TIME)
            .map_err(refused)?;
        match walk_start(all_branches, &refs) {
            WalkStart::Head => {
                if let Err(error) = walk.push_head() {
                    return history_without_head(fault(&error), error.message().to_string());
                }
            }
            WalkStart::Commits(starts) => {
                for oid in &starts {
                    walk.push(git2::Oid::from_str(oid).map_err(refused)?)
                        .map_err(refused)?;
                }
            }
        }
        let mut ids = Vec::new();
        for oid in walk.take(offset.saturating_add(limit)) {
            ids.push(oid.map_err(refused)?.to_string());
        }
        let mut commits = Vec::new();
        for oid in commit_page(&ids, offset, limit) {
            let commit = self.find_commit(repo, &oid)?;
            let author = commit.author().name().ok().map(str::to_string);
            let raw = RawCommit {
                oid,
                summary: commit.summary().ok().flatten().map(str::to_string),
                author,
                time: commit.time().seconds(),
                parents: commit.parent_ids().map(|id| id.to_string()).collect(),
            };
            commits.push(commit_info(&raw, &refs.labels));
        }
        Ok(commits)
    }

    fn commit_files(
        &self,
        repo: &Repository,
        commit_oid: &str,
    ) -> Result<Vec<CommitFileChange>> {
        let commit = self.find_commit(repo, commit_oid)?;
        let diff = self.commit_diff(repo, &commit, None)?;
        let deltas = diff
            .deltas()
            .map(|entry| FileDelta {
                new_path: entry.new_file().path().map(path_to_git),
                old_path: entry.old_file().path().map(path_to_git),
                delta: delta(entry.status()),
            })
            .collect::<Vec<_>>();
        Ok(listing::commit_files(&deltas))
    }

    fn commit_file_diff(
        &self,
        repo: &Repository,
        commit_oid: &str,
        path: &Path,
        encoding: DiffEncodingChoice,
    ) -> Result<FileDiff> {
        let commit = self.find_commit(repo, commit_oid)?;
        let diff = self.commit_diff(repo, &commit, Some(path))?;
        self.file_diff(diff, path_to_git(path), DiffScope::Staged, encoding)
    }

    fn find_commit<'r>(&self, repo: &'r Repository, oid: &str) -> Result<git2::Commit<'r>> {
        let id = commit_id(oid)?;
        repo.find_commit(git2::Oid::from_str(&id).map_err(refused)?)
            .map_err(refused)
    }

    fn commit_diff<'r>(
        &self,
        repo: &'r Repository,
        commit: &git2::Commit<'r>,
        path: Option<&Path>,
    ) -> Result<git2::Diff<'r>> {
        let tree = commit.tree().map_err(refused)?;
        let parent_tree = if commit.parent_count() > 0 {
            let parent = commit.parent(0).map_err(refused)?;
            Some(parent.tree().map_err(refused)?)
        } else {
            None
        };
        let mut options = DiffOptions::new();
        options.context_lines(DIFF_CONTEXT_LINES);
        if let Some(path) = path {
            options.pathspec(path);
        }
        repo.diff_tree_to_tree(parent_tree.as_ref(), Some(&tree), Some(&mut options))
            .map_err(refused)
    }

    fn remote_callbacks<'a>(
        &'a self,
        repo: Option<&'a Repository>,
        remote: Option<&str>,
    ) -> RemoteCallbacks<'a> {
        let provider = self.service.credential_provider.clone();
        let progress = self.service.progress.clone();
        let config = repo.and_then(|repo| repo.config().ok());
        let repo_key = repo.map(|repo| repo_key(Path::new(&self.directory(repo))));
        let remote = remote.map(str::to_string);
        let mut callbacks = RemoteCallbacks::new();
        callbacks.transfer_progress(move |stats| {
            progress.emit(service::transfer_progress(
                stats.received_objects(),
                stats.total_objects(),
            ));
            true
        });
        callbacks.credentials(move |url, username_from_url, allowed_types| {
            credential_for_remote(
                config.as_ref(),
                provider.as_ref(),
                url,
                username_from_url,
                allowed_types,
                repo_key.clone(),
                remote.clone(),
            )
        });
        callbacks
    }

    fn remote_ref_for_branch<'r>(
        &self,
        repo: &'r Repository,
        remote: &str,
        branch: &str,
    ) -> Result<Reference<'r>> {
        let upstream = repo
            .find_branch(branch, BranchType::Local)
            .and_then(|local| local.upstream());
        match upstream {
            Ok(upstream) => Ok(upstream.into_reference()),
            Err(_) => repo
                .find_reference(&service::remote_ref_name(remote, branch))
                .map_err(refused),
        }
    }

    fn find_branch_reference<'r>(
        &self,
        repo: &'r Repository,
        name: &str,
    ) -> Result<Reference<'r>> {
        if let Ok(branch) = repo.find_branch(name, BranchType::Local) {
            return Ok(branch.into_reference());
        }
        if let Ok(branch) = repo.find_branch(name, BranchType::Remote) {
            return Ok(branch.into_reference());
        }
        repo.find_reference(name).map_err(refused)
    }

    fn merge_annotated(
        &self,
        repo: &Repository,
        annotated: &AnnotatedCommit<'_>,
        label: &str,
    ) -> Result<()> {
        let (analysis, _) = repo.merge_analysis(&[annotated]).map_err(refused)?;
        let analysis = MergeAnalysis {
            up_to_date: analysis.contains(git2::MergeAnalysis::ANALYSIS_UP_TO_DATE),
            fast_forward: analysis.contains(git2::MergeAnalysis::ANALYSIS_FASTFORWARD),
            normal: analysis.contains(git2::MergeAnalysis::ANALYSIS_NORMAL),
        };
        match service::merge_action(analysis, label)? {
            MergeAction::Nothing => Ok(()),
            MergeAction::FastForward => self.fast_forward(repo, annotated),
            MergeAction::MergeCommit => self.merge_commit(repo, annotated, label),
        }
    }

    fn fast_forward(&self, repo: &Repository, annotated: &AnnotatedCommit<'_>) -> Result<()> {
        let name = repo
            .head()
            .map_err(refused)?
            .name()
            .map_err(refused)?
            .to_string();
        let target = repo.find_object(annotated.id(), None).map_err(refused)?;
        let mut checkout = CheckoutBuilder::new();
        checkout.safe();
        repo.checkout_tree(&target, Some(&mut checkout))
            .map_err(refused)?;
        repo.find_reference(&name)
            .and_then(|mut reference| {
                reference
                    .set_target(annotated.id(), "khaslana fast-forward")
                    .map(|_| ())
            })
            .map_err(refused)?;
        repo.set_head(&name).map_err(refused)
    }

    fn merge_commit(
        &self,
        repo: &Repository,
        annotated: &AnnotatedCommit<'_>,
        label: &str,
    ) -> Result<()> {
        let head = repo
            .head()
            .and_then(|head| head.peel_to_commit())
            .map_err(refused)?;
        let other = repo.find_commit(annotated.id()).map_err(refused)?;
        let mut index = repo
            .merge_commits(&head, &other, Some(&mut MergeOptions::new()))
            .map_err(refused)?;
        if index.has_conflicts() {
            repo.checkout_index(
                Some(&mut index),
                Some(CheckoutBuilder::new().allow_conflicts(true)),
            )
            .map_err(refused)?;
            repo.cleanup_state().map_err(refused)?;
            return Err(GitError::Conflicts(self.conflicts(repo)?));
        }
        let tree_id = index.write_tree_to(repo).map_err(refused)?;
        let tree = repo.find_tree(tree_id).map_err(refused)?;
        let signature = signature(repo)?;
        let mut repo_index = repo.index().map_err(refused)?;
        repo_index.read_tree(&tree).map_err(refused)?;
        repo_index.write().map_err(refused)?;
        let mut checkout = CheckoutBuilder::new();
        checkout.safe();
        repo.checkout_index(Some(&mut repo_index), Some(&mut checkout))
            .map_err(refused)?;
        repo.commit(
            Some("HEAD"),
            &signature,
            &signature,
            &service::merge_message(label),
            &tree,
            &[&head, &other],
        )
        .map_err(refused)?;
        repo.cleanup_state().map_err(refused)
    }

    fn conflict_entry(
        &self,
        repo: &Repository,
        entry: Option<&git2::IndexEntry>,
    ) -> Option<ConflictEntry> {
        entry.map(|entry| ConflictEntry {
            mode: entry.mode,
            binary: repo
                .find_blob(entry.id)
                .ok()
                .map(|blob| resolve::blob_is_binary(blob.content())),
        })
    }

    fn conflict_file_view(&self, repo: &Repository, path: &Path) -> Result<ConflictFileView> {
        let git_path = path_to_git(path);
        resolve::conflict_to_resolve(
            &parts(path),
            "不能读取冲突详情",
            self.lookup(repo, path),
            &git_path,
        )?;
        let conflict = repo
            .index()
            .and_then(|index| index.conflict_get(path))
            .map_err(refused)?;
        let fallback = resolve::conflict_fallback(
            &git_path,
            &self.conflict_entry(repo, conflict.ancestor.as_ref()),
            &self.conflict_entry(repo, conflict.our.as_ref()),
            &self.conflict_entry(repo, conflict.their.as_ref()),
        );
        if let Some(view) = fallback {
            return Ok(view);
        }
        let (Some(ancestor), Some(ours), Some(theirs)) = (
            conflict.ancestor.as_ref(),
            conflict.our.as_ref(),
            conflict.their.as_ref(),
        ) else {
            return Err(GitError::Message("冲突缺少三方内容".to_string()));
        };
        let mut options = MergeFileOptions::new();
        options
            .style_diff3(true)
            .ancestor_label("BASE")
            .our_label("OURS")
            .their_label("THEIRS");
        let merged = repo
            .merge_file_from_index(ancestor, ours, theirs, Some(&mut options))
            .map_err(refused)?;
        resolve::conflict_file_view(&git_path, merged.content())
    }

    fn apply_conflict_draft(
        &self,
        repo: &mut Repository,
        path: &Path,
        draft: &str,
    ) -> Result<RepositorySnapshot> {
        let plan = self.begin(resolve::apply_conflict_draft(
            &parts(path),
            self.lookup(repo, path),
            repo.workdir().is_some(),
            &path_to_git(path),
            draft,
        ))?;
        self.write_draft(repo, plan.todo);
        self.finished(plan.finished);
        self.snapshot(repo)
    }

    fn apply_conflict_draft_and_resolve(
        &self,
        repo: &mut Repository,
        path: &Path,
        draft: &str,
    ) -> Result<RepositorySnapshot> {
        let plan = self.begin(resolve::apply_conflict_draft_and_resolve(
            &parts(path),
            self.lookup(repo, path),
            repo.workdir().is_some(),
            &path_to_git(path),
            draft,
        ))?;
        self.write_draft(repo, plan.todo);
        let snapshot = self.clear_conflict(repo, path)?;
        self.finished(plan.finished);
        Ok(snapshot)
    }

    fn resolve_conflict_with_side(
        &self,
        repo: &mut Repository,
        path: &Path,
        side: ConflictResolutionSide,
    ) -> Result<RepositorySnapshot> {
        let conflict = repo.index().and_then(|index| index.conflict_get(path)).ok();
        let plan = self.begin(resolve::resolve_conflict_with_side(
            &parts(path),
            self.lookup(repo, path),
            &path_to_git(path),
            side,
            conflict.as_ref().is_some_and(|conflict| conflict.our.is_some()),
            conflict.as_ref().is_some_and(|conflict| conflict.their.is_some()),
        ))?;
        let mut index = repo.index().map_err(refused)?;
        let snapshot = match plan.todo {
            SideAction::CheckOut => {
                let mut checkout = CheckoutBuilder::new();
                checkout
                    .force()
                    .path(path)
                    .disable_pathspec_match(true)
                    .update_index(false);
                match side {
                    ConflictResolutionSide::Ours => checkout.use_ours(true),
                    ConflictResolutionSide::Theirs => checkout.use_theirs(true),
                };
                repo.checkout_index(Some(&mut index), Some(&mut checkout))
                    .map_err(refused)?;
                drop(index);
                self.clear_conflict(repo, path)?
            }
            SideAction::RemoveFile => {
                self.remove_file(repo, path)?;
                index.conflict_remove(path).map_err(refused)?;
                let _ = index.remove_path(path);
                index.write().map_err(refused)?;
                drop(index);
                self.snapshot(repo)?
            }
        };
        self.finished(plan.finished);
        Ok(snapshot)
    }

    fn mark_conflict_resolved(
        &self,
        repo: &mut Repository,
        path: &Path,
    ) -> Result<RepositorySnapshot> {
        let plan = self.begin(resolve::mark_conflict_resolved(
            &parts(path),
            self.lookup(repo, path),
            &path_to_git(path),
            self.path_state(repo, path),
        ))?;
        let snapshot = self.set_entry(repo, path, plan.todo)?;
        self.finished(plan.finished);
        Ok(snapshot)
    }

    fn clear_conflict(&self, repo: &mut Repository, path: &Path) -> Result<RepositorySnapshot> {
        let entry = resolve::mark_conflict_resolved_inner(
            self.lookup(repo, path),
            &path_to_git(path),
            self.path_state(repo, path),
        )?;
        self.set_entry(repo, path, entry)
    }

    fn set_entry(
        &self,
        repo: &mut Repository,
        path: &Path,
        entry: ResolvedEntry,
    ) -> Result<RepositorySnapshot> {
        let mut index = repo.index().map_err(refused)?;
        index.conflict_remove(path).map_err(refused)?;
        match entry {
            ResolvedEntry::Add => index.add_path(path).map_err(refused)?,
            ResolvedEntry::Remove => {
                let _ = index.remove_path(path);
            }
        }
        index.write().map_err(refused)?;
        drop(index);
        self.snapshot(repo)
    }

    fn path_state(&self, repo: &Repository, path: &Path) -> PathState {
        let Some(workdir) = repo.workdir() else {
            return PathState::NoWorktree;
        };
        match workdir.join(path).symlink_metadata() {
            Ok(metadata) if metadata.is_dir() && !metadata.file_type().is_symlink() => {
                PathState::Directory
            }
            Ok(_) => PathState::File,
            Err(error) if error.kind() == std::io::ErrorKind::NotFound => PathState::Missing,
            Err(error) => PathState::Unknown(error.to_string()),
        }
    }

    fn lookup(&self, repo: &Repository, path: &Path) -> ConflictLookup {
        match repo.index().and_then(|index| index.conflict_get(path)) {
            Ok(_) => ConflictLookup::Found,
            Err(error) if error.code() == ErrorCode::NotFound => {
                ConflictLookup::NotFound(error.message().to_string())
            }
            Err(error) => ConflictLookup::Failed(error.message().to_string()),
        }
    }

    fn write_draft(&self, repo: &Repository, draft: DraftWrite) {
        write_file(repo.workdir().unwrap(), &draft.path, &draft.text);
    }

    fn remove_file(&self, repo: &Repository, path: &Path) -> Result<()> {
        if let Some(workdir) = repo.workdir() {
            delete_file(workdir, &path_to_git(path));
        }
        Ok(())
    }

    /// Whether a remote has a branch, as far as is known here.
    fn has_remote_branch(&self, repo: &Repository, remote: &str, branch: &str) -> bool {
        repo.find_reference(&service::remote_ref_name(remote, branch))
            .is_ok()
    }
}

// ---------------------------------------------------------------------------
// Repositories to work on
// ---------------------------------------------------------------------------
struct NoCredentials;

impl CredentialProvider for NoCredentials {
    fn credential_for(&self, _request: CredentialRequest) -> Result<Option<GitCredential>> {
        Ok(None)
    }
}

type Service = Backend<NoCredentials, NoopProgress>;

fn service() -> Service {
    Backend::new(GitService::new(Arc::new(NoCredentials), Arc::new(NoopProgress)))
}

fn names(paths: &[&str]) -> Vec<String> {
    paths.iter().map(|path| path.to_string()).collect()
}

fn make_directory(path: &Path) {
    if path.exists() {
        return;
    }
    let parent = path.parent().unwrap();
    make_directory(parent);
    let name = path.file_name().unwrap().to_str().unwrap();
    let _ = tempfile::Builder::new()
        .prefix(name)
        .rand_bytes(0)
        .tempdir_in(parent)
        .unwrap()
        .keep();
}

/// Writes a file, in place of one that is there.
fn write_file(root: &Path, path: &str, body: &str) {
    let full = root.join(path);
    make_directory(full.parent().unwrap());
    let mut file = tempfile::NamedTempFile::new_in(full.parent().unwrap()).unwrap();
    file.write_all(body.as_bytes()).unwrap();
    file.persist(full).unwrap();
}

fn delete_file(root: &Path, path: &str) {
    let full = root.join(path);
    if full.exists() {
        tempfile::TempPath::try_from_path(full).unwrap().close().unwrap();
    }
}

fn read_file(root: &Path, path: &str) -> String {
    let repo = Repository::open(root).unwrap();
    let blob = repo.blob_path(&root.join(path)).unwrap();
    let content = repo.find_blob(blob).unwrap().content().to_vec();
    String::from_utf8(content).unwrap().replace("\r\n", "\n")
}

fn assert_file_text(root: &Path, path: &str, expected: &str) {
    assert_eq!(read_file(root, path), expected);
}

fn path_url(path: &Path) -> String {
    format!("file://{}", path.display())
}

fn init_repo() -> (TempDir, Repository, Service) {
    let dir = TempDir::new().unwrap();
    let mut options = RepositoryInitOptions::new();
    options.initial_head("main");
    let repo = Repository::init_opts(dir.path(), &options).unwrap();
    configure_user(&repo);
    (dir, repo, service())
}

fn configure_user(repo: &Repository) {
    let mut config = repo.config().unwrap();
    config.set_str("user.name", "Test User").unwrap();
    config
        .set_str("user.email", "test@example.invalid")
        .unwrap();
}

fn commit_all(repo: &Repository, message: &str) -> Oid {
    let mut index = repo.index().unwrap();
    index
        .add_all(["*"].iter(), IndexAddOption::DEFAULT, None)
        .unwrap();
    index.write().unwrap();
    let tree_id = index.write_tree().unwrap();
    let tree = repo.find_tree(tree_id).unwrap();
    let signature = signature(repo).unwrap();
    let parents = parents(repo);
    let parent_refs = parents.iter().collect::<Vec<_>>();
    repo.commit(
        Some("HEAD"),
        &signature,
        &signature,
        message,
        &tree,
        &parent_refs,
    )
    .unwrap()
}

fn clone_repo_with_remote_feature()
-> (TempDir, TempDir, PathBuf, Repository, Service) {
    let remote_dir = TempDir::new().unwrap();
    let mut bare_opts = RepositoryInitOptions::new();
    bare_opts.bare(true).initial_head("main");
    Repository::init_opts(remote_dir.path(), &bare_opts).unwrap();

    let (seed_dir, mut seed_repo, service) = init_repo();
    write_file(seed_dir.path(), "README.md", "seed\n");
    commit_all(&seed_repo, "seed");
    seed_repo
        .remote("origin", &path_url(remote_dir.path()))
        .unwrap();
    service
        .push(&mut seed_repo, "origin")
        .unwrap();
    service
        .create_branch(&mut seed_repo, "feature")
        .unwrap();
    service
        .checkout_branch(&mut seed_repo, "feature")
        .unwrap();
    write_file(seed_dir.path(), "feature.txt", "feature\n");
    commit_all(&seed_repo, "feature");
    service
        .push(&mut seed_repo, "origin")
        .unwrap();

    let clone_dir = TempDir::new().unwrap();
    let clone_path = clone_dir.path().join("clone");
    service
        .clone_repo(&path_url(remote_dir.path()), &clone_path)
        .unwrap();
    let clone_repo = Repository::open(&clone_path).unwrap();
    configure_user(&clone_repo);
    (remote_dir, clone_dir, clone_path, clone_repo, service)
}

fn create_text_conflict() -> (TempDir, Repository, Service) {
    let (dir, mut repo, service) = init_repo();
    write_file(dir.path(), "same.txt", "base\n");
    commit_all(&repo, "initial");

    service
        .create_branch(&mut repo, "feature")
        .unwrap();
    service
        .checkout_branch(&mut repo, "feature")
        .unwrap();
    write_file(dir.path(), "same.txt", "feature\n");
    commit_all(&repo, "feature");

    service
        .checkout_branch(&mut repo, "main")
        .unwrap();
    write_file(dir.path(), "same.txt", "main\n");
    commit_all(&repo, "main");

    let err = service
        .merge_branch(&mut repo, "feature")
        .unwrap_err();
    assert!(matches!(err, GitError::Conflicts(paths) if paths == ["same.txt"]));
    (dir, repo, service)
}

fn create_multi_block_text_conflict() -> (TempDir, Repository, Service) {
    let (dir, mut repo, service) = init_repo();
    write_file(dir.path(), "same.txt", "start\none\nmiddle\ntwo\nend\n");
    commit_all(&repo, "initial");

    service
        .create_branch(&mut repo, "feature")
        .unwrap();
    service
        .checkout_branch(&mut repo, "feature")
        .unwrap();
    write_file(
        dir.path(),
        "same.txt",
        "start\nfeature-one\nmiddle\nfeature-two\nend\n",
    );
    commit_all(&repo, "feature");

    service
        .checkout_branch(&mut repo, "main")
        .unwrap();
    write_file(
        dir.path(),
        "same.txt",
        "start\nmain-one\nmiddle\nmain-two\nend\n",
    );
    commit_all(&repo, "main");

    let err = service
        .merge_branch(&mut repo, "feature")
        .unwrap_err();
    assert!(matches!(err, GitError::Conflicts(paths) if paths == ["same.txt"]));
    (dir, repo, service)
}

fn create_modify_delete_conflict() -> (TempDir, Repository, Service) {
    let (dir, mut repo, service) = init_repo();
    write_file(dir.path(), "same.txt", "base\n");
    commit_all(&repo, "initial");

    service
        .create_branch(&mut repo, "feature")
        .unwrap();
    service
        .checkout_branch(&mut repo, "feature")
        .unwrap();
    delete_file(dir.path(), "same.txt");
    {
        let mut index = repo.index().unwrap();
        index.remove_path(Path::new("same.txt")).unwrap();
        index.write().unwrap();
    }
    commit_all(&repo, "feature deletes");

    service
        .checkout_branch(&mut repo, "main")
        .unwrap();
    write_file(dir.path(), "same.txt", "main\n");
    commit_all(&repo, "main modifies");

    let err = service
        .merge_branch(&mut repo, "feature")
        .unwrap_err();
    assert!(matches!(err, GitError::Conflicts(paths) if paths == ["same.txt"]));
    (dir, repo, service)
}

#[test]
fn branch_create_rename_delete() {
    let (dir, mut repo, service) = init_repo();
    write_file(dir.path(), "README.md", "hello");
    commit_all(&repo, "initial");

    service
        .create_branch(&mut repo, "feature")
        .unwrap();
    assert!(repo.find_branch("feature", BranchType::Local).is_ok());

    service
        .rename_branch(
            &mut repo,
            "feature",
            "topic",
        )
        .unwrap();
    assert!(repo.find_branch("feature", BranchType::Local).is_err());
    assert!(repo.find_branch("topic", BranchType::Local).is_ok());

    service
        .delete_branch(&mut repo, "topic")
        .unwrap();
    assert!(repo.find_branch("topic", BranchType::Local).is_err());
}

#[test]
fn stage_unstage_and_commit() {
    let (dir, mut repo, service) = init_repo();
    write_file(dir.path(), "src/lib.rs", "pub fn value() -> i32 { 1 }\n");

    service
        .stage_paths(&mut repo, &names(&["src/lib.rs"]))
        .unwrap();
    let changes = service.status_full(&repo).unwrap();
    assert_eq!(changes[0].staged, Some(ChangeState::Added));

    service
        .unstage_paths(&mut repo, &names(&["src/lib.rs"]))
        .unwrap();
    let changes = service.status_full(&repo).unwrap();
    assert_eq!(changes[0].unstaged, Some(ChangeState::Untracked));

    service
        .stage_paths(&mut repo, &names(&["src/lib.rs"]))
        .unwrap();
    write_file(dir.path(), "src/lib.rs", "pub fn value() -> i32 { 2 }\n");
    let changes = service.status_full(&repo).unwrap();
    let change = changes
        .iter()
        .find(|change| change.path == "src/lib.rs")
        .unwrap();
    assert_eq!(change.staged, Some(ChangeState::Added));
    assert_eq!(change.unstaged, Some(ChangeState::Modified));
    service
        .stage_paths(&mut repo, &names(&["src/lib.rs"]))
        .unwrap();
    service
        .commit(&mut repo, "add library")
        .unwrap();
    assert!(service.status_full(&repo).unwrap().is_empty());
}

#[test]
fn batch_stage_and_unstage_paths() {
    let (dir, mut repo, service) = init_repo();
    write_file(dir.path(), "one.txt", "one\n");
    write_file(dir.path(), "two.txt", "two\n");

    let paths = names(&["one.txt", "two.txt"]);
    service.stage_paths(&mut repo, &paths).unwrap();
    let changes = service.status_full(&repo).unwrap();
    assert!(changes.iter().any(|change| {
        change.path == "one.txt" && change.staged == Some(ChangeState::Added)
    }));
    assert!(changes.iter().any(|change| {
        change.path == "two.txt" && change.staged == Some(ChangeState::Added)
    }));

    service.unstage_paths(&mut repo, &paths).unwrap();
    let changes = service.status_full(&repo).unwrap();
    assert!(changes.iter().any(|change| {
        change.path == "one.txt" && change.unstaged == Some(ChangeState::Untracked)
    }));
    assert!(changes.iter().any(|change| {
        change.path == "two.txt" && change.unstaged == Some(ChangeState::Untracked)
    }));
}

#[test]
fn batch_stage_handles_deleted_files() {
    let (dir, mut repo, service) = init_repo();
    write_file(dir.path(), "keep.txt", "keep\n");
    write_file(dir.path(), "remove.txt", "remove\n");
    commit_all(&repo, "initial");

    delete_file(dir.path(), "remove.txt");
    write_file(dir.path(), "keep.txt", "changed\n");

    let paths = names(&["keep.txt", "remove.txt"]);
    service.stage_paths(&mut repo, &paths).unwrap();
    let changes = service.status_full(&repo).unwrap();
    assert!(changes.iter().any(|change| {
        change.path == "keep.txt" && change.staged == Some(ChangeState::Modified)
    }));
    assert!(changes.iter().any(|change| {
        change.path == "remove.txt" && change.staged == Some(ChangeState::Deleted)
    }));
}

#[test]
fn status_fast_skips_untracked_but_keeps_tracked_and_staged_changes() {
    let (dir, mut repo, service) = init_repo();
    write_file(dir.path(), "tracked.txt", "one\n");
    write_file(dir.path(), "staged.txt", "one\n");
    commit_all(&repo, "initial");

    write_file(dir.path(), "tracked.txt", "one\ntwo\n");
    write_file(dir.path(), "staged.txt", "one\ntwo\n");
    service
        .stage_paths(&mut repo, &names(&["staged.txt"]))
        .unwrap();
    write_file(dir.path(), "untracked.txt", "new\n");

    let fast = service.status_fast(&repo).unwrap();
    assert!(fast.iter().any(|change| {
        change.path == "tracked.txt" && change.unstaged == Some(ChangeState::Modified)
    }));
    assert!(fast.iter().any(|change| {
        change.path == "staged.txt" && change.staged == Some(ChangeState::Modified)
    }));
    assert!(!fast.iter().any(|change| change.path == "untracked.txt"));

    let full = service.status_full(&repo).unwrap();
    assert!(full.iter().any(|change| {
        change.path == "untracked.txt" && change.unstaged == Some(ChangeState::Untracked)
    }));
}

#[test]
fn metadata_snapshot_excludes_status_changes() {
    let (dir, mut repo, service) = init_repo();
    write_file(dir.path(), "tracked.txt", "one\n");
    commit_all(&repo, "initial");
    write_file(dir.path(), "tracked.txt", "one\ntwo\n");
    write_file(dir.path(), "untracked.txt", "new\n");

    let metadata = service.snapshot_metadata(&mut repo).unwrap();
    assert_eq!(metadata.head.as_deref(), Some("main"));
    assert!(metadata.branches.iter().any(|branch| branch.name == "main"));
    assert!(metadata.changes.is_empty());

    let full = service.snapshot(&mut repo).unwrap();
    assert!(!full.changes.is_empty());
}

#[test]
fn merge_success() {
    let (dir, mut repo, service) = init_repo();
    write_file(dir.path(), "base.txt", "base\n");
    commit_all(&repo, "initial");

    service
        .create_branch(&mut repo, "feature")
        .unwrap();
    service
        .checkout_branch(&mut repo, "feature")
        .unwrap();
    write_file(dir.path(), "feature.txt", "feature\n");
    commit_all(&repo, "feature");

    service
        .checkout_branch(&mut repo, "main")
        .unwrap();
    write_file(dir.path(), "main.txt", "main\n");
    commit_all(&repo, "main");

    service
        .merge_branch(&mut repo, "feature")
        .unwrap();
    assert!(dir.path().join("feature.txt").exists());
    assert!(service.conflicts(&repo).unwrap().is_empty());
}

#[test]
fn merge_conflict_detection() {
    let (dir, mut repo, service) = init_repo();
    write_file(dir.path(), "same.txt", "base\n");
    commit_all(&repo, "initial");

    service
        .create_branch(&mut repo, "feature")
        .unwrap();
    service
        .checkout_branch(&mut repo, "feature")
        .unwrap();
    write_file(dir.path(), "same.txt", "feature\n");
    commit_all(&repo, "feature");

    service
        .checkout_branch(&mut repo, "main")
        .unwrap();
    write_file(dir.path(), "same.txt", "main\n");
    commit_all(&repo, "main");

    let err = service
        .merge_branch(&mut repo, "feature")
        .unwrap_err();
    assert!(matches!(err, GitError::Conflicts(paths) if paths == ["same.txt"]));
}

#[test]
fn clone_fetch_push_against_local_bare_remote() {
    let remote_dir = TempDir::new().unwrap();
    let mut bare_opts = RepositoryInitOptions::new();
    bare_opts.bare(true).initial_head("main");
    Repository::init_opts(remote_dir.path(), &bare_opts).unwrap();

    let (seed_dir, mut seed_repo, service) = init_repo();
    write_file(seed_dir.path(), "README.md", "seed\n");
    commit_all(&seed_repo, "seed");
    seed_repo
        .remote("origin", &path_url(remote_dir.path()))
        .unwrap();
    service
        .push(&mut seed_repo, "origin")
        .unwrap();

    let clone_dir = TempDir::new().unwrap();
    let clone_path = clone_dir.path().join("clone");
    let snapshot = service
        .clone_repo(&path_url(remote_dir.path()), &clone_path)
        .unwrap();
    assert_eq!(snapshot.head.as_deref(), Some("main"));

    let mut clone_repo = Repository::open(&clone_path).unwrap();
    configure_user(&clone_repo);
    write_file(&clone_path, "clone.txt", "clone\n");
    commit_all(&clone_repo, "clone");
    service
        .push(&mut clone_repo, "origin")
        .unwrap();

    let other_dir = TempDir::new().unwrap();
    let other_path = other_dir.path().join("other");
    service
        .clone_repo(&path_url(remote_dir.path()), &other_path)
        .unwrap();
    assert!(other_path.join("clone.txt").exists());
}

#[test]
fn open_fast_lists_only_local_branches() {
    let (_remote_dir, _clone_dir, clone_path, mut repo, service) =
        clone_repo_with_remote_feature();
    service
        .fetch(&mut repo, "origin")
        .unwrap();

    let fast = service.open_fast(&clone_path).unwrap();
    assert!(
        fast.branches
            .iter()
            .all(|branch| branch.kind == BranchKind::Local)
    );
    assert!(fast.branches.iter().any(|branch| branch.name == "main"));
    assert!(fast.remotes.is_empty());
    assert!(fast.changes.is_empty());
    assert!(fast.tags.is_empty());
    assert!(fast.stashes.is_empty());

    let details = service.snapshot(&mut repo).unwrap();
    assert!(details.remotes.iter().any(|remote| remote.name == "origin"));
    assert!(details.branches.iter().any(|branch| {
        branch.kind == BranchKind::Remote && branch.name == "origin/feature"
    }));
}

#[test]
fn checkout_remote_branch_creates_tracks_and_switches() {
    let (_remote_dir, _clone_dir, _clone_path, mut repo, service) =
        clone_repo_with_remote_feature();
    service
        .fetch(&mut repo, "origin")
        .unwrap();

    let snapshot = service
        .checkout_remote_branch(&mut repo, "origin/feature")
        .unwrap();

    assert_eq!(snapshot.head.as_deref(), Some("feature"));
    assert!(repo.find_branch("feature", BranchType::Local).is_ok());
    let branch = repo.find_branch("feature", BranchType::Local).unwrap();
    let upstream = branch.upstream().unwrap();
    assert_eq!(upstream.name().unwrap(), Some("origin/feature"));
    assert!(repo.workdir().unwrap().join("feature.txt").exists());
}

#[test]
fn checkout_remote_branch_reuses_existing_local_branch() {
    let (_remote_dir, _clone_dir, _clone_path, mut repo, service) =
        clone_repo_with_remote_feature();
    service
        .fetch(&mut repo, "origin")
        .unwrap();
    service
        .create_branch(&mut repo, "feature")
        .unwrap();

    let snapshot = service
        .checkout_remote_branch(&mut repo, "origin/feature")
        .unwrap();

    assert_eq!(snapshot.head.as_deref(), Some("feature"));
    let branch = repo.find_branch("feature", BranchType::Local).unwrap();
    let upstream = branch.upstream().unwrap();
    assert_eq!(upstream.name().unwrap(), Some("origin/feature"));
}

#[test]
fn credential_provider_is_called_when_required() {
    struct CountingProvider(Arc<AtomicUsize>);

    impl CredentialProvider for CountingProvider {
        fn credential_for(
            &self,
            _request: CredentialRequest,
        ) -> Result<Option<GitCredential>> {
            self.0.fetch_add(1, Ordering::SeqCst);
            Ok(None)
        }
    }

    let count = Arc::new(AtomicUsize::new(0));
    let service = GitService::new(
        Arc::new(CountingProvider(count.clone())),
        Arc::new(NoopProgress),
    );
    let result = credential_for_remote(
        None,
        service.credential_provider.as_ref(),
        "https://example.invalid/repo.git",
        None,
        CredentialType::USER_PASS_PLAINTEXT,
        None,
        None,
    );
    assert!(result.is_err());
    assert_eq!(count.load(Ordering::SeqCst), 1);
}

#[test]
fn diff_for_staged_file() {
    let (dir, mut repo, service) = init_repo();
    write_file(dir.path(), "file.txt", "one\n");
    commit_all(&repo, "initial");
    write_file(dir.path(), "file.txt", "one\ntwo\n");
    service
        .stage_paths(&mut repo, &names(&["file.txt"]))
        .unwrap();

    let diff = service
        .diff_for_path(&repo, Path::new("file.txt"), DiffScope::Staged, DiffEncodingChoice::Auto)
        .unwrap();
    let added = diff
        .lines
        .iter()
        .find(|line| line.kind == DiffLineKind::Added && line.content.contains("two"))
        .unwrap();
    assert_eq!(added.old_lineno, None);
    assert_eq!(added.new_lineno, Some(2));
}

#[test]
fn diff_uses_three_context_lines() {
    let (dir, mut repo, service) = init_repo();
    let original = (1..=12)
        .map(|line| format!("line {line}\n"))
        .collect::<String>();
    write_file(dir.path(), "file.txt", &original);
    commit_all(&repo, "initial");

    let modified = (1..=12)
        .map(|line| {
            if line == 8 {
                "line 8 changed\n".to_string()
            } else {
                format!("line {line}\n")
            }
        })
        .collect::<String>();
    write_file(dir.path(), "file.txt", &modified);
    service
        .stage_paths(&mut repo, &names(&["file.txt"]))
        .unwrap();

    let diff = service
        .diff_for_path(&repo, Path::new("file.txt"), DiffScope::Staged, DiffEncodingChoice::Auto)
        .unwrap();
    let body = diff
        .lines
        .iter()
        .filter(|line| line.kind != DiffLineKind::Header)
        .map(|line| line.content.as_str())
        .collect::<Vec<_>>();

    assert!(body.iter().any(|line| line.contains("line 5")));
    assert!(body.iter().any(|line| line.contains("line 11")));
    assert!(!body.iter().any(|line| line.contains("line 4")));
    assert!(!body.iter().any(|line| line.contains("line 12")));
}

#[test]
fn commit_history_pages_and_commit_diff() {
    let (dir, repo, service) = init_repo();
    write_file(dir.path(), "root.txt", "root\n");
    let root_oid = commit_all(&repo, "root commit");
    write_file(dir.path(), "file.txt", "one\n");
    commit_all(&repo, "add file");
    write_file(dir.path(), "file.txt", "one\ntwo\n");
    commit_all(&repo, "modify file");

    let first_page = service.commit_graph(&repo, true, 0, 2).unwrap();
    assert_eq!(first_page.len(), 2);
    assert_eq!(first_page[0].summary, "modify file");
    assert_eq!(first_page[1].summary, "add file");

    let second_page = service.commit_graph(&repo, true, 2, 2).unwrap();
    assert_eq!(second_page.len(), 1);
    assert_eq!(second_page[0].summary, "root commit");
    assert_ne!(first_page[1].oid, second_page[0].oid);

    let files = service.commit_files(&repo, &first_page[0].oid).unwrap();
    assert!(
        files
            .iter()
            .any(|file| { file.path == "file.txt" && file.status == ChangeState::Modified })
    );
    let diff = service
        .commit_file_diff(&repo, &first_page[0].oid, Path::new("file.txt"), DiffEncodingChoice::Auto)
        .unwrap();
    assert!(diff.lines.iter().any(|line| {
        line.kind == DiffLineKind::Added
            && line.content.contains("two")
            && line.new_lineno == Some(2)
    }));

    let root_files = service.commit_files(&repo, &root_oid.to_string()).unwrap();
    assert!(
        root_files
            .iter()
            .any(|file| { file.path == "root.txt" && file.status == ChangeState::Added })
    );
    let root_diff = service
        .commit_file_diff(&repo, &root_oid.to_string(), Path::new("root.txt"), DiffEncodingChoice::Auto)
        .unwrap();
    assert!(
        root_diff
            .lines
            .iter()
            .any(|line| line.kind == DiffLineKind::Added && line.content.contains("root"))
    );
}

#[test]
fn commit_graph_lists_all_branch_reachable_commits_and_refs() {
    let (dir, mut repo, service) = init_repo();
    write_file(dir.path(), "root.txt", "root\n");
    let root_oid = commit_all(&repo, "root commit");

    service
        .create_branch(&mut repo, "feature")
        .unwrap();
    service
        .checkout_branch(&mut repo, "feature")
        .unwrap();
    write_file(dir.path(), "feature.txt", "feature\n");
    let feature_oid = commit_all(&repo, "feature commit");

    service
        .checkout_branch(&mut repo, "main")
        .unwrap();
    write_file(dir.path(), "main.txt", "main\n");
    let main_oid = commit_all(&repo, "main commit");

    repo.reference("refs/remotes/origin/feature", feature_oid, true, "test")
        .unwrap();
    let feature_commit = repo.find_commit(feature_oid).unwrap();
    repo.tag_lightweight("v-feature", feature_commit.as_object(), false)
        .unwrap();
    drop(feature_commit);

    let commits = service.commit_graph(&repo, true, 0, 20).unwrap();
    let summaries = commits
        .iter()
        .map(|commit| commit.summary.as_str())
        .collect::<Vec<_>>();
    assert!(summaries.contains(&"main commit"));
    assert!(summaries.contains(&"feature commit"));
    assert!(summaries.contains(&"root commit"));

    let feature = commits
        .iter()
        .find(|commit| commit.oid == feature_oid.to_string())
        .unwrap();
    assert!(feature.parents.contains(&root_oid.to_string()));
    assert!(feature.refs.iter().any(|reference| {
        reference.kind == CommitRefKind::LocalBranch && reference.name == "feature"
    }));
    assert!(feature.refs.iter().any(|reference| {
        reference.kind == CommitRefKind::RemoteBranch && reference.name == "origin/feature"
    }));
    assert!(feature.refs.iter().any(|reference| {
        reference.kind == CommitRefKind::Tag && reference.name == "v-feature"
    }));

    let main = commits
        .iter()
        .find(|commit| commit.oid == main_oid.to_string())
        .unwrap();
    assert!(
        main.refs
            .iter()
            .any(|reference| reference.kind == CommitRefKind::Head)
    );
}

#[test]
fn commit_graph_records_merge_parents() {
    let (dir, mut repo, service) = init_repo();
    write_file(dir.path(), "base.txt", "base\n");
    commit_all(&repo, "initial");

    service
        .create_branch(&mut repo, "feature")
        .unwrap();
    service
        .checkout_branch(&mut repo, "feature")
        .unwrap();
    write_file(dir.path(), "feature.txt", "feature\n");
    let feature_oid = commit_all(&repo, "feature");

    service
        .checkout_branch(&mut repo, "main")
        .unwrap();
    write_file(dir.path(), "main.txt", "main\n");
    let main_oid = commit_all(&repo, "main");

    service
        .merge_branch(&mut repo, "feature")
        .unwrap();
    let merge_oid = repo.head().unwrap().target().unwrap();

    let commits = service.commit_graph(&repo, true, 0, 20).unwrap();
    let merge = commits
        .iter()
        .find(|commit| commit.oid == merge_oid.to_string())
        .unwrap();
    assert_eq!(merge.parents.len(), 2);
    assert!(merge.parents.contains(&main_oid.to_string()));
    assert!(merge.parents.contains(&feature_oid.to_string()));
}

#[test]
fn commit_graph_paginates_without_duplicates() {
    let (dir, repo, service) = init_repo();
    for index in 0..5 {
        write_file(dir.path(), "file.txt", &format!("{index}\n"));
        commit_all(&repo, &format!("commit {index}"));
    }

    let first_page = service.commit_graph(&repo, true, 0, 3).unwrap();
    let second_page = service.commit_graph(&repo, true, 3, 3).unwrap();
    assert_eq!(first_page.len(), 3);
    assert_eq!(second_page.len(), 2);
    let first_oids = first_page
        .iter()
        .map(|commit| commit.oid.as_str())
        .collect::<BTreeSet<_>>();
    for commit in second_page {
        assert!(!first_oids.contains(commit.oid.as_str()));
    }
}

#[test]
fn commit_graph_empty_repo_returns_empty() {
    let (_dir, repo, service) = init_repo();
    let commits = service.commit_graph(&repo, true, 0, 20).unwrap();
    assert!(commits.is_empty());
}

#[test]
fn reset_to_commit_soft_keeps_changes_staged() {
    let (dir, mut repo, service) = init_repo();
    write_file(dir.path(), "file.txt", "one\n");
    let first_oid = commit_all(&repo, "one");
    write_file(dir.path(), "file.txt", "two\n");
    commit_all(&repo, "two");

    service
        .reset_to_commit(&mut repo, &first_oid.to_string(), ResetMode::Soft)
        .unwrap();

    assert_eq!(repo.head().unwrap().target(), Some(first_oid));
    let changes = service.status_full(&repo).unwrap();
    let file = changes
        .iter()
        .find(|change| change.path == "file.txt")
        .unwrap();
    assert_eq!(file.staged, Some(ChangeState::Modified));
    assert_eq!(file.unstaged, None);
}

#[test]
fn reset_to_commit_mixed_keeps_changes_unstaged() {
    let (dir, mut repo, service) = init_repo();
    write_file(dir.path(), "file.txt", "one\n");
    let first_oid = commit_all(&repo, "one");
    write_file(dir.path(), "file.txt", "two\n");
    commit_all(&repo, "two");

    service
        .reset_to_commit(&mut repo, &first_oid.to_string(), ResetMode::Mixed)
        .unwrap();

    assert_eq!(repo.head().unwrap().target(), Some(first_oid));
    let changes = service.status_full(&repo).unwrap();
    let file = changes
        .iter()
        .find(|change| change.path == "file.txt")
        .unwrap();
    assert_eq!(file.staged, None);
    assert_eq!(file.unstaged, Some(ChangeState::Modified));
}

#[test]
fn reset_to_commit_hard_updates_head_and_worktree() {
    let (dir, mut repo, service) = init_repo();
    write_file(dir.path(), "file.txt", "one\n");
    let first_oid = commit_all(&repo, "one");
    write_file(dir.path(), "file.txt", "two\n");
    commit_all(&repo, "two");

    service
        .reset_to_commit(&mut repo, &first_oid.to_string(), ResetMode::Hard)
        .unwrap();

    assert_eq!(repo.head().unwrap().target(), Some(first_oid));
    assert_eq!(
        read_file(dir.path(), "file.txt"),
        "one\n"
    );
    assert!(service.status_full(&repo).unwrap().is_empty());
}

#[test]
fn reset_to_commit_rejects_detached_head() {
    let (dir, mut repo, service) = init_repo();
    write_file(dir.path(), "file.txt", "one\n");
    let first_oid = commit_all(&repo, "one");
    repo.set_head_detached(first_oid).unwrap();

    let error = service
        .reset_to_commit(&mut repo, &first_oid.to_string(), ResetMode::Mixed)
        .unwrap_err();
    assert!(error.message().contains("detached HEAD"));
}

#[test]
fn revert_commit_creates_new_commit_and_restores_content() {
    let (dir, mut repo, service) = init_repo();
    write_file(dir.path(), "file.txt", "one\n");
    commit_all(&repo, "one");
    write_file(dir.path(), "file.txt", "two\n");
    let second_oid = commit_all(&repo, "two");

    service
        .revert_commit(&mut repo, &second_oid.to_string())
        .unwrap();

    let head = repo.head().unwrap().peel_to_commit().unwrap();
    assert_ne!(head.id(), second_oid);
    assert!(head.summary().unwrap().unwrap().contains("Revert"));
    assert_eq!(
        read_file(dir.path(), "file.txt"),
        "one\n"
    );
    assert!(service.status_full(&repo).unwrap().is_empty());
}

#[test]
fn revert_commit_rejects_dirty_worktree() {
    let (dir, mut repo, service) = init_repo();
    write_file(dir.path(), "file.txt", "one\n");
    commit_all(&repo, "one");
    write_file(dir.path(), "file.txt", "two\n");
    let second_oid = commit_all(&repo, "two");
    write_file(dir.path(), "scratch.txt", "dirty\n");

    let error = service
        .revert_commit(&mut repo, &second_oid.to_string())
        .unwrap_err();
    assert!(error.message().contains("工作区修改"));
}

#[test]
fn revert_commit_rejects_merge_commit() {
    let (dir, mut repo, service) = init_repo();
    write_file(dir.path(), "base.txt", "base\n");
    commit_all(&repo, "initial");

    service
        .create_branch(&mut repo, "feature")
        .unwrap();
    service
        .checkout_branch(&mut repo, "feature")
        .unwrap();
    write_file(dir.path(), "feature.txt", "feature\n");
    commit_all(&repo, "feature");

    service
        .checkout_branch(&mut repo, "main")
        .unwrap();
    write_file(dir.path(), "main.txt", "main\n");
    commit_all(&repo, "main");

    service
        .merge_branch(&mut repo, "feature")
        .unwrap();
    let merge_oid = repo.head().unwrap().target().unwrap();

    let error = service
        .revert_commit(&mut repo, &merge_oid.to_string())
        .unwrap_err();
    assert!(error.message().contains("合并提交"));
}

#[test]
fn merge_commit_files_use_first_parent_diff() {
    let (dir, mut repo, service) = init_repo();
    write_file(dir.path(), "base.txt", "base\n");
    commit_all(&repo, "initial");

    service
        .create_branch(&mut repo, "feature")
        .unwrap();
    service
        .checkout_branch(&mut repo, "feature")
        .unwrap();
    write_file(dir.path(), "feature.txt", "feature\n");
    commit_all(&repo, "feature");

    service
        .checkout_branch(&mut repo, "main")
        .unwrap();
    write_file(dir.path(), "main.txt", "main\n");
    commit_all(&repo, "main");

    let snapshot = service
        .merge_branch(&mut repo, "feature")
        .unwrap();
    assert_eq!(snapshot.head.as_deref(), Some("main"));

    let merge_oid = repo.head().unwrap().target().unwrap().to_string();
    let commit = repo
        .find_commit(git2::Oid::from_str(&merge_oid).unwrap())
        .unwrap();
    assert_eq!(commit.parent_count(), 2);

    let files = service.commit_files(&repo, &merge_oid).unwrap();
    assert!(
        files
            .iter()
            .any(|file| { file.path == "feature.txt" && file.status == ChangeState::Added })
    );
    assert!(!files.iter().any(|file| file.path == "main.txt"));
}

#[test]
fn snapshot_lists_tags_and_stashes() {
    let (dir, mut repo, service) = init_repo();
    write_file(dir.path(), "file.txt", "one\n");
    commit_all(&repo, "initial");

    let head = repo.head().unwrap().peel_to_commit().unwrap();
    repo.tag_lightweight("v1.0.0", head.as_object(), false)
        .unwrap();
    drop(head);

    write_file(dir.path(), "scratch.txt", "stash me\n");
    let signature = signature(&repo).unwrap();
    repo.stash_save(
        &signature,
        "work in progress",
        Some(git2::StashFlags::INCLUDE_UNTRACKED),
    )
    .unwrap();

    let snapshot = service.snapshot(&mut repo).unwrap();
    assert!(snapshot.tags.iter().any(|tag| tag.name == "v1.0.0"));
    assert_eq!(snapshot.stashes.len(), 1);
    assert_eq!(snapshot.stashes[0].index, 0);
    assert!(snapshot.stashes[0].message.contains("work in progress"));
}

#[test]
fn checkout_tag_detaches_head_and_updates_worktree() {
    let (dir, mut repo, service) = init_repo();
    write_file(dir.path(), "file.txt", "one\n");
    commit_all(&repo, "one");
    let first = repo.head().unwrap().peel_to_commit().unwrap();
    repo.tag_lightweight("v1", first.as_object(), false)
        .unwrap();
    drop(first);

    write_file(dir.path(), "file.txt", "two\n");
    commit_all(&repo, "two");

    service
        .checkout_tag(&mut repo, "v1")
        .unwrap();

    assert!(repo.head_detached().unwrap());
    assert_eq!(
        read_file(dir.path(), "file.txt"),
        "one\n"
    );
}

#[test]
fn stash_apply_keeps_entry_and_pop_removes_it() {
    let (dir, mut repo, service) = init_repo();
    write_file(dir.path(), "file.txt", "base\n");
    commit_all(&repo, "initial");

    write_file(dir.path(), "file.txt", "applied\n");
    let sig = signature(&repo).unwrap();
    repo.stash_save(&sig, "change file", None).unwrap();
    assert_eq!(service.stashes(&mut repo).unwrap().len(), 1);

    service.apply_stash(&mut repo, 0).unwrap();
    assert_eq!(
        read_file(dir.path(), "file.txt"),
        "applied\n"
    );
    assert_eq!(service.stashes(&mut repo).unwrap().len(), 1);

    let (pop_dir, mut pop_repo, pop_service) = init_repo();
    write_file(pop_dir.path(), "file.txt", "base\n");
    commit_all(&pop_repo, "initial");
    write_file(pop_dir.path(), "file.txt", "popped\n");
    let sig = signature(&pop_repo).unwrap();
    pop_repo.stash_save(&sig, "pop file", None).unwrap();

    pop_service.pop_stash(&mut pop_repo, 0).unwrap();
    assert_eq!(
        read_file(pop_dir.path(), "file.txt"),
        "popped\n"
    );
    assert!(pop_service.stashes(&mut pop_repo).unwrap().is_empty());
}

#[test]
fn resolve_conflict_with_ours_keeps_current_branch_version() {
    let (dir, mut repo, service) = create_text_conflict();

    let snapshot = service
        .resolve_conflict_with_side(
            &mut repo,
            Path::new("same.txt"),
            ConflictResolutionSide::Ours,
        )
        .unwrap();

    assert!(snapshot.conflicts.is_empty());
    assert_file_text(dir.path(), "same.txt", "main\n");
    service
        .commit(&mut repo, "resolve with ours")
        .unwrap();
    assert!(service.status_full(&repo).unwrap().is_empty());
}

#[test]
fn resolve_conflict_with_theirs_keeps_incoming_branch_version() {
    let (dir, mut repo, service) = create_text_conflict();

    let snapshot = service
        .resolve_conflict_with_side(
            &mut repo,
            Path::new("same.txt"),
            ConflictResolutionSide::Theirs,
        )
        .unwrap();

    assert!(snapshot.conflicts.is_empty());
    assert_file_text(dir.path(), "same.txt", "feature\n");
    service
        .commit(&mut repo, "resolve with theirs")
        .unwrap();
    assert!(service.status_full(&repo).unwrap().is_empty());
}

#[test]
fn mark_conflict_resolved_accepts_manual_resolution() {
    let (dir, mut repo, service) = create_text_conflict();
    write_file(dir.path(), "same.txt", "manual\n");

    let snapshot = service
        .mark_conflict_resolved(&mut repo, Path::new("same.txt"))
        .unwrap();

    assert!(snapshot.conflicts.is_empty());
    assert_file_text(dir.path(), "same.txt", "manual\n");
    service
        .commit(&mut repo, "manual resolution")
        .unwrap();
    assert!(service.status_full(&repo).unwrap().is_empty());
}

#[test]
fn resolve_modify_delete_conflict_can_keep_or_delete_file() {
    let (dir, mut repo, service) = create_modify_delete_conflict();
    service
        .resolve_conflict_with_side(
            &mut repo,
            Path::new("same.txt"),
            ConflictResolutionSide::Ours,
        )
        .unwrap();
    assert_file_text(dir.path(), "same.txt", "main\n");
    assert!(service.conflicts(&repo).unwrap().is_empty());

    let (dir, mut repo, service) = create_modify_delete_conflict();
    service
        .resolve_conflict_with_side(
            &mut repo,
            Path::new("same.txt"),
            ConflictResolutionSide::Theirs,
        )
        .unwrap();
    assert!(!dir.path().join("same.txt").exists());
    assert!(service.conflicts(&repo).unwrap().is_empty());
}

#[test]
fn resolve_conflict_rejects_non_conflicted_path() {
    let (dir, mut repo, service) = init_repo();
    write_file(dir.path(), "same.txt", "base\n");
    commit_all(&repo, "initial");

    let error = service
        .resolve_conflict_with_side(
            &mut repo,
            Path::new("same.txt"),
            ConflictResolutionSide::Ours,
        )
        .unwrap_err();

    assert!(error.message().contains("不存在冲突"));
}

#[test]
fn conflict_file_view_parses_multiple_text_blocks_and_starts_with_ours_result() {
    let (_dir, repo, service) = create_multi_block_text_conflict();

    let view = service
        .conflict_file_view(&repo, Path::new("same.txt"))
        .unwrap();

    assert_eq!(view.kind, ConflictFileKind::Text);
    assert_eq!(view.blocks.len(), 2);
    assert_eq!(view.blocks[0].ours, "main-one\n");
    assert_eq!(view.blocks[0].theirs, "feature-one\n");
    assert_eq!(view.blocks[0].base.as_deref(), Some("one\n"));
    assert_eq!(view.blocks[1].ours, "main-two\n");
    assert_eq!(view.blocks[1].theirs, "feature-two\n");
    assert_eq!(view.draft, "start\nmain-one\nmiddle\nmain-two\nend\n");
    assert_eq!(view.draft_status, ConflictDraftStatus::Clean);
}

#[test]
fn conflict_file_view_block_actions_update_draft_and_shift_ranges() {
    let (_dir, repo, service) = create_multi_block_text_conflict();

    let mut view = service
        .conflict_file_view(&repo, Path::new("same.txt"))
        .unwrap();
    view.apply_block_resolution(0, ConflictBlockResolution::Theirs);
    view.apply_block_resolution(1, ConflictBlockResolution::BothOursFirst);

    assert_eq!(
        view.draft,
        "start\nfeature-one\nmiddle\nmain-two\nfeature-two\nend\n"
    );
    assert_eq!(
        view.blocks[0].resolution,
        Some(ConflictBlockResolution::Theirs)
    );
    assert_eq!(
        view.blocks[1].resolution,
        Some(ConflictBlockResolution::BothOursFirst)
    );
    assert_eq!(view.draft_status, ConflictDraftStatus::Dirty);
}

#[test]
fn apply_conflict_draft_writes_file_but_keeps_conflict_unresolved() {
    let (dir, mut repo, service) = create_text_conflict();

    let mut view = service
        .conflict_file_view(&repo, Path::new("same.txt"))
        .unwrap();
    view.apply_block_resolution(0, ConflictBlockResolution::Theirs);
    let snapshot = service
        .apply_conflict_draft(&mut repo, Path::new("same.txt"), &view.draft)
        .unwrap();

    assert_file_text(dir.path(), "same.txt", "feature\n");
    assert_eq!(snapshot.conflicts, vec!["same.txt".to_string()]);
    assert_eq!(
        service.conflicts(&repo).unwrap(),
        vec!["same.txt".to_string()]
    );
}

#[test]
fn apply_conflict_draft_and_resolve_clears_conflict_and_allows_commit() {
    let (dir, mut repo, service) = create_text_conflict();

    let view = service
        .conflict_file_view(&repo, Path::new("same.txt"))
        .unwrap();
    let snapshot = service
        .apply_conflict_draft_and_resolve(&mut repo, Path::new("same.txt"), &view.draft)
        .unwrap();

    assert_file_text(dir.path(), "same.txt", "main\n");
    assert!(snapshot.conflicts.is_empty());
    service
        .commit(&mut repo, "resolve from workbench")
        .unwrap();
}

#[test]
fn mark_conflict_file_with_missing_side_as_unsupported() {
    let (_dir, repo, service) = create_modify_delete_conflict();

    let view = service
        .conflict_file_view(&repo, Path::new("same.txt"))
        .unwrap();

    assert_eq!(view.kind, ConflictFileKind::Unsupported);
    assert!(view.blocks.is_empty());
    assert!(view.fallback_reason.is_some());
}

// ---------------------------------------------------------------------------
// Workflows
// ---------------------------------------------------------------------------
fn facts<C: CredentialProvider, P: ProgressEmitter>(
    backend: &Backend<C, P>,
    repo: &Repository,
) -> RepositoryFacts {
    RepositoryFacts {
        current_branch: backend.current_branch(repo),
        head: match repo.head() {
            Ok(head) => match head.target() {
                Some(oid) => HeadState::Commit(oid.to_string()),
                None => HeadState::NoTarget,
            },
            Err(error) => HeadState::Failed(error.message().to_string()),
        },
    }
}

fn context<C: CredentialProvider, P: ProgressEmitter>(
    backend: &Backend<C, P>,
    repo: &Repository,
) -> WorkflowEvalContext {
        let directory = repo
        .workdir()
        .unwrap_or_else(|| repo.path())
        .file_name()
        .map(|name| name.to_string_lossy().into_owned());
    WorkflowEvalContext::new(
        1_700_000_000,
        0,
        8 * 3600,
        backend.current_branch(repo),
        directory,
    )
}

fn preview_workflow<C: CredentialProvider, P: ProgressEmitter>(
    backend: &Backend<C, P>,
    repo: &Repository,
    definition: &WorkflowDefinition,
    options: &WorkflowRunOptions,
) -> Result<WorkflowPreview> {
    WorkflowExecutor::new(&backend.service).preview(
        definition,
        options,
        &context(backend, repo),
        &facts(backend, repo),
    )
}

fn run_workflow<C: CredentialProvider, P: ProgressEmitter>(
    backend: &Backend<C, P>,
    repo: &mut Repository,
    definition: &WorkflowDefinition,
    options: &WorkflowRunOptions,
    mut progress: impl FnMut(WorkflowProgressEvent),
) -> Result<WorkflowRunResult> {
    let executor = WorkflowExecutor::new(&backend.service);
    if executor.check_run(definition, options)? {
        ensure_clean_worktree(&backend.status_full(repo)?)?;
    }
    let (mut run, started) = WorkflowRun::start(definition);
    progress(started);
    let context = context(backend, repo);
    loop {
        let facts = facts(backend, repo);
        let resolver = WorkflowResolver::new(definition, options, &context, &facts);
        match run.next(&resolver)? {
            RunNext::Done => break,
            RunNext::Step { step, event } => {
                progress(event);
                let snapshot = execute(backend, repo, &step)?;
                progress(run.step_finished(snapshot));
            }
        }
    }
    let taken = match run.last_snapshot {
        Some(_) => None,
        None => Some(backend.snapshot(repo)?),
    };
    let (result, finished) = run.finish(taken);
    progress(finished);
    Ok(result)
}

fn execute<C: CredentialProvider, P: ProgressEmitter>(
    backend: &Backend<C, P>,
    repo: &mut Repository,
    step: &ResolvedWorkflowStep,
) -> Result<RepositorySnapshot> {
    let mut last = None;
    for action in step.execute() {
        let answer = match action {
            StepAction::CheckStatus => StepAnswer::Status(backend.status_full(repo)?),
            StepAction::CheckBranch { .. } => StepAnswer::Branch(backend.current_branch(repo)),
            StepAction::FindRemoteBranch { remote, branch } => {
                StepAnswer::RemoteBranch(backend.has_remote_branch(repo, &remote, &branch))
            }
            action => {
                last = Some(change(backend, repo, action)?);
                StepAnswer::Done
            }
        };
        if answer != StepAnswer::Done {
            last = None;
        }
        step.check_answer(&answer)?;
    }
    match last {
        Some(snapshot) => Ok(snapshot),
        None => backend.snapshot(repo),
    }
}

fn change<C: CredentialProvider, P: ProgressEmitter>(
    backend: &Backend<C, P>,
    repo: &mut Repository,
    action: StepAction,
) -> Result<RepositorySnapshot> {
    match action {
        StepAction::Checkout { branch } => backend.checkout_branch(repo, &branch),
        StepAction::Fetch { remote } => backend.fetch(repo, &remote),
        StepAction::Pull { remote } => backend.pull(repo, &remote),
        StepAction::CreateBranch {
            name,
            from,
            checkout,
        } => backend.create_branch_from(repo, &name, from.as_deref(), checkout),
        StepAction::Merge { branch } => backend.merge_branch(repo, &branch),
        StepAction::Push {
            remote,
            branch,
            set_upstream,
        } => backend.push_branch(repo, &remote, &branch, set_upstream),
        StepAction::CheckStatus
        | StepAction::CheckBranch { .. }
        | StepAction::FindRemoteBranch { .. } => backend.snapshot(repo),
    }
}

fn resolve_template(
    service: &Service,
    repo: &Repository,
    definition: &WorkflowDefinition,
    options: &WorkflowRunOptions,
    template: &str,
) -> Result<String> {
    WorkflowExecutor::new(&service.service).resolve_template(
        definition,
        options,
        &context(service, repo),
        &facts(service, repo),
        template,
    )
}

type Value = serde_json::Value;

fn text_at(value: &Value, name: &str) -> Option<String> {
    value.get(name).and_then(Value::as_str).map(str::to_string)
}

fn field(name: &str, value: &Value) -> StepField {
    let value = match value {
        Value::String(text) => FieldValue::Text(text.clone()),
        Value::Bool(flag) => FieldValue::Flag(*flag),
        Value::Null => FieldValue::Null,
        _ => FieldValue::Other,
    };
    StepField {
        name: name.to_string(),
        value,
    }
}

fn faulty(fault: FieldFault) -> GitError {
    GitError::Message(format!("{fault:?}"))
}

fn fields(step: &Value) -> Vec<StepField> {
    step.as_object()
        .unwrap()
        .iter()
        .map(|(name, value)| field(name, value))
        .collect()
}

fn read_workflow(text: &str) -> Result<WorkflowDefinition> {
    let value: Value = json5::from_str(text).unwrap();
    let mut inputs = TextMap::new();
    for (name, input) in value.get("inputs").and_then(Value::as_object).into_iter().flatten() {
        inputs.insert(
            name.clone(),
            read_input(&fields(input)).map_err(faulty)?,
        );
    }
    let mut vars = TextMap::new();
    for (name, text) in value.get("vars").and_then(Value::as_object).into_iter().flatten() {
        vars.insert(name.clone(), text.as_str().unwrap().to_string());
    }
    let definition = WorkflowDefinition {
        version: value["version"].as_u64().unwrap() as u32,
        name: text_at(&value, "name"),
        defaults: match value.get("defaults") {
            Some(given) => read_defaults(&fields(given)).map_err(faulty)?,
            None => WorkflowDefaults::default(),
        },
        inputs,
        vars,
        steps: read_steps(&value["steps"].as_array().unwrap().iter().map(fields).collect())
            .map_err(faulty)?,
    };
    validate_definition(&definition)?;
    Ok(definition)
}

fn init_remote_workflow_repo() -> (TempDir, TempDir, Repository, Service) {
    let remote_dir = TempDir::new().unwrap();
    let mut bare_opts = RepositoryInitOptions::new();
    bare_opts.bare(true).initial_head("main");
    Repository::init_opts(remote_dir.path(), &bare_opts).unwrap();

    let (source_dir, mut source, service) = init_repo();
    write_file(source_dir.path(), "README.md", "hello\n");
    commit_all(&source, "initial");
    source
        .remote("origin", &path_url(remote_dir.path()))
        .unwrap();
    service
        .push_branch(
            &mut source,
            "origin",
            "main",
            true,
        )
        .unwrap();
    service
        .create_branch_from(
            &mut source,
            "existing",
            Some("main"),
            true,
        )
        .unwrap();
    service
        .push_branch(
            &mut source,
            "origin",
            "existing",
            true,
        )
        .unwrap();

    let clone_dir = TempDir::new().unwrap();
    let clone_path = clone_dir.path().join("clone");
    service
        .clone_repo(
            &path_url(remote_dir.path()),
            &clone_path,
        )
        .unwrap();
    let mut clone = Repository::open(&clone_path).unwrap();
    configure_user(&clone);
    service
        .fetch(&mut clone, "origin")
        .unwrap();
    (remote_dir, clone_dir, clone, service)
}

fn create_remote_branch(remote_dir: &Path, branch: &str) {
    let service = service();
    let work_dir = TempDir::new().unwrap();
    let work_path = work_dir.path().join("work");
    service
        .clone_repo(&path_url(remote_dir), &work_path)
        .unwrap();
    let mut repo = Repository::open(&work_path).unwrap();
    configure_user(&repo);
    service
        .create_branch_from(
            &mut repo,
            branch,
            Some("main"),
            true,
        )
        .unwrap();
    write_file(&work_path, "branch.txt", branch);
    commit_all(&repo, "remote branch");
    service
        .push_branch(
            &mut repo,
            "origin",
            branch,
            true,
        )
        .unwrap();
}

#[test]
fn parses_json5_with_comments_and_variables() {
    let definition = read_workflow(
        r#"
        {
          version: 1,
          name: "demo",
          vars: {
            target: "release/${date:%Y%m%d}",
          },
          // comment
          steps: [
            { op: "checkout", branch: "main" },
            { op: "createBranch", name: "${target}", from: "main", checkout: true },
          ],
        }
        "#,
    )
    .unwrap();

    assert_eq!(definition.display_name(), "demo");
    assert_eq!(definition.steps.len(), 2);
}

#[test]
fn parses_workflow_inputs() {
    let definition = read_workflow(
        r#"
        {
          version: 1,
          inputs: {
            target: {
              label: "目标分支",
              description: "运行前填写",
              default: "feature/${date:%Y%m%d}",
            },
            optionalName: { required: false },
          },
          steps: [{ op: "createBranch", name: "${target}" }],
        }
        "#,
    )
    .unwrap();

    let target = definition.inputs.get("target").unwrap();
    assert_eq!(target.label.as_deref(), Some("目标分支"));
    assert_eq!(target.description.as_deref(), Some("运行前填写"));
    assert!(target.required);
    assert!(!definition.inputs.get("optionalName").unwrap().required);
}

#[test]
fn rejects_unknown_version() {
    let err =
        read_workflow("{ version: 99, steps: [{ op: \"ensureClean\" }] }").unwrap_err();
    assert!(err.message().contains("不支持的工作流版本"));
}

#[test]
fn rejects_builtin_input_names() {
    let err = read_workflow(
        r#"
        {
          version: 1,
          inputs: { "git.currentBranch": { default: "main" } },
          steps: [{ op: "ensureClean" }],
        }
        "#,
    )
    .unwrap_err();
    assert!(err.message().contains("内置变量名"));
}

#[test]
fn detects_variable_cycles() {
    let (dir, repo, service) = init_repo();
    write_file(dir.path(), "README.md", "hello\n");
    commit_all(&repo, "initial");
    let definition = read_workflow(
        r#"
        {
          version: 1,
          vars: { a: "${b}", b: "${a}" },
          steps: [{ op: "assertBranch", branch: "${a}" }],
        }
        "#,
    )
    .unwrap();
            let err = preview_workflow(&service, &repo, &definition, &WorkflowRunOptions::default())
        .unwrap_err();
    assert!(err.message().contains("循环引用"));
}

#[test]
fn input_values_override_vars() {
    let (dir, repo, service) = init_repo();
    write_file(dir.path(), "README.md", "hello\n");
    commit_all(&repo, "initial");
    let definition = read_workflow(
        r#"
        {
          version: 1,
          inputs: { target: { default: "from-input" } },
          vars: { target: "from-vars" },
          steps: [{ op: "createBranch", name: "${target}" }],
        }
        "#,
    )
    .unwrap();
    let mut chosen = TextMap::new();
    chosen.insert("target".to_string(), "chosen".to_string());
    let options = WorkflowRunOptions {
        input_vars: chosen,
        ..WorkflowRunOptions::default()
    };

    let preview = preview_workflow(&service, &repo, &definition, &options)
        .unwrap();

    assert_eq!(
        preview.steps[0].summary,
        "基于 当前 HEAD 创建分支 chosen并切换"
    );
}

#[test]
fn required_input_values_must_not_be_empty() {
    let (dir, repo, service) = init_repo();
    write_file(dir.path(), "README.md", "hello\n");
    commit_all(&repo, "initial");
    let definition = read_workflow(
        r#"
        {
          version: 1,
          inputs: { target: { label: "目标分支" } },
          steps: [{ op: "createBranch", name: "${target}" }],
        }
        "#,
    )
    .unwrap();

    let err = preview_workflow(&service, &repo, &definition, &WorkflowRunOptions::default())
        .unwrap_err();

    assert!(err.message().contains("请填写工作流变量：目标分支"));
}

#[test]
fn resolves_input_defaults_with_existing_variables() {
    let (dir, repo, service) = init_repo();
    write_file(dir.path(), "README.md", "hello\n");
    commit_all(&repo, "initial");
    let definition = read_workflow(
        r#"
        {
          version: 1,
          vars: { prefix: "feature" },
          inputs: { target: { default: "${prefix}/${git.initialBranch}" } },
          steps: [{ op: "createBranch", name: "${target}" }],
        }
        "#,
    )
    .unwrap();
    let default = resolve_template(&service, &repo,
            &definition,
            &WorkflowRunOptions::default(),
            definition.inputs.get("target").unwrap().default.as_deref().unwrap(),
        )
        .unwrap();

    assert_eq!(default, "feature/main");
}

#[test]
fn workflow_methods_can_build_branch_names_from_variables() {
    let (dir, repo, service) = init_repo();
    write_file(dir.path(), "README.md", "hello\n");
    commit_all(&repo, "initial");
    let definition = read_workflow(
        r#"
        {
          version: 1,
          vars: {
            rawBranch: "feature/User Story_123",
            target: "tmp/${rawBranch | split:'/' | last | slug | truncate:12}",
          },
          steps: [{ op: "createBranch", name: "${target}" }],
        }
        "#,
    )
    .unwrap();

    let preview = preview_workflow(&service, &repo, &definition, &WorkflowRunOptions::default())
        .unwrap();

    assert_eq!(
        preview.steps[0].summary,
        "基于 当前 HEAD 创建分支 tmp/user-story-1并切换"
    );
}

#[test]
fn workflow_methods_work_in_input_defaults() {
    let (dir, repo, service) = init_repo();
    write_file(dir.path(), "README.md", "hello\n");
    commit_all(&repo, "initial");
    let definition = read_workflow(
        r#"
        {
          version: 1,
          inputs: {
            target: { default: "feature/${git.initialBranch | split:'/' | last | slug}" },
          },
          steps: [{ op: "assertBranch", branch: "${target}" }],
        }
        "#,
    )
    .unwrap();

    let default = resolve_template(&service, &repo,
            &definition,
            &WorkflowRunOptions::default(),
            definition.inputs.get("target").unwrap().default.as_deref().unwrap(),
        )
        .unwrap();

    assert_eq!(default, "feature/main");
}

#[test]
fn guard_remote_branch_defaults_are_fail_on_exists_and_continue_on_missing() {
    let definition = read_workflow(
        r#"
        {
          version: 1,
          steps: [{ op: "guardRemoteBranch", branch: "target" }],
        }
        "#,
    )
    .unwrap();

    let WorkflowStep::GuardRemoteBranch {
        remote,
        branch,
        fetch,
        on_exists,
        on_missing,
    } = &definition.steps[0]
    else {
        panic!("expected guardRemoteBranch");
    };

    assert!(remote.is_none());
    assert_eq!(branch, "target");
    assert!(*fetch);
    assert_eq!(*on_exists, RemoteBranchGuardAction::Fail);
    assert_eq!(*on_missing, RemoteBranchGuardAction::Continue);
}

#[test]
fn guard_remote_branch_preview_shows_policy_and_does_not_change_current_branch() {
    let (dir, repo, service) = init_repo();
    write_file(dir.path(), "README.md", "hello\n");
    commit_all(&repo, "initial");
    let definition = read_workflow(
        r#"
        {
          version: 1,
          steps: [
            { op: "guardRemoteBranch", remote: "origin", branch: "target", fetch: false },
            { op: "push", remote: "origin" },
          ],
        }
        "#,
    )
    .unwrap();

    let preview = preview_workflow(&service, &repo, &definition, &WorkflowRunOptions::default())
        .unwrap();

    assert_eq!(
        preview.steps[0].summary,
        "检查远端分支 origin/target（基于本地引用，存在则停止，不存在则继续）"
    );
    assert_eq!(preview.steps[1].summary, "推送分支 main 到 origin");
}

#[test]
fn guard_remote_branch_fails_when_remote_branch_exists_by_default() {
    let (_remote_dir, _clone_dir, mut repo, service) = init_remote_workflow_repo();
    let definition = read_workflow(
        r#"
        {
          version: 1,
          steps: [{ op: "guardRemoteBranch", remote: "origin", branch: "existing", fetch: false }],
        }
        "#,
    )
    .unwrap();

    let err = run_workflow(&service, &mut repo,
            &definition,
            &WorkflowRunOptions::default(),
            |_| {},
        )
        .unwrap_err();

    assert!(err.message().contains("远端分支已存在：origin/existing"));
}

#[test]
fn guard_remote_branch_can_continue_when_remote_branch_exists() {
    let (_remote_dir, _clone_dir, mut repo, service) = init_remote_workflow_repo();
    let definition = read_workflow(
        r#"
        {
          version: 1,
          steps: [
            {
              op: "guardRemoteBranch",
              remote: "origin",
              branch: "existing",
              fetch: false,
              onExists: "continue",
            },
            { op: "assertBranch", branch: "main" },
          ],
        }
        "#,
    )
    .unwrap();

    let result = run_workflow(&service, &mut repo,
            &definition,
            &WorkflowRunOptions::default(),
            |_| {},
        )
        .unwrap();

    assert_eq!(result.steps_run, 2);
}

#[test]
fn guard_remote_branch_can_fail_when_remote_branch_is_missing() {
    let (_remote_dir, _clone_dir, mut repo, service) = init_remote_workflow_repo();
    let definition = read_workflow(
        r#"
        {
          version: 1,
          steps: [
            {
              op: "guardRemoteBranch",
              remote: "origin",
              branch: "missing",
              fetch: false,
              onExists: "continue",
              onMissing: "fail",
            },
          ],
        }
        "#,
    )
    .unwrap();

    let err = run_workflow(&service, &mut repo,
            &definition,
            &WorkflowRunOptions::default(),
            |_| {},
        )
        .unwrap_err();

    assert!(err.message().contains("远端分支不存在：origin/missing"));
}

#[test]
fn guard_remote_branch_fetch_true_refreshes_remote_refs_before_checking() {
    let (remote_dir, _clone_dir, mut repo, service) = init_remote_workflow_repo();
    create_remote_branch(remote_dir.path(), "fresh");
    let definition = read_workflow(
        r#"
        {
          version: 1,
          steps: [{ op: "guardRemoteBranch", remote: "origin", branch: "fresh" }],
        }
        "#,
    )
    .unwrap();

    let err = run_workflow(&service, &mut repo,
            &definition,
            &WorkflowRunOptions::default(),
            |_| {},
        )
        .unwrap_err();

    assert!(err.message().contains("远端分支已存在：origin/fresh"));
}

#[test]
fn guard_remote_branch_fetch_false_uses_local_remote_refs_only() {
    let (remote_dir, _clone_dir, mut repo, service) = init_remote_workflow_repo();
    create_remote_branch(remote_dir.path(), "fresh");
    let definition = read_workflow(
        r#"
        {
          version: 1,
          steps: [{ op: "guardRemoteBranch", remote: "origin", branch: "fresh", fetch: false }],
        }
        "#,
    )
    .unwrap();

    let result = run_workflow(&service, &mut repo,
            &definition,
            &WorkflowRunOptions::default(),
            |_| {},
        )
        .unwrap();

    assert_eq!(result.steps_run, 1);
}

#[test]
fn guard_remote_branch_rejects_branch_with_remote_prefix() {
    let (dir, repo, service) = init_repo();
    write_file(dir.path(), "README.md", "hello\n");
    commit_all(&repo, "initial");
    let definition = read_workflow(
        r#"
        {
          version: 1,
          steps: [{ op: "guardRemoteBranch", remote: "origin", branch: "origin/target" }],
        }
        "#,
    )
    .unwrap();

    let err = preview_workflow(&service, &repo, &definition, &WorkflowRunOptions::default())
        .unwrap_err();

    assert!(err.message().contains("不要带远端名前缀"));
}

#[test]
fn guard_remote_branch_branch_supports_expression_methods() {
    let (dir, repo, service) = init_repo();
    write_file(dir.path(), "README.md", "hello\n");
    commit_all(&repo, "initial");
    let definition = read_workflow(
        r#"
        {
          version: 1,
          vars: { target: "feature/demo" },
          steps: [
            { op: "guardRemoteBranch", remote: "origin", branch: "${target | split:'/' | last}", fetch: false },
          ],
        }
        "#,
    )
    .unwrap();

    let preview = preview_workflow(&service, &repo, &definition, &WorkflowRunOptions::default())
        .unwrap();

    assert_eq!(
        preview.steps[0].summary,
        "检查远端分支 origin/demo（基于本地引用，存在则停止，不存在则继续）"
    );
}

#[test]
fn final_array_workflow_expression_is_rejected() {
    let (dir, repo, service) = init_repo();
    write_file(dir.path(), "README.md", "hello\n");
    commit_all(&repo, "initial");
    let definition = read_workflow(
        r#"
        {
          version: 1,
          vars: { target: "${git.initialBranch | split:'/'}" },
          steps: [{ op: "createBranch", name: "${target}" }],
        }
        "#,
    )
    .unwrap();

    let err = preview_workflow(&service, &repo, &definition, &WorkflowRunOptions::default())
        .unwrap_err();

    assert!(err.message().contains("最终结果是数组"));
}

#[test]
fn preview_uses_checkout_branch_for_implicit_push_branch() {
    let (dir, repo, service) = init_repo();
    write_file(dir.path(), "README.md", "hello\n");
    commit_all(&repo, "initial");
    let definition = read_workflow(
        r#"
        {
          version: 1,
          steps: [
            { op: "checkout", branch: "test" },
            { op: "push", remote: "origin" },
          ],
        }
        "#,
    )
    .unwrap();

    let preview = preview_workflow(&service, &repo, &definition, &WorkflowRunOptions::default())
        .unwrap();

    assert_eq!(preview.steps[1].summary, "推送分支 test 到 origin");
}

#[test]
fn preview_tracks_create_branch_checkout_for_current_branch() {
    let (dir, repo, service) = init_repo();
    write_file(dir.path(), "README.md", "hello\n");
    commit_all(&repo, "initial");
    let definition = read_workflow(
        r#"
        {
          version: 1,
          steps: [
            { op: "createBranch", name: "A", checkout: true },
            { op: "assertBranch", branch: "${git.currentBranch}" },
            { op: "push", remote: "origin" },
          ],
        }
        "#,
    )
    .unwrap();

    let preview = preview_workflow(&service, &repo, &definition, &WorkflowRunOptions::default())
        .unwrap();

    assert_eq!(preview.steps[1].summary, "确认当前分支是 A");
    assert_eq!(preview.steps[2].summary, "推送分支 A 到 origin");
}

#[test]
fn preview_does_not_track_create_branch_without_checkout() {
    let (dir, repo, service) = init_repo();
    write_file(dir.path(), "README.md", "hello\n");
    commit_all(&repo, "initial");
    let definition = read_workflow(
        r#"
        {
          version: 1,
          steps: [
            { op: "createBranch", name: "A", checkout: false },
            { op: "push", remote: "origin" },
          ],
        }
        "#,
    )
    .unwrap();

    let preview = preview_workflow(&service, &repo, &definition, &WorkflowRunOptions::default())
        .unwrap();

    assert_eq!(preview.steps[1].summary, "推送分支 main 到 origin");
}

#[test]
fn workflow_creates_branch_merges_and_asserts_dynamic_variables() {
    let (dir, mut repo, service) = init_repo();
    write_file(dir.path(), "README.md", "base\n");
    commit_all(&repo, "initial");

    service
        .create_branch_from(
            &mut repo,
            "B",
            Some("main"),
            true,
        )
        .unwrap();
    write_file(dir.path(), "feature.txt", "feature\n");
    commit_all(&repo, "feature");
    service
        .checkout_branch(&mut repo, "main")
        .unwrap();

    let definition = read_workflow(
        r#"
        {
          version: 1,
          vars: {
            target: "A-${git.initialBranch}",
          },
          steps: [
            { op: "checkout", branch: "main" },
            { op: "createBranch", name: "${target}", from: "main", checkout: true },
            { op: "merge", branch: "B" },
            { op: "assertBranch", branch: "${target}" },
          ],
        }
        "#,
    )
    .unwrap();

            let mut events = Vec::new();
    let result = run_workflow(&service, &mut repo,
            &definition,
            &WorkflowRunOptions::default(),
            |event| events.push(event),
        )
        .unwrap();

    assert_eq!(result.steps_run, 4);
    assert_eq!(result.snapshot.head.as_deref(), Some("A-main"));
    assert_eq!(service.current_branch(&repo).as_deref(), Some("A-main"));
    assert!(dir.path().join("feature.txt").exists());
    assert!(events.len() >= 6);
}

#[test]
fn default_clean_worktree_check_rejects_dirty_repo() {
    let (dir, mut repo, service) = init_repo();
    write_file(dir.path(), "README.md", "base\n");
    commit_all(&repo, "initial");
    write_file(dir.path(), "README.md", "dirty\n");
    let definition =
        read_workflow("{ version: 1, steps: [{ op: \"ensureClean\" }] }").unwrap();
    
    let err = run_workflow(&service, &mut repo,
            &definition,
            &WorkflowRunOptions::default(),
            |_| {},
        )
        .unwrap_err();

    assert!(err.message().contains("工作区存在未提交更改"));
}

