//! Previewing and running workflows.

use vstd::prelude::*;

use crate::credentials::CredentialProvider;
use crate::git::service::{GitService, ProgressEmitter};
use crate::strings::{cat2, cat3, cat4, cat5, clone_opt, contains_text, decimal, join, joined, opt_view, str_eq, usize_to_string, views};
use crate::types::{GitError, RepositorySnapshot, WorktreeChange};
use crate::workflow::remote_branch_guard::{
    RemoteBranchGuardAction, guard_fault, guard_remote_branch, guard_summary, guard_text, has_remote_prefix,
    validate_remote_branch_name,
};
use crate::workflow::resolver::{RepositoryFacts, ResolveFault, ScopeView, WorkflowEvalContext, WorkflowResolver, gives, reports};
use crate::workflow::{WorkflowDefinition, WorkflowRunOptions, WorkflowStep, missing_input, validate_definition, validate_input_values};

verus! {

/// A step with what its texts stand for.
#[derive(Debug, PartialEq, Eq)]
pub enum ResolvedWorkflowStep {
    Checkout { branch: String },
    Fetch { remote: String },
    Pull { remote: String },
    CreateBranch { name: String, from: Option<String>, checkout: bool },
    Merge { branch: String },
    Push { remote: String, branch: String, set_upstream: bool },
    GuardRemoteBranch {
        remote: String,
        branch: String,
        fetch: bool,
        on_exists: RemoteBranchGuardAction,
        on_missing: RemoteBranchGuardAction,
    },
    EnsureClean,
    AssertBranch { branch: String },
}

pub enum ResolvedStepView {
    Checkout { branch: Seq<char> },
    Fetch { remote: Seq<char> },
    Pull { remote: Seq<char> },
    CreateBranch { name: Seq<char>, from: Option<Seq<char>>, checkout: bool },
    Merge { branch: Seq<char> },
    Push { remote: Seq<char>, branch: Seq<char>, set_upstream: bool },
    GuardRemoteBranch {
        remote: Seq<char>,
        branch: Seq<char>,
        fetch: bool,
        on_exists: RemoteBranchGuardAction,
        on_missing: RemoteBranchGuardAction,
    },
    EnsureClean,
    AssertBranch { branch: Seq<char> },
}

impl View for ResolvedWorkflowStep {
    type V = ResolvedStepView;

    open spec fn view(&self) -> ResolvedStepView {
        match self {
            ResolvedWorkflowStep::Checkout { branch } => ResolvedStepView::Checkout {
                branch: branch@,
            },
            ResolvedWorkflowStep::Fetch { remote } => ResolvedStepView::Fetch { remote: remote@ },
            ResolvedWorkflowStep::Pull { remote } => ResolvedStepView::Pull { remote: remote@ },
            ResolvedWorkflowStep::CreateBranch {
                name,
                from,
                checkout,
            } => ResolvedStepView::CreateBranch {
                name: name@,
                from: opt_view(*from),
                checkout: *checkout,
            },
            ResolvedWorkflowStep::Merge { branch } => ResolvedStepView::Merge { branch: branch@ },
            ResolvedWorkflowStep::Push {
                remote,
                branch,
                set_upstream,
            } => ResolvedStepView::Push {
                remote: remote@,
                branch: branch@,
                set_upstream: *set_upstream,
            },
            ResolvedWorkflowStep::GuardRemoteBranch {
                remote,
                branch,
                fetch,
                on_exists,
                on_missing,
            } => ResolvedStepView::GuardRemoteBranch {
                remote: remote@,
                branch: branch@,
                fetch: *fetch,
                on_exists: *on_exists,
                on_missing: *on_missing,
            },
            ResolvedWorkflowStep::EnsureClean => ResolvedStepView::EnsureClean,
            ResolvedWorkflowStep::AssertBranch { branch } => ResolvedStepView::AssertBranch {
                branch: branch@,
            },
        }
    }
}

impl ResolvedStepView {
    /// What the step is called when it runs.
    pub open spec fn label(self) -> Seq<char> {
        match self {
            ResolvedStepView::Checkout { branch } => "切换到分支 "@ + branch,
            ResolvedStepView::Fetch { remote } => "获取远端 "@ + remote,
            ResolvedStepView::Pull { remote } => "拉取远端 "@ + remote,
            ResolvedStepView::CreateBranch { name, from, checkout } => "基于 "@ + (match from {
                Some(from) => from,
                None => "当前 HEAD"@,
            }) + " 创建分支 "@ + name + (if checkout {
                "并切换"@
            } else {
                ""@
            }),
            ResolvedStepView::Merge { branch } => "合并分支 "@ + branch,
            ResolvedStepView::Push { remote, branch, .. } => "推送分支 "@ + branch + " 到 "@
                + remote,
            ResolvedStepView::GuardRemoteBranch {
                remote,
                branch,
                fetch,
                on_exists,
                on_missing,
            } => guard_text(remote, branch, fetch, on_exists, on_missing),
            ResolvedStepView::EnsureClean => "检查工作区干净"@,
            ResolvedStepView::AssertBranch { branch } => "确认当前分支是 "@ + branch,
        }
    }

    /// The branch that is checked out after the step, given the one that was before.
    pub open spec fn branch_after(self, current: Option<Seq<char>>) -> Option<Seq<char>> {
        match self {
            ResolvedStepView::Checkout { branch } => Some(branch),
            ResolvedStepView::CreateBranch { name, checkout, .. } => if checkout {
                Some(name)
            } else {
                current
            },
            _ => current,
        }
    }
}

impl ScopeView {
    /// What a step comes to.
    pub open spec fn step(self, step: WorkflowStep) -> Result<ResolvedStepView, ResolveFault> {
        match step {
            WorkflowStep::Checkout { branch } => match self.text(branch@) {
                Ok(branch) => Ok(ResolvedStepView::Checkout { branch }),
                Err(fault) => Err(fault),
            },
            WorkflowStep::Fetch { remote } => match self.remote_of(opt_view(remote)) {
                Ok(remote) => Ok(ResolvedStepView::Fetch { remote }),
                Err(fault) => Err(fault),
            },
            WorkflowStep::Pull { remote } => match self.remote_of(opt_view(remote)) {
                Ok(remote) => Ok(ResolvedStepView::Pull { remote }),
                Err(fault) => Err(fault),
            },
            WorkflowStep::CreateBranch { name, from, checkout } => {
                let start: Result<Option<Seq<char>>, ResolveFault> = match from {
                    Some(from) => match self.text(from@) {
                        Ok(from) => Ok(Some(from)),
                        Err(fault) => Err(fault),
                    },
                    None => Ok(None),
                };
                match (start, self.text(name@)) {
                    (Err(fault), _) => Err(fault),
                    (_, Err(fault)) => Err(fault),
                    (Ok(from), Ok(name)) => Ok(
                        ResolvedStepView::CreateBranch { name, from, checkout },
                    ),
                }
            },
            WorkflowStep::Merge { branch } => match self.text(branch@) {
                Ok(branch) => Ok(ResolvedStepView::Merge { branch }),
                Err(fault) => Err(fault),
            },
            WorkflowStep::Push { remote, branch, set_upstream } => match (
                self.remote_of(opt_view(remote)),
                self.branch_of(opt_view(branch)),
            ) {
                (Err(fault), _) => Err(fault),
                (_, Err(fault)) => Err(fault),
                (Ok(remote), Ok(branch)) => Ok(
                    ResolvedStepView::Push { remote, branch, set_upstream },
                ),
            },
            WorkflowStep::GuardRemoteBranch {
                remote,
                branch,
                fetch,
                on_exists,
                on_missing,
            } => match (self.remote_of(opt_view(remote)), self.text(branch@)) {
                (Err(fault), _) => Err(fault),
                (_, Err(fault)) => Err(fault),
                (Ok(remote), Ok(branch)) => if has_remote_prefix(remote, branch) {
                    Err(ResolveFault::RemotePrefix(branch))
                } else {
                    Ok(
                        ResolvedStepView::GuardRemoteBranch {
                            remote,
                            branch,
                            fetch,
                            on_exists,
                            on_missing,
                        },
                    )
                },
            },
            WorkflowStep::EnsureClean => Ok(ResolvedStepView::EnsureClean),
            WorkflowStep::AssertBranch { branch } => match self.text(branch@) {
                Ok(branch) => Ok(ResolvedStepView::AssertBranch { branch }),
                Err(fault) => Err(fault),
            },
        }
    }
}

/// Whether a result is the given step, or reports the given fault.
pub open spec fn gives_step(
    r: Result<ResolvedWorkflowStep, GitError>,
    step: Result<ResolvedStepView, ResolveFault>,
) -> bool {
    match step {
        Ok(view) => r matches Ok(s) && s@ == view,
        Err(fault) => r matches Err(e) && reports(e, fault),
    }
}

impl WorkflowStep {
    /// What the step comes to.
    pub fn resolve(&self, resolver: &WorkflowResolver<'_>) -> (r: Result<
        ResolvedWorkflowStep,
        GitError,
    >)
        requires
            resolver.wf(),
        ensures
            gives_step(r, resolver@.step(*self)),
    {
        match self {
            WorkflowStep::Checkout { branch } => match resolver.interpolate(branch.as_str()) {
                Ok(branch) => Ok(ResolvedWorkflowStep::Checkout { branch }),
                Err(e) => Err(e),
            },
            WorkflowStep::Fetch { remote } => match resolver.remote_name(remote) {
                Ok(remote) => Ok(ResolvedWorkflowStep::Fetch { remote }),
                Err(e) => Err(e),
            },
            WorkflowStep::Pull { remote } => match resolver.remote_name(remote) {
                Ok(remote) => Ok(ResolvedWorkflowStep::Pull { remote }),
                Err(e) => Err(e),
            },
            WorkflowStep::CreateBranch { name, from, checkout } => {
                let start: Option<String> = match from {
                    Some(from) => match resolver.interpolate(from.as_str()) {
                        Ok(from) => Some(from),
                        Err(e) => {
                            return Err(e);
                        },
                    },
                    None => None,
                };
                match resolver.interpolate(name.as_str()) {
                    Ok(name) => Ok(
                        ResolvedWorkflowStep::CreateBranch {
                            name,
                            from: start,
                            checkout: *checkout,
                        },
                    ),
                    Err(e) => Err(e),
                }
            },
            WorkflowStep::Merge { branch } => match resolver.interpolate(branch.as_str()) {
                Ok(branch) => Ok(ResolvedWorkflowStep::Merge { branch }),
                Err(e) => Err(e),
            },
            WorkflowStep::Push { remote, branch, set_upstream } => {
                let remote: String = match resolver.remote_name(remote) {
                    Ok(remote) => remote,
                    Err(e) => {
                        return Err(e);
                    },
                };
                match resolver.branch_or_current(branch) {
                    Ok(branch) => Ok(
                        ResolvedWorkflowStep::Push {
                            remote,
                            branch,
                            set_upstream: *set_upstream,
                        },
                    ),
                    Err(e) => Err(e),
                }
            },
            WorkflowStep::GuardRemoteBranch { remote, branch, fetch, on_exists, on_missing } => {
                let remote: String = match resolver.remote_name(remote) {
                    Ok(remote) => remote,
                    Err(e) => {
                        return Err(e);
                    },
                };
                let branch: String = match resolver.interpolate(branch.as_str()) {
                    Ok(branch) => branch,
                    Err(e) => {
                        return Err(e);
                    },
                };
                match validate_remote_branch_name(remote.as_str(), branch.as_str()) {
                    Ok(()) => Ok(
                        ResolvedWorkflowStep::GuardRemoteBranch {
                            remote,
                            branch,
                            fetch: *fetch,
                            on_exists: *on_exists,
                            on_missing: *on_missing,
                        },
                    ),
                    Err(e) => Err(e),
                }
            },
            WorkflowStep::EnsureClean => Ok(ResolvedWorkflowStep::EnsureClean),
            WorkflowStep::AssertBranch { branch } => match resolver.interpolate(branch.as_str()) {
                Ok(branch) => Ok(ResolvedWorkflowStep::AssertBranch { branch }),
                Err(e) => Err(e),
            },
        }
    }
}

impl ResolvedWorkflowStep {
    /// What the step is called when it runs.
    pub fn summary(&self) -> (r: String)
        ensures
            r@ == self@.label(),
    {
        match self {
            ResolvedWorkflowStep::Checkout { branch } => cat2("切换到分支 ", branch.as_str()),
            ResolvedWorkflowStep::Fetch { remote } => cat2("获取远端 ", remote.as_str()),
            ResolvedWorkflowStep::Pull { remote } => cat2("拉取远端 ", remote.as_str()),
            ResolvedWorkflowStep::CreateBranch { name, from, checkout } => {
                let start: &str = match from {
                    Some(from) => from.as_str(),
                    None => "当前 HEAD",
                };
                let suffix: &str = if *checkout {
                    "并切换"
                } else {
                    ""
                };
                cat5("基于 ", start, " 创建分支 ", name.as_str(), suffix)
            },
            ResolvedWorkflowStep::Merge { branch } => cat2("合并分支 ", branch.as_str()),
            ResolvedWorkflowStep::Push { remote, branch, .. } => cat4(
                "推送分支 ",
                branch.as_str(),
                " 到 ",
                remote.as_str(),
            ),
            ResolvedWorkflowStep::GuardRemoteBranch {
                remote,
                branch,
                fetch,
                on_exists,
                on_missing,
            } => guard_summary(
                remote.as_str(),
                branch.as_str(),
                *fetch,
                *on_exists,
                *on_missing,
            ),
            ResolvedWorkflowStep::EnsureClean => "检查工作区干净".to_string(),
            ResolvedWorkflowStep::AssertBranch { branch } => cat2(
                "确认当前分支是 ",
                branch.as_str(),
            ),
        }
    }
}

// ---------------------------------------------------------------------------
// Previews
// ---------------------------------------------------------------------------
/// What a preview knows of the repository after the steps so far.
#[derive(Debug, PartialEq, Eq)]
pub struct WorkflowPreviewState {
    pub current_branch: Option<String>,
}

impl Default for WorkflowPreviewState {
    fn default() -> (r: Self)
        ensures
            r.current_branch is None,
    {
        WorkflowPreviewState { current_branch: None }
    }
}

impl WorkflowPreviewState {
    pub fn apply(&mut self, step: &ResolvedWorkflowStep)
        ensures
            opt_view(final(self).current_branch) == step@.branch_after(
                opt_view(old(self).current_branch),
            ),
    {
        match step {
            ResolvedWorkflowStep::Checkout { branch } => {
                self.current_branch = Some(branch.clone());
            },
            ResolvedWorkflowStep::CreateBranch { name, checkout, .. } => {
                if *checkout {
                    self.current_branch = Some(name.clone());
                }
            },
            _ => {},
        }
    }
}

#[derive(Debug, PartialEq, Eq)]
pub struct WorkflowPreviewStep {
    pub index: usize,
    pub op: &'static str,
    pub summary: String,
}

pub struct PreviewStepView {
    pub index: int,
    pub op: Seq<char>,
    pub summary: Seq<char>,
}

impl View for WorkflowPreviewStep {
    type V = PreviewStepView;

    open spec fn view(&self) -> PreviewStepView {
        PreviewStepView { index: self.index as int, op: self.op@, summary: self.summary@ }
    }
}

/// What a workflow will do.
#[derive(Debug, PartialEq, Eq)]
pub struct WorkflowPreview {
    pub name: String,
    pub steps: Vec<WorkflowPreviewStep>,
}

pub open spec fn preview_steps(steps: Seq<WorkflowPreviewStep>) -> Seq<PreviewStepView> {
    steps.map_values(|s: WorkflowPreviewStep| s@)
}

/// What the steps from `from` on come to, when the steps before lead to `branch`.
pub open spec fn previewed(
    scope: ScopeView,
    steps: Seq<WorkflowStep>,
    from: int,
    branch: Option<Seq<char>>,
) -> Result<Seq<PreviewStepView>, ResolveFault>
    decreases steps.len() - from,
{
    if from < 0 || from >= steps.len() {
        Ok(Seq::empty())
    } else {
        match (ScopeView { preview_branch: branch, ..scope }).step(steps[from]) {
            Err(fault) => Err(fault),
            Ok(step) => match previewed(scope, steps, from + 1, step.branch_after(branch)) {
                Err(fault) => Err(fault),
                Ok(rest) => Ok(
                    seq![
                        PreviewStepView {
                            index: from,
                            op: steps[from].op(),
                            summary: step.label(),
                        },
                    ] + rest,
                ),
            },
        }
    }
}

/// A preview shows every step, in order.
pub proof fn lemma_preview_shows_every_step(
    scope: ScopeView,
    steps: Seq<WorkflowStep>,
    from: int,
    branch: Option<Seq<char>>,
)
    requires
        0 <= from <= steps.len(),
        previewed(scope, steps, from, branch) is Ok,
    ensures
        previewed(scope, steps, from, branch)->Ok_0.len() == steps.len() - from,
        forall|i: int|
            0 <= i < steps.len() - from ==> {
                let shown = #[trigger] previewed(scope, steps, from, branch)->Ok_0[i];
                shown.index == from + i && shown.op == steps[from + i].op()
            },
    decreases steps.len() - from,
{
    if from < steps.len() {
        let step = (ScopeView { preview_branch: branch, ..scope }).step(steps[from])->Ok_0;
        let after = step.branch_after(branch);
        lemma_preview_shows_every_step(scope, steps, from + 1, after);
        let rest = previewed(scope, steps, from + 1, after)->Ok_0;
        let all = previewed(scope, steps, from, branch)->Ok_0;
        assert forall|i: int| 0 <= i < steps.len() - from implies {
            let shown = #[trigger] all[i];
            shown.index == from + i && shown.op == steps[from + i].op()
        } by {
            if i > 0 {
                assert(all[i] == rest[i - 1]);
            }
        }
    }
}

/// Only checking out and creating a branch lead to another branch.
pub proof fn lemma_only_checkouts_switch(step: ResolvedStepView, branch: Option<Seq<char>>)
    requires
        !(step is Checkout),
        step matches ResolvedStepView::CreateBranch { checkout, .. } ==> !checkout,
    ensures
        step.branch_after(branch) == branch,
{
}

// ---------------------------------------------------------------------------
// Runs
// ---------------------------------------------------------------------------
/// What a running workflow reports.
#[derive(Debug, PartialEq, Eq)]
pub enum WorkflowProgressEvent {
    Started { name: String, total: usize },
    StepStarted { index: usize, total: usize, label: String },
    StepFinished { index: usize, total: usize, label: String },
    Finished { name: String, total: usize },
}

/// What a [`WorkflowProgressEvent`] says.
pub enum ProgressView {
    Started { name: Seq<char>, total: int },
    StepStarted { index: int, total: int, label: Seq<char> },
    StepFinished { index: int, total: int, label: Seq<char> },
    Finished { name: Seq<char>, total: int },
}

impl View for WorkflowProgressEvent {
    type V = ProgressView;

    open spec fn view(&self) -> ProgressView {
        match self {
            WorkflowProgressEvent::Started { name, total } => ProgressView::Started {
                name: name@,
                total: *total as int,
            },
            WorkflowProgressEvent::StepStarted { index, total, label } => ProgressView::StepStarted {
                index: *index as int,
                total: *total as int,
                label: label@,
            },
            WorkflowProgressEvent::StepFinished {
                index,
                total,
                label,
            } => ProgressView::StepFinished {
                index: *index as int,
                total: *total as int,
                label: label@,
            },
            WorkflowProgressEvent::Finished { name, total } => ProgressView::Finished {
                name: name@,
                total: *total as int,
            },
        }
    }
}

impl WorkflowProgressEvent {
    /// What the log says.
    pub open spec fn message(self) -> Seq<char> {
        match self {
            WorkflowProgressEvent::Started { name, total } => "开始运行工作流“"@ + name@ + "”（"@
                + decimal(total as nat) + " 步）"@,
            WorkflowProgressEvent::StepStarted { index, total, label } => ("步骤 "@ + decimal(
                (index + 1) as nat,
            ) + "/"@ + decimal(total as nat)) + "："@ + label@,
            WorkflowProgressEvent::StepFinished { index, total, label } => ("步骤 "@ + decimal(
                (index + 1) as nat,
            ) + "/"@ + decimal(total as nat)) + " 完成："@ + label@,
            WorkflowProgressEvent::Finished { name, total } => "工作流“"@ + name@ + "”已完成（"@
                + decimal(total as nat) + " 步）"@,
        }
    }

    /// The index of the step, if it is about one.
    pub open spec fn step_index(self) -> int {
        match self {
            WorkflowProgressEvent::StepStarted { index, .. } => index as int,
            WorkflowProgressEvent::StepFinished { index, .. } => index as int,
            _ => 0,
        }
    }
}

pub fn workflow_progress_message(event: &WorkflowProgressEvent) -> (r: String)
    requires
        event.step_index() < usize::MAX,
    ensures
        r@ == event.message(),
{
    match event {
        WorkflowProgressEvent::Started { name, total } => {
            let n: String = usize_to_string(*total);
            cat5("开始运行工作流“", name.as_str(), "”（", n.as_str(), " 步）")
        },
        WorkflowProgressEvent::StepStarted { index, total, label } => {
            let i: String = usize_to_string(*index + 1);
            let n: String = usize_to_string(*total);
            let head: String = cat4("步骤 ", i.as_str(), "/", n.as_str());
            cat3(head.as_str(), "：", label.as_str())
        },
        WorkflowProgressEvent::StepFinished { index, total, label } => {
            let i: String = usize_to_string(*index + 1);
            let n: String = usize_to_string(*total);
            let head: String = cat4("步骤 ", i.as_str(), "/", n.as_str());
            cat3(head.as_str(), " 完成：", label.as_str())
        },
        WorkflowProgressEvent::Finished { name, total } => {
            let n: String = usize_to_string(*total);
            cat5("工作流“", name.as_str(), "”已完成（", n.as_str(), " 步）")
        },
    }
}

/// What is said once a workflow is done.
pub fn workflow_finished_message(name: &str, steps_run: usize) -> (r: String)
    ensures
        r@ == "工作流“"@ + name@ + "”已完成（"@ + decimal(steps_run as nat) + " 步）"@,
{
    let n: String = usize_to_string(steps_run);
    cat5("工作流“", name, "”已完成（", n.as_str(), " 步）")
}

/// The paths of some changes, as a message shows them: five, and how many there are.
pub open spec fn changes_text(changes: Seq<WorktreeChange>) -> Seq<char> {
    let paths = changes.map_values(|c: WorktreeChange| c.path@);
    if changes.len() > 5 {
        joined(paths.take(5), ", "@) + (" 等 "@ + decimal(changes.len()) + " 个文件"@)
    } else {
        joined(paths, ", "@)
    }
}

pub fn changes_preview(changes: &Vec<WorktreeChange>) -> (r: String)
    ensures
        r@ == changes_text(changes@),
{
    let mut paths: Vec<String> = Vec::new();
    let mut i: usize = 0;
    let ghost all = changes@.map_values(|c: WorktreeChange| c.path@);
    while i < changes.len() && i < 5
        invariant
            i <= changes@.len(),
            i <= 5,
            all == changes@.map_values(|c: WorktreeChange| c.path@),
            paths@.len() == i,
            views(paths@) =~= all.take(i as int),
        decreases changes@.len() - i,
    {
        paths.push(changes[i].path.clone());
        i = i + 1;
    }
    let preview: String = join(&paths, paths.len(), ", ");
    assert(views(paths@).take(paths@.len() as int) =~= all.take(i as int));
    if changes.len() > 5 {
        let n: String = usize_to_string(changes.len());
        let more: String = cat3(" 等 ", n.as_str(), " 个文件");
        cat2(preview.as_str(), more.as_str())
    } else {
        assert(all.take(i as int) =~= all);
        preview
    }
}

/// Whether a check passes where there is no fault, and else reports the fault.
pub open spec fn passes(r: Result<(), GitError>, fault: Option<Seq<char>>) -> bool {
    match fault {
        None => r is Ok,
        Some(text) => r matches Err(e) && e.says(text),
    }
}

/// Why a workflow does not run on these changes.
pub open spec fn unclean(changes: Seq<WorktreeChange>) -> Option<Seq<char>> {
    if changes.len() == 0 {
        None
    } else {
        Some("工作区存在未提交更改，不能运行该工作流："@ + changes_text(changes))
    }
}

/// Why `branch` is not the one that is checked out.
pub open spec fn other_branch(actual: Option<Seq<char>>, branch: Seq<char>) -> Option<Seq<char>> {
    match actual {
        None => Some("当前 HEAD 未指向本地分支，无法确认分支"@),
        Some(name) => if name == branch {
            None
        } else {
            Some("当前分支是 "@ + name + "，不是工作流要求的 "@ + branch)
        },
    }
}

/// Refuses a worktree with changes, given what its status says.
pub fn ensure_clean_worktree(changes: &Vec<WorktreeChange>) -> (r: Result<(), GitError>)
    ensures
        passes(r, unclean(changes@)),
{
    if changes.len() == 0 {
        return Ok(());
    }
    let preview: String = changes_preview(changes);
    Err(GitError::Message(cat2("工作区存在未提交更改，不能运行该工作流：", preview.as_str())))
}

/// Checks that the expected branch is checked out.
pub fn assert_branch(actual: &Option<String>, branch: &str) -> (r: Result<(), GitError>)
    ensures
        passes(r, other_branch(opt_view(*actual), branch@)),
{
    match actual {
        None => Err(
            GitError::Message("当前 HEAD 未指向本地分支，无法确认分支".to_string()),
        ),
        Some(name) => if str_eq(name.as_str(), branch) {
            Ok(())
        } else {
            Err(
                GitError::Message(
                    cat4("当前分支是 ", name.as_str(), "，不是工作流要求的 ", branch),
                ),
            )
        },
    }
}

/// What a step asks of the repository.
#[derive(Debug, PartialEq, Eq)]
pub enum StepAction {
    Checkout { branch: String },
    Fetch { remote: String },
    Pull { remote: String },
    CreateBranch { name: String, from: Option<String>, checkout: bool },
    Merge { branch: String },
    Push { remote: String, branch: String, set_upstream: bool },
    /// To read the status, and to go on only if it is clean.
    CheckStatus,
    /// To read which branch is checked out, and to compare it.
    CheckBranch { branch: String },
    /// To look for a branch among those of a remote.
    FindRemoteBranch { remote: String, branch: String },
}

pub enum StepActionView {
    Checkout { branch: Seq<char> },
    Fetch { remote: Seq<char> },
    Pull { remote: Seq<char> },
    CreateBranch { name: Seq<char>, from: Option<Seq<char>>, checkout: bool },
    Merge { branch: Seq<char> },
    Push { remote: Seq<char>, branch: Seq<char>, set_upstream: bool },
    CheckStatus,
    CheckBranch { branch: Seq<char> },
    FindRemoteBranch { remote: Seq<char>, branch: Seq<char> },
}

impl View for StepAction {
    type V = StepActionView;

    open spec fn view(&self) -> StepActionView {
        match self {
            StepAction::Checkout { branch } => StepActionView::Checkout { branch: branch@ },
            StepAction::Fetch { remote } => StepActionView::Fetch { remote: remote@ },
            StepAction::Pull { remote } => StepActionView::Pull { remote: remote@ },
            StepAction::CreateBranch { name, from, checkout } => StepActionView::CreateBranch {
                name: name@,
                from: opt_view(*from),
                checkout: *checkout,
            },
            StepAction::Merge { branch } => StepActionView::Merge { branch: branch@ },
            StepAction::Push { remote, branch, set_upstream } => StepActionView::Push {
                remote: remote@,
                branch: branch@,
                set_upstream: *set_upstream,
            },
            StepAction::CheckStatus => StepActionView::CheckStatus,
            StepAction::CheckBranch { branch } => StepActionView::CheckBranch { branch: branch@ },
            StepAction::FindRemoteBranch { remote, branch } => StepActionView::FindRemoteBranch {
                remote: remote@,
                branch: branch@,
            },
        }
    }
}

impl ResolvedStepView {
    /// What the step asks of the repository, in order.
    pub open spec fn actions(self) -> Seq<StepActionView> {
        match self {
            ResolvedStepView::Checkout { branch } => seq![StepActionView::Checkout { branch }],
            ResolvedStepView::Fetch { remote } => seq![StepActionView::Fetch { remote }],
            ResolvedStepView::Pull { remote } => seq![StepActionView::Pull { remote }],
            ResolvedStepView::CreateBranch { name, from, checkout } => seq![
                StepActionView::CreateBranch { name, from, checkout },
            ],
            ResolvedStepView::Merge { branch } => seq![StepActionView::Merge { branch }],
            ResolvedStepView::Push { remote, branch, set_upstream } => seq![
                StepActionView::Push { remote, branch, set_upstream },
            ],
            ResolvedStepView::GuardRemoteBranch { remote, branch, fetch, .. } => if fetch {
                seq![
                    StepActionView::Fetch { remote },
                    StepActionView::FindRemoteBranch { remote, branch },
                ]
            } else {
                seq![StepActionView::FindRemoteBranch { remote, branch }]
            },
            ResolvedStepView::EnsureClean => seq![StepActionView::CheckStatus],
            ResolvedStepView::AssertBranch { branch } => seq![
                StepActionView::CheckBranch { branch },
            ],
        }
    }
}

pub open spec fn action_views(actions: Seq<StepAction>) -> Seq<StepActionView> {
    actions.map_values(|a: StepAction| a@)
}

/// What the repository answers to an action of a step.
#[derive(Debug, PartialEq, Eq)]
pub enum StepAnswer {
    /// It is done, and there is nothing to look at.
    Done,
    /// To [`StepAction::CheckStatus`]: what is changed.
    Status(Vec<WorktreeChange>),
    /// To [`StepAction::CheckBranch`]: the branch that is checked out.
    Branch(Option<String>),
    /// To [`StepAction::FindRemoteBranch`]: whether the branch is there.
    RemoteBranch(bool),
}

impl ResolvedStepView {
    /// Why the step fails on an answer. What a step did not ask for does not matter to it.
    pub open spec fn answer_fault(self, answer: StepAnswer) -> Option<Seq<char>> {
        match (self, answer) {
            (ResolvedStepView::EnsureClean, StepAnswer::Status(changes)) => unclean(changes@),
            (ResolvedStepView::AssertBranch { branch }, StepAnswer::Branch(actual)) => other_branch(
                opt_view(actual),
                branch,
            ),
            (
                ResolvedStepView::GuardRemoteBranch { remote, branch, on_exists, on_missing, .. },
                StepAnswer::RemoteBranch(exists),
            ) => guard_fault(exists, remote, branch, on_exists, on_missing),
            _ => None,
        }
    }
}

impl ResolvedWorkflowStep {
    /// Goes on or stops, given what the repository answers to an action of the step.
    pub fn check_answer(&self, answer: &StepAnswer) -> (r: Result<(), GitError>)
        ensures
            passes(r, self@.answer_fault(*answer)),
    {
        match (self, answer) {
            (ResolvedWorkflowStep::EnsureClean, StepAnswer::Status(changes)) => {
                ensure_clean_worktree(changes)
            },
            (ResolvedWorkflowStep::AssertBranch { branch }, StepAnswer::Branch(actual)) => {
                assert_branch(actual, branch.as_str())
            },
            (
                ResolvedWorkflowStep::GuardRemoteBranch { remote, branch, on_exists, on_missing, .. },
                StepAnswer::RemoteBranch(exists),
            ) => guard_remote_branch(
                *exists,
                remote.as_str(),
                branch.as_str(),
                *on_exists,
                *on_missing,
            ),
            _ => Ok(()),
        }
    }

    /// What the step asks of the repository, in order. Each answer goes to
    /// [`ResolvedWorkflowStep::check_answer`].
    pub fn execute(&self) -> (r: Vec<StepAction>)
        ensures
            action_views(r@) == self@.actions(),
    {
        let mut r: Vec<StepAction> = Vec::new();
        match self {
            ResolvedWorkflowStep::Checkout { branch } => {
                r.push(StepAction::Checkout { branch: branch.clone() });
            },
            ResolvedWorkflowStep::Fetch { remote } => {
                r.push(StepAction::Fetch { remote: remote.clone() });
            },
            ResolvedWorkflowStep::Pull { remote } => {
                r.push(StepAction::Pull { remote: remote.clone() });
            },
            ResolvedWorkflowStep::CreateBranch { name, from, checkout } => {
                r.push(
                    StepAction::CreateBranch {
                        name: name.clone(),
                        from: clone_opt(from),
                        checkout: *checkout,
                    },
                );
            },
            ResolvedWorkflowStep::Merge { branch } => {
                r.push(StepAction::Merge { branch: branch.clone() });
            },
            ResolvedWorkflowStep::Push { remote, branch, set_upstream } => {
                r.push(
                    StepAction::Push {
                        remote: remote.clone(),
                        branch: branch.clone(),
                        set_upstream: *set_upstream,
                    },
                );
            },
            ResolvedWorkflowStep::GuardRemoteBranch { remote, branch, fetch, .. } => {
                if *fetch {
                    r.push(StepAction::Fetch { remote: remote.clone() });
                }
                r.push(
                    StepAction::FindRemoteBranch {
                        remote: remote.clone(),
                        branch: branch.clone(),
                    },
                );
            },
            ResolvedWorkflowStep::EnsureClean => {
                r.push(StepAction::CheckStatus);
            },
            ResolvedWorkflowStep::AssertBranch { branch } => {
                r.push(StepAction::CheckBranch { branch: branch.clone() });
            },
        }
        assert(action_views(r@) =~= self@.actions());
        r
    }
}

/// How far a run has come.
#[derive(Debug, PartialEq, Eq)]
pub struct WorkflowRun {
    pub name: String,
    pub total: usize,
    pub steps_run: usize,
    /// The label of the step that is running.
    pub label: Option<String>,
    /// The repository after the last step that has run.
    pub last_snapshot: Option<RepositorySnapshot>,
}

/// What comes next in a run.
#[derive(Debug, PartialEq, Eq)]
pub enum RunNext {
    /// To run a step, after reporting that it starts.
    Step { step: ResolvedWorkflowStep, event: WorkflowProgressEvent },
    /// Nothing: every step has run.
    Done,
}

/// What a finished run comes to.
#[derive(Debug, PartialEq, Eq)]
pub struct WorkflowRunResult {
    pub name: String,
    pub steps_run: usize,
    /// The repository after the run.
    pub snapshot: RepositorySnapshot,
}

/// Previews and runs workflows with a service.
pub struct WorkflowExecutor<'a, C: CredentialProvider, P: ProgressEmitter> {
    pub service: &'a GitService<C, P>,
}

impl<'a, C: CredentialProvider, P: ProgressEmitter> WorkflowExecutor<'a, C, P> {
    pub fn new(service: &'a GitService<C, P>) -> (r: Self)
        ensures
            r.service == service,
    {
        WorkflowExecutor { service }
    }

    /// What a workflow will do.
    pub fn preview(
        &self,
        definition: &WorkflowDefinition,
        options: &WorkflowRunOptions,
        context: &WorkflowEvalContext,
        facts: &RepositoryFacts,
    ) -> (r: Result<WorkflowPreview, GitError>)
        requires
            definition.wf(),
            options.input_vars.wf(),
        ensures
            ({
                let resolver = WorkflowResolver {
                    definition,
                    options,
                    context,
                    facts,
                    preview_current_branch: None,
                };
                match (definition.fault(), missing_input(*definition, options.input_vars@, 0)) {
                    (Some(text), _) => r matches Err(e) && e.says(text),
                    (None, Some(text)) => r matches Err(e) && e.says(text),
                    (None, None) => match previewed(resolver@, definition.steps@, 0, None) {
                        Err(fault) => r matches Err(e) && reports(e, fault),
                        Ok(steps) => r matches Ok(p) && p.name@ == definition.title()
                            && preview_steps(p.steps@) == steps,
                    },
                }
            }),
    {
        match validate_definition(definition) {
            Ok(()) => {},
            Err(e) => {
                return Err(e);
            },
        }
        match validate_input_values(definition, options) {
            Ok(()) => {},
            Err(e) => {
                return Err(e);
            },
        }
        let mut resolver = WorkflowResolver::new(definition, options, context, facts);
        let ghost scope = resolver@;
        let mut state: WorkflowPreviewState = WorkflowPreviewState::default();
        let mut steps: Vec<WorkflowPreviewStep> = Vec::new();
        let mut index: usize = 0;
        let ghost whole = previewed(scope, definition.steps@, 0, None);
        proof {
            if whole is Ok {
                assert(preview_steps(steps@) + whole->Ok_0 =~= whole->Ok_0);
            }
        }
        while index < definition.steps.len()
            invariant
                index <= definition.steps@.len(),
                resolver.wf(),
                resolver@ == (ScopeView {
                    preview_branch: opt_view(state.current_branch),
                    ..scope
                }),
                whole == match previewed(
                    scope,
                    definition.steps@,
                    index as int,
                    opt_view(state.current_branch),
                ) {
                    Ok(rest) => Ok::<Seq<PreviewStepView>, ResolveFault>(
                        preview_steps(steps@) + rest,
                    ),
                    Err(fault) => Err(fault),
                },
                definition.fault() is None,
                missing_input(*definition, options.input_vars@, 0) is None,
                whole == previewed(
                    (WorkflowResolver {
                        definition,
                        options,
                        context,
                        facts,
                        preview_current_branch: None,
                    })@,
                    definition.steps@,
                    0,
                    None,
                ),
            decreases definition.steps@.len() - index,
        {
            let step = &definition.steps[index];
            let resolved: ResolvedWorkflowStep = match step.resolve(&resolver) {
                Ok(resolved) => resolved,
                Err(e) => {
                    return Err(e);
                },
            };
            let shown = WorkflowPreviewStep {
                index,
                op: step.op_name(),
                summary: resolved.summary(),
            };
            let ghost before = preview_steps(steps@);
            let ghost branch = opt_view(state.current_branch);
            state.apply(&resolved);
            resolver.set_preview_current_branch(clone_opt(&state.current_branch));
            proof {
                let rest = previewed(
                    scope,
                    definition.steps@,
                    index + 1,
                    resolved@.branch_after(branch),
                );
                if rest is Ok {
                    assert(before + (seq![shown@] + rest->Ok_0) =~= before.push(shown@)
                        + rest->Ok_0);
                }
            }
            steps.push(shown);
            assert(preview_steps(steps@) =~= before.push(shown@));
            index = index + 1;
        }
        proof {
            let rest = Seq::<PreviewStepView>::empty();
            assert(preview_steps(steps@) + rest =~= preview_steps(steps@));
        }
        Ok(WorkflowPreview { name: definition.display_name(), steps })
    }

    /// What a text of a workflow comes to.
    pub fn resolve_template(
        &self,
        definition: &WorkflowDefinition,
        options: &WorkflowRunOptions,
        context: &WorkflowEvalContext,
        facts: &RepositoryFacts,
        template: &str,
    ) -> (r: Result<String, GitError>)
        requires
            definition.wf(),
            options.input_vars.wf(),
        ensures
            ({
                let resolver = WorkflowResolver {
                    definition,
                    options,
                    context,
                    facts,
                    preview_current_branch: None,
                };
                match definition.fault() {
                    Some(text) => r matches Err(e) && e.says(text),
                    None => gives(r, resolver@.text(template@)),
                }
            }),
    {
        match validate_definition(definition) {
            Ok(()) => {},
            Err(e) => {
                return Err(e);
            },
        }
        let resolver = WorkflowResolver::new(definition, options, context, facts);
        resolver.interpolate(template)
    }

    /// Whether a workflow can start, and whether the worktree has to be clean for it.
    pub fn check_run(&self, definition: &WorkflowDefinition, options: &WorkflowRunOptions) -> (r:
        Result<bool, GitError>)
        requires
            options.input_vars.wf(),
        ensures
            match (definition.fault(), missing_input(*definition, options.input_vars@, 0)) {
                (Some(text), _) => r matches Err(e) && e.says(text),
                (None, Some(text)) => r matches Err(e) && e.says(text),
                (None, None) => r matches Ok(clean) && clean
                    == definition.defaults.require_clean_worktree,
            },
    {
        match validate_definition(definition) {
            Ok(()) => {},
            Err(e) => {
                return Err(e);
            },
        }
        match validate_input_values(definition, options) {
            Ok(()) => {},
            Err(e) => {
                return Err(e);
            },
        }
        Ok(definition.defaults.require_clean_worktree)
    }
}

impl WorkflowRun {
    pub open spec fn wf(self, definition: WorkflowDefinition) -> bool {
        &&& self.name@ == definition.title()
        &&& self.total == definition.steps@.len()
        &&& self.steps_run <= self.total
        &&& self.label is Some ==> self.steps_run < self.total
        &&& self.steps_run > 0 <==> self.last_snapshot is Some
    }

    /// Whether this is a run that starts, with the report `event`.
    pub open spec fn begins(self, definition: WorkflowDefinition, event: ProgressView) -> bool {
        &&& self.wf(definition)
        &&& self.steps_run == 0
        &&& self.label is None
        &&& event == ProgressView::Started { name: self.name@, total: self.total as int }
    }

    /// Whether the run goes on to `after` by starting its next step, with the report `event`.
    pub open spec fn starts_step(self, after: WorkflowRun, event: ProgressView) -> bool {
        &&& self.label is None
        &&& self.steps_run < self.total
        &&& after.label matches Some(label) && event == (ProgressView::StepStarted {
            index: self.steps_run as int,
            total: self.total as int,
            label: label@,
        })
        &&& after.name@ == self.name@
        &&& after.total == self.total
        &&& after.steps_run == self.steps_run
        &&& after.last_snapshot == self.last_snapshot
    }

    /// Whether the run goes on to `after` by finishing the running step, with the report
    /// `event`.
    pub open spec fn finishes_step(self, after: WorkflowRun, event: ProgressView) -> bool {
        &&& self.label matches Some(label) && event == (ProgressView::StepFinished {
            index: self.steps_run as int,
            total: self.total as int,
            label: label@,
        })
        &&& self.steps_run < self.total
        &&& after.label is None
        &&& after.name@ == self.name@
        &&& after.total == self.total
        &&& after.steps_run == self.steps_run + 1
    }

    /// A run of a workflow, and the report that it starts.
    pub fn start(definition: &WorkflowDefinition) -> (r: (Self, WorkflowProgressEvent))
        ensures
            (r.0).begins(*definition, (r.1)@),
    {
        let name: String = definition.display_name();
        let total: usize = definition.steps.len();
        (
            WorkflowRun {
                name: name.clone(),
                total,
                steps_run: 0,
                label: None,
                last_snapshot: None,
            },
            WorkflowProgressEvent::Started { name, total },
        )
    }

    /// What comes next, once the step before is finished. A step that cannot be resolved ends
    /// the run without a report.
    pub fn next(&mut self, resolver: &WorkflowResolver<'_>) -> (r: Result<RunNext, GitError>)
        requires
            old(self).wf(*resolver.definition),
            old(self).label is None,
            resolver.wf(),
        ensures
            final(self).wf(*resolver.definition),
            ({
                let steps = resolver.definition.steps@;
                let at = old(self).steps_run as int;
                if at >= steps.len() {
                    r matches Ok(next) && next is Done && *final(self) == *old(self)
                } else {
                    match resolver@.step(steps[at]) {
                        Err(fault) => r matches Err(e) && reports(e, fault) && *final(self) == *old(
                            self,
                        ),
                        Ok(view) => {
                            &&& r matches Ok(RunNext::Step { step, event })
                            &&& step@ == view
                            &&& old(self).starts_step(*final(self), event@)
                            &&& opt_view(final(self).label) == Some(view.label())
                        },
                    }
                }
            }),
    {
        if self.steps_run >= self.total {
            return Ok(RunNext::Done);
        }
        match resolver.definition.steps[self.steps_run].resolve(resolver) {
            Ok(step) => {
                let label: String = step.summary();
                let event = WorkflowProgressEvent::StepStarted {
                    index: self.steps_run,
                    total: self.total,
                    label: label.clone(),
                };
                self.label = Some(label);
                Ok(RunNext::Step { step, event })
            },
            Err(e) => Err(e),
        }
    }

    /// Goes on after the running step, which left the repository as `snapshot` says: the report
    /// that it is finished.
    pub fn step_finished(&mut self, snapshot: RepositorySnapshot) -> (r: WorkflowProgressEvent)
        requires
            old(self).label is Some,
            old(self).steps_run < old(self).total,
        ensures
            old(self).finishes_step(*final(self), r@),
            final(self).last_snapshot == Some(snapshot),
    {
        let index: usize = self.steps_run;
        let label: String = match &self.label {
            Some(label) => label.clone(),
            None => String::new(),
        };
        self.steps_run = index + 1;
        self.label = None;
        self.last_snapshot = Some(snapshot);
        WorkflowProgressEvent::StepFinished { index, total: self.total, label }
    }

    /// What the run comes to, and the report that it is finished. The repository is as the last
    /// step left it; `taken` says how it is where no step has run.
    pub fn finish(self, taken: Option<RepositorySnapshot>) -> (r: (
        WorkflowRunResult,
        WorkflowProgressEvent,
    ))
        requires
            self.steps_run == self.total,
            self.label is None,
            self.last_snapshot is None ==> taken is Some,
        ensures
            (r.0).name@ == self.name@,
            (r.0).steps_run == self.steps_run,
            (r.0).snapshot == match self.last_snapshot {
                Some(snapshot) => snapshot,
                None => taken->0,
            },
            (r.1)@ == (ProgressView::Finished { name: self.name@, total: self.total as int }),
    {
        let snapshot: RepositorySnapshot = match self.last_snapshot {
            Some(snapshot) => snapshot,
            None => taken.unwrap(),
        };
        let event = WorkflowProgressEvent::Finished { name: self.name.clone(), total: self.total };
        (WorkflowRunResult { name: self.name, steps_run: self.steps_run, snapshot }, event)
    }
}

// ---------------------------------------------------------------------------
// Laws of a run
// ---------------------------------------------------------------------------
/// Whether `runs` are what a run of a workflow goes through, with one report for each.
pub open spec fn is_course(
    definition: WorkflowDefinition,
    runs: Seq<WorkflowRun>,
    events: Seq<ProgressView>,
) -> bool {
    &&& runs.len() == events.len()
    &&& runs.len() > 0
    &&& runs[0].begins(definition, events[0])
    &&& forall|i: int|
        1 <= i < runs.len() ==> #[trigger] runs[i - 1].starts_step(runs[i], events[i])
            || runs[i - 1].finishes_step(runs[i], events[i])
}

/// The reports on the first `n` steps: for each, that it starts and that it is finished.
pub open spec fn step_reports(total: int, labels: Seq<Seq<char>>, n: int) -> Seq<ProgressView>
    decreases n,
{
    if n <= 0 {
        Seq::empty()
    } else {
        step_reports(total, labels, n - 1) + seq![
            ProgressView::StepStarted { index: n - 1, total, label: labels[n - 1] },
            ProgressView::StepFinished { index: n - 1, total, label: labels[n - 1] },
        ]
    }
}

/// The reports on a run that has come to `run`: that it starts, two on each step that has run,
/// and one on the step that is running.
pub open spec fn reports_so_far(run: WorkflowRun, labels: Seq<Seq<char>>) -> Seq<ProgressView> {
    let total = run.total as int;
    seq![ProgressView::Started { name: run.name@, total }] + step_reports(
        total,
        labels,
        run.steps_run as int,
    ) + match run.label {
        Some(label) => seq![
            ProgressView::StepStarted { index: run.steps_run as int, total, label: label@ },
        ],
        None => Seq::empty(),
    }
}

proof fn lemma_step_reports_prefix(total: int, a: Seq<Seq<char>>, b: Seq<Seq<char>>, n: int)
    requires
        0 <= n <= a.len(),
        a.len() <= b.len(),
        forall|i: int| 0 <= i < n ==> a[i] == b[i],
    ensures
        step_reports(total, a, n) == step_reports(total, b, n),
    decreases n,
{
    if n > 0 {
        lemma_step_reports_prefix(total, a, b, n - 1);
    }
}

/// However far a run has come, it has reported first that it starts, then of every step that has
/// run that it starts and that it is finished, and at last of a running step that it starts. A
/// step that fails reports no more, so these are also all the reports of a run that fails.
pub proof fn lemma_reports_of_a_run(
    definition: WorkflowDefinition,
    runs: Seq<WorkflowRun>,
    events: Seq<ProgressView>,
) -> (labels: Seq<Seq<char>>)
    requires
        is_course(definition, runs, events),
    ensures
        runs.last().total == definition.steps@.len(),
        runs.last().name@ == definition.title(),
        labels.len() == runs.last().steps_run,
        events == reports_so_far(runs.last(), labels),
    decreases runs.len(),
{
    if runs.len() == 1 {
        assert(events =~= reports_so_far(runs.last(), Seq::empty()));
        Seq::empty()
    } else {
        let n = runs.len() - 1;
        let before = runs.drop_last();
        assert(runs[n - 1].starts_step(runs[n], events[n]) || runs[n - 1].finishes_step(
            runs[n],
            events[n],
        ));
        assert forall|i: int| 1 <= i < before.len() implies #[trigger] before[i - 1].starts_step(
            before[i],
            events.drop_last()[i],
        ) || before[i - 1].finishes_step(before[i], events.drop_last()[i]) by {
            assert(runs[i - 1].starts_step(runs[i], events[i]) || runs[i - 1].finishes_step(
                runs[i],
                events[i],
            ));
        }
        let labels = lemma_reports_of_a_run(definition, before, events.drop_last());
        let last = before.last();
        assert(last == runs[n - 1]);
        assert(events =~= events.drop_last().push(events[n]));
        if last.starts_step(runs[n], events[n]) {
            assert(events =~= reports_so_far(runs.last(), labels));
            labels
        } else {
            let more = labels.push(last.label->0@);
            lemma_step_reports_prefix(last.total as int, labels, more, labels.len() as int);
            assert(events =~= reports_so_far(runs.last(), more));
            more
        }
    }
}

/// A run that is finished has reported that it starts, of every step in turn that it starts and
/// that it is finished, and that the run is finished.
pub proof fn lemma_reports_of_a_finished_run(
    definition: WorkflowDefinition,
    runs: Seq<WorkflowRun>,
    events: Seq<ProgressView>,
    finished: ProgressView,
) -> (labels: Seq<Seq<char>>)
    requires
        is_course(definition, runs, events),
        runs.last().steps_run == runs.last().total,
        runs.last().label is None,
        finished == (ProgressView::Finished {
            name: runs.last().name@,
            total: runs.last().total as int,
        }),
    ensures
        labels.len() == definition.steps@.len(),
        ({
            let name = definition.title();
            let total = definition.steps@.len() as int;
            events.push(finished) == seq![ProgressView::Started { name, total }] + step_reports(
                total,
                labels,
                total,
            ) + seq![ProgressView::Finished { name, total }]
        }),
{
    let labels = lemma_reports_of_a_run(definition, runs, events);
    let name = definition.title();
    let total = definition.steps@.len() as int;
    assert(events.push(finished) =~= seq![ProgressView::Started { name, total }] + step_reports(
        total,
        labels,
        total,
    ) + seq![ProgressView::Finished { name, total }]);
    labels
}

// ---------------------------------------------------------------------------
// Laws of steps
// ---------------------------------------------------------------------------
/// Every step asks the repository for what it is for, with what it was given, and for nothing
/// else; only a step that fetches, or a guard that fetches first, asks for a fetch.
pub proof fn lemma_steps_do_what_they_say(step: ResolvedWorkflowStep, actions: Seq<StepAction>)
    requires
        action_views(actions) == step@.actions(),
    ensures
        match step {
            ResolvedWorkflowStep::Checkout { branch } => {
                &&& actions.len() == 1
                &&& actions[0] matches StepAction::Checkout { branch: b }
                &&& b@ == branch@
            },
            ResolvedWorkflowStep::Fetch { remote } => {
                &&& actions.len() == 1
                &&& actions[0] matches StepAction::Fetch { remote: r }
                &&& r@ == remote@
            },
            ResolvedWorkflowStep::Pull { remote } => {
                &&& actions.len() == 1
                &&& actions[0] matches StepAction::Pull { remote: r }
                &&& r@ == remote@
            },
            ResolvedWorkflowStep::CreateBranch { name, from, checkout } => {
                &&& actions.len() == 1
                &&& actions[0] matches StepAction::CreateBranch { name: n, from: f, checkout: c }
                &&& n@ == name@
                &&& opt_view(f) == opt_view(from)
                &&& c == checkout
            },
            ResolvedWorkflowStep::Merge { branch } => {
                &&& actions.len() == 1
                &&& actions[0] matches StepAction::Merge { branch: b }
                &&& b@ == branch@
            },
            ResolvedWorkflowStep::Push { remote, branch, set_upstream } => {
                &&& actions.len() == 1
                &&& actions[0] matches StepAction::Push { remote: r, branch: b, set_upstream: s }
                &&& r@ == remote@
                &&& b@ == branch@
                &&& s == set_upstream
            },
            ResolvedWorkflowStep::GuardRemoteBranch { remote, branch, fetch, .. } => {
                &&& actions.len() == if fetch {
                    2int
                } else {
                    1
                }
                &&& fetch ==> (actions[0] matches StepAction::Fetch { remote: r } && r@ == remote@)
                &&& actions.last() matches StepAction::FindRemoteBranch { remote: r, branch: b }
                &&& r@ == remote@
                &&& b@ == branch@
            },
            ResolvedWorkflowStep::EnsureClean => actions.len() == 1 && actions[0] is CheckStatus,
            ResolvedWorkflowStep::AssertBranch { branch } => {
                &&& actions.len() == 1
                &&& actions[0] matches StepAction::CheckBranch { branch: b }
                &&& b@ == branch@
            },
        },
        forall|i: int|
            0 <= i < actions.len() && (#[trigger] actions[i]) is Fetch ==> step is Fetch
                || step matches ResolvedWorkflowStep::GuardRemoteBranch { fetch: true, .. },
{
    let views = action_views(actions);
    assert(views.len() == actions.len());
    assert forall|i: int| 0 <= i < actions.len() implies #[trigger] actions[i]@ == views[i] by {}
    assert(actions.len() > 0);
    assert(actions[0]@ == views[0]);
    assert(actions.last()@ == views.last());
}

/// A step that looks stops exactly on what it is there to find: changes that are not committed,
/// another branch, or a branch on the remote that should be missing or there. An answer stops no
/// other step.
pub proof fn lemma_answers_stop_the_right_step(
    step: ResolvedWorkflowStep,
    answer: StepAnswer,
    r: Result<(), GitError>,
)
    requires
        passes(r, step@.answer_fault(answer)),
    ensures
        step is EnsureClean ==> (answer matches StepAnswer::Status(changes) ==> (r is Ok
            <==> changes@.len() == 0)),
        step matches ResolvedWorkflowStep::AssertBranch { branch } ==> (
        answer matches StepAnswer::Branch(actual) ==> (r is Ok <==> opt_view(actual) == Some(
            branch@,
        ))),
        step matches ResolvedWorkflowStep::GuardRemoteBranch { on_exists, on_missing, .. } ==> (
        answer matches StepAnswer::RemoteBranch(exists) ==> (r is Ok <==> if exists {
            on_exists == RemoteBranchGuardAction::Continue
        } else {
            on_missing == RemoteBranchGuardAction::Continue
        })),
        !(step is EnsureClean || step is AssertBranch || step is GuardRemoteBranch) ==> r is Ok,
        answer is Done ==> r is Ok,
{
}

/// A step is resolved to a step of its own kind. Its texts are what they stand for, its choices
/// stay as they are; a remote that is not named is the one that the run is for, and a branch that
/// is not named for a push is the one that is checked out.
pub proof fn lemma_resolving_keeps_the_step(
    scope: ScopeView,
    step: WorkflowStep,
    resolved: ResolvedWorkflowStep,
)
    requires
        scope.step(step) == Ok::<ResolvedStepView, ResolveFault>(resolved@),
    ensures
        match step {
            WorkflowStep::Checkout { branch } => resolved matches ResolvedWorkflowStep::Checkout {
                branch: b,
            } && scope.text(branch@) == Ok::<Seq<char>, ResolveFault>(b@),
            WorkflowStep::Fetch { remote } => resolved matches ResolvedWorkflowStep::Fetch {
                remote: r,
            } && (match remote {
                Some(remote) => scope.text(remote@) == Ok::<Seq<char>, ResolveFault>(r@),
                None => r@ == scope.default_remote,
            }),
            WorkflowStep::Pull { remote } => resolved matches ResolvedWorkflowStep::Pull {
                remote: r,
            } && (match remote {
                Some(remote) => scope.text(remote@) == Ok::<Seq<char>, ResolveFault>(r@),
                None => r@ == scope.default_remote,
            }),
            WorkflowStep::CreateBranch {
                name,
                from,
                checkout,
            } => resolved matches ResolvedWorkflowStep::CreateBranch {
                name: n,
                from: f,
                checkout: c,
            } && c == checkout && scope.text(name@) == Ok::<Seq<char>, ResolveFault>(n@) && (
            match from {
                Some(from) => f matches Some(f) && scope.text(from@) == Ok::<
                    Seq<char>,
                    ResolveFault,
                >(f@),
                None => f is None,
            }),
            WorkflowStep::Merge { branch } => resolved matches ResolvedWorkflowStep::Merge {
                branch: b,
            } && scope.text(branch@) == Ok::<Seq<char>, ResolveFault>(b@),
            WorkflowStep::Push {
                remote,
                branch,
                set_upstream,
            } => resolved matches ResolvedWorkflowStep::Push {
                remote: r,
                branch: b,
                set_upstream: s,
            } && s == set_upstream && (match remote {
                Some(remote) => scope.text(remote@) == Ok::<Seq<char>, ResolveFault>(r@),
                None => r@ == scope.default_remote,
            }) && (match branch {
                Some(branch) => scope.text(branch@) == Ok::<Seq<char>, ResolveFault>(b@),
                None => Some(b@) == if scope.preview_branch is Some {
                    scope.preview_branch
                } else {
                    scope.repo_branch
                },
            }),
            WorkflowStep::GuardRemoteBranch {
                remote,
                branch,
                fetch,
                on_exists,
                on_missing,
            } => resolved matches ResolvedWorkflowStep::GuardRemoteBranch {
                remote: r,
                branch: b,
                fetch: f,
                on_exists: e,
                on_missing: m,
            } && f == fetch && e == on_exists && m == on_missing && (match remote {
                Some(remote) => scope.text(remote@) == Ok::<Seq<char>, ResolveFault>(r@),
                None => r@ == scope.default_remote,
            }) && scope.text(branch@) == Ok::<Seq<char>, ResolveFault>(b@) && !(r@
                + "/"@).is_prefix_of(b@),
            WorkflowStep::EnsureClean => resolved is EnsureClean,
            WorkflowStep::AssertBranch {
                branch,
            } => resolved matches ResolvedWorkflowStep::AssertBranch { branch: b } && scope.text(
                branch@,
            ) == Ok::<Seq<char>, ResolveFault>(b@),
        },
{
}

/// A step fails to be resolved only if one of its texts does, or if a guard is asked for a branch
/// under the name of its remote.
pub proof fn lemma_steps_fail_only_by_their_texts(scope: ScopeView, step: WorkflowStep)
    requires
        scope.step(step) is Err,
    ensures
        match step {
            WorkflowStep::Checkout { branch } => scope.text(branch@) is Err,
            WorkflowStep::Fetch { remote } => remote matches Some(r) && scope.text(r@) is Err,
            WorkflowStep::Pull { remote } => remote matches Some(r) && scope.text(r@) is Err,
            WorkflowStep::CreateBranch { name, from, .. } => scope.text(name@) is Err || (
            from matches Some(f) && scope.text(f@) is Err),
            WorkflowStep::Merge { branch } => scope.text(branch@) is Err,
            WorkflowStep::Push { remote, branch, .. } => {
                ||| remote matches Some(r) && scope.text(r@) is Err
                ||| branch matches Some(b) && scope.text(b@) is Err
                ||| branch is None && scope.preview_branch is None && scope.repo_branch is None
            },
            WorkflowStep::GuardRemoteBranch { remote, branch, .. } => {
                ||| remote matches Some(r) && scope.text(r@) is Err
                ||| scope.text(branch@) is Err
                ||| scope.step(step) == Err::<ResolvedStepView, ResolveFault>(
                    ResolveFault::RemotePrefix(scope.text(branch@)->Ok_0),
                )
            },
            WorkflowStep::EnsureClean => false,
            WorkflowStep::AssertBranch { branch } => scope.text(branch@) is Err,
        },
{
}

/// After a checkout its branch is checked out, and after creating a branch the new one is, if the
/// step says so.
pub proof fn lemma_checkouts_lead_to_their_branch(
    step: ResolvedWorkflowStep,
    before: Option<Seq<char>>,
)
    ensures
        step matches ResolvedWorkflowStep::Checkout { branch } ==> step@.branch_after(before)
            == Some(branch@),
        step matches ResolvedWorkflowStep::CreateBranch {
            name,
            checkout: true,
            ..
        } ==> step@.branch_after(before) == Some(name@),
        step matches ResolvedWorkflowStep::CreateBranch {
            checkout: false,
            ..
        } ==> step@.branch_after(before) == before,
        !(step is Checkout || step is CreateBranch) ==> step@.branch_after(before) == before,
{
}

/// A preview resolves every step against the branch that the steps before it lead to: with
/// `branches[i]` for the branch before step `i`, the line of the step is what the step comes to
/// there, and `branches[i + 1]` is where it leads.
pub proof fn lemma_preview_follows_the_steps(
    scope: ScopeView,
    steps: Seq<WorkflowStep>,
    from: int,
    branch: Option<Seq<char>>,
) -> (branches: Seq<Option<Seq<char>>>)
    requires
        0 <= from <= steps.len(),
        previewed(scope, steps, from, branch) is Ok,
    ensures
        branches.len() == steps.len() - from + 1,
        branches[0] == branch,
        forall|i: int|
            #![trigger branches[i]]
            0 <= i < steps.len() - from ==> {
                let come = (ScopeView { preview_branch: branches[i], ..scope }).step(
                    steps[from + i],
                );
                &&& come is Ok
                &&& previewed(scope, steps, from, branch)->Ok_0[i].summary == come->Ok_0.label()
                &&& branches[i + 1] == come->Ok_0.branch_after(branches[i])
            },
    decreases steps.len() - from,
{
    if from >= steps.len() {
        seq![branch]
    } else {
        let step = (ScopeView { preview_branch: branch, ..scope }).step(steps[from])->Ok_0;
        let after = step.branch_after(branch);
        let rest = lemma_preview_follows_the_steps(scope, steps, from + 1, after);
        let branches = seq![branch] + rest;
        let all = previewed(scope, steps, from, branch)->Ok_0;
        let tail = previewed(scope, steps, from + 1, after)->Ok_0;
        lemma_preview_shows_every_step(scope, steps, from + 1, after);
        assert forall|i: int|
            #![trigger branches[i]]
            0 <= i < steps.len() - from implies {
            let come = (ScopeView { preview_branch: branches[i], ..scope }).step(steps[from + i]);
            &&& come is Ok
            &&& all[i].summary == come->Ok_0.label()
            &&& branches[i + 1] == come->Ok_0.branch_after(branches[i])
        } by {
            if i > 0 {
                assert(branches[i] == rest[i - 1]);
                assert(branches[i + 1] == rest[i]);
                assert(all[i] == tail[i - 1]);
                assert(steps[from + i] == steps[from + 1 + (i - 1)]);
            } else {
                assert(branches[1] == rest[0]);
            }
        }
        branches
    }
}

/// The line of a step names what the step is about.
pub proof fn lemma_labels_name_their_branch(step: ResolvedStepView)
    ensures
        step matches ResolvedStepView::Checkout { branch } ==> contains_text(step.label(), branch),
        step matches ResolvedStepView::Fetch { remote } ==> contains_text(step.label(), remote),
        step matches ResolvedStepView::Pull { remote } ==> contains_text(step.label(), remote),
        step matches ResolvedStepView::CreateBranch { name, from, .. } ==> contains_text(
            step.label(),
            name,
        ) && (from matches Some(f) ==> contains_text(step.label(), f)),
        step matches ResolvedStepView::Merge { branch } ==> contains_text(step.label(), branch),
        step matches ResolvedStepView::Push { remote, branch, .. } ==> contains_text(
            step.label(),
            branch,
        ) && contains_text(step.label(), remote),
        step matches ResolvedStepView::GuardRemoteBranch { remote, branch, .. } ==> contains_text(
            step.label(),
            remote + "/"@ + branch,
        ),
        step matches ResolvedStepView::AssertBranch { branch } ==> contains_text(
            step.label(),
            branch,
        ),
{
    match step {
        ResolvedStepView::Checkout { branch } => {
            lemma_part_is_contained("切换到分支 "@, branch, Seq::empty(), step.label());
        },
        ResolvedStepView::Fetch { remote } => {
            lemma_part_is_contained("获取远端 "@, remote, Seq::empty(), step.label());
        },
        ResolvedStepView::Pull { remote } => {
            lemma_part_is_contained("拉取远端 "@, remote, Seq::empty(), step.label());
        },
        ResolvedStepView::CreateBranch { name, from, checkout } => {
            let start = match from {
                Some(from) => from,
                None => "当前 HEAD"@,
            };
            let end = if checkout {
                "并切换"@
            } else {
                ""@
            };
            lemma_part_is_contained("基于 "@ + start + " 创建分支 "@, name, end, step.label());
            lemma_part_is_contained("基于 "@, start, " 创建分支 "@ + name + end, step.label());
        },
        ResolvedStepView::Merge { branch } => {
            lemma_part_is_contained("合并分支 "@, branch, Seq::empty(), step.label());
        },
        ResolvedStepView::Push { remote, branch, .. } => {
            lemma_part_is_contained("推送分支 "@, branch, " 到 "@ + remote, step.label());
            lemma_part_is_contained(
                "推送分支 "@ + branch + " 到 "@,
                remote,
                Seq::empty(),
                step.label(),
            );
        },
        ResolvedStepView::GuardRemoteBranch { remote, branch, fetch, on_exists, on_missing } => {
            let tail = "（"@ + (if fetch {
                "先获取远端"@
            } else {
                "基于本地引用"@
            } + "，存在则"@ + crate::workflow::remote_branch_guard::action_word(on_exists)
                + "，不存在则"@ + crate::workflow::remote_branch_guard::action_word(on_missing))
                + "）"@;
            lemma_part_is_contained(
                "检查远端分支 "@,
                remote + "/"@ + branch,
                tail,
                step.label(),
            );
        },
        ResolvedStepView::AssertBranch { branch } => {
            lemma_part_is_contained("确认当前分支是 "@, branch, Seq::empty(), step.label());
        },
        _ => {},
    }
}

proof fn lemma_part_is_contained(a: Seq<char>, b: Seq<char>, c: Seq<char>, whole: Seq<char>)
    requires
        whole =~= a + b + c,
    ensures
        contains_text(whole, b),
{
    assert(whole.subrange(a.len() as int, (a.len() + b.len()) as int) =~= b);
}

/// A worktree is refused for its changes, and the refusal names the first five of them.
pub proof fn lemma_refusals_name_the_changes(changes: Seq<WorktreeChange>, i: int)
    requires
        0 <= i < changes.len(),
        i < 5,
    ensures
        unclean(changes) matches Some(text) && contains_text(text, changes[i].path@),
        changes.len() > 5 ==> contains_text(unclean(changes)->0, decimal(changes.len())),
{
    let paths = changes.map_values(|c: WorktreeChange| c.path@);
    let head = "工作区存在未提交更改，不能运行该工作流："@;
    let text = unclean(changes)->0;
    if changes.len() > 5 {
        let (a, c) = lemma_joined_contains(paths.take(5), ", "@, i);
        let more = " 等 "@ + decimal(changes.len()) + " 个文件"@;
        lemma_part_is_contained(head + a, paths[i], c + more, text);
        lemma_part_is_contained(
            head + joined(paths.take(5), ", "@) + " 等 "@,
            decimal(changes.len()),
            " 个文件"@,
            text,
        );
    } else {
        let (a, c) = lemma_joined_contains(paths, ", "@, i);
        lemma_part_is_contained(head + a, paths[i], c, text);
    }
}

proof fn lemma_joined_contains(parts: Seq<Seq<char>>, sep: Seq<char>, i: int) -> (r: (
    Seq<char>,
    Seq<char>,
))
    requires
        0 <= i < parts.len(),
    ensures
        joined(parts, sep) == r.0 + parts[i] + r.1,
    decreases parts.len(),
{
    if parts.len() == 1 {
        assert(joined(parts, sep) =~= Seq::<char>::empty() + parts[i] + Seq::<char>::empty());
        (Seq::empty(), Seq::empty())
    } else if i == parts.len() - 1 {
        let a = joined(parts.drop_last(), sep) + sep;
        assert(joined(parts, sep) =~= a + parts[i] + Seq::<char>::empty());
        (a, Seq::empty())
    } else {
        let (a, c) = lemma_joined_contains(parts.drop_last(), sep, i);
        let c = c + sep + parts.last();
        assert(joined(parts, sep) =~= a + parts[i] + c);
        (a, c)
    }
}

/// The log counts steps from one and names them, and a step that is finished is logged otherwise
/// than one that starts.
pub proof fn lemma_log_names_the_step(index: usize, total: usize, label: String)
    ensures
        ({
            let started = (WorkflowProgressEvent::StepStarted { index, total, label }).message();
            let finished = (WorkflowProgressEvent::StepFinished { index, total, label }).message();
            let place = decimal((index + 1) as nat) + "/"@ + decimal(total as nat);
            &&& contains_text(started, label@)
            &&& contains_text(finished, label@)
            &&& contains_text(started, place)
            &&& contains_text(finished, place)
            &&& started != finished
        }),
{
    let started = (WorkflowProgressEvent::StepStarted { index, total, label }).message();
    let finished = (WorkflowProgressEvent::StepFinished { index, total, label }).message();
    let place = decimal((index + 1) as nat) + "/"@ + decimal(total as nat);
    lemma_part_is_contained("步骤 "@ + place + "："@, label@, Seq::empty(), started);
    lemma_part_is_contained("步骤 "@ + place + " 完成："@, label@, Seq::empty(), finished);
    lemma_part_is_contained("步骤 "@, place, "："@ + label@, started);
    lemma_part_is_contained("步骤 "@, place, " 完成："@ + label@, finished);
    reveal_strlit("：");
    reveal_strlit(" 完成：");
    assert(started.len() != finished.len());
}

/// A step is given as it was resolved, and a fault as an error.
pub proof fn lemma_what_a_step_comes_to(
    r: Result<ResolvedWorkflowStep, GitError>,
    step: Result<ResolvedStepView, ResolveFault>,
)
    requires
        gives_step(r, step),
    ensures
        step is Ok <==> r is Ok,
        step matches Ok(view) ==> r->Ok_0@ == view,
        step matches Err(fault) ==> reports(r->Err_0, fault),
{
}

/// Another branch than the one that is asked for is refused by both their names, and no branch at all
/// is refused too.
pub proof fn lemma_other_branches_are_refused(actual: Option<Seq<char>>, branch: Seq<char>)
    ensures
        actual == Some(branch) ==> other_branch(actual, branch) is None,
        actual is None ==> other_branch(actual, branch) is Some,
        actual matches Some(name) && name != branch ==> other_branch(actual, branch) is Some
            && contains_text(other_branch(actual, branch)->0, actual->0) && contains_text(
            other_branch(actual, branch)->0,
            branch,
        ),
{
    if let Some(name) = actual {
        if name != branch {
            let text = other_branch(actual, branch)->0;
            lemma_part_is_contained("当前分支是 "@, name, "，不是工作流要求的 "@ + branch, text);
            lemma_part_is_contained(
                "当前分支是 "@ + name + "，不是工作流要求的 "@,
                branch,
                Seq::empty(),
                text,
            );
        }
    }
}

/// A run starts before its first step. A step that starts is the next one, and one that finishes is
/// counted, under the label that it started with.
pub proof fn lemma_steps_are_counted(before: WorkflowRun, after: WorkflowRun, event: WorkflowProgressEvent)
    ensures
        before.starts_step(after, event@) ==> {
            &&& event matches WorkflowProgressEvent::StepStarted { index, total, label }
            &&& index == before.steps_run
            &&& total == before.total
            &&& after.label is Some && after.label->0@ == label@
            &&& after.steps_run == before.steps_run
            &&& before.steps_run < before.total
        },
        before.finishes_step(after, event@) ==> {
            &&& event matches WorkflowProgressEvent::StepFinished { index, total, label }
            &&& index == before.steps_run
            &&& total == before.total
            &&& before.label is Some && before.label->0@ == label@
            &&& after.label is None
            &&& after.steps_run == before.steps_run + 1
        },
{
}

/// A run begins with nothing done, and says what it is called and how many steps it has.
pub proof fn lemma_runs_begin(
    run: WorkflowRun,
    definition: WorkflowDefinition,
    event: WorkflowProgressEvent,
)
    requires
        run.begins(definition, event@),
    ensures
        run.steps_run == 0,
        run.label is None,
        run.last_snapshot is None,
        run.total == definition.steps@.len(),
        event matches WorkflowProgressEvent::Started { name, total } && name@ == definition.title()
            && total == definition.steps@.len(),
{
}

/// What one sees of a preview is what it holds.
pub proof fn lemma_preview_is_what_is_seen(steps: Seq<WorkflowPreviewStep>, i: int)
    requires
        0 <= i < steps.len(),
    ensures
        preview_steps(steps).len() == steps.len(),
        preview_steps(steps)[i].index == steps[i].index,
        preview_steps(steps)[i].op == steps[i].op@,
        preview_steps(steps)[i].summary == steps[i].summary@,
{
}

} // verus!
