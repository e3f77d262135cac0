//! Choosing a workflow file and running it.

use vstd::prelude::*;

use crate::session::popups::{DialogState, Popups};
use crate::session::tab::{RepoTabId, RepositoryLoading, TabView};
use crate::session::view::{RepositoryView, Spot, ViewState};
use crate::session::view_commands::running;
use crate::session::view_tabs::next_load_id;
use crate::strings::cat2;
use crate::workflow::WorkflowDefinition;
use crate::workflow::run::WorkflowPreview;

verus! {

/// The workflow that is chosen, what it will do, and what it did.
pub struct WorkflowPanel {
    pub definition: Option<WorkflowDefinition>,
    pub preview: Option<WorkflowPreview>,
    pub file_path: Option<String>,
    pub log: Vec<String>,
}

impl WorkflowPanel {
    pub open spec fn is_clear(self) -> bool {
        self.definition is None && self.preview is None && self.file_path is None
            && self.log@.len() == 0
    }

    pub fn new() -> (r: Self)
        ensures
            r.is_clear(),
    {
        WorkflowPanel { definition: None, preview: None, file_path: None, log: Vec::new() }
    }
}

/// Where a workflow is read for or runs.
#[derive(Debug, PartialEq, Eq)]
pub struct WorkflowTarget {
    pub tab_id: RepoTabId,
    pub path: String,
    /// The remote of steps that name none.
    pub default_remote: String,
}

impl ViewState {
    /// The tab that is shown with a status and without an error.
    pub open spec fn saying(self, status: Seq<char>) -> Self {
        self.put(self.spot(None), TabView { status, error: None, ..self.current() })
    }

    pub open spec fn without_error(self) -> Self {
        self.put(self.spot(None), TabView { error: None, ..self.current() })
    }

    /// The remote of steps that name none.
    pub open spec fn default_remote(self) -> Seq<char> {
        match self.remote_in_use() {
            Some(remote) => remote@,
            None => "origin"@,
        }
    }

    /// Whether `target` is the repository that is shown.
    pub open spec fn is_target(self, target: WorkflowTarget) -> bool {
        &&& Some(target.tab_id) == self.active
        &&& Some(target.path) == self.current().repo_path
        &&& target.default_remote@ == self.default_remote()
    }
}

/// What the status says of a workflow file that cannot be read.
pub fn workflow_read_failed(error: &str) -> (r: String)
    ensures
        r@ == "工作流文件读取失败："@ + error@,
{
    cat2("工作流文件读取失败：", error)
}

/// What the log says of a workflow that failed.
pub fn workflow_failed(error: &str) -> (r: String)
    ensures
        r@ == "工作流失败："@ + error@,
{
    cat2("工作流失败：", error)
}

impl RepositoryView {
    pub fn open_workflow_dialog(&mut self, panel: &mut WorkflowPanel)
        requires
            old(self).wf(),
        ensures
            final(self).wf(),
            final(panel).definition == old(panel).definition,
            final(panel).preview == old(panel).preview,
            final(panel).file_path == old(panel).file_path,
            if old(self)@.current().repo_path is None {
                final(self)@ == old(self)@.without_repository() && final(panel).log@ == old(
                    panel).log@
            } else {
                final(self)@ == (ViewState {
                    popups: Popups {
                        active_dialog: Some(DialogState::WorkflowRunner),
                        ..Popups::none()
                    },
                    ..old(self)@.without_error()
                }) && final(panel).log@.len() == 0
            },
    {
        let spot: Spot = self.spot(None);
        let tab = self.tab_at(spot);
        if tab.repo_path.is_none() {
            tab.fail("请先打开一个仓库");
            return ;
        }
        tab.last_error = None;
        self.popups.open_dialog(DialogState::WorkflowRunner);
        panel.log = Vec::new();
    }

    /// A workflow file is being chosen.
    pub fn browse_workflow_file(&mut self)
        requires
            old(self).wf(),
        ensures
            final(self).wf(),
            final(self)@ == old(self)@.saying("正在选择工作流文件"@),
    {
        let spot: Spot = self.spot(None);
        let tab = self.tab_at(spot);
        tab.status = "正在选择工作流文件".to_string();
        tab.last_error = None;
    }

    pub fn clear_workflow_file(&mut self, panel: &mut WorkflowPanel)
        requires
            old(self).wf(),
        ensures
            final(self).wf(),
            final(self)@ == old(self)@.without_error(),
            final(panel).is_clear(),
    {
        *panel = WorkflowPanel::new();
        let spot: Spot = self.spot(None);
        let tab = self.tab_at(spot);
        tab.last_error = None;
    }

    /// The repository that a workflow file is read for, if one is shown.
    pub fn workflow_target(&mut self) -> (r: Option<WorkflowTarget>)
        requires
            old(self).wf(),
        ensures
            final(self).wf(),
            match r {
                Some(target) => old(self)@.shows_repository() && old(self)@.is_target(target)
                    && final(self)@ == old(self)@,
                None => !old(self)@.shows_repository() && final(self)@ == old(
                    self,
                )@.without_repository(),
            },
    {
        match self.active_repository() {
            None => {
                self.fail("请先打开一个仓库");
                None
            },
            Some((tab_id, path)) => {
                let default_remote: String = match self.current_remote() {
                    Some(remote) => remote,
                    None => "origin".to_string(),
                };
                Some(WorkflowTarget { tab_id, path, default_remote })
            },
        }
    }

    /// A workflow file was read, or not.
    pub fn workflow_file_loaded(
        &mut self,
        panel: &mut WorkflowPanel,
        path: String,
        loaded: Result<(WorkflowDefinition, WorkflowPreview), String>,
    )
        requires
            old(self).wf(),
        ensures
            final(self).wf(),
            match loaded {
                Ok((definition, preview)) => {
                    &&& final(self)@ == old(self)@.saying("工作流已加载"@)
                    &&& final(panel).definition == Some(definition)
                    &&& final(panel).preview == Some(preview)
                    &&& final(panel).file_path == Some(path)
                    &&& final(panel).log@.len() == 0
                },
                Err(error) => final(self)@ == old(self)@.failing(error@) && *final(panel)
                    == *old(panel),
            },
    {
        match loaded {
            Ok((definition, preview)) => {
                panel.definition = Some(definition);
                panel.preview = Some(preview);
                panel.file_path = Some(path);
                panel.log = Vec::new();
                let spot: Spot = self.spot(None);
                let tab = self.tab_at(spot);
                tab.status = "工作流已加载".to_string();
                tab.last_error = None;
            },
            Err(error) => {
                self.fail(error.as_str());
            },
        }
    }

    /// Runs the chosen workflow on the repository that is shown, unless something else runs
    /// there. The dialog stays open.
    pub fn run_workflow(&mut self, panel: &mut WorkflowPanel) -> (r: Option<WorkflowTarget>)
        requires
            old(self).wf(),
        ensures
            final(self).wf(),
            final(panel).definition == old(panel).definition,
            final(panel).preview == old(panel).preview,
            final(panel).file_path == old(panel).file_path,
            r is Some <==> old(self)@.shows_repository() && old(panel).definition is Some && !old(
                self,
            )@.current().busy,
            match r {
                Some(target) => {
                    &&& old(self)@.is_target(target)
                    &&& final(panel).log@.len() == 0
                    &&& final(self)@ == old(self)@.put(
                        old(self)@.spot(None),
                        running(old(self)@.current(), "正在运行工作流"@, true),
                    )
                },
                None => {
                    &&& final(panel).log@ == old(panel).log@
                    &&& final(self)@ == old(self)@.failing(
                        if !old(self)@.shows_repository() {
                            "请先打开一个仓库"@
                        } else if old(panel).definition is None {
                            "请先选择工作流文件"@
                        } else {
                            "已有操作正在运行"@
                        },
                    )
                },
            },
    {
        let target: WorkflowTarget = match self.workflow_target() {
            Some(target) => target,
            None => {
                return None;
            },
        };
        if panel.definition.is_none() {
            self.fail("请先选择工作流文件");
            return None;
        }
        let spot: Spot = self.spot(None);
        let tab = self.tab_at(spot);
        if tab.busy {
            tab.fail("已有操作正在运行");
            return None;
        }
        tab.repository_load_id = next_load_id(tab.repository_load_id);
        tab.loading = RepositoryLoading::default();
        tab.busy = true;
        tab.status = "正在运行工作流".to_string();
        tab.last_error = None;
        panel.log = Vec::new();
        Some(target)
    }
}

/// A workflow runs in the repository that is shown, with the remote that is in use there, or with
/// `origin` if there is none.
pub proof fn lemma_where_workflows_run(state: ViewState, target: WorkflowTarget)
    requires
        state.is_target(target),
    ensures
        state.active == Some(target.tab_id),
        state.current().repo_path == Some(target.path),
        match state.remote_in_use() {
            Some(remote) => target.default_remote@ == remote@,
            None => target.default_remote@ == "origin"@,
        },
{
}

/// A panel is clear if nothing was chosen and nothing was logged.
pub proof fn lemma_clear_panels(panel: WorkflowPanel)
    ensures
        panel.is_clear() <==> {
            &&& panel.definition is None
            &&& panel.preview is None
            &&& panel.file_path is None
            &&& panel.log@.len() == 0
        },
{
}

/// What the window says is shown in the tab that is shown, and takes its error away.
pub proof fn lemma_what_is_said(state: ViewState, status: Seq<char>)
    requires
        state.is_place(state.spot(None)),
    ensures
        state.saying(status).at(state.spot(None)).status == status,
        state.saying(status).at(state.spot(None)).error is None,
        state.saying(status).popups == state.popups,
        state.without_error().at(state.spot(None)).error is None,
        state.without_error().at(state.spot(None)).status == state.current().status,
{
}

} // verus!
