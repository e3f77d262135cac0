//! The dialog that runs workflows.

use vstd::prelude::*;

use crate::session::view_workflow::WorkflowPanel;
use crate::strings::{cat2, decimal, opt_view, usize_to_string};
use crate::ui::actions::{Button, UiAction, button, plain, primary_button, strong};
use crate::workflow::run::WorkflowPreviewStep;

verus! {

#[derive(Debug, PartialEq, Eq)]
pub struct WorkflowDialog {
    pub title: &'static str,
    pub file_label: String,
    pub workflow_name: String,
    pub file_buttons: Vec<Button>,
    pub buttons: Vec<Button>,
    /// What stands in place of the steps.
    pub preview_placeholder: Option<&'static str>,
    /// What stands in place of the log.
    pub log_placeholder: Option<&'static str>,
}

pub open spec fn file_buttons(chosen: bool, busy: bool) -> Seq<Button> {
    seq![
        plain("选择文件", !busy, UiAction::BrowseWorkflow),
        plain("清空", chosen && !busy, UiAction::ClearWorkflow),
    ]
}

pub open spec fn run_buttons(chosen: bool, busy: bool) -> Seq<Button> {
    seq![
        plain("关闭", !busy, UiAction::CloseDialog),
        strong(
            if busy {
                "运行中..."
            } else {
                "运行"
            },
            chosen && !busy,
            UiAction::RunWorkflow,
        ),
    ]
}

pub fn workflow_dialog(panel: &WorkflowPanel, busy: bool) -> (r: WorkflowDialog)
    ensures
        r.title == "运行工作流",
        r.file_label@ == match opt_view(panel.file_path) {
            Some(path) => path,
            None => "未选择工作流文件"@,
        },
        r.workflow_name@ == match panel.preview {
            Some(preview) => preview.name@,
            None => "选择 .json5 或 .jsonc 文件后显示预览"@,
        },
        r.file_buttons@ == file_buttons(panel.definition is Some, busy),
        r.buttons@ == run_buttons(panel.definition is Some, busy),
        r.preview_placeholder == if panel.preview is Some {
            None
        } else {
            Some("暂无工作流预览")
        },
        r.log_placeholder == if panel.log@.len() > 0 {
            None
        } else {
            Some("运行后显示步骤日志")
        },
{
    let chosen: bool = panel.definition.is_some();
    let file_label: String = match &panel.file_path {
        Some(path) => path.clone(),
        None => "未选择工作流文件".to_string(),
    };
    let (workflow_name, any): (String, bool) = match &panel.preview {
        Some(preview) => (preview.name.clone(), true),
        None => ("选择 .json5 或 .jsonc 文件后显示预览".to_string(), false),
    };
    let mut above: Vec<Button> = Vec::new();
    above.push(button("选择文件", !busy, UiAction::BrowseWorkflow));
    above.push(button("清空", chosen && !busy, UiAction::ClearWorkflow));
    assert(above@ =~= file_buttons(chosen, busy));
    let mut buttons: Vec<Button> = Vec::new();
    buttons.push(button("关闭", !busy, UiAction::CloseDialog));
    let label: &'static str = if busy {
        "运行中..."
    } else {
        "运行"
    };
    buttons.push(primary_button(label, chosen && !busy, UiAction::RunWorkflow));
    assert(buttons@ =~= run_buttons(chosen, busy));
    WorkflowDialog {
        title: "运行工作流",
        file_label,
        workflow_name,
        file_buttons: above,
        buttons,
        preview_placeholder: if any {
            None
        } else {
            Some("暂无工作流预览")
        },
        log_placeholder: if panel.log.len() > 0 {
            None
        } else {
            Some("运行后显示步骤日志")
        },
    }
}

/// The number of a step, as it is shown.
pub fn step_number(step: &WorkflowPreviewStep) -> (r: String)
    requires
        step.index < usize::MAX,
    ensures
        r@ == "#"@ + decimal((step.index + 1) as nat),
{
    let n: String = usize_to_string(step.index + 1);
    cat2("#", n.as_str())
}

/// A file can be chosen and a chosen one be run or taken out, all while nothing is running.
pub proof fn lemma_workflow_buttons(chosen: bool, busy: bool)
    ensures
        ({
            let f = file_buttons(chosen, busy);
            &&& f.len() == 2
            &&& f[0].action is BrowseWorkflow && f[0].enabled == !busy
            &&& f[1].action is ClearWorkflow && f[1].enabled == (chosen && !busy)
        }),
        ({
            let r = run_buttons(chosen, busy);
            &&& r.len() == 2
            &&& r[0].action is CloseDialog && r[0].enabled == !busy
            &&& r[1].action is RunWorkflow && r[1].enabled == (chosen && !busy)
            &&& r[1].label == if busy {
                "运行中..."
            } else {
                "运行"
            }
        }),
{
}

} // verus!
