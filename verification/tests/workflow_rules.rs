//! Expressions, variables and steps of workflows.

use khaslana::textmap::TextMap;
use khaslana::types::{ChangeState, GitError, RepositorySnapshot, WorktreeChange};
use khaslana::workflow::expressions::{apply_method, evaluate_workflow_expression, PipeValue};
use khaslana::workflow::remote_branch_guard::{
    guard_remote_branch, guard_summary, validate_remote_branch_name, RemoteBranchGuardAction,
};
use khaslana::workflow::resolver::{
    repo_display_name, HeadState, RepositoryFacts, WorkflowEvalContext, WorkflowResolver,
};
use khaslana::workflow::run::{
    assert_branch, changes_preview, ensure_clean_worktree, workflow_finished_message,
    workflow_progress_message, ResolvedWorkflowStep, RunNext, StepAction, StepAnswer,
    WorkflowProgressEvent,
    WorkflowRun,
};
use khaslana::workflow::{
    validate_definition, validate_input_name, validate_input_values, WorkflowDefaults,
    WorkflowDefinition, WorkflowInputDefinition, WorkflowRunOptions, WorkflowStep,
};

fn text(s: &str) -> String {
    s.to_string()
}

fn message(error: GitError) -> String {
    match error {
        GitError::Message(text) | GitError::Git(text) => text,
        other => panic!("{other:?}"),
    }
}

fn definition(vars: &[(&str, &str)], steps: Vec<WorkflowStep>) -> WorkflowDefinition {
    let mut map = TextMap::new();
    for (name, value) in vars {
        map.insert(text(name), text(value));
    }
    WorkflowDefinition {
        version: 1,
        name: None,
        defaults: WorkflowDefaults::default(),
        inputs: TextMap::new(),
        vars: map,
        steps,
    }
}

fn context() -> WorkflowEvalContext {
    WorkflowEvalContext::new(86_399, 5_000_000, 3600, Some(text("start")), Some(text("repo")))
}

fn facts() -> RepositoryFacts {
    RepositoryFacts {
        current_branch: Some(text("main")),
        head: HeadState::Commit(text("0123456789abcdef")),
    }
}

fn resolve(vars: &[(&str, &str)], template: &str) -> Result<String, GitError> {
    let definition = definition(vars, Vec::new());
    let options = WorkflowRunOptions::default();
    let context = context();
    let facts = facts();
    WorkflowResolver::new(&definition, &options, &context, &facts).interpolate(template)
}

#[test]
fn plain_text_stands_for_itself() {
    assert_eq!(resolve(&[], "feature/a b").unwrap(), "feature/a b");
    assert_eq!(resolve(&[], "").unwrap(), "");
}

#[test]
fn names_of_the_run_and_of_git_are_known() {
    assert_eq!(resolve(&[], "${git.currentBranch}").unwrap(), "main");
    assert_eq!(resolve(&[], "${git.initialBranch}").unwrap(), "start");
    assert_eq!(resolve(&[], "${run.id}").unwrap(), "86399005");
    assert_eq!(resolve(&[], "${date:%Y-%m-%d %H}").unwrap(), "1970-01-02 00");
}

#[test]
fn variables_may_use_each_other() {
    let vars = [("a", "x-${b}"), ("b", "${git.currentBranch}")];
    assert_eq!(resolve(&vars, "[${a}]").unwrap(), "[x-main]");
}

#[test]
fn faults_of_texts_are_reported() {
    assert!(message(resolve(&[], "${a").unwrap_err()).contains("变量表达式缺少结束符"));
    assert!(resolve(&[], "${nobody}").is_err());
    assert!(message(resolve(&[("a", "${a}")], "${a}").unwrap_err()).contains("循环引用"));
    assert!(message(resolve(&[], "${date:%}").unwrap_err()).contains("无法识别的日期格式"));
    let options = WorkflowRunOptions::default();
    let definition = definition(&[], Vec::new());
    let context = context();
    let detached = RepositoryFacts {
        current_branch: None,
        head: HeadState::NoTarget,
    };
    let resolver = WorkflowResolver::new(&definition, &options, &context, &detached);
    assert!(message(resolver.current_branch().unwrap_err()).contains("git.currentBranch"));
    assert_eq!(message(resolver.head_oid().unwrap_err()), "当前 HEAD 没有目标提交");
    let failed = RepositoryFacts {
        current_branch: None,
        head: HeadState::Failed(text("broken")),
    };
    let resolver = WorkflowResolver::new(&definition, &options, &context, &failed);
    assert_eq!(message(resolver.head_oid().unwrap_err()), "broken");
}

#[test]
fn methods_work_on_texts_and_lists() {
    let value = |expression: &str| evaluate_workflow_expression(expression, text("feature/User Story_123"));
    assert_eq!(value("x | split:'/' | last").unwrap(), "User Story_123");
    assert_eq!(value("x | split:'/' | last | slug").unwrap(), "user-story-123");
    assert_eq!(value("x | truncate:7").unwrap(), "feature");
    assert!(message(value("x | split:'/'").unwrap_err()).contains("最终结果是数组"));
    assert!(value("x | nonsense").is_err());
    assert!(value("x | last").is_err());
    assert!(value("x | truncate:many").is_err());
    assert_eq!(
        apply_method(PipeValue::Text(text("a,b,")), "split:','").unwrap(),
        PipeValue::List(vec![text("a"), text("b"), text("")])
    );
}

#[test]
fn definitions_are_checked() {
    let clean = || vec![WorkflowStep::EnsureClean];
    assert!(validate_definition(&definition(&[], clean())).is_ok());
    let mut wrong = definition(&[], clean());
    wrong.version = 99;
    assert_eq!(message(validate_definition(&wrong).unwrap_err()), "不支持的工作流版本：99");
    assert_eq!(
        message(validate_definition(&definition(&[], Vec::new())).unwrap_err()),
        "工作流至少需要一个步骤"
    );
    assert_eq!(
        message(validate_input_name(" ").unwrap_err()),
        "工作流输入变量名不能为空"
    );
    for name in ["date:x", "git.head", "run.id"] {
        assert!(message(validate_input_name(name).unwrap_err()).contains("内置变量名"));
    }
    assert!(validate_input_name("target").is_ok());
}

#[test]
fn inputs_that_are_needed_must_be_filled_in() {
    let mut wanted = definition(&[], vec![WorkflowStep::EnsureClean]);
    wanted.inputs.insert(
        text("target"),
        WorkflowInputDefinition {
            label: Some(text("目标分支")),
            description: None,
            default: None,
            required: true,
        },
    );
    let mut options = WorkflowRunOptions::default();
    assert_eq!(
        message(validate_input_values(&wanted, &options).unwrap_err()),
        "请填写工作流变量：目标分支"
    );
    options.input_vars.insert(text("target"), text("x"));
    assert!(validate_input_values(&wanted, &options).is_ok());
}

#[test]
fn inputs_come_before_variables() {
    let definition = definition(&[("target", "from-vars")], Vec::new());
    let mut options = WorkflowRunOptions::default();
    options.input_vars.insert(text("target"), text("chosen"));
    let context = context();
    let facts = facts();
    let resolver = WorkflowResolver::new(&definition, &options, &context, &facts);
    assert_eq!(resolver.interpolate("${target}").unwrap(), "chosen");
    assert_eq!(resolver.remote_name(&None).unwrap(), "origin");
    assert_eq!(resolver.branch_or_current(&None).unwrap(), "main");
}

#[test]
fn guards_stop_or_let_go_on() {
    let (go_on, stop) = (RemoteBranchGuardAction::Continue, RemoteBranchGuardAction::Fail);
    assert_eq!(
        message(guard_remote_branch(true, "origin", "a", stop, go_on).unwrap_err()),
        "远端分支已存在：origin/a"
    );
    assert_eq!(
        message(guard_remote_branch(false, "origin", "a", go_on, stop).unwrap_err()),
        "远端分支不存在：origin/a"
    );
    assert!(guard_remote_branch(true, "origin", "a", go_on, stop).is_ok());
    assert!(guard_remote_branch(false, "origin", "a", stop, go_on).is_ok());
    assert_eq!(
        guard_summary("origin", "a", false, stop, go_on),
        "检查远端分支 origin/a（基于本地引用，存在则停止，不存在则继续）"
    );
    assert!(message(validate_remote_branch_name("origin", "origin/a").unwrap_err())
        .contains("不要带远端名前缀"));
    assert!(validate_remote_branch_name("origin", "original/a").is_ok());
}

#[test]
fn a_guard_that_fetches_does_so_first() {
    let step = ResolvedWorkflowStep::GuardRemoteBranch {
        remote: text("origin"),
        branch: text("a"),
        fetch: true,
        on_exists: RemoteBranchGuardAction::Fail,
        on_missing: RemoteBranchGuardAction::Continue,
    };
    assert_eq!(
        step.execute(),
        vec![
            StepAction::Fetch { remote: text("origin") },
            StepAction::FindRemoteBranch { remote: text("origin"), branch: text("a") },
        ]
    );
    assert_eq!(ResolvedWorkflowStep::EnsureClean.execute(), vec![StepAction::CheckStatus]);
}

fn dirty(count: usize) -> Vec<WorktreeChange> {
    (0..count)
        .map(|i| WorktreeChange {
            path: format!("f{i}"),
            staged: None,
            unstaged: Some(ChangeState::Modified),
        })
        .collect()
}

#[test]
fn a_dirty_worktree_is_named_file_by_file() {
    assert!(ensure_clean_worktree(&Vec::new()).is_ok());
    assert_eq!(
        message(ensure_clean_worktree(&dirty(2)).unwrap_err()),
        "工作区存在未提交更改，不能运行该工作流：f0, f1"
    );
    assert_eq!(changes_preview(&dirty(7)), "f0, f1, f2, f3, f4 等 7 个文件");
}

#[test]
fn the_branch_is_compared() {
    assert!(assert_branch(&Some(text("main")), "main").is_ok());
    assert_eq!(
        message(assert_branch(&Some(text("a")), "b").unwrap_err()),
        "当前分支是 a，不是工作流要求的 b"
    );
    assert_eq!(
        message(assert_branch(&None, "b").unwrap_err()),
        "当前 HEAD 未指向本地分支，无法确认分支"
    );
}

#[test]
fn a_run_without_steps_shows_the_repository_as_it_is() {
    let definition = definition(&[], Vec::new());
    let (run, started) = WorkflowRun::start(&definition);
    assert!(matches!(started, WorkflowProgressEvent::Started { total: 0, .. }));
    let mut taken = RepositorySnapshot::default();
    taken.path = text("here");
    let (result, _) = run.finish(Some(taken));
    assert_eq!((result.steps_run, result.snapshot.path.as_str()), (0, "here"));
}

#[test]
fn answers_decide_whether_a_step_goes_on() {
    let clean = ResolvedWorkflowStep::EnsureClean;
    assert!(clean.check_answer(&StepAnswer::Status(Vec::new())).is_ok());
    assert_eq!(
        message(clean.check_answer(&StepAnswer::Status(dirty(1))).unwrap_err()),
        "工作区存在未提交更改，不能运行该工作流：f0"
    );
    assert!(clean.check_answer(&StepAnswer::Branch(None)).is_ok());
    let branch = ResolvedWorkflowStep::AssertBranch { branch: text("main") };
    assert!(branch.check_answer(&StepAnswer::Branch(Some(text("main")))).is_ok());
    assert_eq!(
        message(branch.check_answer(&StepAnswer::Branch(Some(text("a")))).unwrap_err()),
        "当前分支是 a，不是工作流要求的 main"
    );
    let guard = ResolvedWorkflowStep::GuardRemoteBranch {
        remote: text("up"),
        branch: text("b"),
        fetch: true,
        on_exists: RemoteBranchGuardAction::Fail,
        on_missing: RemoteBranchGuardAction::Continue,
    };
    assert!(guard.check_answer(&StepAnswer::Done).is_ok());
    assert!(guard.check_answer(&StepAnswer::RemoteBranch(false)).is_ok());
    assert_eq!(
        message(guard.check_answer(&StepAnswer::RemoteBranch(true)).unwrap_err()),
        "远端分支已存在：up/b"
    );
}

#[test]
fn a_run_reports_each_step() {
    let definition = definition(
        &[],
        vec![WorkflowStep::EnsureClean, WorkflowStep::Fetch { remote: None }],
    );
    let options = WorkflowRunOptions::default();
    let context = context();
    let facts = facts();
    let resolver = WorkflowResolver::new(&definition, &options, &context, &facts);
    let (mut run, started) = WorkflowRun::start(&definition);
    let mut log = vec![workflow_progress_message(&started)];
    loop {
        match run.next(&resolver).unwrap() {
            RunNext::Done => break,
            RunNext::Step { event, .. } => {
                log.push(workflow_progress_message(&event));
                log.push(workflow_progress_message(&run.step_finished(RepositorySnapshot::default())));
            }
        }
    }
    assert_eq!(run.last_snapshot, Some(RepositorySnapshot::default()));
    let (result, finished) = run.finish(None);
    assert_eq!((result.steps_run, result.snapshot), (2, RepositorySnapshot::default()));
    assert!(matches!(finished, WorkflowProgressEvent::Finished { total: 2, .. }));
    assert_eq!(log[0], "开始运行工作流“未命名工作流”（2 步）");
    assert_eq!(log[3], "步骤 2/2：获取远端 origin");
    assert_eq!(log[4], "步骤 2/2 完成：获取远端 origin");
    assert_eq!(workflow_finished_message("w", 2), "工作流“w”已完成（2 步）");
}

#[test]
fn a_repository_without_a_name_is_called_so() {
    assert_eq!(repo_display_name(None), "repository");
    assert_eq!(repo_display_name(Some(text(""))), "repository");
    assert_eq!(repo_display_name(Some(text("r"))), "r");
}
