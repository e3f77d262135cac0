//! Steps as they stand in workflow files.

use khaslana::workflow::remote_branch_guard::RemoteBranchGuardAction;
use khaslana::workflow::steps::{
    read_defaults, read_input, read_step, read_steps, FieldFault, FieldValue, StepField,
};
use khaslana::workflow::{WorkflowDefaults, WorkflowInputDefinition, WorkflowStep};

fn text(s: &str) -> String {
    s.to_string()
}

fn field(name: &str, value: FieldValue) -> StepField {
    StepField {
        name: text(name),
        value,
    }
}

fn word(name: &str, value: &str) -> StepField {
    field(name, FieldValue::Text(text(value)))
}

fn fault(fields: Vec<StepField>) -> FieldFault {
    read_step(&fields).unwrap_err()
}

#[test]
fn a_step_keeps_the_name_of_its_operation() {
    let names = [
        "checkout",
        "fetch",
        "pull",
        "createBranch",
        "merge",
        "push",
        "guardRemoteBranch",
        "ensureClean",
        "assertBranch",
    ];
    for name in names {
        let step = read_step(&vec![word("branch", "b"), word("op", name), word("name", "n")]);
        assert_eq!(step.unwrap().op_name(), name);
    }
}

#[test]
fn what_a_step_leaves_out_has_a_default() {
    assert_eq!(
        read_step(&vec![word("op", "createBranch"), word("name", "n")]),
        Ok(WorkflowStep::CreateBranch {
            name: text("n"),
            from: None,
            checkout: true,
        })
    );
    assert_eq!(
        read_step(&vec![word("op", "push"), field("remote", FieldValue::Null)]),
        Ok(WorkflowStep::Push {
            remote: None,
            branch: None,
            set_upstream: true,
        })
    );
    assert_eq!(
        read_step(&vec![word("op", "guardRemoteBranch"), word("branch", "b")]),
        Ok(WorkflowStep::GuardRemoteBranch {
            remote: None,
            branch: text("b"),
            fetch: true,
            on_exists: RemoteBranchGuardAction::Fail,
            on_missing: RemoteBranchGuardAction::Continue,
        })
    );
}

#[test]
fn what_a_step_gives_is_taken() {
    assert_eq!(
        read_step(&vec![
            word("op", "guardRemoteBranch"),
            word("remote", "up"),
            word("branch", "b"),
            field("fetch", FieldValue::Flag(false)),
            word("onExists", "continue"),
            word("onMissing", "fail"),
            field("other", FieldValue::Other),
        ]),
        Ok(WorkflowStep::GuardRemoteBranch {
            remote: Some(text("up")),
            branch: text("b"),
            fetch: false,
            on_exists: RemoteBranchGuardAction::Continue,
            on_missing: RemoteBranchGuardAction::Fail,
        })
    );
    assert_eq!(
        read_step(&vec![word("op", "push"), field("set_upstream", FieldValue::Flag(false))]),
        Ok(WorkflowStep::Push {
            remote: None,
            branch: None,
            set_upstream: false,
        })
    );
}

#[test]
fn a_faulty_step_is_not_read() {
    assert_eq!(fault(Vec::new()), FieldFault::MissingOp);
    assert_eq!(fault(vec![word("op", "checkout")]), FieldFault::MissingBranch);
    assert_eq!(fault(vec![word("op", "createBranch")]), FieldFault::MissingName);
    assert_eq!(
        fault(vec![word("op", "fetch"), word("remote", "a"), word("remote", "b")]),
        FieldFault::GivenTwice(2)
    );
    assert_eq!(
        fault(vec![word("op", "fetch"), word("op", "pull")]),
        FieldFault::GivenTwice(1)
    );
    assert_eq!(
        fault(vec![word("op", "merge"), field("branch", FieldValue::Null)]),
        FieldFault::WrongType(1)
    );
    assert_eq!(fault(vec![field("op", FieldValue::Other)]), FieldFault::WrongType(0));
    assert_eq!(
        fault(vec![word("op", "guardRemoteBranch"), word("branch", "b"), word("onExists", "x")]),
        FieldFault::UnknownAction(2)
    );
    assert_eq!(fault(vec![word("op", "rebase")]), FieldFault::UnknownOperation(0));
}

#[test]
fn the_first_fault_in_a_file_is_told() {
    assert_eq!(
        fault(vec![
            field("checkout", FieldValue::Null),
            field("from", FieldValue::Flag(true)),
            word("op", "createBranch"),
        ]),
        FieldFault::WrongType(0)
    );
    assert_eq!(
        fault(vec![field("branch", FieldValue::Other), word("op", "nothing")]),
        FieldFault::UnknownOperation(1)
    );
    let clean = vec![word("op", "ensureClean"), field("branch", FieldValue::Other)];
    assert_eq!(read_step(&clean), Ok(WorkflowStep::EnsureClean));
    let tagged = vec![
        word("op", "guardRemoteBranch"),
        word("branch", "b"),
        field("onExists", FieldValue::Tagged(text("continue"))),
    ];
    assert!(matches!(
        read_step(&tagged),
        Ok(WorkflowStep::GuardRemoteBranch {
            on_exists: RemoteBranchGuardAction::Continue,
            ..
        })
    ));
}

#[test]
fn one_faulty_step_spoils_the_list() {
    let clean = || vec![word("op", "ensureClean")];
    assert_eq!(
        read_steps(&vec![clean(), vec![word("op", "pull")]]),
        Ok(vec![
            WorkflowStep::EnsureClean,
            WorkflowStep::Pull { remote: None },
        ])
    );
    assert_eq!(
        read_steps(&vec![clean(), vec![word("op", "merge")], Vec::new()]),
        Err(FieldFault::MissingBranch)
    );
}

#[test]
fn inputs_and_defaults_fill_in_what_is_left_out() {
    assert_eq!(
        read_input(&Vec::new()),
        Ok(WorkflowInputDefinition {
            label: None,
            description: None,
            default: None,
            required: true,
        })
    );
    assert_eq!(
        read_input(&vec![
            word("label", "l"),
            word("default", "d"),
            field("required", FieldValue::Flag(false)),
        ]),
        Ok(WorkflowInputDefinition {
            label: Some(text("l")),
            description: None,
            default: Some(text("d")),
            required: false,
        })
    );
    assert_eq!(
        read_input(&vec![field("description", FieldValue::Other)]),
        Err(FieldFault::WrongType(0))
    );
    assert_eq!(read_defaults(&Vec::new()), Ok(WorkflowDefaults::default()));
    let loose = vec![field("requireCleanWorktree", FieldValue::Flag(false))];
    assert!(!read_defaults(&loose).unwrap().require_clean_worktree);
    assert_eq!(
        read_defaults(&vec![word("requireCleanWorktree", "no")]),
        Err(FieldFault::WrongType(0))
    );
}
