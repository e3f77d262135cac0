//! Reading the steps of a workflow file, what it asks for and its defaults.
//!
//! Each of them is a list of named values. In a step, the one called `op` says what the step
//! does, and which of the others it needs. Values that are not known are passed over.

use vstd::prelude::*;

use crate::strings::str_eq;
use crate::workflow::remote_branch_guard::{
    default_guard_fetch, default_on_exists, default_on_missing, RemoteBranchGuardAction,
};
use crate::workflow::{
    default_create_branch_checkout, default_require_clean_worktree, default_set_upstream,
    default_workflow_input_required, WorkflowDefaults, WorkflowInputDefinition, WorkflowStep,
};

verus! {

/// A value in a workflow file, as far as values are told apart.
#[derive(Clone, Debug, PartialEq, Eq)]
pub enum FieldValue {
    Text(String),
    Flag(bool),
    Null,
    /// An object with one name in it, and nothing under the name.
    Tagged(String),
    /// A number, a list or another object.
    Other,
}

/// A named value, such as those of a step.
#[derive(Clone, Debug, PartialEq, Eq)]
pub struct StepField {
    pub name: String,
    pub value: FieldValue,
}

/// What is wrong with a list of named values. The numbers are places in the list.
#[derive(Clone, Copy, Debug, PartialEq, Eq, Structural)]
pub enum FieldFault {
    MissingOp,
    MissingBranch,
    MissingName,
    /// The name was given before.
    GivenTwice(usize),
    /// The value is of a type that does not go with the name.
    WrongType(usize),
    /// No step does this.
    UnknownOperation(usize),
    /// No guard does this.
    UnknownAction(usize),
}

/// What a step does.
#[derive(Clone, Copy, Debug, PartialEq, Eq, Structural)]
pub enum Operation {
    Checkout,
    Fetch,
    Pull,
    CreateBranch,
    Merge,
    Push,
    GuardRemoteBranch,
    EnsureClean,
    AssertBranch,
}

/// What a list of named values describes.
#[derive(Clone, Copy, Debug, PartialEq, Eq, Structural)]
pub enum Record {
    Step(Operation),
    Input,
    Defaults,
}

/// What goes with a name.
#[derive(Clone, Copy, Debug, PartialEq, Eq, Structural)]
pub enum FieldKind {
    Text,
    OptionalText,
    Flag,
    /// What a guard does.
    Action,
}

// ---------------------------------------------------------------------------
// Names
// ---------------------------------------------------------------------------
pub open spec fn operation_named(name: Seq<char>) -> Option<Operation> {
    if name == "checkout"@ {
        Some(Operation::Checkout)
    } else if name == "fetch"@ {
        Some(Operation::Fetch)
    } else if name == "pull"@ {
        Some(Operation::Pull)
    } else if name == "createBranch"@ {
        Some(Operation::CreateBranch)
    } else if name == "merge"@ {
        Some(Operation::Merge)
    } else if name == "push"@ {
        Some(Operation::Push)
    } else if name == "guardRemoteBranch"@ {
        Some(Operation::GuardRemoteBranch)
    } else if name == "ensureClean"@ {
        Some(Operation::EnsureClean)
    } else if name == "assertBranch"@ {
        Some(Operation::AssertBranch)
    } else {
        None
    }
}

fn find_operation(name: &str) -> (r: Option<Operation>)
    ensures
        r == operation_named(name@),
{
    if str_eq(name, "checkout") {
        Some(Operation::Checkout)
    } else if str_eq(name, "fetch") {
        Some(Operation::Fetch)
    } else if str_eq(name, "pull") {
        Some(Operation::Pull)
    } else if str_eq(name, "createBranch") {
        Some(Operation::CreateBranch)
    } else if str_eq(name, "merge") {
        Some(Operation::Merge)
    } else if str_eq(name, "push") {
        Some(Operation::Push)
    } else if str_eq(name, "guardRemoteBranch") {
        Some(Operation::GuardRemoteBranch)
    } else if str_eq(name, "ensureClean") {
        Some(Operation::EnsureClean)
    } else if str_eq(name, "assertBranch") {
        Some(Operation::AssertBranch)
    } else {
        None
    }
}

pub open spec fn action_named(name: Seq<char>) -> Option<RemoteBranchGuardAction> {
    if name == "fail"@ {
        Some(RemoteBranchGuardAction::Fail)
    } else if name == "continue"@ {
        Some(RemoteBranchGuardAction::Continue)
    } else {
        None
    }
}

fn find_action(name: &str) -> (r: Option<RemoteBranchGuardAction>)
    ensures
        r == action_named(name@),
{
    if str_eq(name, "fail") {
        Some(RemoteBranchGuardAction::Fail)
    } else if str_eq(name, "continue") {
        Some(RemoteBranchGuardAction::Continue)
    } else {
        None
    }
}

/// What goes with a name in a record, if the record knows the name.
pub open spec fn kind_in(record: Record, name: Seq<char>) -> Option<FieldKind> {
    match record {
        Record::Step(Operation::Checkout | Operation::Merge | Operation::AssertBranch) => {
            if name == "branch"@ {
                Some(FieldKind::Text)
            } else {
                None
            }
        },
        Record::Step(Operation::Fetch | Operation::Pull) => if name == "remote"@ {
            Some(FieldKind::OptionalText)
        } else {
            None
        },
        Record::Step(Operation::CreateBranch) => if name == "name"@ {
            Some(FieldKind::Text)
        } else if name == "from"@ {
            Some(FieldKind::OptionalText)
        } else if name == "checkout"@ {
            Some(FieldKind::Flag)
        } else {
            None
        },
        Record::Step(Operation::Push) => if name == "remote"@ || name == "branch"@ {
            Some(FieldKind::OptionalText)
        } else if name == "set_upstream"@ {
            Some(FieldKind::Flag)
        } else {
            None
        },
        Record::Step(Operation::GuardRemoteBranch) => if name == "remote"@ {
            Some(FieldKind::OptionalText)
        } else if name == "branch"@ {
            Some(FieldKind::Text)
        } else if name == "fetch"@ {
            Some(FieldKind::Flag)
        } else if name == "onExists"@ || name == "onMissing"@ {
            Some(FieldKind::Action)
        } else {
            None
        },
        Record::Step(Operation::EnsureClean) => None,
        Record::Input => if name == "label"@ || name == "description"@ || name == "default"@ {
            Some(FieldKind::OptionalText)
        } else if name == "required"@ {
            Some(FieldKind::Flag)
        } else {
            None
        },
        Record::Defaults => if name == "requireCleanWorktree"@ {
            Some(FieldKind::Flag)
        } else {
            None
        },
    }
}

fn find_kind(record: Record, name: &str) -> (r: Option<FieldKind>)
    ensures
        r == kind_in(record, name@),
{
    match record {
        Record::Step(Operation::Checkout | Operation::Merge | Operation::AssertBranch) => {
            if str_eq(name, "branch") {
                Some(FieldKind::Text)
            } else {
                None
            }
        },
        Record::Step(Operation::Fetch | Operation::Pull) => if str_eq(name, "remote") {
            Some(FieldKind::OptionalText)
        } else {
            None
        },
        Record::Step(Operation::CreateBranch) => if str_eq(name, "name") {
            Some(FieldKind::Text)
        } else if str_eq(name, "from") {
            Some(FieldKind::OptionalText)
        } else if str_eq(name, "checkout") {
            Some(FieldKind::Flag)
        } else {
            None
        },
        Record::Step(Operation::Push) => if str_eq(name, "remote") || str_eq(name, "branch") {
            Some(FieldKind::OptionalText)
        } else if str_eq(name, "set_upstream") {
            Some(FieldKind::Flag)
        } else {
            None
        },
        Record::Step(Operation::GuardRemoteBranch) => if str_eq(name, "remote") {
            Some(FieldKind::OptionalText)
        } else if str_eq(name, "branch") {
            Some(FieldKind::Text)
        } else if str_eq(name, "fetch") {
            Some(FieldKind::Flag)
        } else if str_eq(name, "onExists") || str_eq(name, "onMissing") {
            Some(FieldKind::Action)
        } else {
            None
        },
        Record::Step(Operation::EnsureClean) => None,
        Record::Input => if str_eq(name, "label") || str_eq(name, "description") || str_eq(
            name,
            "default",
        ) {
            Some(FieldKind::OptionalText)
        } else if str_eq(name, "required") {
            Some(FieldKind::Flag)
        } else {
            None
        },
        Record::Defaults => if str_eq(name, "requireCleanWorktree") {
            Some(FieldKind::Flag)
        } else {
            None
        },
    }
}

// ---------------------------------------------------------------------------
// Faults
// ---------------------------------------------------------------------------
/// The first field with a name, from `from` on, or how many there are.
pub open spec fn field_place(fields: Seq<StepField>, name: Seq<char>, from: int) -> int
    decreases fields.len() - from,
{
    if from < 0 || from >= fields.len() {
        fields.len() as int
    } else if fields[from].name@ == name {
        from
    } else {
        field_place(fields, name, from + 1)
    }
}

fn find_field(fields: &Vec<StepField>, name: &str, from: usize) -> (r: usize)
    requires
        from <= fields@.len(),
    ensures
        r == field_place(fields@, name@, from as int),
        from <= r <= fields@.len(),
{
    let mut i: usize = from;
    while i < fields.len()
        invariant
            from <= i <= fields@.len(),
            field_place(fields@, name@, from as int) == field_place(fields@, name@, i as int),
        decreases fields@.len() - i,
    {
        if str_eq(fields[i].name.as_str(), name) {
            return i;
        }
        i = i + 1;
    }
    i
}

/// What is wrong with a value at place `i` that should be of a kind.
pub open spec fn value_fault(kind: FieldKind, value: FieldValue, i: usize) -> Option<FieldFault> {
    match (kind, value) {
        (FieldKind::Text | FieldKind::OptionalText, FieldValue::Text(_)) => None,
        (FieldKind::OptionalText, FieldValue::Null) => None,
        (FieldKind::Flag, FieldValue::Flag(_)) => None,
        (FieldKind::Action, FieldValue::Text(text) | FieldValue::Tagged(text)) => {
            if action_named(text@) is Some {
                None
            } else {
                Some(FieldFault::UnknownAction(i))
            }
        },
        _ => Some(FieldFault::WrongType(i)),
    }
}

/// What is wrong with the field at place `i`: a known name must not be given twice, and its
/// value must go with it.
pub open spec fn fault_at(record: Record, fields: Seq<StepField>, i: int) -> Option<FieldFault> {
    match kind_in(record, fields[i].name@) {
        None => None,
        Some(kind) => if field_place(fields, fields[i].name@, 0) < i {
            Some(FieldFault::GivenTwice(i as usize))
        } else {
            value_fault(kind, fields[i].value, i as usize)
        },
    }
}

/// The first thing that is wrong with the fields from `from` on.
pub open spec fn first_fault(record: Record, fields: Seq<StepField>, from: int) -> Option<
    FieldFault,
>
    decreases fields.len() - from,
{
    if from < 0 || from >= fields.len() {
        None
    } else {
        match fault_at(record, fields, from) {
            Some(fault) => Some(fault),
            None => first_fault(record, fields, from + 1),
        }
    }
}

fn check_value(kind: FieldKind, value: &FieldValue, i: usize) -> (r: Option<FieldFault>)
    ensures
        r == value_fault(kind, *value, i),
{
    match (kind, value) {
        (FieldKind::Text | FieldKind::OptionalText, FieldValue::Text(_)) => None,
        (FieldKind::OptionalText, FieldValue::Null) => None,
        (FieldKind::Flag, FieldValue::Flag(_)) => None,
        (FieldKind::Action, FieldValue::Text(text) | FieldValue::Tagged(text)) => {
            if find_action(text.as_str()).is_some() {
                None
            } else {
                Some(FieldFault::UnknownAction(i))
            }
        },
        _ => Some(FieldFault::WrongType(i)),
    }
}

fn check_fields(record: Record, fields: &Vec<StepField>) -> (r: Option<FieldFault>)
    ensures
        r == first_fault(record, fields@, 0),
{
    let mut i: usize = 0;
    while i < fields.len()
        invariant
            i <= fields@.len(),
            first_fault(record, fields@, 0) == first_fault(record, fields@, i as int),
        decreases fields@.len() - i,
    {
        let name: &str = fields[i].name.as_str();
        match find_kind(record, name) {
            None => {},
            Some(kind) => {
                if find_field(fields, name, 0) < i {
                    return Some(FieldFault::GivenTwice(i));
                }
                let fault: Option<FieldFault> = check_value(kind, &fields[i].value, i);
                if fault.is_some() {
                    return fault;
                }
            },
        }
        i = i + 1;
    }
    None
}

// ---------------------------------------------------------------------------
// Values
// ---------------------------------------------------------------------------
/// The value with a name, if there is one.
pub open spec fn value_of(fields: Seq<StepField>, name: Seq<char>) -> Option<FieldValue> {
    let at = field_place(fields, name, 0);
    if at < fields.len() {
        Some(fields[at].value)
    } else {
        None
    }
}

fn find_value<'a>(fields: &'a Vec<StepField>, name: &str) -> (r: Option<&'a FieldValue>)
    ensures
        match value_of(fields@, name@) {
            Some(value) => r matches Some(found) && *found == value,
            None => r is None,
        },
{
    let at: usize = find_field(fields, name, 0);
    if at < fields.len() {
        Some(&fields[at].value)
    } else {
        None
    }
}

/// The text with a name, if there is one.
pub open spec fn text_of(fields: Seq<StepField>, name: Seq<char>) -> Option<String> {
    match value_of(fields, name) {
        Some(FieldValue::Text(text)) => Some(text),
        _ => None,
    }
}

fn read_text(fields: &Vec<StepField>, name: &str) -> (r: Option<String>)
    ensures
        r == text_of(fields@, name@),
{
    match find_value(fields, name) {
        Some(FieldValue::Text(text)) => Some(text.clone()),
        _ => None,
    }
}

/// The choice between yes and no with a name, or what is chosen without it.
pub open spec fn flag_of(fields: Seq<StepField>, name: Seq<char>, default: bool) -> bool {
    match value_of(fields, name) {
        Some(FieldValue::Flag(flag)) => flag,
        _ => default,
    }
}

fn read_flag(fields: &Vec<StepField>, name: &str, default: bool) -> (r: bool)
    ensures
        r == flag_of(fields@, name@, default),
{
    match find_value(fields, name) {
        Some(FieldValue::Flag(flag)) => *flag,
        _ => default,
    }
}

/// What a guard does according to the value with a name, or what it does without it.
pub open spec fn action_of(
    fields: Seq<StepField>,
    name: Seq<char>,
    default: RemoteBranchGuardAction,
) -> RemoteBranchGuardAction {
    match value_of(fields, name) {
        Some(FieldValue::Text(text) | FieldValue::Tagged(text)) => match action_named(text@) {
            Some(action) => action,
            None => default,
        },
        _ => default,
    }
}

fn read_action(fields: &Vec<StepField>, name: &str, default: RemoteBranchGuardAction) -> (r:
    RemoteBranchGuardAction)
    ensures
        r == action_of(fields@, name@, default),
{
    match find_value(fields, name) {
        Some(FieldValue::Text(text) | FieldValue::Tagged(text)) => match find_action(
            text.as_str(),
        ) {
            Some(action) => action,
            None => default,
        },
        _ => default,
    }
}

// ---------------------------------------------------------------------------
// Steps
// ---------------------------------------------------------------------------
/// What a step does, or what is wrong with how it says so.
pub open spec fn operation_of(fields: Seq<StepField>) -> Result<Operation, FieldFault> {
    let at = field_place(fields, "op"@, 0);
    if at >= fields.len() {
        Err(FieldFault::MissingOp)
    } else {
        match fields[at].value {
            FieldValue::Text(name) => match operation_named(name@) {
                None => Err(FieldFault::UnknownOperation(at as usize)),
                Some(operation) => {
                    let again = field_place(fields, "op"@, at + 1);
                    if again < fields.len() {
                        Err(FieldFault::GivenTwice(again as usize))
                    } else {
                        Ok(operation)
                    }
                },
            },
            _ => Err(FieldFault::WrongType(at as usize)),
        }
    }
}

/// The step that a list of values describes, or the first thing that is wrong with it: its
/// operation comes before the other values, and a value before one that is missing.
pub open spec fn step_of(fields: Seq<StepField>) -> Result<WorkflowStep, FieldFault> {
    match operation_of(fields) {
        Err(fault) => Err(fault),
        Ok(operation) => match first_fault(Record::Step(operation), fields, 0) {
            Some(fault) => Err(fault),
            None => match operation {
                Operation::Checkout => match text_of(fields, "branch"@) {
                    Some(branch) => Ok(WorkflowStep::Checkout { branch }),
                    None => Err(FieldFault::MissingBranch),
                },
                Operation::Fetch => Ok(WorkflowStep::Fetch { remote: text_of(fields, "remote"@) }),
                Operation::Pull => Ok(WorkflowStep::Pull { remote: text_of(fields, "remote"@) }),
                Operation::CreateBranch => match text_of(fields, "name"@) {
                    Some(name) => Ok(
                        WorkflowStep::CreateBranch {
                            name,
                            from: text_of(fields, "from"@),
                            checkout: flag_of(fields, "checkout"@, true),
                        },
                    ),
                    None => Err(FieldFault::MissingName),
                },
                Operation::Merge => match text_of(fields, "branch"@) {
                    Some(branch) => Ok(WorkflowStep::Merge { branch }),
                    None => Err(FieldFault::MissingBranch),
                },
                Operation::Push => Ok(
                    WorkflowStep::Push {
                        remote: text_of(fields, "remote"@),
                        branch: text_of(fields, "branch"@),
                        set_upstream: flag_of(fields, "set_upstream"@, true),
                    },
                ),
                Operation::GuardRemoteBranch => match text_of(fields, "branch"@) {
                    Some(branch) => Ok(
                        WorkflowStep::GuardRemoteBranch {
                            remote: text_of(fields, "remote"@),
                            branch,
                            fetch: flag_of(fields, "fetch"@, true),
                            on_exists: action_of(
                                fields,
                                "onExists"@,
                                RemoteBranchGuardAction::Fail,
                            ),
                            on_missing: action_of(
                                fields,
                                "onMissing"@,
                                RemoteBranchGuardAction::Continue,
                            ),
                        },
                    ),
                    None => Err(FieldFault::MissingBranch),
                },
                Operation::EnsureClean => Ok(WorkflowStep::EnsureClean),
                Operation::AssertBranch => match text_of(fields, "branch"@) {
                    Some(branch) => Ok(WorkflowStep::AssertBranch { branch }),
                    None => Err(FieldFault::MissingBranch),
                },
            },
        },
    }
}

fn read_operation(fields: &Vec<StepField>) -> (r: Result<Operation, FieldFault>)
    ensures
        r == operation_of(fields@),
{
    let at: usize = find_field(fields, "op", 0);
    if at >= fields.len() {
        return Err(FieldFault::MissingOp);
    }
    match &fields[at].value {
        FieldValue::Text(name) => match find_operation(name.as_str()) {
            None => Err(FieldFault::UnknownOperation(at)),
            Some(operation) => {
                let again: usize = find_field(fields, "op", at + 1);
                if again < fields.len() {
                    Err(FieldFault::GivenTwice(again))
                } else {
                    Ok(operation)
                }
            },
        },
        _ => Err(FieldFault::WrongType(at)),
    }
}

/// Reads a step from its values.
pub fn read_step(fields: &Vec<StepField>) -> (r: Result<WorkflowStep, FieldFault>)
    ensures
        r == step_of(fields@),
{
    let operation: Operation = match read_operation(fields) {
        Ok(operation) => operation,
        Err(fault) => {
            return Err(fault);
        },
    };
    match check_fields(Record::Step(operation), fields) {
        Some(fault) => {
            return Err(fault);
        },
        None => {},
    }
    match operation {
        Operation::Checkout => match read_text(fields, "branch") {
            Some(branch) => Ok(WorkflowStep::Checkout { branch }),
            None => Err(FieldFault::MissingBranch),
        },
        Operation::Fetch => Ok(WorkflowStep::Fetch { remote: read_text(fields, "remote") }),
        Operation::Pull => Ok(WorkflowStep::Pull { remote: read_text(fields, "remote") }),
        Operation::CreateBranch => match read_text(fields, "name") {
            Some(name) => Ok(
                WorkflowStep::CreateBranch {
                    name,
                    from: read_text(fields, "from"),
                    checkout: read_flag(fields, "checkout", default_create_branch_checkout()),
                },
            ),
            None => Err(FieldFault::MissingName),
        },
        Operation::Merge => match read_text(fields, "branch") {
            Some(branch) => Ok(WorkflowStep::Merge { branch }),
            None => Err(FieldFault::MissingBranch),
        },
        Operation::Push => Ok(
            WorkflowStep::Push {
                remote: read_text(fields, "remote"),
                branch: read_text(fields, "branch"),
                set_upstream: read_flag(fields, "set_upstream", default_set_upstream()),
            },
        ),
        Operation::GuardRemoteBranch => match read_text(fields, "branch") {
            Some(branch) => Ok(
                WorkflowStep::GuardRemoteBranch {
                    remote: read_text(fields, "remote"),
                    branch,
                    fetch: read_flag(fields, "fetch", default_guard_fetch()),
                    on_exists: read_action(fields, "onExists", default_on_exists()),
                    on_missing: read_action(fields, "onMissing", default_on_missing()),
                },
            ),
            None => Err(FieldFault::MissingBranch),
        },
        Operation::EnsureClean => Ok(WorkflowStep::EnsureClean),
        Operation::AssertBranch => match read_text(fields, "branch") {
            Some(branch) => Ok(WorkflowStep::AssertBranch { branch }),
            None => Err(FieldFault::MissingBranch),
        },
    }
}

/// The first of the lists from `from` on that describes no step, or how many there are.
pub open spec fn first_faulty(lists: Seq<Vec<StepField>>, from: int) -> int
    decreases lists.len() - from,
{
    if from < 0 || from >= lists.len() {
        lists.len() as int
    } else if step_of(lists[from]@) is Err {
        from
    } else {
        first_faulty(lists, from + 1)
    }
}

/// Reads the steps of a workflow, one after the other.
pub fn read_steps(lists: &Vec<Vec<StepField>>) -> (r: Result<Vec<WorkflowStep>, FieldFault>)
    ensures
        ({
            let at = first_faulty(lists@, 0);
            if at < lists@.len() {
                r matches Err(fault) && step_of(lists@[at]@) == Err::<WorkflowStep, FieldFault>(
                    fault,
                )
            } else {
                &&& r matches Ok(steps)
                &&& steps@.len() == lists@.len()
                &&& forall|k: int|
                    0 <= k < lists@.len() ==> step_of(lists@[k]@) == Ok::<WorkflowStep, FieldFault>(
                        #[trigger] steps@[k],
                    )
            }
        }),
{
    let mut steps: Vec<WorkflowStep> = Vec::new();
    let mut i: usize = 0;
    while i < lists.len()
        invariant
            i <= lists@.len(),
            steps@.len() == i,
            first_faulty(lists@, 0) == first_faulty(lists@, i as int),
            forall|k: int|
                0 <= k < i ==> step_of(lists@[k]@) == Ok::<WorkflowStep, FieldFault>(
                    #[trigger] steps@[k],
                ),
        decreases lists@.len() - i,
    {
        match read_step(&lists[i]) {
            Ok(step) => {
                steps.push(step);
            },
            Err(fault) => {
                return Err(fault);
            },
        }
        i = i + 1;
    }
    Ok(steps)
}

// ---------------------------------------------------------------------------
// Inputs and defaults
// ---------------------------------------------------------------------------
/// The input that a list of values describes, or what is wrong with it.
pub open spec fn input_of(fields: Seq<StepField>) -> Result<WorkflowInputDefinition, FieldFault> {
    match first_fault(Record::Input, fields, 0) {
        Some(fault) => Err(fault),
        None => Ok(
            WorkflowInputDefinition {
                label: text_of(fields, "label"@),
                description: text_of(fields, "description"@),
                default: text_of(fields, "default"@),
                required: flag_of(fields, "required"@, true),
            },
        ),
    }
}

/// Reads an input from its values.
pub fn read_input(fields: &Vec<StepField>) -> (r: Result<WorkflowInputDefinition, FieldFault>)
    ensures
        r == input_of(fields@),
{
    match check_fields(Record::Input, fields) {
        Some(fault) => Err(fault),
        None => Ok(
            WorkflowInputDefinition {
                label: read_text(fields, "label"),
                description: read_text(fields, "description"),
                default: read_text(fields, "default"),
                required: read_flag(fields, "required", default_workflow_input_required()),
            },
        ),
    }
}

/// The defaults that a list of values describes, or what is wrong with it.
pub open spec fn defaults_of(fields: Seq<StepField>) -> Result<WorkflowDefaults, FieldFault> {
    match first_fault(Record::Defaults, fields, 0) {
        Some(fault) => Err(fault),
        None => Ok(
            WorkflowDefaults {
                require_clean_worktree: flag_of(fields, "requireCleanWorktree"@, true),
            },
        ),
    }
}

/// Reads the defaults of a workflow from their values.
pub fn read_defaults(fields: &Vec<StepField>) -> (r: Result<WorkflowDefaults, FieldFault>)
    ensures
        r == defaults_of(fields@),
{
    match check_fields(Record::Defaults, fields) {
        Some(fault) => Err(fault),
        None => Ok(
            WorkflowDefaults {
                require_clean_worktree: read_flag(
                    fields,
                    "requireCleanWorktree",
                    default_require_clean_worktree(),
                ),
            },
        ),
    }
}

// ---------------------------------------------------------------------------
// Laws
// ---------------------------------------------------------------------------
/// A step that was read is called what its file calls it.
pub proof fn lemma_step_keeps_its_name(fields: Seq<StepField>)
    ensures
        step_of(fields) matches Ok(step) ==> text_of(fields, "op"@) matches Some(op) && step.op()
            == op@,
{
}

/// Steps of different kinds have different names.
pub proof fn lemma_names_tell_steps_apart(a: WorkflowStep, b: WorkflowStep)
    requires
        a.op() == b.op(),
    ensures
        a is Checkout == b is Checkout,
        a is Fetch == b is Fetch,
        a is Pull == b is Pull,
        a is CreateBranch == b is CreateBranch,
        a is Merge == b is Merge,
        a is Push == b is Push,
        a is GuardRemoteBranch == b is GuardRemoteBranch,
        a is EnsureClean == b is EnsureClean,
        a is AssertBranch == b is AssertBranch,
{
    reveal_strlit("checkout");
    reveal_strlit("fetch");
    reveal_strlit("pull");
    reveal_strlit("createBranch");
    reveal_strlit("merge");
    reveal_strlit("push");
    reveal_strlit("guardRemoteBranch");
    reveal_strlit("ensureClean");
    reveal_strlit("assertBranch");
    // The names differ in length, or else in the first or the third letter.
    assert("checkout"@.len() == 8);
    assert("fetch"@.len() == 5 && "fetch"@[0] == 'f');
    assert("merge"@.len() == 5 && "merge"@[0] == 'm');
    assert("pull"@.len() == 4 && "pull"@[2] == 'l');
    assert("push"@.len() == 4 && "push"@[2] == 's');
    assert("createBranch"@.len() == 12 && "createBranch"@[0] == 'c');
    assert("assertBranch"@.len() == 12 && "assertBranch"@[0] == 'a');
    assert("guardRemoteBranch"@.len() == 17);
    assert("ensureClean"@.len() == 11);
}

// ---------------------------------------------------------------------------
// Laws of fields
// ---------------------------------------------------------------------------
proof fn lemma_field_place(fields: Seq<StepField>, name: Seq<char>, from: int)
    requires
        0 <= from <= fields.len(),
    ensures
        from <= field_place(fields, name, from) <= fields.len(),
        field_place(fields, name, from) < fields.len() ==> fields[field_place(
            fields,
            name,
            from,
        )].name@ == name,
        forall|i: int|
            from <= i < field_place(fields, name, from) ==> (#[trigger] fields[i]).name@ != name,
    decreases fields.len() - from,
{
    if from < fields.len() && fields[from].name@ != name {
        lemma_field_place(fields, name, from + 1);
    }
}

proof fn lemma_no_fault(record: Record, fields: Seq<StepField>, from: int, i: int)
    requires
        0 <= from <= i < fields.len(),
        first_fault(record, fields, from) is None,
    ensures
        fault_at(record, fields, i) is None,
    decreases fields.len() - from,
{
    if from < i {
        lemma_no_fault(record, fields, from + 1, i);
    }
}

proof fn lemma_value_is_the_field(record: Record, fields: Seq<StepField>, i: int)
    requires
        0 <= i < fields.len(),
        first_fault(record, fields, 0) is None,
        kind_in(record, fields[i].name@) is Some,
    ensures
        value_of(fields, fields[i].name@) == Some(fields[i].value),
        value_fault(kind_in(record, fields[i].name@)->0, fields[i].value, i as usize) is None,
{
    lemma_no_fault(record, fields, 0, i);
    lemma_field_place(fields, fields[i].name@, 0);
}

/// Whether a text of a step is the value of a field; nothing stands for no text.
pub open spec fn is_text_of(text: Option<String>, value: FieldValue) -> bool {
    match value {
        FieldValue::Text(t) => text == Some(t),
        FieldValue::Null => text is None,
        _ => false,
    }
}

/// Whether a choice of a guard is the value of a field.
pub open spec fn is_action_of(action: RemoteBranchGuardAction, value: FieldValue) -> bool {
    match value {
        FieldValue::Text(t) | FieldValue::Tagged(t) => match action {
            RemoteBranchGuardAction::Fail => t@ == "fail"@,
            RemoteBranchGuardAction::Continue => t@ == "continue"@,
        },
        _ => false,
    }
}

proof fn lemma_field_names_differ()
    ensures
        "branch"@ != "remote"@,
        "branch"@ != "fetch"@,
        "branch"@ != "onExists"@,
        "branch"@ != "onMissing"@,
        "branch"@ != "set_upstream"@,
        "remote"@ != "fetch"@,
        "remote"@ != "onExists"@,
        "remote"@ != "onMissing"@,
        "remote"@ != "set_upstream"@,
        "fetch"@ != "onExists"@,
        "fetch"@ != "onMissing"@,
        "name"@ != "from"@,
        "name"@ != "checkout"@,
        "from"@ != "checkout"@,
        "onExists"@ != "onMissing"@,
        "fail"@ != "continue"@,
        "label"@ != "required"@,
        "description"@ != "required"@,
        "default"@ != "required"@,
        "op"@ != "branch"@,
        "op"@ != "remote"@,
        "op"@ != "name"@,
        "op"@ != "from"@,
        "op"@ != "checkout"@,
        "op"@ != "fetch"@,
        "op"@ != "set_upstream"@,
        "op"@ != "onExists"@,
        "op"@ != "onMissing"@,
{
    reveal_strlit("branch");
    reveal_strlit("remote");
    reveal_strlit("fetch");
    reveal_strlit("onExists");
    reveal_strlit("onMissing");
    reveal_strlit("set_upstream");
    reveal_strlit("name");
    reveal_strlit("from");
    reveal_strlit("checkout");
    reveal_strlit("fail");
    reveal_strlit("continue");
    reveal_strlit("label");
    reveal_strlit("description");
    reveal_strlit("default");
    reveal_strlit("required");
    reveal_strlit("op");
    assert("branch"@.len() == 6 && "branch"@[0] == 'b');
    assert("remote"@.len() == 6 && "remote"@[0] == 'r');
    assert("fetch"@.len() == 5 && "fetch"@[0] == 'f');
    assert("onExists"@.len() == 8 && "onExists"@[0] == 'o');
    assert("onMissing"@.len() == 9 && "onMissing"@[0] == 'o');
    assert("set_upstream"@.len() == 12 && "set_upstream"@[0] == 's');
    assert("name"@.len() == 4 && "name"@[0] == 'n');
    assert("from"@.len() == 4 && "from"@[0] == 'f');
    assert("checkout"@.len() == 8 && "checkout"@[0] == 'c');
    assert("fail"@.len() == 4 && "fail"@[0] == 'f');
    assert("continue"@.len() == 8 && "continue"@[0] == 'c');
    assert("label"@.len() == 5 && "label"@[0] == 'l');
    assert("description"@.len() == 11 && "description"@[0] == 'd');
    assert("default"@.len() == 7 && "default"@[0] == 'd');
    assert("required"@.len() == 8 && "required"@[0] == 'r');
    assert("op"@.len() == 2 && "op"@[0] == 'o');
}

/// What a step was written with is what it has: a field of the step by one of its names is its
/// value, whichever way the fields are ordered and whatever else is written.
pub proof fn lemma_fields_are_what_the_step_has(fields: Seq<StepField>, i: int)
    requires
        0 <= i < fields.len(),
        step_of(fields) is Ok,
    ensures
        ({
            let name = fields[i].name@;
            let value = fields[i].value;
            match step_of(fields)->Ok_0 {
                WorkflowStep::Checkout { branch }
                | WorkflowStep::Merge { branch }
                | WorkflowStep::AssertBranch { branch } => name == "branch"@ ==> value
                    == FieldValue::Text(branch),
                WorkflowStep::Fetch { remote } | WorkflowStep::Pull { remote } => name == "remote"@
                    ==> is_text_of(remote, value),
                WorkflowStep::CreateBranch { name: new, from, checkout } => {
                    &&& name == "name"@ ==> value == FieldValue::Text(new)
                    &&& name == "from"@ ==> is_text_of(from, value)
                    &&& name == "checkout"@ ==> value == FieldValue::Flag(checkout)
                },
                WorkflowStep::Push { remote, branch, set_upstream } => {
                    &&& name == "remote"@ ==> is_text_of(remote, value)
                    &&& name == "branch"@ ==> is_text_of(branch, value)
                    &&& name == "set_upstream"@ ==> value == FieldValue::Flag(set_upstream)
                },
                WorkflowStep::GuardRemoteBranch {
                    remote,
                    branch,
                    fetch,
                    on_exists,
                    on_missing,
                } => {
                    &&& name == "remote"@ ==> is_text_of(remote, value)
                    &&& name == "branch"@ ==> value == FieldValue::Text(branch)
                    &&& name == "fetch"@ ==> value == FieldValue::Flag(fetch)
                    &&& name == "onExists"@ ==> is_action_of(on_exists, value)
                    &&& name == "onMissing"@ ==> is_action_of(on_missing, value)
                },
                WorkflowStep::EnsureClean => true,
            }
        }),
{
    lemma_field_names_differ();
    let record = Record::Step(operation_of(fields)->Ok_0);
    if kind_in(record, fields[i].name@) is Some {
        lemma_value_is_the_field(record, fields, i);
    }
}

/// What was not written is left open: no remote, no start, and the branch that is checked out. A
/// new branch is checked out, a push is followed, and a guard fetches, stops on a branch that
/// exists and goes on without one.
pub proof fn lemma_fields_that_are_left_out(fields: Seq<StepField>, name: Seq<char>)
    requires
        step_of(fields) is Ok,
        forall|i: int| 0 <= i < fields.len() ==> (#[trigger] fields[i]).name@ != name,
    ensures
        match step_of(fields)->Ok_0 {
            WorkflowStep::Checkout { .. }
            | WorkflowStep::Merge { .. }
            | WorkflowStep::AssertBranch { .. } => name != "branch"@,
            WorkflowStep::Fetch { remote } | WorkflowStep::Pull { remote } => name == "remote"@
                ==> remote is None,
            WorkflowStep::CreateBranch { from, checkout, .. } => {
                &&& name != "name"@
                &&& name == "from"@ ==> from is None
                &&& name == "checkout"@ ==> checkout
            },
            WorkflowStep::Push { remote, branch, set_upstream } => {
                &&& name == "remote"@ ==> remote is None
                &&& name == "branch"@ ==> branch is None
                &&& name == "set_upstream"@ ==> set_upstream
            },
            WorkflowStep::GuardRemoteBranch { remote, fetch, on_exists, on_missing, .. } => {
                &&& name == "remote"@ ==> remote is None
                &&& name != "branch"@
                &&& name == "fetch"@ ==> fetch
                &&& name == "onExists"@ ==> on_exists == RemoteBranchGuardAction::Fail
                &&& name == "onMissing"@ ==> on_missing == RemoteBranchGuardAction::Continue
            },
            WorkflowStep::EnsureClean => true,
        },
        name != "op"@,
{
    lemma_field_place(fields, name, 0);
}

/// The name of a step says which step it is.
pub proof fn lemma_operations_are_named(fields: Seq<StepField>, i: int)
    requires
        0 <= i < fields.len(),
        fields[i].name@ == "op"@,
        step_of(fields) is Ok,
    ensures
        fields[i].value matches FieldValue::Text(op) && match step_of(fields)->Ok_0 {
            WorkflowStep::Checkout { .. } => op@ == "checkout"@,
            WorkflowStep::Fetch { .. } => op@ == "fetch"@,
            WorkflowStep::Pull { .. } => op@ == "pull"@,
            WorkflowStep::CreateBranch { .. } => op@ == "createBranch"@,
            WorkflowStep::Merge { .. } => op@ == "merge"@,
            WorkflowStep::Push { .. } => op@ == "push"@,
            WorkflowStep::GuardRemoteBranch { .. } => op@ == "guardRemoteBranch"@,
            WorkflowStep::EnsureClean => op@ == "ensureClean"@,
            WorkflowStep::AssertBranch { .. } => op@ == "assertBranch"@,
        },
{
    lemma_field_place(fields, "op"@, 0);
    let at = field_place(fields, "op"@, 0);
    lemma_field_place(fields, "op"@, at + 1);
    lemma_step_keeps_its_name(fields);
}

/// Whether a field by one of the names that steps know has a value of the right kind.
pub open spec fn is_right(field: StepField, branch_is_needed: bool) -> bool {
    let name = field.name@;
    let value = field.value;
    &&& name == "branch"@ ==> value is Text || (value is Null && !branch_is_needed)
    &&& name == "name"@ ==> value is Text
    &&& name == "remote"@ || name == "from"@ ==> value is Text || value is Null
    &&& name == "checkout"@ || name == "set_upstream"@ || name == "fetch"@ ==> value is Flag
    &&& name == "onExists"@ || name == "onMissing"@ ==> is_action_of(
        RemoteBranchGuardAction::Fail,
        value,
    ) || is_action_of(RemoteBranchGuardAction::Continue, value)
}

/// A step is read if it names what it does, if no field is given twice, if every field has a value
/// of the right kind, and if what it cannot do without is there.
pub proof fn lemma_right_steps_are_read(fields: Seq<StepField>, op: String, needed: int)
    requires
        fields.len() > 0,
        fields[0].name@ == "op"@,
        fields[0].value == FieldValue::Text(op),
        operation_named(op@) is Some,
        forall|i: int, j: int|
            0 <= i < j < fields.len() ==> (#[trigger] fields[i]).name@ != (
            #[trigger] fields[j]).name@,
        forall|i: int| 0 <= i < fields.len() ==> is_right(#[trigger] fields[i], op@ != "push"@),
        0 <= needed < fields.len(),
        op@ == "checkout"@ || op@ == "merge"@ || op@ == "assertBranch"@ || op@
            == "guardRemoteBranch"@ ==> fields[needed].name@ == "branch"@,
        op@ == "createBranch"@ ==> fields[needed].name@ == "name"@,
    ensures
        step_of(fields) is Ok,
{
    lemma_field_names_differ();
    lemma_operation_names_differ();
    let operation = operation_named(op@)->0;
    let record = Record::Step(operation);
    lemma_field_place(fields, "op"@, 1);
    assert(field_place(fields, "op"@, 0) == 0);
    lemma_right_fields_are_no_fault(record, fields, op, 0);
    if kind_in(record, fields[needed].name@) is Some {
        lemma_value_is_the_field(record, fields, needed);
        assert(is_right(fields[needed], op@ != "push"@));
    }
}

proof fn lemma_operation_names_differ()
    ensures
        "push"@ != "checkout"@,
        "push"@ != "merge"@,
        "push"@ != "assertBranch"@,
        "push"@ != "guardRemoteBranch"@,
        "push"@ != "fetch"@,
        "push"@ != "pull"@,
        "push"@ != "createBranch"@,
        "push"@ != "ensureClean"@,
{
    reveal_strlit("push");
    reveal_strlit("checkout");
    reveal_strlit("merge");
    reveal_strlit("assertBranch");
    reveal_strlit("guardRemoteBranch");
    reveal_strlit("fetch");
    reveal_strlit("pull");
    reveal_strlit("createBranch");
    reveal_strlit("ensureClean");
    assert("push"@.len() == 4 && "push"@[0] == 'p');
    assert("checkout"@.len() == 8 && "checkout"@[0] == 'c');
    assert("merge"@.len() == 5 && "merge"@[0] == 'm');
    assert("assertBranch"@.len() == 12 && "assertBranch"@[0] == 'a');
    assert("guardRemoteBranch"@.len() == 17 && "guardRemoteBranch"@[0] == 'g');
    assert("fetch"@.len() == 5 && "fetch"@[0] == 'f');
    assert("pull"@.len() == 4 && "pull"@[0] == 'p');
    assert("createBranch"@.len() == 12 && "createBranch"@[0] == 'c');
    assert("ensureClean"@.len() == 11 && "ensureClean"@[0] == 'e');
    assert("push"@[2] == 's' && "pull"@[2] == 'l');
}

proof fn lemma_right_fields_are_no_fault(
    record: Record,
    fields: Seq<StepField>,
    op: String,
    from: int,
)
    requires
        0 <= from <= fields.len(),
        record matches Record::Step(operation) && operation_named(op@) == Some(operation),
        forall|i: int, j: int|
            0 <= i < j < fields.len() ==> (#[trigger] fields[i]).name@ != (
            #[trigger] fields[j]).name@,
        forall|i: int| 0 <= i < fields.len() ==> is_right(#[trigger] fields[i], op@ != "push"@),
    ensures
        first_fault(record, fields, from) is None,
    decreases fields.len() - from,
{
    if from < fields.len() {
        lemma_field_names_differ();
        lemma_operation_names_differ();
        lemma_field_place(fields, fields[from].name@, 0);
        assert(is_right(fields[from], op@ != "push"@));
        assert(fault_at(record, fields, from) is None);
        lemma_right_fields_are_no_fault(record, fields, op, from + 1);
    }
}

/// The fields of an input are what was written: its label, its description, what it is if nothing
/// is given, and whether it must be given, which it must unless the file says otherwise.
pub proof fn lemma_fields_are_what_the_input_has(fields: Seq<StepField>, i: int)
    requires
        0 <= i < fields.len(),
        input_of(fields) is Ok,
    ensures
        ({
            let input = input_of(fields)->Ok_0;
            let name = fields[i].name@;
            let value = fields[i].value;
            &&& name == "label"@ ==> is_text_of(input.label, value)
            &&& name == "description"@ ==> is_text_of(input.description, value)
            &&& name == "default"@ ==> is_text_of(input.default, value)
            &&& name == "required"@ ==> value == FieldValue::Flag(input.required)
        }),
        (forall|j: int| 0 <= j < fields.len() ==> (#[trigger] fields[j]).name@ != "required"@)
            ==> input_of(fields)->Ok_0.required,
{
    lemma_field_names_differ();
    lemma_field_place(fields, "required"@, 0);
    if kind_in(Record::Input, fields[i].name@) is Some {
        lemma_value_is_the_field(Record::Input, fields, i);
    }
}

/// Whether a workflow asks for a clean worktree is what was written, and it does if nothing was.
pub proof fn lemma_fields_are_what_the_defaults_have(fields: Seq<StepField>, i: int)
    requires
        0 <= i < fields.len(),
        defaults_of(fields) is Ok,
    ensures
        fields[i].name@ == "requireCleanWorktree"@ ==> fields[i].value == FieldValue::Flag(
            defaults_of(fields)->Ok_0.require_clean_worktree,
        ),
        (forall|j: int|
            0 <= j < fields.len() ==> (#[trigger] fields[j]).name@ != "requireCleanWorktree"@)
            ==> defaults_of(fields)->Ok_0.require_clean_worktree,
{
    lemma_field_place(fields, "requireCleanWorktree"@, 0);
    if kind_in(Record::Defaults, fields[i].name@) is Some {
        lemma_value_is_the_field(Record::Defaults, fields, i);
    }
}

/// The steps before the first that cannot be read can be read, and that one cannot.
pub proof fn lemma_first_faulty_step(lists: Seq<Vec<StepField>>, from: int)
    requires
        0 <= from <= lists.len(),
    ensures
        from <= first_faulty(lists, from) <= lists.len(),
        first_faulty(lists, from) < lists.len() ==> step_of(lists[first_faulty(lists, from)]@) is Err,
        forall|i: int|
            from <= i < first_faulty(lists, from) ==> step_of((#[trigger] lists[i])@) is Ok,
    decreases lists.len() - from,
{
    if from < lists.len() && step_of(lists[from]@) is Ok {
        lemma_first_faulty_step(lists, from + 1);
    }
}

} // verus!
