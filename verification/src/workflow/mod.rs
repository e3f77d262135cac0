//! Workflows: lists of Git operations that are run one after the other.

pub mod expressions;
pub mod remote_branch_guard;
pub mod resolver;
pub mod run;
pub mod steps;

use vstd::prelude::*;

use crate::strings::{cat2, is_blank, opt_view, starts_with, trim, trimmed, decimal, u64_to_string};
use crate::textmap::{TextMap, names_of};
use crate::types::GitError;
use crate::workflow::remote_branch_guard::RemoteBranchGuardAction;

verus! {

/// What a workflow asks of the one who runs it.
#[derive(Clone, Debug, PartialEq, Eq)]
pub struct WorkflowInputDefinition {
    pub label: Option<String>,
    pub description: Option<String>,
    pub default: Option<String>,
    pub required: bool,
}

#[derive(Clone, Copy, Debug, PartialEq, Eq, Structural)]
pub struct WorkflowDefaults {
    /// Whether the workflow starts only where nothing is left to commit.
    pub require_clean_worktree: bool,
}

impl Default for WorkflowDefaults {
    fn default() -> (r: Self)
        ensures
            r.require_clean_worktree,
    {
        WorkflowDefaults { require_clean_worktree: true }
    }
}

pub fn default_require_clean_worktree() -> (r: bool)
    ensures
        r,
{
    true
}

pub fn default_workflow_input_required() -> (r: bool)
    ensures
        r,
{
    true
}

pub fn default_create_branch_checkout() -> (r: bool)
    ensures
        r,
{
    true
}

pub fn default_set_upstream() -> (r: bool)
    ensures
        r,
{
    true
}

/// A step as it is written. Its texts may hold expressions.
#[derive(Clone, Debug, PartialEq, Eq)]
pub enum WorkflowStep {
    Checkout { branch: String },
    Fetch { remote: Option<String> },
    Pull { remote: Option<String> },
    CreateBranch { name: String, from: Option<String>, checkout: bool },
    Merge { branch: String },
    Push { remote: Option<String>, branch: Option<String>, set_upstream: bool },
    GuardRemoteBranch {
        remote: Option<String>,
        branch: String,
        fetch: bool,
        on_exists: RemoteBranchGuardAction,
        on_missing: RemoteBranchGuardAction,
    },
    EnsureClean,
    AssertBranch { branch: String },
}

impl WorkflowStep {
    /// What the step is called in a workflow file.
    pub open spec fn op(self) -> Seq<char> {
        match self {
            WorkflowStep::Checkout { .. } => "checkout"@,
            WorkflowStep::Fetch { .. } => "fetch"@,
            WorkflowStep::Pull { .. } => "pull"@,
            WorkflowStep::CreateBranch { .. } => "createBranch"@,
            WorkflowStep::Merge { .. } => "merge"@,
            WorkflowStep::Push { .. } => "push"@,
            WorkflowStep::GuardRemoteBranch { .. } => "guardRemoteBranch"@,
            WorkflowStep::EnsureClean => "ensureClean"@,
            WorkflowStep::AssertBranch { .. } => "assertBranch"@,
        }
    }

    pub fn op_name(&self) -> (r: &'static str)
        ensures
            r@ == self.op(),
    {
        match self {
            WorkflowStep::Checkout { .. } => "checkout",
            WorkflowStep::Fetch { .. } => "fetch",
            WorkflowStep::Pull { .. } => "pull",
            WorkflowStep::CreateBranch { .. } => "createBranch",
            WorkflowStep::Merge { .. } => "merge",
            WorkflowStep::Push { .. } => "push",
            WorkflowStep::GuardRemoteBranch { .. } => "guardRemoteBranch",
            WorkflowStep::EnsureClean => "ensureClean",
            WorkflowStep::AssertBranch { .. } => "assertBranch",
        }
    }
}

/// A workflow as it is written.
#[derive(Clone, Debug, PartialEq, Eq)]
pub struct WorkflowDefinition {
    pub version: u32,
    pub name: Option<String>,
    pub defaults: WorkflowDefaults,
    pub inputs: TextMap<WorkflowInputDefinition>,
    pub vars: TextMap<String>,
    pub steps: Vec<WorkflowStep>,
}

/// `name`, unless it is blank.
pub open spec fn name_or(name: Option<Seq<char>>, other: Seq<char>) -> Seq<char> {
    match name {
        Some(n) => if trimmed(n).len() == 0 {
            other
        } else {
            n
        },
        None => other,
    }
}

fn name_or_else(name: &Option<String>, other: &str) -> (r: String)
    ensures
        r@ == name_or(opt_view(*name), other@),
{
    match name {
        Some(n) => if is_blank(n.as_str()) {
            other.to_string()
        } else {
            n.clone()
        },
        None => other.to_string(),
    }
}

impl WorkflowDefinition {
    /// The maps are in order.
    pub open spec fn wf(self) -> bool {
        self.inputs.wf() && self.vars.wf()
    }

    pub open spec fn title(self) -> Seq<char> {
        name_or(opt_view(self.name), "未命名工作流"@)
    }

    pub fn display_name(&self) -> (r: String)
        ensures
            r@ == self.title(),
    {
        name_or_else(&self.name, "未命名工作流")
    }
}

/// With what a workflow is run.
#[derive(Debug, PartialEq, Eq)]
pub struct WorkflowRunOptions {
    pub default_remote: String,
    pub input_vars: TextMap<String>,
}

impl Default for WorkflowRunOptions {
    fn default() -> (r: Self)
        ensures
            r.default_remote@ == "origin"@,
            r.input_vars@ == Map::<Seq<char>, String>::empty(),
            r.input_vars.wf(),
    {
        WorkflowRunOptions { default_remote: "origin".to_string(), input_vars: TextMap::new() }
    }
}

// ---------------------------------------------------------------------------
// Which workflows can be run
// ---------------------------------------------------------------------------
/// Whether `name` stands for something in every workflow, or could one day.
pub open spec fn is_reserved(name: Seq<char>) -> bool {
    ||| "date:"@.is_prefix_of(name)
    ||| "git."@.is_prefix_of(name)
    ||| "run."@.is_prefix_of(name)
}

/// What is wrong with `name` as the name of an input, if anything.
pub open spec fn input_name_fault(name: Seq<char>) -> Option<Seq<char>> {
    let bare = trimmed(name);
    if bare.len() == 0 {
        Some("工作流输入变量名不能为空"@)
    } else if is_reserved(bare) {
        Some("工作流输入变量不能使用内置变量名："@ + bare)
    } else {
        None
    }
}

pub fn validate_input_name(name: &str) -> (r: Result<(), GitError>)
    ensures
        match input_name_fault(name@) {
            Some(text) => r matches Err(e) && e.says(text),
            None => r is Ok,
        },
{
    let bare: String = trim(name);
    if is_blank(name) {
        return Err(GitError::Message("工作流输入变量名不能为空".to_string()));
    }
    if starts_with(bare.as_str(), "date:") || starts_with(bare.as_str(), "git.") || starts_with(
        bare.as_str(),
        "run.",
    ) {
        return Err(GitError::Message(cat2("工作流输入变量不能使用内置变量名：", bare.as_str())));
    }
    Ok(())
}

/// What is wrong with the names from `from` on: the first fault.
pub open spec fn input_names_fault(names: Seq<Seq<char>>, from: int) -> Option<Seq<char>>
    decreases names.len() - from,
{
    if from < 0 || from >= names.len() {
        None
    } else {
        match input_name_fault(names[from]) {
            Some(text) => Some(text),
            None => input_names_fault(names, from + 1),
        }
    }
}

impl WorkflowDefinition {
    /// What is wrong with the workflow, if anything.
    pub open spec fn fault(self) -> Option<Seq<char>> {
        if self.version != 1 {
            Some("不支持的工作流版本："@ + decimal(self.version as nat))
        } else if self.steps@.len() == 0 {
            Some("工作流至少需要一个步骤"@)
        } else {
            input_names_fault(names_of(self.inputs.entries@), 0)
        }
    }
}

/// Checks that a workflow can be run at all.
pub fn validate_definition(definition: &WorkflowDefinition) -> (r: Result<(), GitError>)
    ensures
        match definition.fault() {
            Some(text) => r matches Err(e) && e.says(text),
            None => r is Ok,
        },
{
    if definition.version != 1 {
        let version: String = u64_to_string(definition.version as u64);
        return Err(GitError::Message(cat2("不支持的工作流版本：", version.as_str())));
    }
    if definition.steps.len() == 0 {
        return Err(GitError::Message("工作流至少需要一个步骤".to_string()));
    }
    let mut i: usize = 0;
    while i < definition.inputs.entries.len()
        invariant
            i <= definition.inputs.entries@.len(),
            definition.fault() == input_names_fault(
                names_of(definition.inputs.entries@),
                i as int,
            ),
        decreases definition.inputs.entries@.len() - i,
    {
        match validate_input_name(definition.inputs.entries[i].name.as_str()) {
            Ok(()) => {},
            Err(e) => {
                return Err(e);
            },
        }
        i = i + 1;
    }
    Ok(())
}

/// Whether an input is required and was not given.
pub open spec fn is_left_out(
    input: WorkflowInputDefinition,
    name: Seq<char>,
    given: Map<Seq<char>, String>,
) -> bool {
    input.required && !(given.contains_key(name) && trimmed(given[name]@).len() > 0)
}

/// What is asked for: the first input from `from` on that was left out.
pub open spec fn missing_input(
    definition: WorkflowDefinition,
    given: Map<Seq<char>, String>,
    from: int,
) -> Option<Seq<char>>
    decreases definition.inputs.entries@.len() - from,
{
    let entries = definition.inputs.entries@;
    if from < 0 || from >= entries.len() {
        None
    } else if is_left_out(entries[from].value, entries[from].name@, given) {
        Some("请填写工作流变量："@ + name_or(opt_view(entries[from].value.label), entries[from].name@))
    } else {
        missing_input(definition, given, from + 1)
    }
}

/// Checks that every required input was given.
pub fn validate_input_values(definition: &WorkflowDefinition, options: &WorkflowRunOptions) -> (r:
    Result<(), GitError>)
    requires
        options.input_vars.wf(),
    ensures
        match missing_input(*definition, options.input_vars@, 0) {
            Some(text) => r matches Err(e) && e.says(text),
            None => r is Ok,
        },
{
    let mut i: usize = 0;
    while i < definition.inputs.entries.len()
        invariant
            i <= definition.inputs.entries@.len(),
            options.input_vars.wf(),
            missing_input(*definition, options.input_vars@, 0) == missing_input(
                *definition,
                options.input_vars@,
                i as int,
            ),
        decreases definition.inputs.entries@.len() - i,
    {
        let entry = &definition.inputs.entries[i];
        if entry.value.required {
            let blank: bool = match options.input_vars.get(entry.name.as_str()) {
                Some(value) => is_blank(value.as_str()),
                None => true,
            };
            if blank {
                let label: String = name_or_else(&entry.value.label, entry.name.as_str());
                return Err(GitError::Message(cat2("请填写工作流变量：", label.as_str())));
            }
        }
        i = i + 1;
    }
    Ok(())
}

// ---------------------------------------------------------------------------
// Laws
// ---------------------------------------------------------------------------
/// A name for an input is accepted if and only if there is something in it and it does not start
/// like a name that every workflow has.
pub proof fn lemma_accepted_input_names(name: Seq<char>)
    ensures
        input_name_fault(name) is None <==> {
            &&& trimmed(name).len() > 0
            &&& !"date:"@.is_prefix_of(trimmed(name))
            &&& !"git."@.is_prefix_of(trimmed(name))
            &&& !"run."@.is_prefix_of(trimmed(name))
        },
        input_name_fault(name) matches Some(text) ==> trimmed(name).is_suffix_of(text),
{
    let bare = trimmed(name);
    if bare.len() == 0 {
        let text = input_name_fault(name)->0;
        assert(text.subrange(text.len() as int, text.len() as int) =~= bare);
    } else {
        let text = "工作流输入变量不能使用内置变量名："@ + bare;
        assert(text.subrange(text.len() - bare.len(), text.len() as int) =~= bare);
    }
}

/// A workflow is accepted if and only if it is of the one version that there is, has a step, and
/// every name of an input is accepted.
pub proof fn lemma_accepted_workflows(definition: WorkflowDefinition)
    ensures
        definition.fault() is None <==> {
            &&& definition.version == 1
            &&& definition.steps@.len() > 0
            &&& forall|i: int|
                0 <= i < definition.inputs.entries@.len() ==> input_name_fault(
                    (#[trigger] definition.inputs.entries@[i]).name@,
                ) is None
        },
        definition.version != 1 ==> (definition.fault() matches Some(text)
            && decimal(definition.version as nat).is_suffix_of(text)),
{
    let entries = definition.inputs.entries@;
    let names = names_of(entries);
    let version = decimal(definition.version as nat);
    let text = "不支持的工作流版本："@ + version;
    assert(text.subrange(text.len() - version.len(), text.len() as int) =~= version);
    lemma_first_name_fault(names, 0);
    assert(names.len() == entries.len());
    if definition.version == 1 && definition.steps@.len() > 0 {
        if definition.fault() is None {
            assert forall|i: int| 0 <= i < entries.len() implies input_name_fault(
                (#[trigger] entries[i]).name@,
            ) is None by {
                assert(names[i] == entries[i].name@);
            }
        } else if forall|i: int|
            0 <= i < entries.len() ==> input_name_fault((#[trigger] entries[i]).name@) is None {
            assert forall|i: int| 0 <= i < names.len() implies input_name_fault(
                #[trigger] names[i],
            ) is None by {
                assert(names[i] == entries[i].name@);
            }
        }
    }
}

proof fn lemma_first_name_fault(names: Seq<Seq<char>>, from: int)
    requires
        0 <= from <= names.len(),
    ensures
        input_names_fault(names, from) is None <==> (forall|i: int|
            from <= i < names.len() ==> input_name_fault(#[trigger] names[i]) is None),
    decreases names.len() - from,
{
    if from < names.len() {
        lemma_first_name_fault(names, from + 1);
        if input_names_fault(names, from) is None {
            assert forall|i: int| from <= i < names.len() implies input_name_fault(
                #[trigger] names[i],
            ) is None by {
                if i > from {
                    assert(input_names_fault(names, from + 1) is None);
                }
            }
        } else if input_name_fault(names[from]) is None {
            assert(input_names_fault(names, from + 1) is Some);
        }
    }
}

/// Nothing is asked for if and only if every input that must be given was given something that is
/// not blank; otherwise the first one that was not is asked for, by its label if it has one.
pub proof fn lemma_required_inputs_are_asked_for(
    definition: WorkflowDefinition,
    given: Map<Seq<char>, String>,
    i: int,
)
    requires
        0 <= i < definition.inputs.entries@.len(),
        forall|j: int|
            0 <= j < i ==> !(#[trigger] definition.inputs.entries@[j]).value.required || (
            given.contains_key(definition.inputs.entries@[j].name@) && trimmed(
                given[definition.inputs.entries@[j].name@]@,
            ).len() > 0),
    ensures
        ({
            let input = definition.inputs.entries@[i].value;
            let name = definition.inputs.entries@[i].name@;
            let is_there = given.contains_key(name) && trimmed(given[name]@).len() > 0;
            let text = missing_input(definition, given, 0);
            &&& input.required && !is_there ==> text is Some && match input.label {
                Some(label) if trimmed(label@).len() > 0 => label@.is_suffix_of(text->0),
                _ => name.is_suffix_of(text->0),
            }
            &&& i == definition.inputs.entries@.len() - 1 && (!input.required || is_there)
                ==> text is None
        }),
{
    lemma_asked_from(definition, given, 0, i);
    let entry = definition.inputs.entries@[i];
    let called = name_or(opt_view(entry.value.label), entry.name@);
    let text = "请填写工作流变量："@ + called;
    assert(text.subrange(text.len() - called.len(), text.len() as int) =~= called);
}

proof fn lemma_asked_from(
    definition: WorkflowDefinition,
    given: Map<Seq<char>, String>,
    from: int,
    i: int,
)
    requires
        0 <= from <= i < definition.inputs.entries@.len(),
        forall|j: int|
            from <= j < i ==> !(#[trigger] definition.inputs.entries@[j]).value.required || (
            given.contains_key(definition.inputs.entries@[j].name@) && trimmed(
                given[definition.inputs.entries@[j].name@]@,
            ).len() > 0),
    ensures
        missing_input(definition, given, from) == missing_input(definition, given, i),
        missing_input(definition, given, definition.inputs.entries@.len() as int) is None,
    decreases i - from,
{
    if from < i {
        assert(!is_left_out(
            definition.inputs.entries@[from].value,
            definition.inputs.entries@[from].name@,
            given,
        ));
        lemma_asked_from(definition, given, from + 1, i);
    }
}

/// A workflow that is given a name has that name, and one without has another.
pub proof fn lemma_titles(definition: WorkflowDefinition)
    ensures
        match definition.name {
            Some(name) if trimmed(name@).len() > 0 => definition.title() == name@,
            _ => definition.title() == "未命名工作流"@,
        },
{
}

} // verus!
