//! What the expressions in a workflow stand for.

use vstd::prelude::*;

use crate::clock::{format_time, formatted_time};
use crate::strings::{
    cat2, decimal, find_from, opt_view, position_from, str_eq, starts_with, trim, trimmed,
    u64_to_string,
};
use crate::strset::StringSet;
use crate::text::{from_chars, to_chars};
use crate::textmap::texts;
use crate::types::GitError;
use crate::workflow::expressions::{PipeFault, evaluate_workflow_expression, evaluated, expression_primary, pipe_fault_text, primary_of};
use crate::workflow::{WorkflowDefinition, WorkflowRunOptions};

verus! {

/// When and where a workflow was started.
#[derive(Debug, PartialEq, Eq)]
pub struct WorkflowEvalContext {
    /// Seconds since 1970, nanoseconds past them, and seconds east of Greenwich.
    pub seconds: i64,
    pub nanos: u32,
    pub offset: i32,
    pub run_id: String,
    pub initial_branch: Option<String>,
    pub repo_name: String,
}

/// The decimal digits of a number, with its sign.
pub open spec fn signed_decimal(n: int) -> Seq<char> {
    if n < 0 {
        "-"@ + decimal((-n) as nat)
    } else {
        decimal(n as nat)
    }
}

fn i64_to_string(n: i64) -> (r: String)
    ensures
        r@ == signed_decimal(n as int),
{
    if n < 0 {
        let m: u64 = if n == i64::MIN {
            0x8000_0000_0000_0000
        } else {
            (-n) as u64
        };
        let digits: String = u64_to_string(m);
        cat2("-", digits.as_str())
    } else {
        u64_to_string(n as u64)
    }
}

/// A repository is called like its directory.
pub fn repo_display_name(directory: Option<String>) -> (r: String)
    ensures
        r@ == match opt_view(directory) {
            Some(name) => if name.len() == 0 {
                "repository"@
            } else {
                name
            },
            None => "repository"@,
        },
{
    match directory {
        Some(name) => if str_eq(name.as_str(), "") {
            proof {
                reveal_strlit("");
            }
            "repository".to_string()
        } else {
            proof {
                reveal_strlit("");
                assert(name@.len() == 0 ==> name@ =~= ""@);
            }
            name
        },
        None => "repository".to_string(),
    }
}

impl WorkflowEvalContext {
    /// The context of a run that starts now. Runs are told apart by their milliseconds.
    pub fn new(
        seconds: i64,
        nanos: u32,
        offset: i32,
        initial_branch: Option<String>,
        directory: Option<String>,
    ) -> (r: Self)
        requires
            i64::MIN <= seconds * 1000 + nanos / 1_000_000 <= i64::MAX,
        ensures
            r.seconds == seconds,
            r.nanos == nanos,
            r.offset == offset,
            r.run_id@ == signed_decimal(seconds * 1000 + nanos / 1_000_000),
            r.initial_branch == initial_branch,
            r.repo_name@ == match opt_view(directory) {
                Some(name) => if name.len() == 0 {
                    "repository"@
                } else {
                    name
                },
                None => "repository"@,
            },
    {
        let millis: i128 = seconds as i128 * 1000 + (nanos / 1_000_000) as i128;
        WorkflowEvalContext {
            seconds,
            nanos,
            offset,
            run_id: i64_to_string(millis as i64),
            initial_branch,
            repo_name: repo_display_name(directory),
        }
    }
}

/// Where the head of a repository points.
#[derive(Debug, PartialEq, Eq)]
pub enum HeadState {
    Commit(String),
    NoTarget,
    /// The head could not be read, with the message of the Git library.
    Failed(String),
}

/// What a repository says while a workflow runs.
#[derive(Debug, PartialEq, Eq)]
pub struct RepositoryFacts {
    pub current_branch: Option<String>,
    pub head: HeadState,
}

pub enum HeadView {
    Commit(Seq<char>),
    NoTarget,
    Failed(Seq<char>),
}

/// What the names in an expression stand for.
pub struct ScopeView {
    pub seconds: i64,
    pub nanos: u32,
    pub offset: i32,
    pub run_id: Seq<char>,
    pub initial_branch: Option<Seq<char>>,
    pub repo_name: Seq<char>,
    pub repo_branch: Option<Seq<char>>,
    pub head: HeadView,
    /// The branch that earlier steps of a preview lead to.
    pub preview_branch: Option<Seq<char>>,
    pub vars: Map<Seq<char>, Seq<char>>,
    pub inputs: Map<Seq<char>, Seq<char>>,
    pub default_remote: Seq<char>,
}

/// Why a text has no value.
pub enum ResolveFault {
    Unclosed(Seq<char>),
    BadFormat(Seq<char>),
    NoInitialBranch,
    NoCurrentBranch,
    NoHeadTarget,
    HeadFailed(Seq<char>),
    Cycle(Seq<char>),
    Unknown(Seq<char>),
    Pipe(PipeFault),
    RemotePrefix(Seq<char>),
}

/// Whether an error says what is wrong.
pub open spec fn reports(error: GitError, fault: ResolveFault) -> bool {
    match fault {
        ResolveFault::Unclosed(template) => error.says("变量表达式缺少结束符："@ + template),
        ResolveFault::BadFormat(format) => error.says("无法识别的日期格式："@ + format),
        ResolveFault::NoInitialBranch => error.says(
            "当前 HEAD 未指向本地分支，无法解析 git.initialBranch"@,
        ),
        ResolveFault::NoCurrentBranch => error.says(
            "当前 HEAD 未指向本地分支，无法解析 git.currentBranch"@,
        ),
        ResolveFault::NoHeadTarget => error.says("当前 HEAD 没有目标提交"@),
        ResolveFault::HeadFailed(message) => error.git_says(message),
        ResolveFault::Cycle(name) => error.says("工作流变量存在循环引用："@ + name),
        ResolveFault::Unknown(name) => error.says("未知工作流变量："@ + name),
        ResolveFault::Pipe(fault) => error.says(pipe_fault_text(fault)),
        ResolveFault::RemotePrefix(branch) => error.says(
            "远端分支名不要带远端名前缀："@ + branch,
        ),
    }
}

/// Whether a result is the given value, or reports the given fault.
pub open spec fn gives(r: Result<String, GitError>, value: Result<Seq<char>, ResolveFault>) -> bool {
    match value {
        Ok(text) => r matches Ok(t) && t@ == text,
        Err(fault) => r matches Err(e) && reports(e, fault),
    }
}

// ---------------------------------------------------------------------------
// What expressions stand for
// ---------------------------------------------------------------------------
/// The first `${` from `from` on, or the length.
pub open spec fn opening_from(s: Seq<char>, from: int) -> int
    decreases s.len() - from,
{
    if from < 0 || from >= s.len() {
        s.len() as int
    } else if s[from] == '$' && from + 1 < s.len() && s[from + 1] == '{' {
        from
    } else {
        opening_from(s, from + 1)
    }
}

/// Whether a name stands for something in every workflow.
pub open spec fn is_builtin(name: Seq<char>) -> bool {
    ||| "date:"@.is_prefix_of(name)
    ||| "run.startedAt:"@.is_prefix_of(name)
    ||| name == "run.id"@
    ||| name == "git.initialBranch"@
    ||| name == "git.currentBranch"@
    ||| name == "git.head"@
    ||| name == "git.repoName"@
}

impl ScopeView {
    pub open spec fn time(self, format: Seq<char>) -> Result<Seq<char>, ResolveFault> {
        match formatted_time(self.seconds, self.nanos, self.offset, format) {
            Some(text) => Ok(text),
            None => Err(ResolveFault::BadFormat(format)),
        }
    }

    /// The branch that a step finds checked out.
    pub open spec fn branch(self) -> Result<Seq<char>, ResolveFault> {
        match self.preview_branch {
            Some(branch) => Ok(branch),
            None => match self.repo_branch {
                Some(branch) => Ok(branch),
                None => Err(ResolveFault::NoCurrentBranch),
            },
        }
    }

    pub open spec fn head_commit(self) -> Result<Seq<char>, ResolveFault> {
        match self.head {
            HeadView::Commit(oid) => Ok(oid),
            HeadView::NoTarget => Err(ResolveFault::NoHeadTarget),
            HeadView::Failed(message) => Err(ResolveFault::HeadFailed(message)),
        }
    }

    /// What a name stands for that has a meaning in every workflow.
    pub open spec fn builtin(self, name: Seq<char>) -> Result<Seq<char>, ResolveFault> {
        if "date:"@.is_prefix_of(name) {
            self.time(name.skip("date:"@.len() as int))
        } else if "run.startedAt:"@.is_prefix_of(name) {
            self.time(name.skip("run.startedAt:"@.len() as int))
        } else if name == "run.id"@ {
            Ok(self.run_id)
        } else if name == "git.initialBranch"@ {
            match self.initial_branch {
                Some(branch) => Ok(branch),
                None => Err(ResolveFault::NoInitialBranch),
            }
        } else if name == "git.currentBranch"@ {
            self.branch()
        } else if name == "git.head"@ {
            self.head_commit()
        } else {
            Ok(self.repo_name)
        }
    }

    /// The variables that are not being looked up yet.
    pub open spec fn open_vars(self, stack: Set<Seq<char>>) -> nat {
        self.vars.dom().difference(stack).len()
    }

    /// What `template` comes to from position `from` on, while the variables in `stack` are
    /// being looked up.
    pub open spec fn interpolated(
        self,
        template: Seq<char>,
        from: int,
        stack: Set<Seq<char>>,
    ) -> Result<Seq<char>, ResolveFault>
        decreases self.open_vars(stack), template.len() - from + 2,
        when self.vars.dom().finite() && 0 <= from <= template.len()
    {
        let start = opening_from(template, from);
        let end = position_from(template, '}', start + 2);
        if start >= template.len() || start < from {
            Ok(template.skip(from))
        } else if end >= template.len() || end < from {
            Err(ResolveFault::Unclosed(template))
        } else {
            match self.expression(trimmed(template.subrange(start + 2, end)), stack) {
                Err(fault) => Err(fault),
                Ok(value) => match self.interpolated(template, end + 1, stack) {
                    Err(fault) => Err(fault),
                    Ok(rest) => Ok(template.subrange(from, start) + value + rest),
                },
            }
        }
    }

    /// What an expression stands for.
    pub open spec fn expression(self, expression: Seq<char>, stack: Set<Seq<char>>) -> Result<
        Seq<char>,
        ResolveFault,
    >
        decreases self.open_vars(stack), 1int,
        when self.vars.dom().finite()
    {
        match self.primary(primary_of(expression), stack) {
            Err(fault) => Err(fault),
            Ok(value) => match evaluated(expression, value) {
                Ok(text) => Ok(text),
                Err(fault) => Err(ResolveFault::Pipe(fault)),
            },
        }
    }

    /// What a name stands for.
    pub open spec fn primary(self, name: Seq<char>, stack: Set<Seq<char>>) -> Result<
        Seq<char>,
        ResolveFault,
    >
        decreases self.open_vars(stack), 0int,
        when self.vars.dom().finite()
    {
        if is_builtin(name) {
            self.builtin(name)
        } else if self.vars.contains_key(name) {
            if stack.contains(name) {
                Err(ResolveFault::Cycle(name))
            } else if self.inputs.contains_key(name) {
                Ok(self.inputs[name])
            } else {
                proof {
                    lemma_one_less(self.vars.dom(), stack, name);
                }
                self.interpolated(self.vars[name], 0, stack.insert(name))
            }
        } else if self.inputs.contains_key(name) {
            Ok(self.inputs[name])
        } else {
            Err(ResolveFault::Unknown(name))
        }
    }

    /// What a text comes to.
    pub open spec fn text(self, template: Seq<char>) -> Result<Seq<char>, ResolveFault> {
        self.interpolated(template, 0, Set::empty())
    }
}

/// One more variable that is being looked up leaves one less to look up.
pub proof fn lemma_one_less(all: Set<Seq<char>>, stack: Set<Seq<char>>, name: Seq<char>)
    requires
        all.finite(),
        all.contains(name),
        !stack.contains(name),
    ensures
        all.difference(stack.insert(name)).len() < all.difference(stack).len(),
{
    assert(all.difference(stack).finite()) by {
        vstd::set_lib::lemma_len_subset(all.difference(stack), all);
    }
    assert(all.difference(stack.insert(name)) =~= all.difference(stack).remove(name));
}

// ---------------------------------------------------------------------------
// Laws
// ---------------------------------------------------------------------------
/// A text without an expression stands for itself.
pub proof fn lemma_plain_text(scope: ScopeView, text: Seq<char>)
    requires
        scope.vars.dom().finite(),
        forall|i: int| 0 <= i < text.len() - 1 ==> !(text[i] == '$' && #[trigger] text[i + 1] == '{'),
    ensures
        scope.text(text) == Ok::<Seq<char>, ResolveFault>(text),
{
    lemma_no_opening(text, 0);
    assert(text.skip(0) =~= text);
}

proof fn lemma_no_opening(s: Seq<char>, from: int)
    requires
        0 <= from <= s.len(),
        forall|i: int| 0 <= i < s.len() - 1 ==> !(s[i] == '$' && #[trigger] s[i + 1] == '{'),
    ensures
        opening_from(s, from) == s.len(),
    decreases s.len() - from,
{
    if from < s.len() {
        lemma_no_opening(s, from + 1);
    }
}

/// What the one who runs a workflow gives for a variable goes before what the workflow says.
pub proof fn lemma_inputs_override_variables(
    scope: ScopeView,
    name: Seq<char>,
    stack: Set<Seq<char>>,
)
    requires
        scope.vars.dom().finite(),
        !is_builtin(name),
        scope.inputs.contains_key(name),
        !stack.contains(name),
    ensures
        scope.primary(name, stack) == Ok::<Seq<char>, ResolveFault>(scope.inputs[name]),
{
}

/// A variable that is being looked up has no value: workflows cannot go round in circles.
pub proof fn lemma_cycles_are_found(scope: ScopeView, name: Seq<char>, stack: Set<Seq<char>>)
    requires
        scope.vars.dom().finite(),
        !is_builtin(name),
        scope.vars.contains_key(name),
        stack.contains(name),
    ensures
        scope.primary(name, stack) == Err::<Seq<char>, ResolveFault>(ResolveFault::Cycle(name)),
{
}

/// A name that nothing declares is refused.
pub proof fn lemma_unknown_names_are_refused(
    scope: ScopeView,
    name: Seq<char>,
    stack: Set<Seq<char>>,
)
    requires
        scope.vars.dom().finite(),
        !is_builtin(name),
        !scope.vars.contains_key(name),
        !scope.inputs.contains_key(name),
    ensures
        scope.primary(name, stack) == Err::<Seq<char>, ResolveFault>(ResolveFault::Unknown(name)),
{
}

/// An input with a name that a workflow accepts hides nothing that every workflow has.
pub proof fn lemma_accepted_inputs_are_not_builtin(name: Seq<char>)
    requires
        crate::workflow::input_name_fault(name) is None,
    ensures
        !is_builtin(trimmed(name)),
{
    reveal_strlit("run.");
    reveal_strlit("git.");
    reveal_strlit("run.startedAt:");
    reveal_strlit("run.id");
    reveal_strlit("git.initialBranch");
    reveal_strlit("git.currentBranch");
    reveal_strlit("git.head");
    reveal_strlit("git.repoName");
    let bare = trimmed(name);
    if "run.startedAt:"@.is_prefix_of(bare) {
        assert("run."@ =~= bare.subrange(0, 4)) by {
            assert(bare.subrange(0, 14) =~= "run.startedAt:"@);
            assert forall|i: int| 0 <= i < 4 implies bare[i] == "run."@[i] by {
                assert(bare[i] == bare.subrange(0, 14)[i]);
            }
        }
    }
    if bare == "run.id"@ {
        assert("run."@ =~= bare.subrange(0, 4));
    }
    if bare == "git.initialBranch"@ || bare == "git.currentBranch"@ || bare == "git.head"@ || bare
        == "git.repoName"@ {
        assert("git."@ =~= bare.subrange(0, 4));
    }
}

// ---------------------------------------------------------------------------
// Looking things up
// ---------------------------------------------------------------------------
/// Looks up what the texts of a workflow stand for.
pub struct WorkflowResolver<'a> {
    pub definition: &'a WorkflowDefinition,
    pub options: &'a WorkflowRunOptions,
    pub context: &'a WorkflowEvalContext,
    pub facts: &'a RepositoryFacts,
    pub preview_current_branch: Option<String>,
}

impl<'a> View for WorkflowResolver<'a> {
    type V = ScopeView;

    open spec fn view(&self) -> ScopeView {
        ScopeView {
            seconds: self.context.seconds,
            nanos: self.context.nanos,
            offset: self.context.offset,
            run_id: self.context.run_id@,
            initial_branch: opt_view(self.context.initial_branch),
            repo_name: self.context.repo_name@,
            repo_branch: opt_view(self.facts.current_branch),
            head: match self.facts.head {
                HeadState::Commit(oid) => HeadView::Commit(oid@),
                HeadState::NoTarget => HeadView::NoTarget,
                HeadState::Failed(message) => HeadView::Failed(message@),
            },
            preview_branch: opt_view(self.preview_current_branch),
            vars: texts(self.definition.vars@),
            inputs: texts(self.options.input_vars@),
            default_remote: self.options.default_remote@,
        }
    }
}

fn find_opening(s: &Vec<char>, from: usize) -> (r: usize)
    requires
        from <= s@.len(),
    ensures
        r == opening_from(s@, from as int),
        from <= r <= s@.len(),
        r < s@.len() ==> r + 1 < s@.len(),
{
    let mut i: usize = from;
    while i < s.len()
        invariant
            from <= i <= s@.len(),
            opening_from(s@, from as int) == opening_from(s@, i as int),
        decreases s@.len() - i,
    {
        if s[i] == '$' && i + 1 < s.len() && s[i + 1] == '{' {
            return i;
        }
        i = i + 1;
    }
    i
}

fn without_prefix(s: &str, prefix: &str) -> (r: String)
    requires
        prefix@.is_prefix_of(s@),
    ensures
        r@ == s@.skip(prefix@.len() as int),
{
    let chars: Vec<char> = to_chars(s);
    let start: Vec<char> = to_chars(prefix);
    let r = from_chars(&chars, start.len(), chars.len());
    assert(r@ =~= s@.skip(prefix@.len() as int));
    r
}

impl<'a> WorkflowResolver<'a> {
    pub open spec fn wf(self) -> bool {
        self.definition.wf() && self.options.input_vars.wf()
    }

    pub fn new(
        definition: &'a WorkflowDefinition,
        options: &'a WorkflowRunOptions,
        context: &'a WorkflowEvalContext,
        facts: &'a RepositoryFacts,
    ) -> (r: Self)
        ensures
            r.definition == definition,
            r.options == options,
            r.context == context,
            r.facts == facts,
            r.preview_current_branch is None,
    {
        WorkflowResolver { definition, options, context, facts, preview_current_branch: None }
    }

    pub fn set_preview_current_branch(&mut self, branch: Option<String>)
        ensures
            final(self)@ == (ScopeView { preview_branch: opt_view(branch), ..old(self)@ }),
            final(self).wf() == old(self).wf(),
            final(self).preview_current_branch == branch,
            final(self).definition == old(self).definition,
            final(self).options == old(self).options,
            final(self).context == old(self).context,
            final(self).facts == old(self).facts,
    {
        self.preview_current_branch = branch;
    }

    pub fn current_branch(&self) -> (r: Result<String, GitError>)
        ensures
            gives(r, self@.branch()),
    {
        match &self.preview_current_branch {
            Some(branch) => Ok(branch.clone()),
            None => match &self.facts.current_branch {
                Some(branch) => Ok(branch.clone()),
                None => Err(
                    GitError::Message(
                        "当前 HEAD 未指向本地分支，无法解析 git.currentBranch".to_string(),
                    ),
                ),
            },
        }
    }

    pub fn head_oid(&self) -> (r: Result<String, GitError>)
        ensures
            gives(r, self@.head_commit()),
    {
        match &self.facts.head {
            HeadState::Commit(oid) => Ok(oid.clone()),
            HeadState::NoTarget => Err(GitError::Message("当前 HEAD 没有目标提交".to_string())),
            HeadState::Failed(message) => Err(GitError::Git(message.clone())),
        }
    }

    /// The remote of a step, or the one that the run is for.
    pub fn remote_name(&self, remote: &Option<String>) -> (r: Result<String, GitError>)
        requires
            self.wf(),
        ensures
            gives(r, self@.remote_of(opt_view(*remote))),
    {
        match remote {
            Some(remote) => self.interpolate(remote.as_str()),
            None => Ok(self.options.default_remote.clone()),
        }
    }

    /// The branch of a step, or the one that is checked out.
    pub fn branch_or_current(&self, branch: &Option<String>) -> (r: Result<String, GitError>)
        requires
            self.wf(),
        ensures
            gives(r, self@.branch_of(opt_view(*branch))),
    {
        match branch {
            Some(branch) => self.interpolate(branch.as_str()),
            None => self.current_branch(),
        }
    }

    /// What a text comes to.
    pub fn interpolate(&self, template: &str) -> (r: Result<String, GitError>)
        requires
            self.wf(),
        ensures
            gives(r, self@.text(template@)),
    {
        let mut stack: StringSet = StringSet::new();
        self.interpolate_with_stack(template, &mut stack)
    }

    fn interpolate_with_stack(&self, template: &str, stack: &mut StringSet) -> (r: Result<
        String,
        GitError,
    >)
        requires
            self.wf(),
            old(stack).wf(),
        ensures
            final(stack).wf(),
            final(stack)@ == old(stack)@,
            gives(r, self@.interpolated(template@, 0, old(stack)@)),
        decreases self@.open_vars(old(stack)@), 2int,
    {
        proof {
            self.definition.vars.lemma_entries();
            assert(self@.vars.dom() =~= self.definition.vars@.dom());
        }
        let ghost before = stack@;
        let chars: Vec<char> = to_chars(template);
        let mut output: String = String::new();
        let mut from: usize = 0;
        loop
            invariant
                self.wf(),
                stack.wf(),
                stack@ == before,
                before == old(stack)@,
                chars@ == template@,
                from <= chars@.len(),
                self@.vars.dom().finite(),
                self@.interpolated(template@, 0, before) == match self@.interpolated(
                    template@,
                    from as int,
                    before,
                ) {
                    Ok(rest) => Ok::<Seq<char>, ResolveFault>(output@ + rest),
                    Err(fault) => Err(fault),
                },
            decreases chars@.len() - from,
        {
            let start: usize = find_opening(&chars, from);
            if start >= chars.len() {
                let rest = from_chars(&chars, from, chars.len());
                assert(rest@ =~= template@.skip(from as int));
                return Ok(cat2(output.as_str(), rest.as_str()));
            }
            let end: usize = find_from(&chars, '}', start + 2);
            if end >= chars.len() {
                return Err(GitError::Message(cat2("变量表达式缺少结束符：", template)));
            }
            let inner = from_chars(&chars, start + 2, end);
            assert(inner@ =~= template@.subrange(start + 2, end as int));
            let expression: String = trim(inner.as_str());
            match self.resolve_expression(expression.as_str(), stack) {
                Ok(value) => {
                    let head = from_chars(&chars, from, start);
                    let ghost done = output@;
                    proof {
                        assert(head@ =~= template@.subrange(from as int, start as int));
                        let next = self@.interpolated(template@, end + 1, before);
                        if next is Ok {
                            assert(done + (head@ + value@ + next->Ok_0) =~= done + head@ + value@
                                + next->Ok_0);
                        }
                    }
                    output = crate::strings::cat3(output.as_str(), head.as_str(), value.as_str());
                },
                Err(e) => {
                    return Err(e);
                },
            }
            from = end + 1;
        }
    }

    fn resolve_expression(&self, expression: &str, stack: &mut StringSet) -> (r: Result<
        String,
        GitError,
    >)
        requires
            self.wf(),
            old(stack).wf(),
        ensures
            final(stack).wf(),
            final(stack)@ == old(stack)@,
            gives(r, self@.expression(expression@, old(stack)@)),
        decreases self@.open_vars(old(stack)@), 1int,
    {
        proof {
            self.definition.vars.lemma_entries();
            assert(self@.vars.dom() =~= self.definition.vars@.dom());
        }
        let primary: String = expression_primary(expression);
        match self.resolve_primary_expression(primary.as_str(), stack) {
            Ok(value) => evaluate_workflow_expression(expression, value),
            Err(e) => Err(e),
        }
    }

    fn written_time(&self, format: String) -> (r: Result<String, GitError>)
        ensures
            gives(r, self@.time(format@)),
    {
        match format_time(
            self.context.seconds,
            self.context.nanos,
            self.context.offset,
            format.as_str(),
        ) {
            Some(text) => Ok(text),
            None => Err(GitError::Message(cat2("无法识别的日期格式：", format.as_str()))),
        }
    }

    fn resolve_primary_expression(&self, expression: &str, stack: &mut StringSet) -> (r: Result<
        String,
        GitError,
    >)
        requires
            self.wf(),
            old(stack).wf(),
        ensures
            final(stack).wf(),
            final(stack)@ == old(stack)@,
            gives(r, self@.primary(expression@, old(stack)@)),
        decreases self@.open_vars(old(stack)@), 0int,
    {
        proof {
            self.definition.vars.lemma_entries();
            assert(self@.vars.dom() =~= self.definition.vars@.dom());
        }
        if starts_with(expression, "date:") {
            return self.written_time(without_prefix(expression, "date:"));
        }
        if starts_with(expression, "run.startedAt:") {
            return self.written_time(without_prefix(expression, "run.startedAt:"));
        }
        if str_eq(expression, "run.id") {
            return Ok(self.context.run_id.clone());
        }
        if str_eq(expression, "git.initialBranch") {
            return match &self.context.initial_branch {
                Some(branch) => Ok(branch.clone()),
                None => Err(
                    GitError::Message(
                        "当前 HEAD 未指向本地分支，无法解析 git.initialBranch".to_string(),
                    ),
                ),
            };
        }
        if str_eq(expression, "git.currentBranch") {
            return self.current_branch();
        }
        if str_eq(expression, "git.head") {
            return self.head_oid();
        }
        if str_eq(expression, "git.repoName") {
            return Ok(self.context.repo_name.clone());
        }
        match self.definition.vars.get(expression) {
            Some(value) => {
                let ghost before = stack@;
                if !stack.insert(expression.to_string()) {
                    assert(before.insert(expression@) =~= before);
                    return Err(GitError::Message(cat2("工作流变量存在循环引用：", expression)));
                }
                assert(before.insert(expression@).remove(expression@) =~= before);
                match self.options.input_vars.get(expression) {
                    Some(input) => {
                        stack.remove(expression);
                        return Ok(input.clone());
                    },
                    None => {},
                }
                proof {
                    lemma_one_less(self@.vars.dom(), before, expression@);
                }
                let resolved = self.interpolate_with_stack(value.as_str(), stack);
                stack.remove(expression);
                resolved
            },
            None => match self.options.input_vars.get(expression) {
                Some(value) => Ok(value.clone()),
                None => Err(GitError::Message(cat2("未知工作流变量：", expression))),
            },
        }
    }
}

impl ScopeView {
    /// The remote of a step, or the one that the run is for.
    pub open spec fn remote_of(self, remote: Option<Seq<char>>) -> Result<Seq<char>, ResolveFault> {
        match remote {
            Some(remote) => self.text(remote),
            None => Ok(self.default_remote),
        }
    }

    /// The branch of a step, or the one that is checked out.
    pub open spec fn branch_of(self, branch: Option<Seq<char>>) -> Result<Seq<char>, ResolveFault> {
        match branch {
            Some(branch) => self.text(branch),
            None => self.branch(),
        }
    }
}

// ---------------------------------------------------------------------------
// Laws of texts and names
// ---------------------------------------------------------------------------
proof fn lemma_opening_of_rest(t: Seq<char>, s: Seq<char>, off: int, from: int)
    requires
        0 <= off <= t.len(),
        t.skip(off) == s,
        0 <= from <= s.len(),
    ensures
        opening_from(t, off + from) == off + opening_from(s, from),
        from <= opening_from(s, from) <= s.len(),
        opening_from(s, from) < s.len() ==> opening_from(s, from) + 1 < s.len(),
    decreases s.len() - from,
{
    if from < s.len() {
        assert(t[off + from] == s[from]);
        if from + 1 < s.len() {
            assert(t[off + from + 1] == s[from + 1]);
        }
        lemma_opening_of_rest(t, s, off, from + 1);
    }
}

proof fn lemma_position_of_rest(t: Seq<char>, s: Seq<char>, c: char, off: int, from: int)
    requires
        0 <= off <= t.len(),
        t.skip(off) == s,
        0 <= from <= s.len(),
    ensures
        position_from(t, c, off + from) == off + position_from(s, c, from),
        from <= position_from(s, c, from) <= s.len(),
    decreases s.len() - from,
{
    if from < s.len() {
        assert(t[off + from] == s[from]);
        lemma_position_of_rest(t, s, c, off, from + 1);
    }
}

proof fn lemma_rest_is_read_alone(
    scope: ScopeView,
    t: Seq<char>,
    s: Seq<char>,
    off: int,
    from: int,
    stack: Set<Seq<char>>,
)
    requires
        scope.vars.dom().finite(),
        0 <= off <= t.len(),
        t.skip(off) == s,
        0 <= from <= s.len(),
    ensures
        match scope.interpolated(s, from, stack) {
            Ok(text) => scope.interpolated(t, off + from, stack) == Ok::<Seq<char>, ResolveFault>(
                text,
            ),
            Err(_) => scope.interpolated(t, off + from, stack) is Err,
        },
    decreases s.len() - from,
{
    lemma_opening_of_rest(t, s, off, from);
    let start = opening_from(s, from);
    if start >= s.len() {
        assert(t.skip(off + from) =~= s.skip(from));
    } else {
        lemma_position_of_rest(t, s, '}', off, start + 2);
        let end = position_from(s, '}', start + 2);
        if end < s.len() {
            assert(t.subrange(off + start + 2, off + end) =~= s.subrange(start + 2, end));
            lemma_rest_is_read_alone(scope, t, s, off, end + 1, stack);
            assert(t.subrange(off + from, off + start) =~= s.subrange(from, start));
        }
    }
}

/// Whether an expression starts somewhere in a text.
pub open spec fn holds_an_opening(s: Seq<char>) -> bool {
    exists|i: int| 0 <= i < s.len() - 1 && s[i] == '$' && #[trigger] s[i + 1] == '{'
}

proof fn lemma_first_opening(s: Seq<char>, from: int, at: int)
    requires
        0 <= from <= at,
        at + 1 < s.len(),
        s[at] == '$',
        s[at + 1] == '{',
        forall|i: int| from <= i < at ==> !(s[i] == '$' && #[trigger] s[i + 1] == '{'),
    ensures
        opening_from(s, from) == at,
    decreases at - from,
{
    if from < at {
        assert(!(s[from] == '$' && s[from + 1] == '{'));
        lemma_first_opening(s, from + 1, at);
    }
}

/// An expression in a text is replaced by what it stands for. What stands before it stays, and
/// what comes behind it is read as if it stood alone. A text in which one expression has no value
/// has none.
pub proof fn lemma_expressions_are_replaced(
    scope: ScopeView,
    before: Seq<char>,
    expression: Seq<char>,
    behind: Seq<char>,
)
    requires
        scope.vars.dom().finite(),
        !holds_an_opening(before),
        !expression.contains('}'),
    ensures
        ({
            let value = scope.expression(trimmed(expression), Set::empty());
            let whole = scope.text(before + "${"@ + expression + "}"@ + behind);
            match (value, scope.text(behind)) {
                (Ok(value), Ok(rest)) => whole == Ok::<Seq<char>, ResolveFault>(
                    before + value + rest,
                ),
                (Err(fault), _) => whole == Err::<Seq<char>, ResolveFault>(fault),
                (Ok(_), Err(_)) => whole is Err,
            }
        }),
{
    reveal_strlit("${");
    reveal_strlit("}");
    let whole = before + "${"@ + expression + "}"@ + behind;
    let start = before.len() as int;
    let end = start + 2 + expression.len();
    assert forall|i: int| 0 <= i < start implies !(whole[i] == '$' && #[trigger] whole[i + 1]
        == '{') by {
        assert(whole[i] == before[i]);
        if i + 1 < start {
            assert(whole[i + 1] == before[i + 1]);
        } else {
            assert(whole[i + 1] == '$');
        }
    }
    lemma_first_opening(whole, 0, start);
    lemma_closing(whole, start + 2, end, expression);
    assert(whole.subrange(start + 2, end) =~= expression);
    assert(whole.subrange(0, start) =~= before);
    assert(whole.skip(end + 1) =~= behind);
    lemma_rest_is_read_alone(scope, whole, behind, end + 1, 0, Set::empty());
}

proof fn lemma_closing(whole: Seq<char>, from: int, end: int, expression: Seq<char>)
    requires
        0 <= from <= end < whole.len(),
        end - from <= expression.len(),
        forall|i: int|
            from <= i < end ==> #[trigger] whole[i] == expression[i - (end - expression.len())],
        !expression.contains('}'),
        whole[end] == '}',
    ensures
        position_from(whole, '}', from) == end,
    decreases end - from,
{
    if from < end {
        assert(whole[from] == expression[from - (end - expression.len())]);
        lemma_closing(whole, from + 1, end, expression);
    }
}

/// An expression that does not end is reported with the text that it stands in.
pub proof fn lemma_unclosed_expressions_are_refused(
    scope: ScopeView,
    before: Seq<char>,
    expression: Seq<char>,
)
    requires
        scope.vars.dom().finite(),
        !holds_an_opening(before),
        !expression.contains('}'),
    ensures
        scope.text(before + "${"@ + expression) == Err::<Seq<char>, ResolveFault>(
            ResolveFault::Unclosed(before + "${"@ + expression),
        ),
{
    reveal_strlit("${");
    let whole = before + "${"@ + expression;
    let start = before.len() as int;
    assert forall|i: int| 0 <= i < start implies !(whole[i] == '$' && #[trigger] whole[i + 1]
        == '{') by {
        assert(whole[i] == before[i]);
        if i + 1 < start {
            assert(whole[i + 1] == before[i + 1]);
        } else {
            assert(whole[i + 1] == '$');
        }
    }
    lemma_first_opening(whole, 0, start);
    crate::strings::lemma_position_from(whole, '}', start + 2);
    let end = position_from(whole, '}', start + 2);
    if end < whole.len() {
        assert(whole[end] == expression[end - start - 2]);
    }
}

/// The names that every workflow has stand for what the run and the repository say: its number,
/// the branch that it started on, the branch that is checked out (the one that the steps before
/// lead to, in a preview), the commit of the head and the name of the repository.
pub proof fn lemma_builtin_names(resolver: WorkflowResolver, stack: Set<Seq<char>>)
    requires
        resolver@.vars.dom().finite(),
    ensures
        resolver@.primary("run.id"@, stack) == Ok::<Seq<char>, ResolveFault>(
            resolver.context.run_id@,
        ),
        resolver@.primary("git.repoName"@, stack) == Ok::<Seq<char>, ResolveFault>(
            resolver.context.repo_name@,
        ),
        match resolver.context.initial_branch {
            Some(branch) => resolver@.primary("git.initialBranch"@, stack) == Ok::<
                Seq<char>,
                ResolveFault,
            >(branch@),
            None => resolver@.primary("git.initialBranch"@, stack) is Err,
        },
        match (resolver.preview_current_branch, resolver.facts.current_branch) {
            (Some(branch), _) => resolver@.primary("git.currentBranch"@, stack) == Ok::<
                Seq<char>,
                ResolveFault,
            >(branch@),
            (None, Some(branch)) => resolver@.primary("git.currentBranch"@, stack) == Ok::<
                Seq<char>,
                ResolveFault,
            >(branch@),
            (None, None) => resolver@.primary("git.currentBranch"@, stack) is Err,
        },
        match resolver.facts.head {
            HeadState::Commit(oid) => resolver@.primary("git.head"@, stack) == Ok::<
                Seq<char>,
                ResolveFault,
            >(oid@),
            _ => resolver@.primary("git.head"@, stack) is Err,
        },
{
    reveal_strlit("date:");
    reveal_strlit("run.startedAt:");
    reveal_strlit("run.id");
    reveal_strlit("git.initialBranch");
    reveal_strlit("git.currentBranch");
    reveal_strlit("git.head");
    reveal_strlit("git.repoName");
    assert("git.initialBranch"@[4] == 'i');
    assert("git.currentBranch"@[4] == 'c');
    assert("git.head"@[4] == 'h');
    assert("git.repoName"@[4] == 'r');
    assert("run.id"@[0] == 'r' && "date:"@[0] == 'd' && "run.startedAt:"@[0] == 'r');
    assert("git.repoName"@[0] == 'g' && "git.head"@[0] == 'g');
    assert("git.currentBranch"@[0] == 'g' && "git.initialBranch"@[0] == 'g');
    assert("run.startedAt:"@.len() == 14 && "run.id"@.len() == 6);
}

/// A time is written as the format behind its name says, and is when the run started under either
/// name.
pub proof fn lemma_times_are_of_the_start(
    resolver: WorkflowResolver,
    format: Seq<char>,
    stack: Set<Seq<char>>,
)
    requires
        resolver@.vars.dom().finite(),
    ensures
        resolver@.primary("date:"@ + format, stack) == resolver@.primary(
            "run.startedAt:"@ + format,
            stack,
        ),
        match formatted_time(
            resolver.context.seconds,
            resolver.context.nanos,
            resolver.context.offset,
            format,
        ) {
            Some(text) => resolver@.primary("date:"@ + format, stack) == Ok::<
                Seq<char>,
                ResolveFault,
            >(text),
            None => resolver@.primary("date:"@ + format, stack) == Err::<Seq<char>, ResolveFault>(
                ResolveFault::BadFormat(format),
            ),
        },
{
    reveal_strlit("date:");
    reveal_strlit("run.startedAt:");
    let a = "date:"@ + format;
    let b = "run.startedAt:"@ + format;
    assert("date:"@.is_prefix_of(a));
    assert("run.startedAt:"@.is_prefix_of(b));
    assert(a.skip("date:"@.len() as int) =~= format);
    assert(b.skip("run.startedAt:"@.len() as int) =~= format);
    assert(b[0] == 'r' && "date:"@[0] == 'd');
}

/// Any other name is a variable or an input. What was given for it goes first; otherwise it stands
/// for what the text of the variable comes to, in which the variable itself has no value; and
/// a name that is neither has none.
pub proof fn lemma_other_names(resolver: WorkflowResolver, name: Seq<char>, stack: Set<Seq<char>>)
    requires
        resolver@.vars.dom().finite(),
        !"date:"@.is_prefix_of(name),
        !"run.startedAt:"@.is_prefix_of(name),
        name != "run.id"@,
        name != "git.initialBranch"@,
        name != "git.currentBranch"@,
        name != "git.head"@,
        name != "git.repoName"@,
        !stack.contains(name),
    ensures
        ({
            let vars = texts(resolver.definition.vars@);
            let inputs = texts(resolver.options.input_vars@);
            let value = resolver@.primary(name, stack);
            &&& inputs.contains_key(name) ==> value == Ok::<Seq<char>, ResolveFault>(inputs[name])
            &&& !inputs.contains_key(name) && vars.contains_key(name) ==> value
                == resolver@.interpolated(vars[name], 0, stack.insert(name))
            &&& !inputs.contains_key(name) && !vars.contains_key(name) ==> value == Err::<
                Seq<char>,
                ResolveFault,
            >(ResolveFault::Unknown(name))
        }),
{
}

/// A name in an expression stands for its value, passed through the methods behind it.
pub proof fn lemma_plain_names_are_looked_up(scope: ScopeView, name: Seq<char>)
    requires
        scope.vars.dom().finite(),
        crate::workflow::expressions::is_bare(name),
    ensures
        scope.expression(name, Set::empty()) == scope.primary(trimmed(name), Set::empty()),
{
    match scope.primary(trimmed(name), Set::empty()) {
        Ok(value) => {
            crate::workflow::expressions::lemma_names_stand_for_themselves(name, value);
        },
        Err(_) => {
            crate::workflow::expressions::lemma_names_stand_for_themselves(name, Seq::empty());
        },
    }
}

/// A remote or a branch that is named is what its text comes to; the remote that is not named is
/// the one of the run, and the branch that is not named is the one that is checked out.
pub proof fn lemma_remotes_and_branches(resolver: WorkflowResolver, named: Option<Seq<char>>)
    ensures
        match named {
            Some(text) => resolver@.remote_of(named) == resolver@.text(text)
                && resolver@.branch_of(named) == resolver@.text(text),
            None => {
                &&& resolver@.remote_of(named) == Ok::<Seq<char>, ResolveFault>(
                    resolver.options.default_remote@,
                )
                &&& match (resolver.preview_current_branch, resolver.facts.current_branch) {
                    (Some(branch), _) => resolver@.branch_of(named) == Ok::<
                        Seq<char>,
                        ResolveFault,
                    >(branch@),
                    (None, Some(branch)) => resolver@.branch_of(named) == Ok::<
                        Seq<char>,
                        ResolveFault,
                    >(branch@),
                    (None, None) => resolver@.branch_of(named) is Err,
                }
            },
        },
{
}

/// Runs that start at different times have different numbers.
pub proof fn lemma_run_numbers_differ(a: int, b: int)
    requires
        a != b,
    ensures
        signed_decimal(a) != signed_decimal(b),
{
    reveal_strlit("-");
    let x = if a < 0 {
        -a
    } else {
        a
    };
    let y = if b < 0 {
        -b
    } else {
        b
    };
    crate::strings::lemma_decimal_is_the_number(x as nat);
    crate::strings::lemma_decimal_is_the_number(y as nat);
    if a < 0 {
        assert(signed_decimal(a)[0] == '-');
        assert(signed_decimal(a).skip(1) =~= decimal(x as nat));
    } else {
        assert('0' <= signed_decimal(a)[0]);
    }
    if b < 0 {
        assert(signed_decimal(b)[0] == '-');
        assert(signed_decimal(b).skip(1) =~= decimal(y as nat));
    } else {
        assert('0' <= signed_decimal(b)[0]);
    }
}

/// A text is given as it is, and a fault as an error.
pub proof fn lemma_what_is_given(
    r: Result<String, GitError>,
    value: Result<Seq<char>, ResolveFault>,
)
    requires
        gives(r, value),
    ensures
        value is Ok <==> r is Ok,
        value matches Ok(text) ==> r->Ok_0@ == text,
        value matches Err(fault) ==> reports(r->Err_0, fault),
{
}

/// An error of a text ends with what is wrong: the text, the format, the name or the branch.
pub proof fn lemma_errors_name_what_is_wrong(error: GitError, fault: ResolveFault)
    requires
        reports(error, fault),
    ensures
        match fault {
            ResolveFault::Unclosed(text) => text.is_suffix_of(error.message_text()),
            ResolveFault::BadFormat(text) => text.is_suffix_of(error.message_text()),
            ResolveFault::Cycle(name) => name.is_suffix_of(error.message_text()),
            ResolveFault::Unknown(name) => name.is_suffix_of(error.message_text()),
            ResolveFault::RemotePrefix(branch) => branch.is_suffix_of(error.message_text()),
            ResolveFault::HeadFailed(message) => error.message_text() == message,
            ResolveFault::Pipe(fault) => error.message_text() == pipe_fault_text(fault),
            ResolveFault::NoInitialBranch => "git.initialBranch"@.is_suffix_of(
                error.message_text(),
            ),
            ResolveFault::NoCurrentBranch => "git.currentBranch"@.is_suffix_of(
                error.message_text(),
            ),
            ResolveFault::NoHeadTarget => error.message_text().len() > 0,
        },
{
    let t = error.message_text();
    match fault {
        ResolveFault::Unclosed(x)
        | ResolveFault::BadFormat(x)
        | ResolveFault::Cycle(x)
        | ResolveFault::Unknown(x)
        | ResolveFault::RemotePrefix(x) => {
            assert(t.subrange(t.len() - x.len(), t.len() as int) =~= x);
        },
        ResolveFault::NoInitialBranch => {
            reveal_strlit("当前 HEAD 未指向本地分支，无法解析 git.initialBranch");
            reveal_strlit("git.initialBranch");
            assert(t.subrange(t.len() - 17, t.len() as int) =~= "git.initialBranch"@);
        },
        ResolveFault::NoCurrentBranch => {
            reveal_strlit("当前 HEAD 未指向本地分支，无法解析 git.currentBranch");
            reveal_strlit("git.currentBranch");
            assert(t.subrange(t.len() - 17, t.len() as int) =~= "git.currentBranch"@);
        },
        ResolveFault::NoHeadTarget => {
            reveal_strlit("当前 HEAD 没有目标提交");
        },
        _ => {},
    }
}

} // verus!
