//! What the user fills in: credentials and remotes.

use vstd::prelude::*;
use vstd::string::StringExecFns;

use crate::credentials::{
    set_remote_binding_for_request, with_policy, AllowedTypes, CredentialFormMode,
    CredentialRecord, CredentialRequest, CredentialScope, CredentialView, GitCredential,
    RemoteCredentialBindings, RemoteCredentialPolicy,
};
use crate::strings::{
    ascii_lowered, cat2, clone_opt, opt_str_eq, opt_view, starts_with, str_eq, to_ascii_lowercase,
    trim, trimmed,
};
use crate::text::{char_is_whitespace, is_whitespace, to_chars};
use crate::types::RemoteInfo;

verus! {

// ---------------------------------------------------------------------------
// Which form a remote needs
// ---------------------------------------------------------------------------
pub open spec fn form_mode(url: Seq<char>, allowed: AllowedTypes) -> CredentialFormMode {
    let lower = ascii_lowered(url);
    if "ssh://"@.is_prefix_of(lower) || "git@"@.is_prefix_of(lower) || (!"http://"@.is_prefix_of(
        lower,
    ) && !"https://"@.is_prefix_of(lower) && allowed.ssh_key) {
        CredentialFormMode::Ssh
    } else {
        CredentialFormMode::Https
    }
}

pub fn credential_form_mode_for_request(request: &CredentialRequest) -> (r: CredentialFormMode)
    ensures
        r == form_mode(request.url@, request.allowed_types),
{
    let lower: String = to_ascii_lowercase(request.url.as_str());
    let s: &str = lower.as_str();
    if starts_with(s, "ssh://") || starts_with(s, "git@") || (!starts_with(s, "http://")
        && !starts_with(s, "https://") && request.allowed_types.ssh_key) {
        CredentialFormMode::Ssh
    } else {
        CredentialFormMode::Https
    }
}

/// What is asked of a form for credentials.
pub struct CredentialForm {
    pub mode: CredentialFormMode,
    pub scope: CredentialScope,
    pub use_ssh_agent: bool,
    pub save: bool,
    pub remote_url: String,
    pub username: String,
    pub secret: String,
    pub key_path: String,
    pub passphrase: String,
}

/// What a form holds.
pub struct FormView {
    pub mode: CredentialFormMode,
    pub scope: CredentialScope,
    pub use_ssh_agent: bool,
    pub save: bool,
    pub remote_url: Seq<char>,
    pub username: Seq<char>,
    pub secret: Seq<char>,
    pub key_path: Seq<char>,
    pub passphrase: Seq<char>,
}

impl View for CredentialForm {
    type V = FormView;

    open spec fn view(&self) -> FormView {
        FormView {
            mode: self.mode,
            scope: self.scope,
            use_ssh_agent: self.use_ssh_agent,
            save: self.save,
            remote_url: self.remote_url@,
            username: self.username@,
            secret: self.secret@,
            key_path: self.key_path@,
            passphrase: self.passphrase@,
        }
    }
}

/// The form in which nothing is filled in.
pub open spec fn empty_form(save: bool) -> FormView {
    FormView {
        mode: CredentialFormMode::Https,
        scope: CredentialScope::RemoteUrl,
        use_ssh_agent: false,
        save,
        remote_url: Seq::empty(),
        username: Seq::empty(),
        secret: Seq::empty(),
        key_path: Seq::empty(),
        passphrase: Seq::empty(),
    }
}

/// The prompt for a request, as it starts out.
pub open spec fn prompt_form(request: CredentialRequest) -> FormView {
    FormView {
        mode: form_mode(request.url@, request.allowed_types),
        scope: CredentialScope::RemoteUrl,
        use_ssh_agent: false,
        save: true,
        remote_url: request.url@,
        username: match request.username_from_url {
            Some(u) => u@,
            None => "git"@,
        },
        secret: Seq::empty(),
        key_path: Seq::empty(),
        passphrase: Seq::empty(),
    }
}

fn no_text() -> (r: String)
    ensures
        r@ == Seq::<char>::empty(),
{
    let r: String = String::new();
    assert(r@ =~= Seq::<char>::empty());
    r
}

impl CredentialForm {
    /// The form before it is used.
    pub fn new() -> (form: Self)
        ensures
            form@ == empty_form(false),
    {
        CredentialForm {
            mode: CredentialFormMode::Https,
            scope: CredentialScope::RemoteUrl,
            use_ssh_agent: false,
            save: false,
            remote_url: no_text(),
            username: no_text(),
            secret: no_text(),
            key_path: no_text(),
            passphrase: no_text(),
        }
    }
}

/// The prompt for a request, as it starts out.
pub fn prompt_for_request(request: &CredentialRequest) -> (form: CredentialForm)
    ensures
        form@ == prompt_form(*request),
{
    let username: String = match &request.username_from_url {
        Some(u) => u.clone(),
        None => "git".to_string(),
    };
    CredentialForm {
        mode: credential_form_mode_for_request(request),
        scope: CredentialScope::RemoteUrl,
        use_ssh_agent: false,
        save: true,
        remote_url: request.url.clone(),
        username,
        secret: no_text(),
        key_path: no_text(),
        passphrase: no_text(),
    }
}

/// Empties the form for a new credential. Whether credentials are kept stays as it was chosen.
pub fn open_credential_form(form: &mut CredentialForm)
    ensures
        final(form)@ == empty_form(old(form).save),
{
    form.mode = CredentialFormMode::Https;
    form.scope = CredentialScope::RemoteUrl;
    form.use_ssh_agent = false;
    form.remote_url = no_text();
    form.username = no_text();
    form.secret = no_text();
    form.key_path = no_text();
    form.passphrase = no_text();
}

// ---------------------------------------------------------------------------
// Answering a prompt
// ---------------------------------------------------------------------------
/// `s`, unless it is empty.
pub open spec fn unless_empty(s: Seq<char>) -> Option<Seq<char>> {
    if s.len() == 0 {
        None
    } else {
        Some(s)
    }
}

fn keep_unless_empty(s: &String) -> (r: Option<String>)
    ensures
        opt_view(r) == unless_empty(s@),
{
    if s.as_str().is_empty() {
        None
    } else {
        Some(s.clone())
    }
}

/// The name that a prompt was answered with: what was typed, else what the address says, else
/// `git`.
pub open spec fn prompt_username(typed: Seq<char>, from_url: Option<Seq<char>>) -> Seq<char> {
    if trimmed(typed).len() > 0 {
        trimmed(typed)
    } else {
        match from_url {
            Some(u) => u,
            None => "git"@,
        }
    }
}

/// The credential that a prompt was answered with.
pub open spec fn prompt_credential(
    form: CredentialForm,
    from_url: Option<Seq<char>>,
) -> CredentialView {
    let username = prompt_username(form.username@, from_url);
    match form.mode {
        CredentialFormMode::Ssh => CredentialView::SshPassphrase {
            username,
            private_key_path: if form.use_ssh_agent {
                None
            } else {
                unless_empty(trimmed(form.key_path@))
            },
            passphrase: unless_empty(form.passphrase@),
            save_to_keyring: form.save,
            scope: form.scope,
        },
        CredentialFormMode::Https => CredentialView::UserPass {
            username,
            secret: form.secret@,
            save_to_keyring: form.save,
            scope: form.scope,
        },
    }
}

pub fn use_credentials(form: &CredentialForm, username_from_url: &Option<String>) -> (r:
    GitCredential)
    ensures
        r@ == prompt_credential(*form, opt_view(*username_from_url)),
{
    let typed: String = trim(form.username.as_str());
    let username: String = if !typed.as_str().is_empty() {
        typed
    } else {
        match username_from_url {
            Some(u) => u.clone(),
            None => "git".to_string(),
        }
    };
    match form.mode {
        CredentialFormMode::Ssh => {
            let key_path: String = trim(form.key_path.as_str());
            GitCredential::SshPassphrase {
                username,
                private_key_path: if form.use_ssh_agent {
                    None
                } else {
                    keep_unless_empty(&key_path)
                },
                passphrase: keep_unless_empty(&form.passphrase),
                save_to_keyring: form.save,
                scope: form.scope,
            }
        },
        CredentialFormMode::Https => GitCredential::UserPass {
            username,
            secret: form.secret.clone(),
            save_to_keyring: form.save,
            scope: form.scope,
        },
    }
}

// ---------------------------------------------------------------------------
// Saving a credential
// ---------------------------------------------------------------------------
pub open spec fn any_type() -> AllowedTypes {
    AllowedTypes { user_pass_plaintext: true, ssh_key: true, default: false }
}

/// Why a form for a new credential cannot be saved.
pub open spec fn credential_form_fault(form: CredentialForm) -> Option<Seq<char>> {
    let url = trimmed(form.remote_url@);
    if url.len() == 0 {
        Some("需要填写适用远端 URL"@)
    } else if form_mode(url, any_type()) != form.mode {
        Some("凭据类型与远端 URL 协议不匹配"@)
    } else if form.mode == CredentialFormMode::Https && form.secret@.len() == 0 {
        Some("需要填写密码或 PAT"@)
    } else if form.mode == CredentialFormMode::Ssh && !form.use_ssh_agent && trimmed(
        form.key_path@,
    ).len() == 0 {
        Some("需要填写 SSH 私钥路径或选择使用 SSH agent"@)
    } else {
        None
    }
}

/// The credential that such a form holds.
pub open spec fn form_credential(form: CredentialForm) -> CredentialView {
    let username = prompt_username(form.username@, None);
    match form.mode {
        CredentialFormMode::Https => CredentialView::UserPass {
            username,
            secret: form.secret@,
            save_to_keyring: true,
            scope: form.scope,
        },
        CredentialFormMode::Ssh => CredentialView::SshPassphrase {
            username,
            private_key_path: if form.use_ssh_agent {
                None
            } else {
                Some(trimmed(form.key_path@))
            },
            passphrase: unless_empty(form.passphrase@),
            save_to_keyring: true,
            scope: form.scope,
        },
    }
}

/// A credential to store, and the request that it is stored for.
pub struct CredentialToSave {
    pub request: CredentialRequest,
    pub credential: GitCredential,
}

pub fn save_credential_form(form: &CredentialForm) -> (r: Result<CredentialToSave, String>)
    ensures
        match credential_form_fault(*form) {
            Some(fault) => r matches Err(message) && message@ == fault,
            None => {
                &&& r matches Ok(save)
                &&& save.credential@ == form_credential(*form)
                &&& save.request.url@ == trimmed(form.remote_url@)
                &&& save.request.username_from_url matches Some(u)
                &&& u@ == prompt_username(form.username@, None)
                &&& save.request.allowed_types == (AllowedTypes {
                    user_pass_plaintext: form.mode == CredentialFormMode::Https,
                    ssh_key: form.mode == CredentialFormMode::Ssh,
                    default: false,
                })
                &&& save.request.repo_key is None
                &&& save.request.remote_name is None
            },
        },
{
    let url: String = trim(form.remote_url.as_str());
    if url.as_str().is_empty() {
        return Err("需要填写适用远端 URL".to_string());
    }
    let probe = CredentialRequest {
        url: url.clone(),
        username_from_url: None,
        allowed_types: AllowedTypes { user_pass_plaintext: true, ssh_key: true, default: false },
        repo_key: None,
        remote_name: None,
    };
    if credential_form_mode_for_request(&probe) != form.mode {
        return Err("凭据类型与远端 URL 协议不匹配".to_string());
    }
    let typed: String = trim(form.username.as_str());
    let username: String = if typed.as_str().is_empty() {
        "git".to_string()
    } else {
        typed
    };
    let credential: GitCredential = match form.mode {
        CredentialFormMode::Https => {
            if form.secret.as_str().is_empty() {
                return Err("需要填写密码或 PAT".to_string());
            }
            GitCredential::UserPass {
                username,
                secret: form.secret.clone(),
                save_to_keyring: true,
                scope: form.scope,
            }
        },
        CredentialFormMode::Ssh => {
            let key_path: String = trim(form.key_path.as_str());
            if !form.use_ssh_agent && key_path.as_str().is_empty() {
                return Err("需要填写 SSH 私钥路径或选择使用 SSH agent".to_string());
            }
            GitCredential::SshPassphrase {
                username,
                private_key_path: if form.use_ssh_agent {
                    None
                } else {
                    Some(key_path)
                },
                passphrase: keep_unless_empty(&form.passphrase),
                save_to_keyring: true,
                scope: form.scope,
            }
        },
    };
    let name: String = credential.username().to_string();
    let request = CredentialRequest {
        url,
        username_from_url: Some(name),
        allowed_types: AllowedTypes {
            user_pass_plaintext: form.mode == CredentialFormMode::Https,
            ssh_key: form.mode == CredentialFormMode::Ssh,
            default: false,
        },
        repo_key: None,
        remote_name: None,
    };
    Ok(CredentialToSave { request, credential })
}

// ---------------------------------------------------------------------------
// Saving a remote
// ---------------------------------------------------------------------------
/// Whether `name` cannot be the name of a remote.
pub open spec fn bad_remote_name(name: Seq<char>) -> bool {
    ||| exists|i: int| 0 <= i < name.len() && is_whitespace(#[trigger] name[i])
    ||| name.contains('\\')
    ||| name.len() > 0 && name[0] == '-'
}

pub fn is_bad_remote_name(name: &str) -> (r: bool)
    ensures
        r == bad_remote_name(name@),
{
    let chars: Vec<char> = to_chars(name);
    if chars.len() > 0 && chars[0] == '-' {
        return true;
    }
    let mut i: usize = 0;
    while i < chars.len()
        invariant
            i <= chars@.len(),
            chars@ == name@,
            chars@.len() > 0 ==> chars@[0] != '-',
            forall|j: int| 0 <= j < i ==> !is_whitespace(#[trigger] chars@[j]) && chars@[j] != '\\',
        decreases chars@.len() - i,
    {
        if char_is_whitespace(chars[i]) || chars[i] == '\\' {
            assert(name@[i as int] == chars@[i as int]);
            return true;
        }
        i = i + 1;
    }
    false
}

pub open spec fn remote_exists(remotes: Seq<RemoteInfo>, name: Seq<char>) -> bool {
    exists|i: int| 0 <= i < remotes.len() && (#[trigger] remotes[i]).name@ == name
}

pub fn has_remote(remotes: &Vec<RemoteInfo>, name: &str) -> (r: bool)
    ensures
        r == remote_exists(remotes@, name@),
{
    let mut i: usize = 0;
    while i < remotes.len()
        invariant
            i <= remotes@.len(),
            forall|j: int| 0 <= j < i ==> (#[trigger] remotes@[j]).name@ != name@,
        decreases remotes@.len() - i,
    {
        if str_eq(remotes[i].name.as_str(), name) {
            return true;
        }
        i = i + 1;
    }
    false
}

/// The first record from `k` on with the id, or the number of records.
pub open spec fn record_at(records: Seq<CredentialRecord>, id: Seq<char>, k: int) -> int
    decreases records.len() - k,
{
    if k < 0 || k >= records.len() {
        records.len() as int
    } else if records[k].id@ == id {
        k
    } else {
        record_at(records, id, k + 1)
    }
}

pub fn find_record(records: &Vec<CredentialRecord>, id: &str) -> (r: usize)
    ensures
        r == record_at(records@, id@, 0),
        r <= records@.len(),
        r < records@.len() ==> records@[r as int].id@ == id@,
{
    let mut i: usize = 0;
    while i < records.len()
        invariant
            i <= records@.len(),
            record_at(records@, id@, 0) == record_at(records@, id@, i as int),
        decreases records@.len() - i,
    {
        if str_eq(records[i].id.as_str(), id) {
            return i;
        }
        i = i + 1;
    }
    i
}

/// How a stored credential is tied to the remote that it was picked for.
#[derive(Debug, PartialEq, Eq)]
pub enum RecordAction {
    /// Give the record the new address.
    UpdateRemoteUrl { record_id: String, url: String },
    /// Note that the record was used.
    Touch { record_id: String },
}

/// What becomes of the repository when a remote is saved.
#[derive(Debug, PartialEq, Eq)]
pub enum RemoteOperation {
    Update { old_name: String, new_name: String, url: String },
    Add { name: String, url: String },
}

/// What saving a remote comes down to.
#[derive(Debug, PartialEq, Eq)]
pub struct SaveRemotePlan {
    pub name: String,
    pub url: String,
    pub record: Option<RecordAction>,
    pub operation: RemoteOperation,
    /// The remote that is selected afterwards.
    pub selected_remote: Option<String>,
    /// What is reported once it is done.
    pub done: &'static str,
}

/// Whether a credential of a scope fits the address of a remote: one for a single remote can be
/// given another address of its kind, one for a host has to be for the address already.
pub open spec fn fits_remote(scope: CredentialScope, compatible: bool, matches: bool) -> bool {
    match scope {
        CredentialScope::RemoteUrl => compatible,
        CredentialScope::Host => matches,
    }
}

/// Whether a stored credential fits the address of a remote, given whether it could be used for
/// the address and whether it is for it.
pub fn record_fits(scope: CredentialScope, compatible: bool, matches: bool) -> (r: bool)
    ensures
        r == fits_remote(scope, compatible, matches),
{
    match scope {
        CredentialScope::RemoteUrl => compatible,
        CredentialScope::Host => matches,
    }
}

/// Why a remote cannot be saved. `compatible` says whether the picked credential could be used
/// for the address, `matches` whether it is for it.
pub open spec fn remote_form_fault(
    name_text: Seq<char>,
    url_text: Seq<char>,
    editing: Option<Seq<char>>,
    remotes: Seq<RemoteInfo>,
    policy: RemoteCredentialPolicy,
    records: Seq<CredentialRecord>,
    compatible: bool,
    matches: bool,
) -> Option<Seq<char>> {
    let name = trimmed(name_text);
    let url = trimmed(url_text);
    if name.len() == 0 {
        Some("需要填写远端名称"@)
    } else if url.len() == 0 {
        Some("需要填写远端地址"@)
    } else if bad_remote_name(name) {
        Some("远端名称无效："@ + name)
    } else if editing != Some(name) && remote_exists(remotes, name) {
        Some("远端名称已存在："@ + name)
    } else {
        match policy {
            RemoteCredentialPolicy::Record(id) => if record_at(records, id@, 0) >= records.len() {
                Some("所选凭据记录不存在"@)
            } else if !fits_remote(
                records[record_at(records, id@, 0)].scope,
                compatible,
                matches,
            ) {
                Some("所选凭据与远端地址协议或站点不匹配"@)
            } else {
                None
            },
            _ => None,
        }
    }
}

/// What is done with the picked credential.
pub open spec fn is_record_action(
    action: Option<RecordAction>,
    policy: RemoteCredentialPolicy,
    records: Seq<CredentialRecord>,
    url: Seq<char>,
) -> bool {
    match policy {
        RemoteCredentialPolicy::Record(id) => {
            match records[record_at(records, id@, 0)].scope {
                CredentialScope::RemoteUrl => action matches Some(
                    RecordAction::UpdateRemoteUrl { record_id, url: u },
                ) && record_id@ == id@ && u@ == url,
                CredentialScope::Host => action matches Some(RecordAction::Touch { record_id })
                    && record_id@ == id@,
            }
        },
        _ => action is None,
    }
}

/// The remote that is selected after a remote is saved: a new one is, and one that was
/// selected stays so under its new name.
pub open spec fn selected_after_save(
    editing: Option<Seq<char>>,
    selected: Option<Seq<char>>,
    name: Seq<char>,
) -> Option<Seq<char>> {
    match editing {
        Some(old_name) => if selected == Some(old_name) {
            Some(name)
        } else {
            selected
        },
        None => Some(name),
    }
}

pub fn save_remote(
    name_text: &str,
    url_text: &str,
    editing: Option<String>,
    remotes: &Vec<RemoteInfo>,
    policy: &RemoteCredentialPolicy,
    records: &Vec<CredentialRecord>,
    compatible: bool,
    matches: bool,
    selected_remote: &Option<String>,
) -> (r: Result<SaveRemotePlan, String>)
    ensures
        match remote_form_fault(
            name_text@,
            url_text@,
            opt_view(editing),
            remotes@,
            *policy,
            records@,
            compatible,
            matches,
        ) {
            Some(fault) => r matches Err(message) && message@ == fault,
            None => {
                let name = trimmed(name_text@);
                let url = trimmed(url_text@);
                &&& r matches Ok(plan)
                &&& plan.name@ == name
                &&& plan.url@ == url
                &&& is_record_action(plan.record, *policy, records@, url)
                &&& opt_view(plan.selected_remote) == selected_after_save(
                    opt_view(editing),
                    opt_view(*selected_remote),
                    name,
                )
                &&& match editing {
                    Some(old) => {
                        &&& plan.operation matches RemoteOperation::Update {
                            old_name,
                            new_name,
                            url: u,
                        }
                        &&& old_name@ == old@ && new_name@ == name && u@ == url
                        &&& plan.done@ == "远端已更新"@
                    },
                    None => {
                        &&& plan.operation matches RemoteOperation::Add { name: n, url: u }
                        &&& n@ == name && u@ == url
                        &&& plan.done@ == "远端已新增"@
                    },
                }
            },
        },
{
    let name: String = trim(name_text);
    let url: String = trim(url_text);
    if name.as_str().is_empty() {
        return Err("需要填写远端名称".to_string());
    }
    if url.as_str().is_empty() {
        return Err("需要填写远端地址".to_string());
    }
    if is_bad_remote_name(name.as_str()) {
        return Err(cat2("远端名称无效：", name.as_str()));
    }
    if !opt_str_eq(&editing, name.as_str()) && has_remote(remotes, name.as_str()) {
        return Err(cat2("远端名称已存在：", name.as_str()));
    }
    let record: Option<RecordAction> = match policy {
        RemoteCredentialPolicy::Record(id) => {
            let at: usize = find_record(records, id.as_str());
            if at >= records.len() {
                return Err("所选凭据记录不存在".to_string());
            }
            if !record_fits(records[at].scope, compatible, matches) {
                return Err("所选凭据与远端地址协议或站点不匹配".to_string());
            }
            match records[at].scope {
                CredentialScope::RemoteUrl => Some(
                    RecordAction::UpdateRemoteUrl { record_id: id.clone(), url: url.clone() },
                ),
                CredentialScope::Host => Some(RecordAction::Touch { record_id: id.clone() }),
            }
        },
        _ => None,
    };
    match editing {
        Some(old_name) => {
            let selected: Option<String> = if opt_str_eq(selected_remote, old_name.as_str()) {
                Some(name.clone())
            } else {
                clone_opt(selected_remote)
            };
            let operation = RemoteOperation::Update {
                old_name,
                new_name: name.clone(),
                url: url.clone(),
            };
            Ok(
                SaveRemotePlan {
                    name,
                    url,
                    record,
                    operation,
                    selected_remote: selected,
                    done: "远端已更新",
                },
            )
        },
        None => {
            let operation = RemoteOperation::Add { name: name.clone(), url: url.clone() };
            let selected: Option<String> = Some(name.clone());
            Ok(
                SaveRemotePlan {
                    name,
                    url,
                    record,
                    operation,
                    selected_remote: selected,
                    done: "远端已新增",
                },
            )
        },
    }
}

/// What a remote that is saved in an open repository asks for when it is bound to a credential.
pub fn remote_binding_request(repo_key: &Option<String>, plan: &SaveRemotePlan) -> (r: Option<
    CredentialRequest,
>)
    ensures
        match opt_view(*repo_key) {
            None => r is None,
            Some(key) => {
                &&& r matches Some(request)
                &&& request.url@ == plan.url@
                &&& request.username_from_url is None
                &&& request.allowed_types.user_pass_plaintext
                &&& request.allowed_types.ssh_key
                &&& !request.allowed_types.default
                &&& opt_view(request.repo_key) == Some(key)
                &&& opt_view(request.remote_name) == Some(plan.name@)
            },
        },
{
    match repo_key {
        None => None,
        Some(key) => Some(
            CredentialRequest {
                url: plan.url.clone(),
                username_from_url: None,
                allowed_types: AllowedTypes {
                    user_pass_plaintext: true,
                    ssh_key: true,
                    default: false,
                },
                repo_key: Some(key.clone()),
                remote_name: Some(plan.name.clone()),
            },
        ),
    }
}

/// Binds a remote that is saved to the picked credential, if a repository is open. Says whether
/// the bindings have to be kept anew.
pub fn bind_saved_remote(
    bindings: &mut RemoteCredentialBindings,
    repo_key: &Option<String>,
    plan: &SaveRemotePlan,
    policy: RemoteCredentialPolicy,
) -> (r: bool)
    ensures
        r == repo_key is Some,
        match opt_view(*repo_key) {
            None => *final(bindings) == *old(bindings),
            Some(key) => final(bindings)@ == with_policy(
                old(bindings)@,
                key,
                plan.name@,
                plan.url@,
                policy@,
            ),
        },
{
    match remote_binding_request(repo_key, plan) {
        None => false,
        Some(request) => {
            set_remote_binding_for_request(bindings, &request, policy);
            true
        },
    }
}

/// The remote that is selected after `name` is deleted.
pub fn delete_remote(name: &str, selected_remote: &Option<String>) -> (r: Option<String>)
    ensures
        r == if opt_view(*selected_remote) == Some(name@) {
            None
        } else {
            *selected_remote
        },
{
    if opt_str_eq(selected_remote, name) {
        None
    } else {
        clone_opt(selected_remote)
    }
}

// ---------------------------------------------------------------------------
// The credential that fits a remote best
// ---------------------------------------------------------------------------
pub open spec fn scope_rank(scope: CredentialScope) -> int {
    match scope {
        CredentialScope::RemoteUrl => 1,
        CredentialScope::Host => 0,
    }
}

pub open spec fn last_used_of(record: CredentialRecord) -> int {
    match record.last_used {
        Some(t) => t as int,
        None => 0,
    }
}

/// Whether `a` fits better than `b`: it is for one address only, or was used later, or was
/// changed later.
pub open spec fn fits_better(a: CredentialRecord, b: CredentialRecord) -> bool {
    ||| scope_rank(a.scope) > scope_rank(b.scope)
    ||| scope_rank(a.scope) == scope_rank(b.scope) && last_used_of(a) > last_used_of(b)
    ||| scope_rank(a.scope) == scope_rank(b.scope) && last_used_of(a) == last_used_of(b)
        && a.updated_at > b.updated_at
}

fn better(a: &CredentialRecord, b: &CredentialRecord) -> (r: bool)
    ensures
        r == fits_better(*a, *b),
{
    let x: i64 = match a.last_used {
        Some(t) => t,
        None => 0,
    };
    let y: i64 = match b.last_used {
        Some(t) => t,
        None => 0,
    };
    match (a.scope, b.scope) {
        (CredentialScope::RemoteUrl, CredentialScope::Host) => true,
        (CredentialScope::Host, CredentialScope::RemoteUrl) => false,
        _ => x > y || (x == y && a.updated_at > b.updated_at),
    }
}

/// Of the records that match, the one that fits best; of equally good ones the last.
pub fn matching_credential_for_remote_url(
    records: &Vec<CredentialRecord>,
    matches: &Vec<bool>,
) -> (r: Option<usize>)
    requires
        records@.len() == matches@.len(),
    ensures
        match r {
            Some(best) => {
                &&& best < records@.len()
                &&& matches@[best as int]
                &&& forall|i: int|
                    0 <= i < records@.len() && matches@[i] ==> {
                        &&& !fits_better(#[trigger] records@[i], records@[best as int])
                        &&& i > best ==> fits_better(records@[best as int], records@[i])
                    }
            },
            None => forall|i: int| 0 <= i < records@.len() ==> !#[trigger] matches@[i],
        },
{
    let mut best: Option<usize> = None;
    let mut n: usize = 0;
    while n < records.len()
        invariant
            n <= records@.len(),
            records@.len() == matches@.len(),
            match best {
                Some(b) => {
                    &&& b < n
                    &&& matches@[b as int]
                    &&& forall|i: int|
                        0 <= i < n && matches@[i] ==> {
                            &&& !fits_better(#[trigger] records@[i], records@[b as int])
                            &&& i > b ==> fits_better(records@[b as int], records@[i])
                        }
                },
                None => forall|i: int| 0 <= i < n ==> !#[trigger] matches@[i],
            },
        decreases records@.len() - n,
    {
        if matches[n] {
            match best {
                Some(b) => {
                    if !better(&records[b], &records[n]) {
                        best = Some(n);
                    }
                },
                None => {
                    best = Some(n);
                },
            }
        }
        n = n + 1;
    }
    best
}

// ---------------------------------------------------------------------------
// Laws
// ---------------------------------------------------------------------------
/// A form asks for a key if the address says so by how it starts, and for a password if it is one of
/// the web; otherwise a key is asked for if one will do. The size of letters does not matter.
pub proof fn lemma_form_mode(url: Seq<char>, allowed: AllowedTypes)
    ensures
        "ssh://"@.is_prefix_of(ascii_lowered(url)) || "git@"@.is_prefix_of(ascii_lowered(url))
            ==> form_mode(url, allowed) == CredentialFormMode::Ssh,
        "http://"@.is_prefix_of(ascii_lowered(url)) || "https://"@.is_prefix_of(ascii_lowered(url))
            ==> form_mode(url, allowed) == CredentialFormMode::Https,
        !"ssh://"@.is_prefix_of(ascii_lowered(url)) && !"git@"@.is_prefix_of(ascii_lowered(url))
            && !"http://"@.is_prefix_of(ascii_lowered(url)) && !"https://"@.is_prefix_of(
            ascii_lowered(url),
        ) ==> (form_mode(url, allowed) == CredentialFormMode::Ssh <==> allowed.ssh_key),
{
    reveal_strlit("ssh://");
    reveal_strlit("git@");
    reveal_strlit("http://");
    reveal_strlit("https://");
    let lower = ascii_lowered(url);
    if "http://"@.is_prefix_of(lower) {
        assert(lower[0] == "http://"@[0]);
    }
    if "https://"@.is_prefix_of(lower) {
        assert(lower[0] == "https://"@[0]);
    }
    if "ssh://"@.is_prefix_of(lower) {
        assert(lower[0] == "ssh://"@[0]);
    }
    if "git@"@.is_prefix_of(lower) {
        assert(lower[0] == "git@"@[0]);
    }
}

/// What one sees of a form is all of it.
pub proof fn lemma_form_is_what_is_seen(form: CredentialForm, view: FormView)
    requires
        form@ == view,
    ensures
        form.mode == view.mode,
        form.scope == view.scope,
        form.use_ssh_agent == view.use_ssh_agent,
        form.save == view.save,
        form.remote_url@ == view.remote_url,
        form.username@ == view.username,
        form.secret@ == view.secret,
        form.key_path@ == view.key_path,
        form.passphrase@ == view.passphrase,
{
}

/// A form is opened empty, for a password and one address; only whether to keep what is entered may
/// stay. A form for a request starts with what the request says and offers to keep it.
pub proof fn lemma_forms_start_empty(form: CredentialForm, save: bool, request: CredentialRequest)
    ensures
        form@ == empty_form(save) ==> {
            &&& form.mode == CredentialFormMode::Https
            &&& form.scope == CredentialScope::RemoteUrl
            &&& !form.use_ssh_agent
            &&& form.save == save
            &&& form.remote_url@.len() == 0
            &&& form.username@.len() == 0
            &&& form.secret@.len() == 0
            &&& form.key_path@.len() == 0
            &&& form.passphrase@.len() == 0
        },
        form@ == prompt_form(request) ==> {
            &&& form.mode == form_mode(request.url@, request.allowed_types)
            &&& form.scope == CredentialScope::RemoteUrl
            &&& !form.use_ssh_agent
            &&& form.save
            &&& form.remote_url@ == request.url@
            &&& form.username@ == match request.username_from_url {
                Some(name) => name@,
                None => "git"@,
            }
            &&& form.secret@.len() == 0
            &&& form.key_path@.len() == 0
            &&& form.passphrase@.len() == 0
        },
{
}

/// The user of a credential is the one that was entered, without the blanks round it; if none was,
/// the one in the address; and `git` if there is none.
pub proof fn lemma_user_names(typed: Seq<char>, from_url: Option<Seq<char>>)
    ensures
        trimmed(typed).len() > 0 ==> prompt_username(typed, from_url) == trimmed(typed),
        trimmed(typed).len() == 0 && from_url is Some ==> prompt_username(typed, from_url)
            == from_url->0,
        trimmed(typed).len() == 0 && from_url is None ==> prompt_username(typed, from_url)
            == "git"@,
{
}

/// What is entered in a form is what the credential holds: the secret as it is, the key and the
/// passphrase if there are any, and no key if the agent has it.
pub proof fn lemma_entered_credential(
    form: CredentialForm,
    from_url: Option<Seq<char>>,
    credential: GitCredential,
)
    requires
        credential@ == prompt_credential(form, from_url),
    ensures
        match form.mode {
            CredentialFormMode::Https => {
                &&& credential matches GitCredential::UserPass {
                    username,
                    secret,
                    save_to_keyring,
                    scope,
                }
                &&& username@ == prompt_username(form.username@, from_url)
                &&& secret@ == form.secret@
                &&& save_to_keyring == form.save
                &&& scope == form.scope
            },
            CredentialFormMode::Ssh => {
                &&& credential matches GitCredential::SshPassphrase {
                    username,
                    private_key_path,
                    passphrase,
                    save_to_keyring,
                    scope,
                }
                &&& username@ == prompt_username(form.username@, from_url)
                &&& private_key_path is Some <==> !form.use_ssh_agent && trimmed(
                    form.key_path@,
                ).len() > 0
                &&& private_key_path matches Some(path) ==> path@ == trimmed(form.key_path@)
                &&& passphrase is Some <==> form.passphrase@.len() > 0
                &&& passphrase matches Some(p) ==> p@ == form.passphrase@
                &&& save_to_keyring == form.save
                &&& scope == form.scope
            },
        },
{
}

/// A form is accepted if and only if it names an address that its kind of credential is for, and
/// holds a secret, or a key or the agent.
pub proof fn lemma_accepted_forms(form: CredentialForm)
    ensures
        credential_form_fault(form) is None <==> {
            &&& trimmed(form.remote_url@).len() > 0
            &&& form.mode == form_mode(
                trimmed(form.remote_url@),
                (AllowedTypes { user_pass_plaintext: true, ssh_key: true, default: false }),
            )
            &&& match form.mode {
                CredentialFormMode::Https => form.secret@.len() > 0,
                CredentialFormMode::Ssh => form.use_ssh_agent || trimmed(form.key_path@).len() > 0,
            }
        },
{
}

/// A form that is accepted is kept as it was entered, and always in the store.
pub proof fn lemma_kept_credential(form: CredentialForm, credential: GitCredential)
    requires
        credential@ == form_credential(form),
        credential_form_fault(form) is None,
    ensures
        credential.wants_saving(),
        match form.mode {
            CredentialFormMode::Https => {
                &&& credential matches GitCredential::UserPass { username, secret, scope, .. }
                &&& username@ == prompt_username(form.username@, None)
                &&& secret@ == form.secret@
                &&& scope == form.scope
            },
            CredentialFormMode::Ssh => {
                &&& credential matches GitCredential::SshPassphrase {
                    username,
                    private_key_path,
                    passphrase,
                    scope,
                    ..
                }
                &&& username@ == prompt_username(form.username@, None)
                &&& private_key_path is None <==> form.use_ssh_agent
                &&& private_key_path matches Some(path) ==> path@ == trimmed(form.key_path@)
                &&& passphrase is Some <==> form.passphrase@.len() > 0
                &&& passphrase matches Some(p) ==> p@ == form.passphrase@
                &&& scope == form.scope
            },
        },
{
}

/// A name is good for a remote if it holds no blank and no backslash and does not start with a dash.
pub proof fn lemma_remote_names(name: Seq<char>)
    ensures
        !bad_remote_name(name) <==> {
            &&& forall|i: int|
                0 <= i < name.len() ==> !is_whitespace(#[trigger] name[i]) && name[i] != '\\'
            &&& name.len() > 0 ==> name[0] != '-'
        },
{
    if !bad_remote_name(name) {
        assert forall|i: int| 0 <= i < name.len() implies !is_whitespace(#[trigger] name[i])
            && name[i] != '\\' by {
            assert(name.contains(name[i]));
        }
    }
}

/// The place of a record is that of the first with its number, or behind them all.
pub proof fn lemma_record_at(records: Seq<CredentialRecord>, id: Seq<char>, k: int)
    requires
        0 <= k <= records.len(),
    ensures
        k <= record_at(records, id, k) <= records.len(),
        record_at(records, id, k) < records.len() ==> records[record_at(records, id, k)].id@ == id,
        forall|i: int| k <= i < record_at(records, id, k) ==> (#[trigger] records[i]).id@ != id,
    decreases records.len() - k,
{
    if k < records.len() && records[k].id@ != id {
        lemma_record_at(records, id, k + 1);
    }
}

/// A remote can be kept if and only if it has a name and an address, the name is good and no other
/// remote has it, and the credential it is bound to is there and fits the address.
pub proof fn lemma_accepted_remotes(
    name_text: Seq<char>,
    url_text: Seq<char>,
    editing: Option<Seq<char>>,
    remotes: Seq<RemoteInfo>,
    policy: RemoteCredentialPolicy,
    records: Seq<CredentialRecord>,
    compatible: bool,
    matches: bool,
)
    ensures
        remote_form_fault(
            name_text,
            url_text,
            editing,
            remotes,
            policy,
            records,
            compatible,
            matches,
        ) is None <==> {
            let name = trimmed(name_text);
            &&& name.len() > 0
            &&& trimmed(url_text).len() > 0
            &&& !bad_remote_name(name)
            &&& editing == Some(name) || forall|i: int|
                0 <= i < remotes.len() ==> (#[trigger] remotes[i]).name@ != name
            &&& policy matches RemoteCredentialPolicy::Record(id) ==> exists|i: int|
                0 <= i < records.len() && (#[trigger] records[i]).id@ == id@ && (forall|j: int|
                    0 <= j < i ==> (#[trigger] records[j]).id@ != id@) && match records[i].scope {
                    CredentialScope::RemoteUrl => compatible,
                    CredentialScope::Host => matches,
                }
        },
{
    if let RemoteCredentialPolicy::Record(id) = policy {
        lemma_record_at(records, id@, 0);
        let at = record_at(records, id@, 0);
        if exists|i: int| 0 <= i < records.len() && (#[trigger] records[i]).id@ == id@ {
            let i = choose|i: int| 0 <= i < records.len() && (#[trigger] records[i]).id@ == id@;
            assert(at <= i);
        }
    }
}

/// A credential for one address is moved to the new address, and one for a site is only used; a
/// remote without a credential of its own changes none.
pub proof fn lemma_records_of_saved_remotes(
    action: Option<RecordAction>,
    policy: RemoteCredentialPolicy,
    records: Seq<CredentialRecord>,
    url: Seq<char>,
    at: int,
)
    requires
        is_record_action(action, policy, records, url),
        policy matches RemoteCredentialPolicy::Record(id) ==> 0 <= at < records.len()
            && records[at].id@ == id@ && (forall|j: int|
            0 <= j < at ==> (#[trigger] records[j]).id@ != id@),
    ensures
        match policy {
            RemoteCredentialPolicy::Record(id) => match records[at].scope {
                CredentialScope::RemoteUrl => action matches Some(
                    RecordAction::UpdateRemoteUrl { record_id, url: u },
                ) && record_id@ == id@ && u@ == url,
                CredentialScope::Host => action matches Some(RecordAction::Touch { record_id })
                    && record_id@ == id@,
            },
            _ => action is None,
        },
{
    if let RemoteCredentialPolicy::Record(id) = policy {
        lemma_record_at(records, id@, 0);
    }
}

/// A new remote is selected, and a selected one stays so under its new name; any other stays.
pub proof fn lemma_selection_after_save(
    old_name: Seq<char>,
    selected: Option<Seq<char>>,
    name: Seq<char>,
)
    ensures
        selected_after_save(None, selected, name) == Some(name),
        selected == Some(old_name) ==> selected_after_save(Some(old_name), selected, name) == Some(
            name,
        ),
        selected != Some(old_name) ==> selected_after_save(Some(old_name), selected, name)
            == selected,
{
}

/// A credential for the address itself fits better than one for its site; of two for the same the
/// one used later does, and of two used at the same time the one changed later. One that was never
/// used counts as used at the start of time.
pub proof fn lemma_best_fit(a: CredentialRecord, b: CredentialRecord)
    ensures
        a.scope == CredentialScope::RemoteUrl && b.scope == CredentialScope::Host ==> fits_better(
            a,
            b,
        ) && !fits_better(b, a),
        a.scope == b.scope && (match (a.last_used, b.last_used) {
            (Some(x), Some(y)) => x > y,
            (Some(x), None) => x > 0,
            (None, Some(y)) => 0 > y,
            (None, None) => false,
        }) ==> fits_better(a, b) && !fits_better(b, a),
        a.scope == b.scope && a.last_used == b.last_used ==> (fits_better(a, b) <==> a.updated_at
            > b.updated_at),
        !(fits_better(a, b) && fits_better(b, a)),
{
}

} // verus!
