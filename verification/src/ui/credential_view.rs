//! The dialogs about remotes and credentials.

use vstd::prelude::*;

use crate::clock::{formatted_time, timestamp_label};
use crate::credential_forms::{find_record, record_at};
use crate::credentials::{CredentialFormMode, CredentialRecord, CredentialScope, RemoteCredentialPolicy};
use crate::session::keys::FieldId;
use crate::strings::{cat2, cat4, clone_opt, contains_text, is_blank, str_eq, trimmed};
use crate::types::RemoteInfo;
use crate::ui::actions::{Button, UiAction, button, plain};

verus! {

/// What is said of a stored credential.
#[derive(Debug, PartialEq, Eq)]
pub struct RecordTexts {
    pub label: String,
    /// The host or the address that it is for.
    pub target: String,
    pub key_file: String,
    pub kind: String,
    pub scope: String,
}

// ---------------------------------------------------------------------------
// Remotes
// ---------------------------------------------------------------------------
/// What the list of remotes says of the credential of one. `best` is the record that fits its
/// address best.
pub open spec fn credential_of_remote(
    policy: RemoteCredentialPolicy,
    records: Seq<CredentialRecord>,
    texts: Seq<RecordTexts>,
    best: Option<usize>,
) -> Seq<char> {
    match policy {
        RemoteCredentialPolicy::NoCredential => "无凭据"@,
        RemoteCredentialPolicy::Record(id) => {
            let at = record_at(records, id@, 0);
            if at < records.len() {
                texts[at].label@
            } else {
                "凭据不存在"@
            }
        },
        RemoteCredentialPolicy::AutoMatch => match best {
            Some(at) => "自动："@ + texts[at as int].label@,
            None => "自动匹配"@,
        },
    }
}

/// A remote in the list of remotes.
#[derive(Debug, PartialEq, Eq)]
pub struct RemoteManagerRow {
    pub credential: String,
    pub buttons: Vec<Button>,
}

pub fn remote_manager_row(
    remote: &RemoteInfo,
    policy: &RemoteCredentialPolicy,
    records: &Vec<CredentialRecord>,
    texts: &Vec<RecordTexts>,
    best: Option<usize>,
    busy: bool,
) -> (r: RemoteManagerRow)
    requires
        texts@.len() == records@.len(),
        best is Some ==> best->0 < texts@.len(),
    ensures
        r.credential@ == credential_of_remote(*policy, records@, texts@, best),
        r.buttons@ == seq![
            plain("编辑", !busy, UiAction::OpenRemoteForm(Some(remote.name))),
            plain("删除", !busy, UiAction::OpenDeleteRemote(remote.name)),
        ],
{
    let credential: String = match policy {
        RemoteCredentialPolicy::NoCredential => "无凭据".to_string(),
        RemoteCredentialPolicy::Record(id) => {
            let at: usize = find_record(records, id.as_str());
            if at < records.len() {
                texts[at].label.clone()
            } else {
                "凭据不存在".to_string()
            }
        },
        RemoteCredentialPolicy::AutoMatch => match best {
            Some(at) => cat2("自动：", texts[at].label.as_str()),
            None => "自动匹配".to_string(),
        },
    };
    let mut buttons: Vec<Button> = Vec::new();
    buttons.push(button("编辑", !busy, UiAction::OpenRemoteForm(Some(remote.name.clone()))));
    buttons.push(button("删除", !busy, UiAction::OpenDeleteRemote(remote.name.clone())));
    assert(buttons@ =~= seq![
        plain("编辑", !busy, UiAction::OpenRemoteForm(Some(remote.name))),
        plain("删除", !busy, UiAction::OpenDeleteRemote(remote.name)),
    ]);
    RemoteManagerRow { credential, buttons }
}

/// The list of remotes.
#[derive(Debug, PartialEq, Eq)]
pub struct ManagerDialog {
    pub title: &'static str,
    pub help: &'static str,
    pub columns: Vec<&'static str>,
    /// What stands in place of rows.
    pub placeholder: Option<&'static str>,
    pub buttons: Vec<Button>,
}

pub open spec fn remote_manager_buttons(repo_open: bool, busy: bool) -> Seq<Button> {
    seq![
        plain("新增远端", repo_open && !busy, UiAction::OpenRemoteForm(None)),
        plain("关闭", !busy, UiAction::CloseDialog),
    ]
}

pub fn remote_manager_dialog(remotes: usize, repo_open: bool, busy: bool) -> (r: ManagerDialog)
    ensures
        r.title == "远端管理",
        r.help == "远端地址会同时作为 fetch 和 push URL；凭据只从已保存凭据中选择。",
        r.columns@ == seq!["名称", "地址", "凭据", "操作"],
        r.placeholder == if remotes == 0 {
            Some("暂无远端。可以点击“新增远端”添加。")
        } else {
            None
        },
        r.buttons@ == remote_manager_buttons(repo_open, busy),
{
    let mut columns: Vec<&'static str> = Vec::new();
    columns.push("名称");
    columns.push("地址");
    columns.push("凭据");
    columns.push("操作");
    assert(columns@ =~= seq!["名称", "地址", "凭据", "操作"]);
    let mut buttons: Vec<Button> = Vec::new();
    buttons.push(button("新增远端", repo_open && !busy, UiAction::OpenRemoteForm(None)));
    buttons.push(button("关闭", !busy, UiAction::CloseDialog));
    assert(buttons@ =~= remote_manager_buttons(repo_open, busy));
    ManagerDialog {
        title: "远端管理",
        help: "远端地址会同时作为 fetch 和 push URL；凭据只从已保存凭据中选择。",
        columns,
        placeholder: if remotes == 0 {
            Some("暂无远端。可以点击“新增远端”添加。")
        } else {
            None
        },
        buttons,
    }
}

/// The form for a remote.
#[derive(Debug, PartialEq, Eq)]
pub struct FormDialog {
    pub title: &'static str,
    pub fields: Vec<FieldId>,
    pub buttons: Vec<Button>,
}

pub open spec fn form_buttons(leave: UiAction, save: UiAction, busy: bool) -> Seq<Button> {
    seq![plain("取消", !busy, leave), plain("保存", !busy, save)]
}

pub fn remote_form_dialog(editing: &Option<String>, busy: bool) -> (r: FormDialog)
    ensures
        r.title == if editing is Some {
            "编辑远端"
        } else {
            "新增远端"
        },
        r.fields@ == seq![FieldId::RemoteName, FieldId::RemoteUrl],
        r.buttons@ == form_buttons(
            UiAction::ShowRemoteManager,
            UiAction::SaveRemote(*editing),
            busy,
        ),
{
    let mut fields: Vec<FieldId> = Vec::new();
    fields.push(FieldId::RemoteName);
    fields.push(FieldId::RemoteUrl);
    assert(fields@ =~= seq![FieldId::RemoteName, FieldId::RemoteUrl]);
    let mut buttons: Vec<Button> = Vec::new();
    buttons.push(button("取消", !busy, UiAction::ShowRemoteManager));
    buttons.push(button("保存", !busy, UiAction::SaveRemote(clone_opt(editing))));
    assert(buttons@ =~= form_buttons(
        UiAction::ShowRemoteManager,
        UiAction::SaveRemote(*editing),
        busy,
    ));
    FormDialog {
        title: if editing.is_some() {
            "编辑远端"
        } else {
            "新增远端"
        },
        fields,
        buttons,
    }
}

/// A credential that a remote can be given.
#[derive(Debug, PartialEq, Eq)]
pub struct CredentialOption {
    pub policy: RemoteCredentialPolicy,
    pub label: String,
    pub enabled: bool,
}

/// What stands for a stored credential among those to choose from.
pub open spec fn option_label(record: CredentialRecord, texts: RecordTexts, compatible: bool) -> Seq<
    char,
> {
    (if record.scope == CredentialScope::Host {
        texts.label@ + " ("@ + texts.target@ + ")"@
    } else {
        texts.label@
    }) + (if compatible {
        Seq::empty()
    } else {
        "（不匹配）"@
    })
}

/// The credentials that a remote can be given: what fits, nothing, and each of the stored ones.
/// Those that do not fit the address cannot be chosen; while there is no address, all can.
pub fn remote_credential_picker(
    url_text: &str,
    records: &Vec<CredentialRecord>,
    texts: &Vec<RecordTexts>,
    compatible: &Vec<bool>,
) -> (r: Vec<CredentialOption>)
    requires
        texts@.len() == records@.len(),
        compatible@.len() == records@.len(),
    ensures
        r@.len() == records@.len() + 2,
        r@[0].policy == RemoteCredentialPolicy::AutoMatch && r@[0].label@ == "自动匹配保存凭据"@
            && r@[0].enabled,
        r@[1].policy == RemoteCredentialPolicy::NoCredential && r@[1].label@ == "无凭据"@
            && r@[1].enabled,
        forall|i: int|
            0 <= i < records@.len() ==> {
                let fits = trimmed(url_text@).len() == 0 || compatible@[i];
                &&& (#[trigger] r@[i + 2]).policy == RemoteCredentialPolicy::Record(records@[i].id)
                &&& r@[i + 2].label@ == option_label(records@[i], texts@[i], fits)
                &&& r@[i + 2].enabled == fits
            },
{
    let mut r: Vec<CredentialOption> = Vec::new();
    let any: bool = is_blank(url_text);
    r.push(
        CredentialOption {
            policy: RemoteCredentialPolicy::AutoMatch,
            label: "自动匹配保存凭据".to_string(),
            enabled: true,
        },
    );
    r.push(
        CredentialOption {
            policy: RemoteCredentialPolicy::NoCredential,
            label: "无凭据".to_string(),
            enabled: true,
        },
    );
    let mut n: usize = 0;
    while n < records.len()
        invariant
            n <= records@.len(),
            texts@.len() == records@.len(),
            compatible@.len() == records@.len(),
            any == (trimmed(url_text@).len() == 0),
            r@.len() == n + 2,
            r@[0].policy == RemoteCredentialPolicy::AutoMatch && r@[0].label@
                == "自动匹配保存凭据"@ && r@[0].enabled,
            r@[1].policy == RemoteCredentialPolicy::NoCredential && r@[1].label@ == "无凭据"@
                && r@[1].enabled,
            forall|i: int|
                0 <= i < n ==> {
                    let fits = trimmed(url_text@).len() == 0 || compatible@[i];
                    &&& (#[trigger] r@[i + 2]).policy == RemoteCredentialPolicy::Record(
                        records@[i].id,
                    )
                    &&& r@[i + 2].label@ == option_label(records@[i], texts@[i], fits)
                    &&& r@[i + 2].enabled == fits
                },
        decreases records@.len() - n,
    {
        let fits: bool = any || compatible[n];
        let plain_label: String = if records[n].scope == CredentialScope::Host {
            cat4(texts[n].label.as_str(), " (", texts[n].target.as_str(), ")")
        } else {
            texts[n].label.clone()
        };
        let label: String = if fits {
            assert(plain_label@ + Seq::<char>::empty() =~= plain_label@);
            plain_label
        } else {
            cat2(plain_label.as_str(), "（不匹配）")
        };
        r.push(
            CredentialOption {
                policy: RemoteCredentialPolicy::Record(records[n].id.clone()),
                label,
                enabled: fits,
            },
        );
        n = n + 1;
    }
    r
}

/// Whether two choices are the same.
pub fn same_policy(a: &RemoteCredentialPolicy, b: &RemoteCredentialPolicy) -> (r: bool)
    ensures
        r == (a@ == b@),
{
    match (a, b) {
        (RemoteCredentialPolicy::AutoMatch, RemoteCredentialPolicy::AutoMatch) => true,
        (RemoteCredentialPolicy::NoCredential, RemoteCredentialPolicy::NoCredential) => true,
        (RemoteCredentialPolicy::Record(x), RemoteCredentialPolicy::Record(y)) => str_eq(
            x.as_str(),
            y.as_str(),
        ),
        _ => false,
    }
}

// ---------------------------------------------------------------------------
// Credentials
// ---------------------------------------------------------------------------
/// The fields that a credential is typed in.
pub open spec fn credential_fields(mode: CredentialFormMode, use_ssh_agent: bool) -> Seq<FieldId> {
    seq![FieldId::CredentialUsername] + match mode {
        CredentialFormMode::Https => seq![FieldId::CredentialSecret],
        CredentialFormMode::Ssh => if use_ssh_agent {
            seq![FieldId::CredentialPassphrase]
        } else {
            seq![FieldId::CredentialKeyPath, FieldId::CredentialPassphrase]
        },
    }
}

fn push_credential_fields(fields: &mut Vec<FieldId>, mode: CredentialFormMode, use_ssh_agent: bool)
    ensures
        final(fields)@ == old(fields)@ + credential_fields(mode, use_ssh_agent),
{
    let ghost before = fields@;
    fields.push(FieldId::CredentialUsername);
    match mode {
        CredentialFormMode::Https => {
            fields.push(FieldId::CredentialSecret);
        },
        CredentialFormMode::Ssh => {
            if !use_ssh_agent {
                fields.push(FieldId::CredentialKeyPath);
            }
            fields.push(FieldId::CredentialPassphrase);
        },
    }
    assert(fields@ =~= before + credential_fields(mode, use_ssh_agent));
}

pub fn credential_form_dialog(mode: CredentialFormMode, use_ssh_agent: bool, busy: bool) -> (r:
    FormDialog)
    ensures
        r.title == "添加凭据",
        r.fields@ == seq![FieldId::CredentialRemoteUrl] + credential_fields(mode, use_ssh_agent),
        r.buttons@ == form_buttons(
            UiAction::ShowCredentialManager,
            UiAction::SaveCredential,
            busy,
        ),
{
    let mut fields: Vec<FieldId> = Vec::new();
    fields.push(FieldId::CredentialRemoteUrl);
    assert(fields@ =~= seq![FieldId::CredentialRemoteUrl]);
    push_credential_fields(&mut fields, mode, use_ssh_agent);
    let mut buttons: Vec<Button> = Vec::new();
    buttons.push(button("取消", !busy, UiAction::ShowCredentialManager));
    buttons.push(button("保存", !busy, UiAction::SaveCredential));
    assert(buttons@ =~= form_buttons(
        UiAction::ShowCredentialManager,
        UiAction::SaveCredential,
        busy,
    ));
    FormDialog { title: "添加凭据", fields, buttons }
}

pub open spec fn credential_manager_buttons(busy: bool) -> Seq<Button> {
    seq![
        plain("添加凭据", !busy, UiAction::OpenCredentialForm),
        plain("刷新", !busy, UiAction::ReloadCredentials),
        plain("关闭", !busy, UiAction::CloseDialog),
    ]
}

pub fn credential_manager_dialog(records: usize, busy: bool) -> (r: ManagerDialog)
    ensures
        r.title == "凭据管理",
        r.help == "密文仅保存在系统凭据管理器；这里不显示、不复制密码、PAT 或 SSH 密码短语。",
        r.columns@ == seq![
            "类型",
            "范围",
            "站点 / 远端",
            "用户名",
            "SSH Key",
            "更新时间",
            "操作",
        ],
        r.placeholder == if records == 0 {
            Some("暂无已保存凭据。远程操作时勾选保存后会出现在这里。")
        } else {
            None
        },
        r.buttons@ == credential_manager_buttons(busy),
{
    let mut columns: Vec<&'static str> = Vec::new();
    columns.push("类型");
    columns.push("范围");
    columns.push("站点 / 远端");
    columns.push("用户名");
    columns.push("SSH Key");
    columns.push("更新时间");
    columns.push("操作");
    assert(columns@ =~= seq![
        "类型",
        "范围",
        "站点 / 远端",
        "用户名",
        "SSH Key",
        "更新时间",
        "操作",
    ]);
    let mut buttons: Vec<Button> = Vec::new();
    buttons.push(button("添加凭据", !busy, UiAction::OpenCredentialForm));
    buttons.push(button("刷新", !busy, UiAction::ReloadCredentials));
    buttons.push(button("关闭", !busy, UiAction::CloseDialog));
    assert(buttons@ =~= credential_manager_buttons(busy));
    ManagerDialog {
        title: "凭据管理",
        help: "密文仅保存在系统凭据管理器；这里不显示、不复制密码、PAT 或 SSH 密码短语。",
        columns,
        placeholder: if records == 0 {
            Some("暂无已保存凭据。远程操作时勾选保存后会出现在这里。")
        } else {
            None
        },
        buttons,
    }
}

/// A credential in the list of stored ones.
#[derive(Debug, PartialEq, Eq)]
pub struct CredentialRow {
    pub updated: String,
    pub buttons: Vec<Button>,
}

/// A stored credential. The time is shown `offset` seconds east of Greenwich.
pub fn credential_record_row(record: &CredentialRecord, texts: &RecordTexts, offset: i32, busy: bool) -> (r:
    CredentialRow)
    ensures
        r.updated@ == match formatted_time(record.updated_at, 0, offset, "%Y-%m-%d %H:%M:%S"@) {
            Some(t) => t,
            None => "-"@,
        },
        r.buttons@ == seq![
            plain("测试", !busy, UiAction::TestCredential(record.id)),
            plain(
                "删除",
                !busy,
                UiAction::OpenDeleteCredential { record_id: record.id, label: texts.label },
            ),
        ],
{
    let mut buttons: Vec<Button> = Vec::new();
    buttons.push(button("测试", !busy, UiAction::TestCredential(record.id.clone())));
    buttons.push(
        button(
            "删除",
            !busy,
            UiAction::OpenDeleteCredential {
                record_id: record.id.clone(),
                label: texts.label.clone(),
            },
        ),
    );
    assert(buttons@ =~= seq![
        plain("测试", !busy, UiAction::TestCredential(record.id)),
        plain(
            "删除",
            !busy,
            UiAction::OpenDeleteCredential { record_id: record.id, label: texts.label },
        ),
    ]);
    CredentialRow { updated: timestamp_label(record.updated_at, offset), buttons }
}

/// What is shown when a remote asks for a credential.
#[derive(Debug, PartialEq, Eq)]
pub struct CredentialPrompt {
    pub title: &'static str,
    pub remote: String,
    pub fields: Vec<FieldId>,
    /// Whether the agent can be used in place of a key.
    pub agent_toggle: bool,
    pub buttons: Vec<Button>,
}

pub fn credential_prompt(url: &str, mode: CredentialFormMode, use_ssh_agent: bool) -> (r:
    CredentialPrompt)
    ensures
        r.title == "需要凭据",
        r.remote@ == "远端："@ + url@,
        r.fields@ == credential_fields(mode, use_ssh_agent),
        r.agent_toggle == (mode == CredentialFormMode::Ssh),
        r.buttons@ == seq![
            plain("使用凭据", true, UiAction::UseCredentials),
            plain("取消", true, UiAction::CancelCredentials),
        ],
{
    let mut fields: Vec<FieldId> = Vec::new();
    let ghost start = fields@;
    push_credential_fields(&mut fields, mode, use_ssh_agent);
    assert(start + credential_fields(mode, use_ssh_agent) =~= credential_fields(
        mode,
        use_ssh_agent,
    ));
    let mut buttons: Vec<Button> = Vec::new();
    buttons.push(button("使用凭据", true, UiAction::UseCredentials));
    buttons.push(button("取消", true, UiAction::CancelCredentials));
    assert(buttons@ =~= seq![
        plain("使用凭据", true, UiAction::UseCredentials),
        plain("取消", true, UiAction::CancelCredentials),
    ]);
    CredentialPrompt {
        title: "需要凭据",
        remote: cat2("远端：", url),
        fields,
        agent_toggle: mode == CredentialFormMode::Ssh,
        buttons,
    }
}

// ---------------------------------------------------------------------------
// Laws
// ---------------------------------------------------------------------------
/// A remote shows the credential that it is bound to, by the label of its record; one that takes
/// what fits shows what that is.
pub proof fn lemma_credential_of_remote(
    policy: RemoteCredentialPolicy,
    records: Seq<CredentialRecord>,
    texts: Seq<RecordTexts>,
    best: Option<usize>,
    at: int,
)
    requires
        texts.len() == records.len(),
        best is Some ==> best->0 < texts.len(),
        0 <= at < records.len(),
        forall|i: int| 0 <= i < at ==> (#[trigger] records[i]).id@ != records[at].id@,
    ensures
        policy matches RemoteCredentialPolicy::Record(id) && id@ == records[at].id@
            ==> credential_of_remote(policy, records, texts, best) == texts[at].label@,
        policy is AutoMatch && best is Some ==> texts[best->0 as int].label@.is_suffix_of(
            credential_of_remote(policy, records, texts, best),
        ),
        policy is NoCredential ==> credential_of_remote(policy, records, texts, best) == "无凭据"@,
{
    if let RemoteCredentialPolicy::Record(id) = policy {
        crate::credential_forms::lemma_record_at(records, id@, 0);
    }
    if let Some(b) = best {
        let label = texts[b as int].label@;
        let t = "自动："@ + label;
        assert(t.subrange(t.len() - label.len(), t.len() as int) =~= label);
    }
}

/// The fields of a credential are those that its kind needs, after the name of the user: a secret, or
/// a passphrase, and a key if the agent does not have it.
pub proof fn lemma_credential_fields(mode: CredentialFormMode, use_ssh_agent: bool)
    ensures
        ({
            let f = credential_fields(mode, use_ssh_agent);
            &&& f[0] == FieldId::CredentialUsername
            &&& f.contains(FieldId::CredentialSecret) <==> mode == CredentialFormMode::Https
            &&& f.contains(FieldId::CredentialPassphrase) <==> mode == CredentialFormMode::Ssh
            &&& f.contains(FieldId::CredentialKeyPath) <==> mode == CredentialFormMode::Ssh
                && !use_ssh_agent
            &&& !f.contains(FieldId::CredentialRemoteUrl)
        }),
{
    let f = credential_fields(mode, use_ssh_agent);
    if mode == CredentialFormMode::Https {
        assert(f[1] == FieldId::CredentialSecret);
    } else if use_ssh_agent {
        assert(f[1] == FieldId::CredentialPassphrase);
    } else {
        assert(f[1] == FieldId::CredentialKeyPath);
        assert(f[2] == FieldId::CredentialPassphrase);
    }
}

/// A form is left by its first button and saved by its second, and a list of remotes or credentials
/// is added to by its first and closed by its last; none works while something is running.
pub proof fn lemma_form_buttons(leave: UiAction, save: UiAction, repo_open: bool, busy: bool)
    ensures
        form_buttons(leave, save, busy).len() == 2,
        form_buttons(leave, save, busy)[0].action == leave,
        form_buttons(leave, save, busy)[1].action == save,
        form_buttons(leave, save, busy)[0].enabled == !busy,
        form_buttons(leave, save, busy)[1].enabled == !busy,
        remote_manager_buttons(repo_open, busy).len() == 2,
        remote_manager_buttons(repo_open, busy)[0].action == UiAction::OpenRemoteForm(None),
        remote_manager_buttons(repo_open, busy)[0].enabled == (repo_open && !busy),
        remote_manager_buttons(repo_open, busy)[1].action is CloseDialog,
        remote_manager_buttons(repo_open, busy)[1].enabled == !busy,
        credential_manager_buttons(busy).len() == 3,
        credential_manager_buttons(busy)[0].action is OpenCredentialForm,
        credential_manager_buttons(busy)[1].action is ReloadCredentials,
        credential_manager_buttons(busy)[2].action is CloseDialog,
        credential_manager_buttons(busy)[0].enabled == !busy,
        credential_manager_buttons(busy)[1].enabled == !busy,
        credential_manager_buttons(busy)[2].enabled == !busy,
{
}

/// A choice is named by its label, with the site for one that holds for a site, and says so if it
/// does not fit.
pub proof fn lemma_option_labels(record: CredentialRecord, texts: RecordTexts)
    ensures
        ({
            let fits = option_label(record, texts, true);
            let not = option_label(record, texts, false);
            &&& texts.label@.is_prefix_of(fits)
            &&& record.scope == CredentialScope::RemoteUrl ==> fits == texts.label@
            &&& record.scope == CredentialScope::Host ==> contains_text(fits, texts.target@)
            &&& not == fits + "（不匹配）"@
        }),
{
    let fits = option_label(record, texts, true);
    let label = texts.label@;
    assert(fits.subrange(0, label.len() as int) =~= label);
    if record.scope == CredentialScope::Host {
        assert(fits =~= (label + " ("@) + texts.target@ + ")"@);
        crate::strings::lemma_contained_text(label + " ("@, texts.target@, ")"@);
    }
    assert(option_label(record, texts, false) =~= fits + "（不匹配）"@);
}

} // verus!
