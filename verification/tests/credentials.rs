//! Credentials: forms, choices, and where they come from.

use khaslana::credential_forms::{
    bind_saved_remote, record_fits, remote_binding_request,
    credential_form_mode_for_request, is_bad_remote_name, matching_credential_for_remote_url,
    open_credential_form, prompt_for_request, save_credential_form, save_remote, use_credentials,
    CredentialForm, RecordAction, RemoteOperation,
};
use khaslana::credential_provider::{
    authentication_required, credential_for_remote, AfterLookup, CredentialAttempts,
    CredentialSource, Lookup, LookupOutcome,
};
use khaslana::credentials::{
    AllowedTypes, CredentialFormMode, CredentialRecord, CredentialRequest, CredentialScope,
    GitCredential, RemoteCredentialBindings, RemoteCredentialPolicy,
};
use khaslana::types::RemoteInfo;
use khaslana::ui::credential_view::{
    credential_manager_dialog, credential_prompt, credential_record_row, remote_credential_picker,
    remote_manager_row, same_policy, RecordTexts,
};
use khaslana::session::keys::FieldId;

fn text(s: &str) -> String {
    s.to_string()
}

fn request(url: &str, ssh_key: bool) -> CredentialRequest {
    CredentialRequest {
        url: text(url),
        username_from_url: None,
        allowed_types: AllowedTypes {
            user_pass_plaintext: !ssh_key,
            ssh_key,
            default: false,
        },
        repo_key: Some(text("repo")),
        remote_name: Some(text("origin")),
    }
}

fn record(id: &str, scope: CredentialScope, last_used: Option<i64>, updated_at: i64) -> CredentialRecord {
    CredentialRecord {
        id: text(id),
        scope,
        username: text("user"),
        last_used,
        updated_at,
    }
}

#[test]
fn the_form_follows_the_kind_of_remote() {
    assert_eq!(
        credential_form_mode_for_request(&request("https://h/a.git", false)),
        CredentialFormMode::Https
    );
    assert_eq!(
        credential_form_mode_for_request(&request("git@h:a.git", true)),
        CredentialFormMode::Ssh
    );
    let form = prompt_for_request(&request("git@h:a.git", true));
    assert_eq!(form.mode, CredentialFormMode::Ssh);
    assert!(form.save);
}

#[test]
fn a_prompt_is_answered_with_what_was_typed() {
    let mut form = prompt_for_request(&request("https://h/a.git", false));
    form.username = text(" me ");
    form.secret = text("pw");
    match use_credentials(&form, &None) {
        GitCredential::UserPass { username, secret, save_to_keyring, .. } => {
            assert_eq!((username.as_str(), secret.as_str(), save_to_keyring), ("me", "pw", true));
        }
        other => panic!("{other:?}"),
    }
    form.username = text("");
    assert_eq!(use_credentials(&form, &None).username(), "git");
    assert_eq!(use_credentials(&form, &Some(text("bob"))).username(), "bob");
}

#[test]
fn a_form_says_what_is_missing() {
    let mut form = CredentialForm::new();
    assert!(!form.save);
    form.secret = text("left over");
    form.save = true;
    open_credential_form(&mut form);
    assert!(form.save);
    assert_eq!(form.secret, "");
    assert_eq!(save_credential_form(&form).err().unwrap(), "需要填写适用远端 URL");
    form.remote_url = text("git@h:a.git");
    assert_eq!(
        save_credential_form(&form).err().unwrap(),
        "凭据类型与远端 URL 协议不匹配"
    );
    form.remote_url = text("https://h/a.git");
    assert_eq!(save_credential_form(&form).err().unwrap(), "需要填写密码或 PAT");
    form.secret = text("pw");
    let save = save_credential_form(&form).ok().unwrap();
    assert_eq!(save.request.url, "https://h/a.git");
    assert_eq!(save.credential.username(), "git");
    form.mode = CredentialFormMode::Ssh;
    form.remote_url = text("git@h:a.git");
    assert_eq!(
        save_credential_form(&form).err().unwrap(),
        "需要填写 SSH 私钥路径或选择使用 SSH agent"
    );
    form.use_ssh_agent = true;
    assert!(save_credential_form(&form).is_ok());
}

#[test]
fn a_remote_is_saved_only_with_a_free_and_valid_name() {
    let remotes = vec![RemoteInfo { name: text("origin"), url: text("u") }];
    let save = |name: &str, url: &str, editing: Option<String>| {
        save_remote(
            name,
            url,
            editing,
            &remotes,
            &RemoteCredentialPolicy::AutoMatch,
            &Vec::new(),
            true,
            true,
            &Some(text("origin")),
        )
    };
    assert_eq!(save("", "u", None).unwrap_err(), "需要填写远端名称");
    assert_eq!(save("a", " ", None).unwrap_err(), "需要填写远端地址");
    assert_eq!(save("a b", "u", None).unwrap_err(), "远端名称无效：a b");
    assert_eq!(save("-a", "u", None).unwrap_err(), "远端名称无效：-a");
    assert_eq!(save("origin", "u", None).unwrap_err(), "远端名称已存在：origin");
    assert!(is_bad_remote_name("a\\b"));
    let plan = save("up", "v", Some(text("origin"))).unwrap();
    assert_eq!(plan.selected_remote.as_deref(), Some("up"));
    assert_eq!(plan.done, "远端已更新");
    assert_eq!(
        plan.operation,
        RemoteOperation::Update {
            old_name: text("origin"),
            new_name: text("up"),
            url: text("v"),
        }
    );
}

#[test]
fn a_picked_credential_must_exist_and_fit() {
    let records = vec![
        record("r", CredentialScope::Host, None, 0),
        record("one", CredentialScope::RemoteUrl, None, 0),
    ];
    let save = |id: &str, compatible: bool, matches: bool| {
        save_remote(
            "a",
            "u",
            None,
            &Vec::new(),
            &RemoteCredentialPolicy::Record(text(id)),
            &records,
            compatible,
            matches,
            &None,
        )
    };
    assert_eq!(save("x", true, true).unwrap_err(), "所选凭据记录不存在");
    assert_eq!(save("r", true, false).unwrap_err(), "所选凭据与远端地址协议或站点不匹配");
    assert_eq!(
        save("r", false, true).unwrap().record,
        Some(RecordAction::Touch { record_id: text("r") })
    );
    assert_eq!(save("one", false, true).unwrap_err(), "所选凭据与远端地址协议或站点不匹配");
    let plan = save("one", true, false).unwrap();
    assert_eq!(
        plan.record,
        Some(RecordAction::UpdateRemoteUrl { record_id: text("one"), url: text("u") })
    );
    assert!(record_fits(CredentialScope::RemoteUrl, true, false));
    assert!(!record_fits(CredentialScope::Host, true, false));
    let mut bindings = RemoteCredentialBindings::default();
    let picked = || RemoteCredentialPolicy::Record(text("one"));
    assert!(!bind_saved_remote(&mut bindings, &None, &plan, picked()));
    assert!(bindings.remotes.is_empty());
    assert_eq!(remote_binding_request(&None, &plan), None);
    assert!(bind_saved_remote(&mut bindings, &Some(text("key")), &plan, picked()));
    assert_eq!(bindings.policy_for_remote("key", "a", "u"), picked());
    let request = remote_binding_request(&Some(text("key")), &plan).unwrap();
    assert_eq!((request.url.as_str(), request.remote_name.as_deref()), ("u", Some("a")));
    assert!(request.allowed_types.ssh_key && !request.allowed_types.default);
}

#[test]
fn the_best_match_is_for_one_address_and_lately_used() {
    let records = vec![
        record("host", CredentialScope::Host, Some(9), 9),
        record("old", CredentialScope::RemoteUrl, Some(1), 5),
        record("new", CredentialScope::RemoteUrl, Some(2), 1),
        record("tie", CredentialScope::RemoteUrl, Some(2), 1),
    ];
    let best = |matches: [bool; 4]| matching_credential_for_remote_url(&records, &matches.to_vec());
    assert_eq!(best([true, true, true, false]), Some(2));
    assert_eq!(best([true, true, true, true]), Some(3));
    assert_eq!(best([true, false, false, false]), Some(0));
    assert_eq!(best([false; 4]), None);
}

#[test]
fn sources_are_tried_in_order() {
    let mut asked = request("ssh://h/a", true);
    asked.allowed_types.default = true;
    assert_eq!(
        credential_for_remote(true, &asked),
        vec![
            CredentialSource::Helper,
            CredentialSource::SshAgent { username: text("git") },
            CredentialSource::SystemDefault,
            CredentialSource::Provider,
        ]
    );
    assert_eq!(
        credential_for_remote(false, &request("https://h/a", false)),
        vec![CredentialSource::Provider]
    );
    assert_eq!(authentication_required("u"), "访问 u 需要身份验证");
}

#[test]
fn a_stored_credential_that_is_turned_down_is_deleted() {
    let bindings = RemoteCredentialBindings::default();
    let mut attempts = CredentialAttempts::new();
    let asked = request("https://h/a.git", false);
    let first = attempts.begin(&asked, &bindings);
    assert_eq!(first.delete_record, None);
    assert_eq!(first.lookup, Lookup::BestMatch { rejected: Vec::new() });
    assert_eq!(
        attempts.looked_up(&asked, LookupOutcome::Found { record_id: text("r") }),
        AfterLookup::UseStored
    );
    let second = attempts.begin(&asked, &bindings);
    assert_eq!(second.delete_record.as_deref(), Some("r"));
    assert_eq!(second.lookup, Lookup::BestMatch { rejected: vec![text("r")] });
    assert_eq!(attempts.looked_up(&asked, LookupOutcome::Missing), AfterLookup::AskUser);
}

#[test]
fn a_saved_credential_is_bound_to_its_remote() {
    let mut bindings = RemoteCredentialBindings::default();
    let mut attempts = CredentialAttempts::new();
    let asked = request("https://h/a.git", false);
    attempts.begin(&asked, &bindings);
    attempts.saved(&asked, Some(text("r")), &mut bindings);
    assert_eq!(
        bindings.policy_for_remote("repo", "origin", "https://h/a.git"),
        RemoteCredentialPolicy::Record(text("r"))
    );
}

fn record_texts(label: &str, target: &str) -> RecordTexts {
    RecordTexts {
        label: text(label),
        target: text(target),
        key_file: text(""),
        kind: text("HTTPS"),
        scope: text(""),
    }
}

#[test]
fn the_picker_offers_only_what_fits() {
    let records = vec![
        record("a", CredentialScope::Host, None, 0),
        record("b", CredentialScope::RemoteUrl, None, 0),
    ];
    let texts = vec![record_texts("A", "h"), record_texts("B", "u")];
    let options = remote_credential_picker("https://h", &records, &texts, &vec![true, false]);
    let labels: Vec<&str> = options.iter().map(|option| option.label.as_str()).collect();
    assert_eq!(labels, vec!["自动匹配保存凭据", "无凭据", "A (h)", "B（不匹配）"]);
    assert!(options[2].enabled && !options[3].enabled);
    let unknown = remote_credential_picker(" ", &records, &texts, &vec![false, false]);
    assert!(unknown.iter().all(|option| option.enabled));
    assert!(same_policy(&options[1].policy, &RemoteCredentialPolicy::NoCredential));
    assert!(!same_policy(&options[2].policy, &options[3].policy));
}

#[test]
fn remotes_and_records_are_listed_with_their_texts() {
    let records = vec![record("a", CredentialScope::Host, None, 86_400)];
    let texts = vec![record_texts("A", "h")];
    let remote = RemoteInfo { name: text("origin"), url: text("u") };
    let label = |policy: RemoteCredentialPolicy, best: Option<usize>| {
        remote_manager_row(&remote, &policy, &records, &texts, best, false).credential
    };
    assert_eq!(label(RemoteCredentialPolicy::NoCredential, None), "无凭据");
    assert_eq!(label(RemoteCredentialPolicy::AutoMatch, None), "自动匹配");
    assert_eq!(label(RemoteCredentialPolicy::AutoMatch, Some(0)), "自动：A");
    assert_eq!(label(RemoteCredentialPolicy::Record(text("a")), None), "A");
    assert_eq!(label(RemoteCredentialPolicy::Record(text("x")), None), "凭据不存在");
    let row = credential_record_row(&records[0], &texts[0], 3600, false);
    assert_eq!(row.updated, "1970-01-02 01:00:00");
    assert!(credential_manager_dialog(0, false).placeholder.is_some());
    assert!(credential_manager_dialog(1, false).placeholder.is_none());
}

#[test]
fn a_prompt_has_the_fields_of_its_kind() {
    assert_eq!(
        credential_prompt("u", CredentialFormMode::Https, false).fields,
        vec![FieldId::CredentialUsername, FieldId::CredentialSecret]
    );
    assert_eq!(
        credential_prompt("u", CredentialFormMode::Ssh, true).fields,
        vec![FieldId::CredentialUsername, FieldId::CredentialPassphrase]
    );
    assert_eq!(credential_prompt("u", CredentialFormMode::Ssh, false).fields.len(), 3);
}
