//! What keys do in a field.

use vstd::prelude::*;

use crate::session::popups::DialogState;
use crate::strings::{ascii_lowered, clone_opt, str_eq, to_ascii_lowercase};

verus! {

/// The fields that text is typed in.
#[derive(Clone, Copy, Debug, PartialEq, Eq, Structural)]
pub enum FieldId {
    CloneUrl,
    ClonePath,
    BranchName,
    BranchRename,
    RemoteName,
    RemoteUrl,
    CommitMessage,
    CredentialUsername,
    CredentialSecret,
    CredentialKeyPath,
    CredentialPassphrase,
    CredentialRemoteUrl,
    ConflictEditor,
}

/// What a field says while it is empty.
pub fn field_placeholder(field: FieldId) -> (r: &'static str)
    ensures
        r == match field {
            FieldId::CloneUrl => "远程仓库 URL",
            FieldId::ClonePath => "克隆到父文件夹",
            FieldId::BranchName => "新分支名称",
            FieldId::BranchRename => "重命名为",
            FieldId::CommitMessage => "提交信息",
            FieldId::CredentialUsername => "用户名",
            FieldId::CredentialSecret => "密码或 PAT",
            FieldId::CredentialKeyPath => "SSH 私钥路径",
            FieldId::CredentialPassphrase => "SSH 密码短语",
            FieldId::CredentialRemoteUrl => "适用远端 URL",
            FieldId::RemoteName => "远端名称",
            FieldId::RemoteUrl => "远端地址",
            FieldId::ConflictEditor => "",
        },
{
    match field {
        FieldId::CloneUrl => "远程仓库 URL",
        FieldId::ClonePath => "克隆到父文件夹",
        FieldId::BranchName => "新分支名称",
        FieldId::BranchRename => "重命名为",
        FieldId::CommitMessage => "提交信息",
        FieldId::CredentialUsername => "用户名",
        FieldId::CredentialSecret => "密码或 PAT",
        FieldId::CredentialKeyPath => "SSH 私钥路径",
        FieldId::CredentialPassphrase => "SSH 密码短语",
        FieldId::CredentialRemoteUrl => "适用远端 URL",
        FieldId::RemoteName => "远端名称",
        FieldId::RemoteUrl => "远端地址",
        FieldId::ConflictEditor => "",
    }
}

/// Whether what is typed in a field is not shown.
pub fn is_secret_field(field: FieldId) -> (r: bool)
    ensures
        r == (field == FieldId::CredentialSecret || field == FieldId::CredentialPassphrase),
{
    match field {
        FieldId::CredentialSecret | FieldId::CredentialPassphrase => true,
        _ => false,
    }
}

/// Whether a field takes line breaks.
pub fn is_multiline_field(field: FieldId) -> (r: bool)
    ensures
        r == (field == FieldId::CommitMessage),
{
    match field {
        FieldId::CommitMessage => true,
        _ => false,
    }
}

/// What the enter key does.
#[derive(Debug, PartialEq, Eq)]
pub enum Submit {
    Commit,
    Clone,
    CreateBranch,
    RenameBranch(String),
    SaveRemote(Option<String>),
    SaveCredential,
    UseCredentials,
    Nothing,
}

/// What the enter key does in a field while a dialog is open or not.
pub open spec fn submitted(field: FieldId, dialog: Option<DialogState>) -> Submit {
    match field {
        FieldId::CommitMessage => Submit::Commit,
        FieldId::CloneUrl | FieldId::ClonePath => if dialog == Some(DialogState::CloneRepo) {
            Submit::Clone
        } else {
            Submit::Nothing
        },
        FieldId::BranchName => if dialog == Some(DialogState::CreateBranch) {
            Submit::CreateBranch
        } else {
            Submit::Nothing
        },
        FieldId::BranchRename => match dialog {
            Some(DialogState::RenameBranch { branch }) => Submit::RenameBranch(branch),
            _ => Submit::Nothing,
        },
        FieldId::RemoteName | FieldId::RemoteUrl => match dialog {
            Some(DialogState::RemoteForm { editing }) => Submit::SaveRemote(editing),
            _ => Submit::Nothing,
        },
        FieldId::ConflictEditor => Submit::Nothing,
        _ => match dialog {
            Some(DialogState::CredentialForm { .. }) => Submit::SaveCredential,
            _ => Submit::UseCredentials,
        },
    }
}

pub fn submit(field: FieldId, dialog: &Option<DialogState>) -> (r: Submit)
    ensures
        r == submitted(field, *dialog),
{
    match field {
        FieldId::CommitMessage => Submit::Commit,
        FieldId::CloneUrl | FieldId::ClonePath => match dialog {
            Some(DialogState::CloneRepo) => Submit::Clone,
            _ => Submit::Nothing,
        },
        FieldId::BranchName => match dialog {
            Some(DialogState::CreateBranch) => Submit::CreateBranch,
            _ => Submit::Nothing,
        },
        FieldId::BranchRename => match dialog {
            Some(DialogState::RenameBranch { branch }) => Submit::RenameBranch(branch.clone()),
            _ => Submit::Nothing,
        },
        FieldId::RemoteName | FieldId::RemoteUrl => match dialog {
            Some(DialogState::RemoteForm { editing }) => Submit::SaveRemote(clone_opt(editing)),
            _ => Submit::Nothing,
        },
        FieldId::ConflictEditor => Submit::Nothing,
        _ => match dialog {
            Some(DialogState::CredentialForm { .. }) => Submit::SaveCredential,
            _ => Submit::UseCredentials,
        },
    }
}

/// What a key does.
#[derive(Clone, Copy, Debug, PartialEq, Eq, Structural)]
pub enum KeyAction {
    MoveLeft,
    MoveRight,
    MoveHome,
    MoveEnd,
    DeleteBackward,
    DeleteForward,
    Submit,
    SelectAll,
    Copy,
    Cut,
    Paste,
    /// The character that the key types, if it types one.
    Type,
    Nothing,
}

/// What a key does in a field. `control` says whether the control or the platform key is held.
pub open spec fn key_does(key: Seq<char>, control: bool) -> KeyAction {
    if key == "left"@ || key == "arrowleft"@ {
        KeyAction::MoveLeft
    } else if key == "right"@ || key == "arrowright"@ {
        KeyAction::MoveRight
    } else if key == "home"@ {
        KeyAction::MoveHome
    } else if key == "end"@ {
        KeyAction::MoveEnd
    } else if key == "backspace"@ {
        KeyAction::DeleteBackward
    } else if key == "delete"@ {
        KeyAction::DeleteForward
    } else if key == "enter"@ {
        KeyAction::Submit
    } else if !control {
        KeyAction::Type
    } else if ascii_lowered(key) == "a"@ {
        KeyAction::SelectAll
    } else if ascii_lowered(key) == "c"@ {
        KeyAction::Copy
    } else if ascii_lowered(key) == "x"@ {
        KeyAction::Cut
    } else if ascii_lowered(key) == "v"@ {
        KeyAction::Paste
    } else {
        KeyAction::Nothing
    }
}

pub fn handle_field_key(key: &str, control: bool) -> (r: KeyAction)
    ensures
        r == key_does(key@, control),
{
    if str_eq(key, "left") || str_eq(key, "arrowleft") {
        return KeyAction::MoveLeft;
    }
    if str_eq(key, "right") || str_eq(key, "arrowright") {
        return KeyAction::MoveRight;
    }
    if str_eq(key, "home") {
        return KeyAction::MoveHome;
    }
    if str_eq(key, "end") {
        return KeyAction::MoveEnd;
    }
    if str_eq(key, "backspace") {
        return KeyAction::DeleteBackward;
    }
    if str_eq(key, "delete") {
        return KeyAction::DeleteForward;
    }
    if str_eq(key, "enter") {
        return KeyAction::Submit;
    }
    if !control {
        return KeyAction::Type;
    }
    let lower: String = to_ascii_lowercase(key);
    if str_eq(lower.as_str(), "a") {
        KeyAction::SelectAll
    } else if str_eq(lower.as_str(), "c") {
        KeyAction::Copy
    } else if str_eq(lower.as_str(), "x") {
        KeyAction::Cut
    } else if str_eq(lower.as_str(), "v") {
        KeyAction::Paste
    } else {
        KeyAction::Nothing
    }
}

// ---------------------------------------------------------------------------
// Laws
// ---------------------------------------------------------------------------
/// The field of a message commits, and the fields of a dialog do what the dialog is for, with the
/// branch, the remote or the credential that it was opened for. In any other dialog they do nothing,
/// except for the fields of a credential, which answer the request that is open.
pub proof fn lemma_submitting(field: FieldId, dialog: Option<DialogState>)
    ensures
        submitted(FieldId::CommitMessage, dialog) is Commit,
        submitted(FieldId::ConflictEditor, dialog) is Nothing,
        field is CloneUrl || field is ClonePath ==> (submitted(field, dialog) is Clone <==> dialog
            is Some && dialog->0 is CloneRepo) && (submitted(field, dialog) is Clone || submitted(
            field,
            dialog,
        ) is Nothing),
        field is BranchName ==> (submitted(field, dialog) is CreateBranch <==> dialog is Some
            && dialog->0 is CreateBranch) && (submitted(field, dialog) is CreateBranch
            || submitted(field, dialog) is Nothing),
        field is BranchRename ==> match dialog {
            Some(DialogState::RenameBranch { branch }) => submitted(field, dialog)
                == Submit::RenameBranch(branch),
            _ => submitted(field, dialog) is Nothing,
        },
        field is RemoteName || field is RemoteUrl ==> match dialog {
            Some(DialogState::RemoteForm { editing }) => submitted(field, dialog)
                == Submit::SaveRemote(editing),
            _ => submitted(field, dialog) is Nothing,
        },
        field is CredentialUsername || field is CredentialSecret || field is CredentialKeyPath
            || field is CredentialPassphrase || field is CredentialRemoteUrl ==> if dialog is Some
            && dialog->0 is CredentialForm {
            submitted(field, dialog) is SaveCredential
        } else {
            submitted(field, dialog) is UseCredentials
        },
{
}

/// A key without a name of its own types itself, or nothing with the control key, except for the
/// four letters that select, copy, cut and paste, large or small.
pub proof fn lemma_letter_keys(c: char, control: bool)
    ensures
        !control ==> key_does(seq![c], control) is Type,
        control && (c == 'a' || c == 'A') ==> key_does(seq![c], control) is SelectAll,
        control && (c == 'c' || c == 'C') ==> key_does(seq![c], control) is Copy,
        control && (c == 'x' || c == 'X') ==> key_does(seq![c], control) is Cut,
        control && (c == 'v' || c == 'V') ==> key_does(seq![c], control) is Paste,
        control && c != 'a' && c != 'A' && c != 'c' && c != 'C' && c != 'x' && c != 'X' && c != 'v'
            && c != 'V' ==> key_does(seq![c], control) is Nothing,
{
    let key = seq![c];
    reveal_strlit("left");
    reveal_strlit("arrowleft");
    reveal_strlit("right");
    reveal_strlit("arrowright");
    reveal_strlit("home");
    reveal_strlit("end");
    reveal_strlit("backspace");
    reveal_strlit("delete");
    reveal_strlit("enter");
    reveal_strlit("a");
    reveal_strlit("c");
    reveal_strlit("x");
    reveal_strlit("v");
    assert("left"@.len() == 4 && "arrowleft"@.len() == 9 && "right"@.len() == 5);
    assert("arrowright"@.len() == 10 && "home"@.len() == 4 && "end"@.len() == 3);
    assert("backspace"@.len() == 9 && "delete"@.len() == 6 && "enter"@.len() == 5);
    assert("a"@ =~= seq!['a'] && "c"@ =~= seq!['c'] && "x"@ =~= seq!['x'] && "v"@ =~= seq!['v']);
    crate::strings::lemma_ascii_lower(c);
    let low = ascii_lowered(key);
    assert(low.len() == 1 && low[0] == crate::strings::ascii_lower(c));
    assert(low == "a"@ ==> low[0] == 'a');
    assert(low == "c"@ ==> low[0] == 'c');
    assert(low == "x"@ ==> low[0] == 'x');
    assert(low == "v"@ ==> low[0] == 'v');
    if c == 'a' || c == 'A' {
        assert(low =~= "a"@);
    }
    if c == 'c' || c == 'C' {
        assert(low =~= "c"@);
    }
    if c == 'x' || c == 'X' {
        assert(low =~= "x"@);
    }
    if c == 'v' || c == 'V' {
        assert(low =~= "v"@);
    }
}

/// The keys that have a name do what they are named for, with the control key and without.
pub proof fn lemma_named_keys(control: bool)
    ensures
        key_does("left"@, control) is MoveLeft,
        key_does("arrowleft"@, control) is MoveLeft,
        key_does("right"@, control) is MoveRight,
        key_does("arrowright"@, control) is MoveRight,
        key_does("home"@, control) is MoveHome,
        key_does("end"@, control) is MoveEnd,
        key_does("backspace"@, control) is DeleteBackward,
        key_does("delete"@, control) is DeleteForward,
        key_does("enter"@, control) is Submit,
{
    reveal_strlit("left");
    reveal_strlit("arrowleft");
    reveal_strlit("right");
    reveal_strlit("arrowright");
    reveal_strlit("home");
    reveal_strlit("end");
    reveal_strlit("backspace");
    reveal_strlit("delete");
    reveal_strlit("enter");
    assert("left"@.len() == 4 && "arrowleft"@.len() == 9 && "right"@.len() == 5);
    assert("arrowright"@.len() == 10 && "home"@.len() == 4 && "end"@.len() == 3);
    assert("backspace"@.len() == 9 && "delete"@.len() == 6 && "enter"@.len() == 5);
    assert("left"@[0] == 'l' && "home"@[0] == 'h');
    assert("right"@[0] == 'r' && "enter"@[0] == 'e');
    assert("arrowleft"@[0] == 'a' && "backspace"@[0] == 'b');
}

} // verus!
