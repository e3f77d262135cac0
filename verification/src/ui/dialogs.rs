//! The dialogs about repositories, branches and commits.

use vstd::prelude::*;

use crate::session::keys::FieldId;
use crate::session::paths::short_oid;
use crate::session::popups::DiscardTarget;
use crate::strings::{cat2, cat3, cat4, contains_text, decimal, opt_view, usize_to_string, views};
use crate::text::{on_boundary, split_index};
use crate::types::{DiffScope, ResetMode};
use crate::ui::actions::{Button, UiAction, button, plain};
use crate::ui::changes::{discard_paths_preview, paths_text};

verus! {

/// A dialog: texts, fields and buttons, each from the top down.
#[derive(Debug, PartialEq, Eq)]
pub struct Dialog {
    pub title: &'static str,
    pub texts: Vec<String>,
    pub fields: Vec<FieldId>,
    pub buttons: Vec<Button>,
}

impl Dialog {
    /// Whether the dialog shows exactly this.
    pub open spec fn shows(
        self,
        title: &'static str,
        texts: Seq<Seq<char>>,
        fields: Seq<FieldId>,
        buttons: Seq<Button>,
    ) -> bool {
        &&& self.title == title
        &&& views(self.texts@) == texts
        &&& self.fields@ == fields
        &&& self.buttons@ == buttons
    }
}

/// The two buttons of a dialog: one to leave it, one to go on.
pub open spec fn leave_or(
    leave: UiAction,
    label: &'static str,
    enabled: bool,
    action: UiAction,
    busy: bool,
) -> Seq<Button> {
    seq![plain("取消", !busy, leave), plain(label, enabled && !busy, action)]
}

/// The texts that there are.
spec fn given(first: Option<String>, second: Option<String>, third: Option<String>) -> Seq<Seq<char>> {
    match (first, second, third) {
        (Some(a), Some(b), Some(c)) => seq![a@, b@, c@],
        (Some(a), Some(b), None) => seq![a@, b@],
        (Some(a), None, _) => seq![a@],
        _ => Seq::empty(),
    }
}

/// A dialog with up to three texts, up to one field, and two buttons.
fn dialog(
    title: &'static str,
    first: Option<String>,
    second: Option<String>,
    third: Option<String>,
    field: Option<FieldId>,
    leave: UiAction,
    go_on: Button,
    busy: bool,
) -> (r: Dialog)
    requires
        second is Some ==> first is Some,
        third is Some ==> second is Some,
    ensures
        r.shows(
            title,
            given(first, second, third),
            match field {
                Some(f) => seq![f],
                None => Seq::empty(),
            },
            seq![plain("取消", !busy, leave), go_on],
        ),
{
    let mut texts: Vec<String> = Vec::new();
    let mut fields: Vec<FieldId> = Vec::new();
    let mut buttons: Vec<Button> = Vec::new();
    let ghost shown = given(first, second, third);
    match first {
        Some(text) => {
            texts.push(text);
        },
        None => {},
    }
    match second {
        Some(text) => {
            texts.push(text);
        },
        None => {},
    }
    match third {
        Some(text) => {
            texts.push(text);
        },
        None => {},
    }
    assert(views(texts@) =~= shown);
    match field {
        Some(f) => {
            fields.push(f);
        },
        None => {},
    }
    assert(fields@ =~= match field {
        Some(f) => seq![f],
        None => Seq::empty(),
    });
    let ghost leaving = leave;
    buttons.push(button("取消", !busy, leave));
    let ghost going = go_on;
    buttons.push(go_on);
    assert(buttons@ =~= seq![plain("取消", !busy, leaving), going]);
    Dialog { title, texts, fields, buttons }
}

/// The dialog to clone a repository. `preview` is where the clone will stand, if that is known.
pub fn clone_dialog(preview: Option<String>, busy: bool) -> (r: Dialog)
    ensures
        r.shows(
            "克隆仓库",
            seq![
                match opt_view(preview) {
                    Some(p) => p,
                    None => "填写远程仓库 URL 和父文件夹后显示最终代码路径"@,
                },
            ],
            seq![FieldId::CloneUrl, FieldId::ClonePath],
            seq![
                plain("选择目录", !busy, UiAction::BrowseCloneTarget),
                plain("取消", !busy, UiAction::CloseDialog),
                plain("克隆", !busy, UiAction::Clone),
            ],
        ),
{
    let mut texts: Vec<String> = Vec::new();
    let text: String = match preview {
        Some(p) => p,
        None => "填写远程仓库 URL 和父文件夹后显示最终代码路径".to_string(),
    };
    texts.push(text);
    assert(views(texts@) =~= seq![text@]);
    let mut fields: Vec<FieldId> = Vec::new();
    fields.push(FieldId::CloneUrl);
    fields.push(FieldId::ClonePath);
    let mut buttons: Vec<Button> = Vec::new();
    buttons.push(button("选择目录", !busy, UiAction::BrowseCloneTarget));
    buttons.push(button("取消", !busy, UiAction::CloseDialog));
    buttons.push(button("克隆", !busy, UiAction::Clone));
    assert(fields@ =~= seq![FieldId::CloneUrl, FieldId::ClonePath]);
    assert(buttons@ =~= seq![
        plain("选择目录", !busy, UiAction::BrowseCloneTarget),
        plain("取消", !busy, UiAction::CloseDialog),
        plain("克隆", !busy, UiAction::Clone),
    ]);
    Dialog { title: "克隆仓库", texts, fields, buttons }
}

pub fn create_branch_dialog(repo_open: bool, busy: bool) -> (r: Dialog)
    ensures
        r.shows(
            "新建分支",
            Seq::empty(),
            seq![FieldId::BranchName],
            leave_or(UiAction::CloseDialog, "创建", repo_open, UiAction::CreateBranch, busy),
        ),
{
    dialog(
        "新建分支",
        None,
        None,
        None,
        Some(FieldId::BranchName),
        UiAction::CloseDialog,
        button("创建", repo_open && !busy, UiAction::CreateBranch),
        busy,
    )
}

pub fn rename_branch_dialog(branch: &String, busy: bool) -> (r: Dialog)
    ensures
        r.shows(
            "重命名分支",
            seq!["当前分支："@ + branch@],
            seq![FieldId::BranchRename],
            leave_or(
                UiAction::CloseDialog,
                "重命名",
                true,
                UiAction::RenameBranch(*branch),
                busy,
            ),
        ),
{
    dialog(
        "重命名分支",
        Some(cat2("当前分支：", branch.as_str())),
        None,
        None,
        Some(FieldId::BranchRename),
        UiAction::CloseDialog,
        button("重命名", !busy, UiAction::RenameBranch(branch.clone())),
        busy,
    )
}

/// The first characters of the id of a commit.
pub open spec fn short_of(oid: Seq<char>) -> Seq<char> {
    if on_boundary(oid, 8) {
        oid.take(split_index(oid, 8))
    } else {
        oid
    }
}

fn target_commit(oid: &str, summary: &str) -> (r: String)
    ensures
        r@ == "目标提交："@ + short_of(oid@) + " "@ + summary@,
{
    let short: String = short_oid(oid);
    cat4("目标提交：", short.as_str(), " ", summary)
}

pub fn reset_mode_label(mode: ResetMode) -> (r: &'static str)
    ensures
        r == match mode {
            ResetMode::Soft => "软重置",
            ResetMode::Mixed => "混合重置",
            ResetMode::Hard => "强制重置",
        },
{
    match mode {
        ResetMode::Soft => "软重置",
        ResetMode::Mixed => "混合重置",
        ResetMode::Hard => "强制重置",
    }
}

pub fn reset_mode_help(mode: ResetMode) -> (r: &'static str)
    ensures
        r == match mode {
            ResetMode::Soft => "保留暂存区和工作区修改",
            ResetMode::Mixed => "重置暂存区，保留工作区修改",
            ResetMode::Hard => "重置暂存区和工作区，丢弃未提交修改",
        },
{
    match mode {
        ResetMode::Soft => "保留暂存区和工作区修改",
        ResetMode::Mixed => "重置暂存区，保留工作区修改",
        ResetMode::Hard => "重置暂存区和工作区，丢弃未提交修改",
    }
}

pub open spec fn reset_text(mode: ResetMode) -> Seq<char> {
    match mode {
        ResetMode::Soft => "软重置"@ + "："@ + "保留暂存区和工作区修改"@,
        ResetMode::Mixed => "混合重置"@ + "："@ + "重置暂存区，保留工作区修改"@,
        ResetMode::Hard => "强制重置"@ + "："@ + "重置暂存区和工作区，丢弃未提交修改"@,
    }
}

pub fn confirm_reset_dialog(oid: &String, summary: &str, mode: ResetMode, busy: bool) -> (r: Dialog)
    ensures
        r.shows(
            "确认重置分支",
            seq![
                "目标提交："@ + short_of(oid@) + " "@ + summary@,
                "将当前分支重置到该提交。"@ + reset_text(mode),
            ],
            Seq::empty(),
            leave_or(
                UiAction::CloseDialog,
                "确认重置",
                true,
                UiAction::Reset { oid: *oid, mode },
                busy,
            ),
        ),
{
    let how: String = cat3(reset_mode_label(mode), "：", reset_mode_help(mode));
    dialog(
        "确认重置分支",
        Some(target_commit(oid.as_str(), summary)),
        Some(cat2("将当前分支重置到该提交。", how.as_str())),
        None,
        None,
        UiAction::CloseDialog,
        button("确认重置", !busy, UiAction::Reset { oid: oid.clone(), mode }),
        busy,
    )
}

pub fn confirm_revert_dialog(oid: &String, summary: &str, busy: bool) -> (r: Dialog)
    ensures
        r.shows(
            "确认回滚提交",
            seq![
                "目标提交："@ + short_of(oid@) + " "@ + summary@,
                "确认后会创建一个新的提交，用于撤销该提交引入的修改。"@,
            ],
            Seq::empty(),
            leave_or(
                UiAction::CloseDialog,
                "确认回滚",
                true,
                UiAction::Revert { oid: *oid },
                busy,
            ),
        ),
{
    dialog(
        "确认回滚提交",
        Some(target_commit(oid.as_str(), summary)),
        Some("确认后会创建一个新的提交，用于撤销该提交引入的修改。".to_string()),
        None,
        None,
        UiAction::CloseDialog,
        button("确认回滚", !busy, UiAction::Revert { oid: oid.clone() }),
        busy,
    )
}

/// Which files are asked about before changes are discarded.
pub open spec fn discard_subject(scope: DiffScope, target: DiscardTarget, count: nat) -> Seq<char> {
    match target {
        DiscardTarget::Single => "目标文件"@,
        DiscardTarget::Selected => "选定文件（"@ + decimal(count) + " 个）"@,
        DiscardTarget::All => (match scope {
            DiffScope::Staged => "暂存区全部文件（"@,
            DiffScope::Unstaged => "修改区全部文件（"@,
        }) + decimal(count) + " 个）"@,
    }
}

/// What discarding changes does.
pub open spec fn discard_help(scope: DiffScope) -> Seq<char> {
    match scope {
        DiffScope::Staged => "将丢弃这些文件全部未提交更改，包括暂存区和工作区。新增文件会被删除，删除文件会被恢复。此操作无法从 Khaslana 内撤销。"@,
        DiffScope::Unstaged => "将仅丢弃这些文件尚未暂存的更改，已暂存内容会保留。未跟踪新增文件会被删除。此操作无法从 Khaslana 内撤销。"@,
    }
}

pub fn confirm_discard_change_dialog(
    scope: DiffScope,
    target: DiscardTarget,
    paths: Vec<String>,
    busy: bool,
) -> (r: Dialog)
    ensures
        r.shows(
            "确认回滚更改",
            seq![
                discard_subject(scope, target, paths@.len()),
                paths_text(views(paths@)),
                discard_help(scope),
            ],
            Seq::empty(),
            leave_or(
                UiAction::CloseDialog,
                "确认回滚",
                true,
                UiAction::Discard { paths, scope, target },
                busy,
            ),
        ),
{
    let count: String = usize_to_string(paths.len());
    let subject: String = match target {
        DiscardTarget::Single => "目标文件".to_string(),
        DiscardTarget::Selected => cat3("选定文件（", count.as_str(), " 个）"),
        DiscardTarget::All => match scope {
            DiffScope::Staged => cat3("暂存区全部文件（", count.as_str(), " 个）"),
            DiffScope::Unstaged => cat3("修改区全部文件（", count.as_str(), " 个）"),
        },
    };
    let help: String = match scope {
        DiffScope::Staged => "将丢弃这些文件全部未提交更改，包括暂存区和工作区。新增文件会被删除，删除文件会被恢复。此操作无法从 Khaslana 内撤销。".to_string(),
        DiffScope::Unstaged => "将仅丢弃这些文件尚未暂存的更改，已暂存内容会保留。未跟踪新增文件会被删除。此操作无法从 Khaslana 内撤销。".to_string(),
    };
    let preview: String = discard_paths_preview(&paths);
    dialog(
        "确认回滚更改",
        Some(subject),
        Some(preview),
        Some(help),
        None,
        UiAction::CloseDialog,
        button("确认回滚", !busy, UiAction::Discard { paths, scope, target }),
        busy,
    )
}

pub fn confirm_delete_remote_dialog(name: &String, busy: bool) -> (r: Dialog)
    ensures
        r.shows(
            "删除远端",
            seq![
                "确认删除远端："@ + name@,
                "这只会删除当前仓库的远端配置，不会删除任何已保存凭据。"@,
            ],
            Seq::empty(),
            leave_or(
                UiAction::ShowRemoteManager,
                "确认删除",
                true,
                UiAction::DeleteRemote(*name),
                busy,
            ),
        ),
{
    dialog(
        "删除远端",
        Some(cat2("确认删除远端：", name.as_str())),
        Some("这只会删除当前仓库的远端配置，不会删除任何已保存凭据。".to_string()),
        None,
        None,
        UiAction::ShowRemoteManager,
        button("确认删除", !busy, UiAction::DeleteRemote(name.clone())),
        busy,
    )
}

pub fn confirm_delete_credential_dialog(record_id: &String, label: &str, busy: bool) -> (r: Dialog)
    ensures
        r.shows(
            "删除凭据",
            seq![
                "确认删除凭据："@ + label@,
                "删除会同时移除非敏感索引和系统凭据管理器中的密文。"@,
            ],
            Seq::empty(),
            leave_or(
                UiAction::ShowCredentialManager,
                "确认删除",
                true,
                UiAction::DeleteCredential(*record_id),
                busy,
            ),
        ),
{
    dialog(
        "删除凭据",
        Some(cat2("确认删除凭据：", label)),
        Some("删除会同时移除非敏感索引和系统凭据管理器中的密文。".to_string()),
        None,
        None,
        UiAction::ShowCredentialManager,
        button("确认删除", !busy, UiAction::DeleteCredential(record_id.clone())),
        busy,
    )
}

// ---------------------------------------------------------------------------
// Laws
// ---------------------------------------------------------------------------
/// A dialog is left by its first button and goes on with its second; neither works while something
/// is running.
pub proof fn lemma_dialog_buttons(
    leave: UiAction,
    label: &'static str,
    enabled: bool,
    action: UiAction,
    busy: bool,
)
    ensures
        ({
            let b = leave_or(leave, label, enabled, action, busy);
            &&& b.len() == 2
            &&& b[0].action == leave && b[0].enabled == !busy
            &&& b[1].action == action && b[1].label == label && b[1].enabled == (enabled && !busy)
        }),
{
}

/// A dialog that shows something holds it: its title, its texts one under the other, its fields and
/// its buttons.
pub proof fn lemma_dialog_is_what_it_shows(
    dialog: Dialog,
    title: &'static str,
    texts: Seq<Seq<char>>,
    fields: Seq<FieldId>,
    buttons: Seq<Button>,
    i: int,
)
    requires
        dialog.shows(title, texts, fields, buttons),
    ensures
        dialog.title == title,
        dialog.texts@.len() == texts.len(),
        0 <= i < texts.len() ==> dialog.texts@[i]@ == texts[i],
        dialog.fields@ == fields,
        dialog.buttons@ == buttons,
{
    assert(views(dialog.texts@).len() == dialog.texts@.len());
    if 0 <= i < texts.len() {
        assert(views(dialog.texts@)[i] == dialog.texts@[i]@);
    }
}

/// A commit is named by the start of its name, eight bytes of it if it can be cut there.
pub proof fn lemma_short_names(oid: Seq<char>)
    ensures
        short_of(oid).is_prefix_of(oid),
        on_boundary(oid, 8) ==> crate::text::byte_len(short_of(oid)) == 8,
        !on_boundary(oid, 8) ==> short_of(oid) == oid,
{
    if on_boundary(oid, 8) {
        crate::text::lemma_split(oid, 8);
        assert(oid.take(split_index(oid, 8)).is_prefix_of(oid));
    } else {
        assert(oid.is_prefix_of(oid));
    }
}

/// The ways to reset are told apart, and only the last one says that changes are lost.
pub proof fn lemma_reset_texts(mode: ResetMode)
    ensures
        mode == ResetMode::Hard ==> contains_text(reset_text(mode), "丢弃"@),
        mode == ResetMode::Soft ==> contains_text(reset_text(mode), "保留暂存区和工作区"@),
        mode == ResetMode::Mixed ==> contains_text(reset_text(mode), "重置暂存区，保留工作区"@),
{
    match mode {
        ResetMode::Hard => {
            reveal_strlit("丢弃");
            reveal_strlit("强制重置");
            reveal_strlit("：");
            reveal_strlit("重置暂存区和工作区，丢弃未提交修改");
            let t = reset_text(mode);
            assert(t.subrange(15, 15int + "丢弃"@.len()) =~= "丢弃"@);
        },
        ResetMode::Soft => {
            reveal_strlit("保留暂存区和工作区");
            reveal_strlit("软重置");
            reveal_strlit("：");
            reveal_strlit("保留暂存区和工作区修改");
            let t = reset_text(mode);
            assert(t.subrange(4, 4int + "保留暂存区和工作区"@.len()) =~= "保留暂存区和工作区"@);
        },
        ResetMode::Mixed => {
            reveal_strlit("重置暂存区，保留工作区");
            reveal_strlit("混合重置");
            reveal_strlit("：");
            reveal_strlit("重置暂存区，保留工作区修改");
            let t = reset_text(mode);
            assert(t.subrange(5, 5int + "重置暂存区，保留工作区"@.len())
                =~= "重置暂存区，保留工作区"@);
        },
    }
}

/// What is discarded is counted, but for a single file; all files are named by their list.
pub proof fn lemma_discard_subjects(scope: DiffScope, count: nat)
    ensures
        contains_text(discard_subject(scope, DiscardTarget::Selected, count), decimal(count)),
        contains_text(discard_subject(scope, DiscardTarget::All, count), decimal(count)),
        discard_subject(DiffScope::Staged, DiscardTarget::All, count)[0] == '暂',
        discard_subject(DiffScope::Unstaged, DiscardTarget::All, count)[0] == '修',
        discard_help(DiffScope::Staged) != discard_help(DiffScope::Unstaged),
        contains_text(discard_help(DiffScope::Unstaged), "已暂存内容会保留"@),
{
    reveal_strlit("暂存区全部文件（");
    reveal_strlit("修改区全部文件（");
    reveal_strlit(
        "将丢弃这些文件全部未提交更改，包括暂存区和工作区。新增文件会被删除，删除文件会被恢复。此操作无法从 Khaslana 内撤销。",
    );
    reveal_strlit(
        "将仅丢弃这些文件尚未暂存的更改，已暂存内容会保留。未跟踪新增文件会被删除。此操作无法从 Khaslana 内撤销。",
    );
    reveal_strlit("已暂存内容会保留");
    crate::strings::lemma_contained_text("选定文件（"@, decimal(count), " 个）"@);
    let first = match scope {
        DiffScope::Staged => "暂存区全部文件（"@,
        DiffScope::Unstaged => "修改区全部文件（"@,
    };
    crate::strings::lemma_contained_text(first, decimal(count), " 个）"@);
    let a = discard_help(DiffScope::Staged);
    let b = discard_help(DiffScope::Unstaged);
    assert(a[1] == '丢' && b[1] == '仅');
    assert(b.subrange(16, 16int + "已暂存内容会保留"@.len()) =~= "已暂存内容会保留"@);
}

} // verus!
