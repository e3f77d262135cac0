//! Operations on the repository of a tab.

use vstd::prelude::*;

use crate::session::popups::DiscardTarget;
use crate::strings::contains_text;
use crate::types::conflicts::ConflictResolutionSide;
use crate::types::{DiffScope, ResetMode};

verus! {

/// An operation on the repository of a tab.
#[derive(Debug, PartialEq, Eq)]
pub enum RepoCommand {
    Fetch { remote: String },
    Pull { remote: String },
    Push { remote: String },
    Checkout { name: String },
    CreateBranch { name: String },
    RenameBranch { old_name: String, new_name: String },
    DeleteBranch { name: String },
    Merge { name: String },
    CheckoutRemoteBranch { name: String },
    CheckoutTag { name: String },
    ApplyStash { index: usize },
    PopStash { index: usize },
    Reset { oid: String, mode: ResetMode },
    Revert { oid: String },
    StageSelected { paths: Vec<String> },
    StageAll { paths: Vec<String> },
    UnstageSelected { paths: Vec<String> },
    UnstageAll { paths: Vec<String> },
    Commit { message: String },
    ResolveConflict { path: String, side: ConflictResolutionSide },
    MarkResolved { path: String },
    UpdateRemote { old_name: String, new_name: String, url: String },
    AddRemote { name: String, url: String },
    DeleteRemote { name: String },
}

impl RepoCommand {
    /// What the status says while the operation runs, and once it is done.
    pub open spec fn text(self) -> Seq<char> {
        match self {
            RepoCommand::Fetch { .. } => "拉取远程引用完成"@,
            RepoCommand::Pull { .. } => "拉取完成"@,
            RepoCommand::Push { .. } => "推送完成"@,
            RepoCommand::Checkout { .. } => "切换分支完成"@,
            RepoCommand::CreateBranch { .. } => "分支已创建"@,
            RepoCommand::RenameBranch { .. } => "分支已重命名"@,
            RepoCommand::DeleteBranch { .. } => "分支已删除"@,
            RepoCommand::Merge { .. } => "合并完成"@,
            RepoCommand::CheckoutRemoteBranch { .. } => "远端分支已拉取到本地"@,
            RepoCommand::CheckoutTag { .. } => "检出标签完成"@,
            RepoCommand::ApplyStash { .. } => "应用贮藏完成"@,
            RepoCommand::PopStash { .. } => "弹出贮藏完成"@,
            RepoCommand::Reset { .. } => "分支已重置"@,
            RepoCommand::Revert { .. } => "回滚提交完成"@,
            RepoCommand::StageSelected { .. } => "已暂存选定文件"@,
            RepoCommand::StageAll { .. } => "已暂存所有文件"@,
            RepoCommand::UnstageSelected { .. } => "已取消暂存选定文件"@,
            RepoCommand::UnstageAll { .. } => "已取消暂存所有文件"@,
            RepoCommand::Commit { .. } => "提交完成"@,
            RepoCommand::ResolveConflict { side: ConflictResolutionSide::Ours, .. } => "已使用当前版本解决冲突"@,
            RepoCommand::ResolveConflict { side: ConflictResolutionSide::Theirs, .. } => "已使用传入版本解决冲突"@,
            RepoCommand::MarkResolved { .. } => "冲突已标记为解决"@,
            RepoCommand::UpdateRemote { .. } => "远端已更新"@,
            RepoCommand::AddRemote { .. } => "远端已新增"@,
            RepoCommand::DeleteRemote { .. } => "远端已删除"@,
        }
    }

    pub fn label(&self) -> (r: &'static str)
        ensures
            r@ == self.text(),
    {
        match self {
            RepoCommand::Fetch { .. } => "拉取远程引用完成",
            RepoCommand::Pull { .. } => "拉取完成",
            RepoCommand::Push { .. } => "推送完成",
            RepoCommand::Checkout { .. } => "切换分支完成",
            RepoCommand::CreateBranch { .. } => "分支已创建",
            RepoCommand::RenameBranch { .. } => "分支已重命名",
            RepoCommand::DeleteBranch { .. } => "分支已删除",
            RepoCommand::Merge { .. } => "合并完成",
            RepoCommand::CheckoutRemoteBranch { .. } => "远端分支已拉取到本地",
            RepoCommand::CheckoutTag { .. } => "检出标签完成",
            RepoCommand::ApplyStash { .. } => "应用贮藏完成",
            RepoCommand::PopStash { .. } => "弹出贮藏完成",
            RepoCommand::Reset { .. } => "分支已重置",
            RepoCommand::Revert { .. } => "回滚提交完成",
            RepoCommand::StageSelected { .. } => "已暂存选定文件",
            RepoCommand::StageAll { .. } => "已暂存所有文件",
            RepoCommand::UnstageSelected { .. } => "已取消暂存选定文件",
            RepoCommand::UnstageAll { .. } => "已取消暂存所有文件",
            RepoCommand::Commit { .. } => "提交完成",
            RepoCommand::ResolveConflict { side: ConflictResolutionSide::Ours, .. } => "已使用当前版本解决冲突",
            RepoCommand::ResolveConflict { side: ConflictResolutionSide::Theirs, .. } => "已使用传入版本解决冲突",
            RepoCommand::MarkResolved { .. } => "冲突已标记为解决",
            RepoCommand::UpdateRemote { .. } => "远端已更新",
            RepoCommand::AddRemote { .. } => "远端已新增",
            RepoCommand::DeleteRemote { .. } => "远端已删除",
        }
    }
}

/// What is said once changes are discarded.
pub open spec fn said_after(scope: DiffScope, target: DiscardTarget) -> &'static str {
    match (scope, target) {
        (DiffScope::Staged, DiscardTarget::Single) => "已回滚文件全部更改",
        (DiffScope::Staged, DiscardTarget::Selected) => "已回滚选定文件全部更改",
        (DiffScope::Staged, DiscardTarget::All) => "已回滚暂存区全部更改",
        (DiffScope::Unstaged, DiscardTarget::Single) => "已回滚未暂存更改",
        (DiffScope::Unstaged, DiscardTarget::Selected) => "已回滚选定未暂存更改",
        (DiffScope::Unstaged, DiscardTarget::All) => "已回滚修改区全部更改",
    }
}

pub fn discarded_message(scope: DiffScope, target: DiscardTarget) -> (r: &'static str)
    ensures
        r == said_after(scope, target),
{
    match scope {
        DiffScope::Staged => match target {
            DiscardTarget::Single => "已回滚文件全部更改",
            DiscardTarget::Selected => "已回滚选定文件全部更改",
            DiscardTarget::All => "已回滚暂存区全部更改",
        },
        DiffScope::Unstaged => match target {
            DiscardTarget::Single => "已回滚未暂存更改",
            DiscardTarget::Selected => "已回滚选定未暂存更改",
            DiscardTarget::All => "已回滚修改区全部更改",
        },
    }
}

/// What is said of an operation names it.
pub proof fn lemma_commands_are_named(command: RepoCommand)
    ensures
        match command {
            RepoCommand::Fetch { .. } => contains_text(command.text(), "引用"@),
            RepoCommand::Pull { .. } => contains_text(command.text(), "拉取"@),
            RepoCommand::Push { .. } => contains_text(command.text(), "推送"@),
            RepoCommand::Checkout { .. } => contains_text(command.text(), "切换"@),
            RepoCommand::CreateBranch { .. } => contains_text(command.text(), "创建"@),
            RepoCommand::RenameBranch { .. } => contains_text(command.text(), "重命名"@),
            RepoCommand::DeleteBranch { .. } => contains_text(command.text(), "删除"@),
            RepoCommand::Merge { .. } => contains_text(command.text(), "合并"@),
            RepoCommand::CheckoutRemoteBranch { .. } => contains_text(command.text(), "远端分支"@),
            RepoCommand::CheckoutTag { .. } => contains_text(command.text(), "标签"@),
            RepoCommand::ApplyStash { .. } => contains_text(command.text(), "应用贮藏"@),
            RepoCommand::PopStash { .. } => contains_text(command.text(), "弹出贮藏"@),
            RepoCommand::Reset { .. } => contains_text(command.text(), "重置"@),
            RepoCommand::Revert { .. } => contains_text(command.text(), "回滚提交"@),
            RepoCommand::StageSelected { .. } => contains_text(command.text(), "已暂存选定"@),
            RepoCommand::StageAll { .. } => contains_text(command.text(), "已暂存所有"@),
            RepoCommand::UnstageSelected { .. } => contains_text(command.text(), "取消暂存选定"@),
            RepoCommand::UnstageAll { .. } => contains_text(command.text(), "取消暂存所有"@),
            RepoCommand::Commit { .. } => contains_text(command.text(), "提交完成"@),
            RepoCommand::MarkResolved { .. } => contains_text(command.text(), "标记为解决"@),
            RepoCommand::UpdateRemote { .. } => contains_text(command.text(), "更新"@),
            RepoCommand::AddRemote { .. } => contains_text(command.text(), "新增"@),
            RepoCommand::DeleteRemote { .. } => contains_text(command.text(), "远端已删除"@),
            RepoCommand::ResolveConflict { side, .. } => contains_text(
                command.text(),
                if side == ConflictResolutionSide::Ours {
                    "当前版本"@
                } else {
                    "传入版本"@
                },
            ),
        },
{
    match command {
        RepoCommand::Fetch { .. } => {
            reveal_strlit("引用");
            reveal_strlit("拉取远程引用完成");
            assert("拉取远程引用完成"@.subrange(4, 4int + "引用"@.len()) =~= "引用"@);
        },
        RepoCommand::Pull { .. } => {
            reveal_strlit("拉取");
            reveal_strlit("拉取完成");
            assert("拉取完成"@.subrange(0, 0int + "拉取"@.len()) =~= "拉取"@);
        },
        RepoCommand::Push { .. } => {
            reveal_strlit("推送");
            reveal_strlit("推送完成");
            assert("推送完成"@.subrange(0, 0int + "推送"@.len()) =~= "推送"@);
        },
        RepoCommand::Checkout { .. } => {
            reveal_strlit("切换");
            reveal_strlit("切换分支完成");
            assert("切换分支完成"@.subrange(0, 0int + "切换"@.len()) =~= "切换"@);
        },
        RepoCommand::CreateBranch { .. } => {
            reveal_strlit("创建");
            reveal_strlit("分支已创建");
            assert("分支已创建"@.subrange(3, 3int + "创建"@.len()) =~= "创建"@);
        },
        RepoCommand::RenameBranch { .. } => {
            reveal_strlit("重命名");
            reveal_strlit("分支已重命名");
            assert("分支已重命名"@.subrange(3, 3int + "重命名"@.len()) =~= "重命名"@);
        },
        RepoCommand::DeleteBranch { .. } => {
            reveal_strlit("删除");
            reveal_strlit("分支已删除");
            assert("分支已删除"@.subrange(3, 3int + "删除"@.len()) =~= "删除"@);
        },
        RepoCommand::Merge { .. } => {
            reveal_strlit("合并");
            reveal_strlit("合并完成");
            assert("合并完成"@.subrange(0, 0int + "合并"@.len()) =~= "合并"@);
        },
        RepoCommand::CheckoutRemoteBranch { .. } => {
            reveal_strlit("远端分支");
            reveal_strlit("远端分支已拉取到本地");
            assert("远端分支已拉取到本地"@.subrange(0, 0int + "远端分支"@.len()) =~= "远端分支"@);
        },
        RepoCommand::CheckoutTag { .. } => {
            reveal_strlit("标签");
            reveal_strlit("检出标签完成");
            assert("检出标签完成"@.subrange(2, 2int + "标签"@.len()) =~= "标签"@);
        },
        RepoCommand::ApplyStash { .. } => {
            reveal_strlit("应用贮藏");
            reveal_strlit("应用贮藏完成");
            assert("应用贮藏完成"@.subrange(0, 0int + "应用贮藏"@.len()) =~= "应用贮藏"@);
        },
        RepoCommand::PopStash { .. } => {
            reveal_strlit("弹出贮藏");
            reveal_strlit("弹出贮藏完成");
            assert("弹出贮藏完成"@.subrange(0, 0int + "弹出贮藏"@.len()) =~= "弹出贮藏"@);
        },
        RepoCommand::Reset { .. } => {
            reveal_strlit("重置");
            reveal_strlit("分支已重置");
            assert("分支已重置"@.subrange(3, 3int + "重置"@.len()) =~= "重置"@);
        },
        RepoCommand::Revert { .. } => {
            reveal_strlit("回滚提交");
            reveal_strlit("回滚提交完成");
            assert("回滚提交完成"@.subrange(0, 0int + "回滚提交"@.len()) =~= "回滚提交"@);
        },
        RepoCommand::StageSelected { .. } => {
            reveal_strlit("已暂存选定");
            reveal_strlit("已暂存选定文件");
            assert("已暂存选定文件"@.subrange(0, 0int + "已暂存选定"@.len()) =~= "已暂存选定"@);
        },
        RepoCommand::StageAll { .. } => {
            reveal_strlit("已暂存所有");
            reveal_strlit("已暂存所有文件");
            assert("已暂存所有文件"@.subrange(0, 0int + "已暂存所有"@.len()) =~= "已暂存所有"@);
        },
        RepoCommand::UnstageSelected { .. } => {
            reveal_strlit("取消暂存选定");
            reveal_strlit("已取消暂存选定文件");
            assert("已取消暂存选定文件"@.subrange(1, 1int + "取消暂存选定"@.len()) =~= "取消暂存选定"@);
        },
        RepoCommand::UnstageAll { .. } => {
            reveal_strlit("取消暂存所有");
            reveal_strlit("已取消暂存所有文件");
            assert("已取消暂存所有文件"@.subrange(1, 1int + "取消暂存所有"@.len()) =~= "取消暂存所有"@);
        },
        RepoCommand::Commit { .. } => {
            reveal_strlit("提交完成");
            assert("提交完成"@.subrange(0, 0int + "提交完成"@.len()) =~= "提交完成"@);
        },
        RepoCommand::MarkResolved { .. } => {
            reveal_strlit("标记为解决");
            reveal_strlit("冲突已标记为解决");
            assert("冲突已标记为解决"@.subrange(3, 3int + "标记为解决"@.len()) =~= "标记为解决"@);
        },
        RepoCommand::UpdateRemote { .. } => {
            reveal_strlit("更新");
            reveal_strlit("远端已更新");
            assert("远端已更新"@.subrange(3, 3int + "更新"@.len()) =~= "更新"@);
        },
        RepoCommand::AddRemote { .. } => {
            reveal_strlit("新增");
            reveal_strlit("远端已新增");
            assert("远端已新增"@.subrange(3, 3int + "新增"@.len()) =~= "新增"@);
        },
        RepoCommand::DeleteRemote { .. } => {
            reveal_strlit("远端已删除");
            assert("远端已删除"@.subrange(0, 0int + "远端已删除"@.len()) =~= "远端已删除"@);
        },
        RepoCommand::ResolveConflict { side: ConflictResolutionSide::Ours, .. } => {
            reveal_strlit("当前版本");
            reveal_strlit("已使用当前版本解决冲突");
            assert("已使用当前版本解决冲突"@.subrange(3, 3int + "当前版本"@.len()) =~= "当前版本"@);
        },
        RepoCommand::ResolveConflict { side: ConflictResolutionSide::Theirs, .. } => {
            reveal_strlit("传入版本");
            reveal_strlit("已使用传入版本解决冲突");
            assert("已使用传入版本解决冲突"@.subrange(3, 3int + "传入版本"@.len()) =~= "传入版本"@);
        },
    }
}

/// What is said after changes were discarded names which of them were.
pub proof fn lemma_discards_are_named(scope: DiffScope, target: DiscardTarget)
    ensures
        match (scope, target) {
            (DiffScope::Staged, DiscardTarget::Single) => contains_text(
                said_after(scope, target)@,
                "文件全部"@,
            ),
            (DiffScope::Staged, DiscardTarget::Selected) => contains_text(
                said_after(scope, target)@,
                "选定文件全部"@,
            ),
            (DiffScope::Staged, DiscardTarget::All) => contains_text(
                said_after(scope, target)@,
                "暂存区全部"@,
            ),
            (DiffScope::Unstaged, DiscardTarget::Single) => contains_text(
                said_after(scope, target)@,
                "未暂存更改"@,
            ),
            (DiffScope::Unstaged, DiscardTarget::Selected) => contains_text(
                said_after(scope, target)@,
                "选定未暂存"@,
            ),
            (DiffScope::Unstaged, DiscardTarget::All) => contains_text(
                said_after(scope, target)@,
                "修改区全部"@,
            ),
        },
{
    match (scope, target) {
        (DiffScope::Staged, DiscardTarget::Single) => {
            reveal_strlit("文件全部");
            reveal_strlit("已回滚文件全部更改");
            assert("已回滚文件全部更改"@.subrange(3, 3int + "文件全部"@.len()) =~= "文件全部"@);
        },
        (DiffScope::Staged, DiscardTarget::Selected) => {
            reveal_strlit("选定文件全部");
            reveal_strlit("已回滚选定文件全部更改");
            assert("已回滚选定文件全部更改"@.subrange(3, 3int + "选定文件全部"@.len()) =~= "选定文件全部"@);
        },
        (DiffScope::Staged, DiscardTarget::All) => {
            reveal_strlit("暂存区全部");
            reveal_strlit("已回滚暂存区全部更改");
            assert("已回滚暂存区全部更改"@.subrange(3, 3int + "暂存区全部"@.len()) =~= "暂存区全部"@);
        },
        (DiffScope::Unstaged, DiscardTarget::Single) => {
            reveal_strlit("未暂存更改");
            reveal_strlit("已回滚未暂存更改");
            assert("已回滚未暂存更改"@.subrange(3, 3int + "未暂存更改"@.len()) =~= "未暂存更改"@);
        },
        (DiffScope::Unstaged, DiscardTarget::Selected) => {
            reveal_strlit("选定未暂存");
            reveal_strlit("已回滚选定未暂存更改");
            assert("已回滚选定未暂存更改"@.subrange(3, 3int + "选定未暂存"@.len()) =~= "选定未暂存"@);
        },
        (DiffScope::Unstaged, DiscardTarget::All) => {
            reveal_strlit("修改区全部");
            reveal_strlit("已回滚修改区全部更改");
            assert("已回滚修改区全部更改"@.subrange(3, 3int + "修改区全部"@.len()) =~= "修改区全部"@);
        },
    }
}

} // verus!
