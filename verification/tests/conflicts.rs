//! Texts in conflict and their drafts.

use khaslana::git::conflicts::{parse_diff3_conflict_text, split_lines_preserve_endings};
use khaslana::git::paths::PathPart;
use khaslana::git::resolve::{
    apply_conflict_draft, apply_conflict_draft_and_resolve, blob_is_binary, conflict_fallback,
    conflict_file_view, conflict_for_path, conflict_to_resolve, mark_conflict_resolved,
    mark_conflict_resolved_inner, resolve_conflict_with_side,
    ConflictEntry, ConflictLookup, PathState, ResolvedEntry, SideAction,
};
use khaslana::types::conflict_paths;
use khaslana::types::conflicts::{
    ConflictBlockResolution, ConflictDraftStatus, ConflictFileKind, ConflictFileView,
    ConflictResolutionSide,
};
use khaslana::types::{GitError, OperationEvent, RepositorySnapshot};
use khaslana::ui::actions::UiAction;
use khaslana::ui::conflict_view::{
    conflict_detail, conflict_file_row, conflict_header, conflict_row, conflict_status_message,
    conflict_summary, conflict_text_lines, ConflictDetail,
};

#[test]
fn conflict_paths_follow_snapshot_conflict_order() {
    let mut snapshot = RepositorySnapshot::default();
    snapshot.conflicts = vec!["a.txt".to_string(), "dir/b.txt".to_string()];

    assert_eq!(
        conflict_paths(Some(&snapshot)),
        vec!["a.txt".to_string(), "dir/b.txt".to_string()]
    );
    assert!(conflict_paths(None).is_empty());
}

#[test]
fn conflict_status_message_names_operation_and_resolution_area() {
    assert_eq!(
        conflict_status_message("合并完成", 2),
        "合并产生冲突，请在左侧“冲突”区域解决（2 个文件）"
    );
    assert_eq!(
        conflict_status_message("正在同步", 1),
        "操作产生冲突，请在左侧“冲突”区域解决（1 个文件）"
    );
}

const MERGED: &str = "start\n<<<<<<< OURS\nmain-one\n||||||| BASE\none\n=======\nfeature-one\n>>>>>>> THEIRS\nmiddle\n<<<<<<< OURS\nmain-two\n||||||| BASE\ntwo\n=======\nfeature-two\n>>>>>>> THEIRS\nend\n";

fn view() -> ConflictFileView {
    conflict_file_view("same.txt", MERGED.as_bytes()).unwrap()
}

fn marked(view: &ConflictFileView, i: usize) -> &str {
    &view.draft[view.blocks[i].start..view.blocks[i].end]
}

fn message(error: GitError) -> String {
    match error {
        GitError::Message(text) | GitError::Git(text) | GitError::Io(text) => text,
        other => panic!("{other:?}"),
    }
}

fn none() -> ConflictLookup {
    ConflictLookup::NotFound("gone".to_string())
}

fn started(text: &str) -> Option<OperationEvent> {
    Some(OperationEvent::Started(text.to_string()))
}

#[test]
fn a_draft_is_written_only_over_a_conflict() {
    let inside = vec![PathPart::Normal];
    let begun = apply_conflict_draft(&inside, ConflictLookup::Found, true, "a/b", "draft\n");
    assert_eq!(begun.started, started("正在应用冲突草稿"));
    let plan = begun.next.unwrap();
    assert_eq!((plan.todo.path.as_str(), plan.todo.text.as_str()), ("a/b", "draft\n"));
    assert_eq!(plan.finished, OperationEvent::Finished("冲突草稿已应用到工作区".to_string()));
    let begun = apply_conflict_draft(&inside, none(), false, "a/b", "d");
    assert_eq!(begun.started, started("正在应用冲突草稿"));
    assert_eq!(message(begun.next.unwrap_err()), "该文件不存在冲突：a/b");
    let failed = ConflictLookup::Failed("locked".to_string());
    assert_eq!(
        message(apply_conflict_draft(&inside, failed, true, "a/b", "d").next.unwrap_err()),
        "locked"
    );
    let bare = apply_conflict_draft(&inside, ConflictLookup::Found, false, "a/b", "d");
    assert_eq!(message(bare.next.unwrap_err()), "裸仓库没有工作区，不能写入冲突结果");
    let outside = vec![PathPart::Parent, PathPart::Normal];
    let begun = apply_conflict_draft(&outside, none(), true, "../b", "d");
    assert_eq!(begun.started, None);
    assert_eq!(message(begun.next.unwrap_err()), "路径不在工作区内，不能应用冲突草稿");
    let begun = apply_conflict_draft_and_resolve(&outside, none(), true, "../b", "d");
    assert_eq!(message(begun.next.unwrap_err()), "路径不在工作区内，不能应用并解决冲突");
    let begun = apply_conflict_draft_and_resolve(&inside, ConflictLookup::Found, true, "a", "d");
    assert_eq!(begun.started, started("正在应用结果并标记冲突解决"));
    let plan = begun.next.unwrap();
    assert_eq!((plan.todo.path.as_str(), plan.todo.text.as_str()), ("a", "d"));
    assert_eq!(plan.finished, OperationEvent::Finished("冲突结果已应用并标记解决".to_string()));
}

#[test]
fn blocks_mark_whole_characters() {
    let mut view = view();
    assert!(view.marks_text(0) && view.marks_text(1));
    assert!(!view.marks_text(2));
    view.draft = "\u{4e00}".to_string();
    view.blocks[0].start = 0;
    view.blocks[0].end = 3;
    assert!(view.marks_text(0));
    view.blocks[0].end = 1;
    assert!(!view.marks_text(0));
    view.blocks[0].start = 3;
    view.blocks[0].end = 0;
    assert!(!view.marks_text(0));
}

#[test]
fn a_draft_starts_with_our_side() {
    let view = view();
    assert_eq!(view.draft, "start\nmain-one\nmiddle\nmain-two\nend\n");
    assert_eq!(marked(&view, 0), "main-one\n");
    assert_eq!(marked(&view, 1), "main-two\n");
    assert_eq!(view.blocks[1].base.as_deref(), Some("two\n"));
    assert_eq!(view.unresolved_block_count(), 2);
    assert_eq!(view.draft_status, ConflictDraftStatus::Clean);
}

#[test]
fn a_text_without_marks_is_its_own_draft() {
    let (draft, blocks) = parse_diff3_conflict_text("a\nb").unwrap();
    assert_eq!(draft, "a\nb");
    assert!(blocks.is_empty());
}

#[test]
fn missing_marks_are_reported() {
    let fault = |text: &str| message(parse_diff3_conflict_text(text).unwrap_err());
    assert_eq!(fault("<<<<<<< OURS\na\n"), "冲突文本缺少 BASE 分隔标记");
    assert_eq!(
        fault("<<<<<<< OURS\na\n||||||| BASE\n"),
        "冲突文本缺少中间分隔标记"
    );
    assert_eq!(
        fault("<<<<<<< OURS\na\n||||||| BASE\n=======\nb"),
        "冲突文本缺少 THEIRS 结束标记"
    );
    assert_eq!(
        message(conflict_file_view("f", &[0xff, 0xfe]).unwrap_err()),
        "该冲突文件不是 UTF-8 文本，暂不能使用可视化编辑器"
    );
}

#[test]
fn lines_keep_their_ends() {
    assert_eq!(split_lines_preserve_endings("a\r\nb\n\nc"), vec!["a\r\n", "b\n", "\n", "c"]);
    assert!(split_lines_preserve_endings("").is_empty());
}

#[test]
fn the_last_decision_on_a_block_wins() {
    let mut view = view();
    view.apply_block_resolution(0, ConflictBlockResolution::BothTheirsFirst);
    assert_eq!(marked(&view, 0), "feature-one\nmain-one\n");
    view.apply_block_resolution(0, ConflictBlockResolution::Theirs);
    assert_eq!(view.draft, "start\nfeature-one\nmiddle\nmain-two\nend\n");
    assert_eq!(marked(&view, 1), "main-two\n");
    assert_eq!(view.unresolved_block_count(), 1);
    view.apply_block_resolution(7, ConflictBlockResolution::Ours);
    assert_eq!(view.draft, "start\nfeature-one\nmiddle\nmain-two\nend\n");
    view.mark_applied();
    assert_eq!(view.draft_status, ConflictDraftStatus::Applied);
    view.mark_dirty();
    assert_eq!(view.draft_status, ConflictDraftStatus::Dirty);
}

#[test]
fn an_edit_reopens_the_block_it_touches_and_no_other() {
    let mut view = view();
    view.apply_block_resolution(0, ConflictBlockResolution::Ours);
    view.apply_block_resolution(1, ConflictBlockResolution::Ours);
    view.set_draft("start\nmain-one\nmiddle\nmain-2\nend\n".to_string());
    assert_eq!(view.blocks[0].resolution, Some(ConflictBlockResolution::Ours));
    assert_eq!(view.blocks[1].resolution, None);
    assert!(view.blocks[1].has_manual_edits);
    assert_eq!(marked(&view, 0), "main-one\n");
    assert_eq!(marked(&view, 1), "main-2\n");
    view.set_draft("very start\nmain-one\nmiddle\nmain-2\nend\n".to_string());
    assert_eq!(marked(&view, 0), "main-one\n");
    assert!(!view.blocks[0].has_manual_edits);
}

#[test]
fn only_text_with_three_sides_is_edited() {
    let text = || Some(ConflictEntry { mode: 0o100644, binary: Some(false) });
    let unsupported = conflict_fallback("f", &None, &text(), &text()).unwrap();
    assert_eq!(unsupported.kind, ConflictFileKind::Unsupported);
    let binary = Some(ConflictEntry { mode: 0o100644, binary: None });
    assert_eq!(
        conflict_fallback("f", &text(), &binary, &text()).unwrap().kind,
        ConflictFileKind::Binary
    );
    assert!(conflict_fallback("f", &text(), &text(), &text()).is_none());
    assert!(blob_is_binary(b"a\0b"));
    assert!(!blob_is_binary(b"ab"));
}

#[test]
fn sides_and_paths_decide_how_a_conflict_is_cleared() {
    let inside = vec![PathPart::Normal];
    let take = |side, ours, theirs| {
        resolve_conflict_with_side(&inside, ConflictLookup::Found, "a", side, ours, theirs)
    };
    let begun = take(ConflictResolutionSide::Theirs, true, false);
    assert_eq!(begun.started, started("正在使用传入版本解决冲突"));
    assert_eq!(begun.next.unwrap().todo, SideAction::RemoveFile);
    let plan = take(ConflictResolutionSide::Ours, true, false).next.unwrap();
    assert_eq!(plan.todo, SideAction::CheckOut);
    assert_eq!(plan.finished, OperationEvent::Finished("已使用当前版本解决冲突".to_string()));
    let mark = |state| mark_conflict_resolved(&inside, ConflictLookup::Found, "a", state).next;
    assert_eq!(mark(PathState::File).unwrap().todo, ResolvedEntry::Add);
    assert_eq!(mark(PathState::Missing).unwrap().todo, ResolvedEntry::Remove);
    assert_eq!(
        message(mark(PathState::Directory).unwrap_err()),
        "冲突路径是文件夹，不能标记为已解决"
    );
    assert_eq!(
        message(mark(PathState::NoWorktree).unwrap_err()),
        "裸仓库没有工作区，不能标记冲突已解决"
    );
    assert_eq!(message(mark(PathState::Unknown("io".to_string())).unwrap_err()), "io");
    assert_eq!(
        mark_conflict_resolved_inner(ConflictLookup::Found, "a", PathState::File).unwrap(),
        ResolvedEntry::Add
    );
    assert_eq!(
        message(conflict_for_path(true, "a/b", String::new())),
        "该文件不存在冲突：a/b"
    );
}

#[test]
fn nothing_is_resolved_where_there_is_no_conflict() {
    let inside = vec![PathPart::Normal, PathPart::Normal];
    let side = ConflictResolutionSide::Ours;
    let begun = resolve_conflict_with_side(&inside, none(), "a/b", side, true, true);
    assert_eq!(begun.started, started("正在使用当前版本解决冲突"));
    assert_eq!(message(begun.next.unwrap_err()), "该文件不存在冲突：a/b");
    let begun = mark_conflict_resolved(&inside, none(), "a/b", PathState::File);
    assert_eq!(begun.started, started("正在标记冲突已解决"));
    assert_eq!(message(begun.next.unwrap_err()), "该文件不存在冲突：a/b");
    let again = mark_conflict_resolved_inner(none(), "a/b", PathState::File);
    assert_eq!(message(again.unwrap_err()), "该文件不存在冲突：a/b");
    let outside = vec![PathPart::Root, PathPart::Normal];
    let begun = resolve_conflict_with_side(&outside, none(), "/b", side, true, true);
    assert_eq!(begun.started, None);
    assert_eq!(message(begun.next.unwrap_err()), "路径不在工作区内，不能解决冲突");
    let begun = mark_conflict_resolved(&outside, none(), "/b", PathState::File);
    assert_eq!(message(begun.next.unwrap_err()), "路径不在工作区内，不能标记冲突已解决");
    let look = |lookup| conflict_to_resolve(&inside, "不能读取冲突详情", lookup, "a/b");
    assert!(look(ConflictLookup::Found).is_ok());
    assert_eq!(message(look(none()).unwrap_err()), "该文件不存在冲突：a/b");
}

#[test]
fn a_file_in_conflict_is_shown_with_its_progress() {
    let mut view = view();
    let row = conflict_file_row(Some(&view));
    assert_eq!((row.badge, row.unresolved.as_str(), row.note), ("文本", "未处理 2", None));
    assert_eq!(conflict_file_row(None).badge, "加载中");
    view.apply_block_resolution(0, ConflictBlockResolution::Theirs);
    assert_eq!(conflict_file_row(Some(&view)).note, Some("草稿已修改"));
    let path = Some("same.txt".to_string());
    let header = conflict_header(&path, Some(&view), 9, true, false);
    assert_eq!(header.progress, "块 2/2，未处理 1");
    assert_eq!(header.buttons[2].label, "隐藏 Base");
    assert!(header.buttons[4].enabled);
    let nothing = conflict_header(&None, None, 0, false, false);
    assert_eq!(nothing.title, "请选择一个冲突文件");
    assert_eq!(nothing.progress, "无文本冲突块");
    assert!(nothing.buttons.iter().all(|button| !button.enabled));
    assert_eq!(conflict_summary(3), "存在 3 个冲突文件");
}

#[test]
fn both_sides_and_the_base_of_a_block_are_shown() {
    let view = view();
    let path = Some("same.txt".to_string());
    let detail = match conflict_detail(&path, Some(&view), 1, true, false) {
        ConflictDetail::Text(detail) => detail,
        other => panic!("{other:?}"),
    };
    assert_eq!(detail.ours.lines, vec!["main-two", " "]);
    assert_eq!(detail.theirs.lines, vec!["feature-two", " "]);
    assert_eq!(detail.base, Some(vec!["two".to_string(), " ".to_string()]));
    assert!(detail.warning.is_some());
    assert_eq!(
        detail.theirs.buttons[1].action,
        UiAction::AcceptBlock(ConflictBlockResolution::BothTheirsFirst)
    );
    assert_eq!(conflict_text_lines(""), vec![" "]);
    assert!(matches!(
        conflict_detail(&None, None, 0, false, false),
        ConflictDetail::Nothing("请选择一个冲突文件")
    ));
    assert_eq!(
        conflict_row(&"p".to_string(), true)[2].action,
        UiAction::MarkResolved { path: "p".to_string() }
    );
}
