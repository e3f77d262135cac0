//! What the window shows.

use khaslana::clock::{commit_time_label, timestamp_label};
use khaslana::graph::CommitGraphRow;
use khaslana::migration::{
    arg_value, import_mode, migration_args, migration_plan, summary_lines, LegacyImportSummary,
    LegacySource, MigrationPlan,
};
use khaslana::session::commands::RepoCommand;
use khaslana::session::keys::FieldId;
use khaslana::session::popups::DiscardTarget;
use khaslana::session::tab::{MainMode, RepoTabId, RepoTabState, RepositoryLoading};
use khaslana::session::view_workflow::WorkflowPanel;
use khaslana::types::{
    BranchInfo, BranchKind, CommitInfo, CommitRefInfo, CommitRefKind, DiffLineKind, DiffScope,
    GitError, RepositorySnapshot, ResetMode,
};
use khaslana::ui::actions::{app_button_palette, format_badge_count, ButtonTone, UiAction};
use khaslana::ui::avatar::{author_avatar_color, author_avatar_initial};
use khaslana::ui::changes::{change_section, diff_line, discard_paths_preview, DiffRowView};
use khaslana::ui::dialogs::{
    clone_dialog, confirm_discard_change_dialog, confirm_reset_dialog, create_branch_dialog,
};
use khaslana::ui::feedback::{
    click_feedback, should_toast_completion, AppToastKind, ClickFeedback, ClickState, Feedbacks,
};
use khaslana::ui::frame::{mode_buttons, scroll_key, status_line, toolbar_buttons, toolbar_path};
use khaslana::ui::history::{
    commit_graph_cell, commit_ref_label, commit_ref_overflow_label, commit_row, history_page,
};
use khaslana::ui::input::{input_runs, input_segments, InputRun, Segment};
use khaslana::ui::looks::{
    badge, list_row_surface, nav_row, segmented_button, status_pill, toggle_box,
};
use khaslana::ui::menus::{branch_menu, change_menu, commit_menu, encoding_menu_label, MenuEntry};
use khaslana::ui::sidebar::{
    branch_click, branch_row, current_branch_row, sidebar, stash_row_label, SidebarSection,
};
use khaslana::ui::splitter::{size_range, MouseInput, ResizeStep, ResizeTarget, Splitters};
use khaslana::ui::theme;
use khaslana::ui::workflow_view::workflow_dialog;

fn text(s: &str) -> String {
    s.to_string()
}

fn texts(items: &[&str]) -> Vec<String> {
    items.iter().map(|s| s.to_string()).collect()
}

fn branch(name: &str, kind: BranchKind, is_head: bool) -> BranchInfo {
    BranchInfo {
        name: text(name),
        kind,
        is_head,
        upstream: None,
    }
}

fn tab() -> RepoTabState {
    let mut tab = RepoTabState::new(RepoTabId(1), Some(text("p")));
    let mut effects = Vec::new();
    let snapshot = RepositorySnapshot {
        branches: vec![
            branch("dev", BranchKind::Local, false),
            branch("main", BranchKind::Local, true),
            branch("origin/main", BranchKind::Remote, false),
        ],
        ..RepositorySnapshot::default()
    };
    let load_id = tab.repository_load_id;
    tab.repository_fast_loaded(text("ok"), snapshot, load_id, &mut effects);
    tab
}

// ---------------------------------------------------------------------------
// Messages
// ---------------------------------------------------------------------------
#[test]
fn at_most_five_messages_are_shown() {
    let mut feedbacks = Feedbacks::new();
    feedbacks.notify_toast(AppToastKind::Info, text("  "), 0);
    assert!(feedbacks.messages.is_empty());
    for i in 0..7 {
        feedbacks.notify_toast(AppToastKind::Info, format!("m{i}"), 10);
    }
    let shown: Vec<&str> = feedbacks.messages.iter().map(|m| m.message.as_str()).collect();
    assert_eq!(shown, vec!["m2", "m3", "m4", "m5", "m6"]);
    assert_eq!(feedbacks.messages[4].id, 7);
}

#[test]
fn important_messages_stay_longer() {
    let mut feedbacks = Feedbacks::new();
    feedbacks.notify_completion(text("合并完成"), 1_000);
    assert_eq!((feedbacks.next_id, feedbacks.messages[0].id), (1, 1));
    feedbacks.notify_completion(text("  "), 1_000);
    assert_eq!(feedbacks.next_id, 1);
    feedbacks.notify_completion(text("合并失败"), 1_000);
    assert_eq!(feedbacks.next_id, 2);
    assert_eq!(feedbacks.messages[0].kind, AppToastKind::Success);
    assert_eq!(feedbacks.messages[0].title, "完成");
    assert!(!feedbacks.messages[0].is_expired(4_999));
    assert!(feedbacks.messages[0].is_expired(5_000));
    assert_eq!(feedbacks.messages[1].kind, AppToastKind::Warning);
    assert!(!feedbacks.messages[1].is_expired(7_999));
    assert!(feedbacks.messages[1].is_expired(8_000));
}

#[test]
fn ids_of_messages_start_again_at_one() {
    let mut feedbacks = Feedbacks::new();
    feedbacks.next_id = u64::MAX;
    feedbacks.notify_toast(AppToastKind::Error, text("m"), 0);
    assert_eq!(feedbacks.next_id, 1);
}

#[test]
fn a_click_is_answered_once() {
    let state = |status: &str, feedbacks: usize| ClickState {
        busy: false,
        status: text(status),
        feedbacks,
    };
    assert_eq!(
        click_feedback(&state("a", 0), &state("提交完成", 0), &None),
        ClickFeedback::Success(text("提交完成"))
    );
    assert_eq!(
        click_feedback(&state("a", 0), &state("提交完成", 1), &None),
        ClickFeedback::Nothing
    );
    assert_eq!(
        click_feedback(&state("a", 0), &state("b", 0), &Some(text("e"))),
        ClickFeedback::Error(text("e"))
    );
    assert_eq!(
        click_feedback(&state("a", 0), &state("b", 0), &None),
        ClickFeedback::Nothing
    );
    assert!(should_toast_completion("已复制提交 SHA"));
    assert!(!should_toast_completion("正在加载"));
}

// ---------------------------------------------------------------------------
// Fields
// ---------------------------------------------------------------------------
#[test]
fn fields_show_text_selection_and_caret() {
    let show = |selection: Option<(usize, usize)>, caret: usize| {
        input_segments("ab你cd", "hint", false, true, selection, caret)
    };
    assert_eq!(
        show(None, 2),
        vec![Segment::Text(text("ab")), Segment::Caret, Segment::Text(text("你cd"))]
    );
    assert_eq!(
        show(Some((2, 5)), 5),
        vec![
            Segment::Text(text("ab")),
            Segment::Selected(text("你")),
            Segment::Caret,
            Segment::Text(text("cd")),
        ]
    );
    assert_eq!(
        show(Some((2, 5)), 2)[0],
        Segment::Caret
    );
    assert_eq!(
        input_segments("", "hint", true, true, None, 0),
        vec![Segment::Caret, Segment::Placeholder(text("hint"))]
    );
    assert_eq!(
        input_segments("", "hint", true, false, None, 0),
        vec![Segment::Placeholder(text("hint"))]
    );
}

#[test]
fn whatever_is_selected_the_whole_text_is_shown() {
    for (from, to, caret) in [(0, 7, 7), (1, 2, 1), (2, 5, 7)] {
        let shown: String = input_segments("ab你cd", "", false, true, Some((from, to)), caret)
            .into_iter()
            .map(|segment| match segment {
                Segment::Caret => String::new(),
                Segment::Text(s) | Segment::Selected(s) | Segment::Placeholder(s) => s,
            })
            .collect();
        assert_eq!(shown, "ab你cd");
    }
}

// ---------------------------------------------------------------------------
// Bars between panes
// ---------------------------------------------------------------------------
#[test]
fn bars_follow_the_mouse_while_they_are_dragged() {
    let mut bars = Splitters::new();
    let target = ResizeTarget::Changes;
    let moved = MouseInput::Move { dragging: true };
    let press = |inside: bool, click_count: usize| MouseInput::Down { inside, click_count };
    assert_eq!(bars.handle(target, moved), ResizeStep::Nothing);
    assert_eq!(bars.handle(target, press(false, 1)), ResizeStep::Nothing);
    assert_eq!(bars.handle(target, press(true, 1)), ResizeStep::Start);
    assert!(bars.is_resizing(target));
    assert!(!bars.is_resizing(ResizeTarget::Sidebar));
    assert_eq!(bars.handle(target, moved), ResizeStep::Follow);
    assert_eq!(bars.handle(target, MouseInput::Up), ResizeStep::Finish);
    assert_eq!(bars.handle(target, MouseInput::Up), ResizeStep::Nothing);
    assert_eq!(bars.handle(target, press(true, 2)), ResizeStep::Reset);
    assert!(!bars.is_resizing(target));
    assert_eq!(size_range(ResizeTarget::HistoryTop).max, 760);
}

// ---------------------------------------------------------------------------
// Buttons and menus
// ---------------------------------------------------------------------------
#[test]
fn buttons_that_talk_to_a_remote_need_one() {
    let buttons = toolbar_buttons(true, RepositoryLoading::default(), false, false);
    assert!(buttons[2].enabled);
    assert!(!buttons[3].enabled);
    let buttons = toolbar_buttons(true, RepositoryLoading::default(), true, false);
    assert!(buttons[3].enabled && buttons[4].enabled && buttons[5].enabled);
    assert_eq!(toolbar_path(&None), "未打开仓库");
    assert_eq!(mode_buttons(MainMode::History)[1].colors.bg, theme::COLOR_BLUE);
    assert_eq!(app_button_palette(ButtonTone::Primary, false).fg, theme::TEXT_FAINT);
    assert_eq!(format_badge_count(99), "99");
    assert_eq!(format_badge_count(100), "99+");
}

#[test]
fn the_branch_that_is_checked_out_is_kept() {
    let menu = branch_menu(&text("main"), BranchKind::Local, true, false);
    for entry in menu {
        if let MenuEntry::Item { enabled, action, .. } = entry {
            let deletes = matches!(action, UiAction::Run(RepoCommand::DeleteBranch { .. }));
            assert!(!(deletes && enabled));
        }
    }
}

#[test]
fn menus_offer_what_can_be_done() {
    let menu = change_menu(text("a"), DiffScope::Unstaged, texts(&["a"]), texts(&["a", "b"]), false);
    assert!(menu.iter().any(|entry| matches!(
        entry,
        MenuEntry::Item { action: UiAction::OpenDiscard { target: DiscardTarget::All, paths, .. }, .. }
            if paths.len() == 2
    )));
    let merge = commit_menu(&text("0123456789"), &text("s"), 2, false);
    assert!(merge.iter().any(|entry| matches!(
        entry,
        MenuEntry::Item { action: UiAction::OpenRevert { .. }, enabled: false, .. }
    )));
    assert_eq!(encoding_menu_label("UTF-8", true), "✓ UTF-8");
}

#[test]
fn dialogs_say_what_will_happen() {
    let dialog = confirm_reset_dialog(&text("0123456789"), "fix", ResetMode::Hard, false);
    assert_eq!(
        dialog.texts,
        texts(&[
            "目标提交：01234567 fix",
            "将当前分支重置到该提交。强制重置：重置暂存区和工作区，丢弃未提交修改",
        ])
    );
    let dialog = confirm_discard_change_dialog(
        DiffScope::Staged,
        DiscardTarget::All,
        texts(&["a", "b"]),
        true,
    );
    assert_eq!(dialog.texts[0], "暂存区全部文件（2 个）");
    assert_eq!(dialog.texts[1], "a\nb");
    assert!(dialog.buttons.iter().all(|button| !button.enabled));
    assert_eq!(create_branch_dialog(false, false).fields, vec![FieldId::BranchName]);
    assert!(!create_branch_dialog(false, false).buttons[1].enabled);
    assert_eq!(clone_dialog(Some(text("D:/dev/abc")), false).texts, texts(&["D:/dev/abc"]));
}

#[test]
fn a_long_list_of_paths_is_cut() {
    let paths = texts(&["1", "2", "3", "4", "5", "6", "7"]);
    assert_eq!(discard_paths_preview(&paths), "1\n2\n3\n4\n5\n... 以及另外 2 个文件");
}

#[test]
fn the_workflow_dialog_starts_empty() {
    let dialog = workflow_dialog(&WorkflowPanel::new(), false);
    assert_eq!(dialog.file_label, "未选择工作流文件");
    assert_eq!(dialog.preview_placeholder, Some("暂无工作流预览"));
    assert!(!dialog.buttons[1].enabled);
    assert_eq!(workflow_dialog(&WorkflowPanel::new(), true).buttons[1].label, "运行中...");
}

// ---------------------------------------------------------------------------
// Lists
// ---------------------------------------------------------------------------
#[test]
fn every_branch_is_in_one_section() {
    let tab = tab();
    let view = sidebar(&tab);
    assert_eq!(view.local_branches, vec![0, 1]);
    assert_eq!(view.remote_branches, vec![2]);
    assert_eq!(view.sections[0].section, SidebarSection::LocalBranches);
    assert_eq!(view.sections[0].rows, 2);
    assert_eq!(current_branch_row(tab.snapshot.as_ref().unwrap()), Some(1));
}

#[test]
fn branches_are_marked_and_checked_out_by_double_click() {
    let head = branch("main", BranchKind::Local, true);
    assert_eq!(branch_row(&head, &None).label, "* main");
    let other = branch("dev", BranchKind::Local, false);
    assert_eq!(branch_row(&other, &None).label, "dev");
    assert_eq!(
        branch_click(&other, true, 2, false, true),
        Some(RepoCommand::Checkout { name: text("dev") })
    );
    assert_eq!(branch_click(&other, true, 1, false, true), None);
    assert_eq!(branch_click(&other, true, 2, true, true), None);
    assert_eq!(stash_row_label(0, "wip"), "stash@{0} wip");
}

#[test]
fn a_section_that_loads_says_so() {
    let mut tab = tab();
    tab.loading.status_fast = true;
    let section = change_section(&tab, DiffScope::Staged);
    assert_eq!(section.placeholder, Some("暂存区加载中..."));
    assert!(!section.buttons[0].enabled);
    tab.last_error = Some(text("boom"));
    assert!(status_line(&tab).error.unwrap().contains("boom"));
    assert_ne!(scroll_key(None, "x"), scroll_key(Some(RepoTabId(2)), "x"));
}

#[test]
fn lines_of_differences_have_numbers_and_colours() {
    match diff_line(DiffLineKind::Added, None, Some(12), text("x")) {
        DiffRowView::Line { bg, fg, old_lineno, new_lineno, content } => {
            assert_eq!((bg, fg), (0xe9fff2, 0x168447));
            assert_eq!((old_lineno.as_str(), new_lineno.as_str(), content.as_str()), ("", "12", "x"));
        }
        other => panic!("{other:?}"),
    }
}

fn commit(refs: usize) -> CommitInfo {
    CommitInfo {
        oid: text("o"),
        short_oid: text("o"),
        summary: text("s"),
        author: text("  émile"),
        time: 86_399,
        parents: Vec::new(),
        refs: (0..refs)
            .map(|i| CommitRefInfo {
                name: format!("r{i}"),
                kind: CommitRefKind::Tag,
            })
            .collect(),
    }
}

#[test]
fn commits_are_shown_with_time_author_and_labels() {
    let row = commit_row(&commit(5), &Some(text("o")), 3600);
    assert!(row.selected);
    assert_eq!(row.time, "1970-01-02 00:59:59");
    assert_eq!(row.avatar_initial, "É");
    assert_eq!(row.refs.len() + row.hidden_refs.iter().len(), row.refs.len() + 1);
    assert_eq!(commit_row(&commit(1), &None, 0).hidden_refs, None);
    assert_eq!(commit_ref_overflow_label(3), "+3");
    assert!(commit_ref_label(&commit(1).refs[0]).label.contains("r0"));
}

#[test]
fn authors_have_a_colour_and_a_letter() {
    assert_eq!(author_avatar_initial("  "), "?");
    assert_eq!(author_avatar_initial("ßa"), "SS");
    assert_eq!(author_avatar_color(""), 0x6366f1);
    assert_eq!(author_avatar_color("b"), author_avatar_color("b"));
}

#[test]
fn times_are_written_where_the_viewer_is() {
    assert_eq!(timestamp_label(0, 0), "1970-01-01 00:00:00");
    assert_eq!(timestamp_label(i64::MAX, 0), "-");
    assert_eq!(commit_time_label(0, -3600), "1969-12-31 23:00:00");
    assert_eq!(commit_time_label(i64::MAX, 0), "时间未知");
}

#[test]
fn wide_graphs_are_cut() {
    let row = CommitGraphRow {
        lane: 20,
        lanes: (0..30).collect(),
        connectors: vec![1, 25],
    };
    let cell = commit_graph_cell(&row);
    assert!(cell.overflow);
    assert!(cell.lanes.len() < 30);
    let (page, more) = history_page(vec![commit(0)]);
    assert_eq!(page.len(), 1);
    assert!(!more);
}

// ---------------------------------------------------------------------------
// The tool for old settings
// ---------------------------------------------------------------------------
#[test]
fn options_are_read_from_the_command_line() {
    let args = texts(&["--db", "x.sqlite3", "--legacy-dir"]);
    assert_eq!(arg_value(&args, "--db").as_deref(), Some("x.sqlite3"));
    assert_eq!(arg_value(&args, "--legacy-dir"), None);
    let read = migration_args(&texts(&["--force", "-h"]));
    assert!(read.force && read.help);
}

#[test]
fn a_migration_needs_to_know_both_ends() {
    let plan = |args: &[&str], db: Option<&str>, source: bool| {
        migration_plan(migration_args(&texts(args)), db.map(text), source)
    };
    assert_eq!(plan(&["--help"], None, false), Ok(MigrationPlan::ShowHelp));
    assert_eq!(
        plan(&[], None, true),
        Err(GitError::Message(text("无法定位默认 SQLite 数据库路径")))
    );
    assert_eq!(
        plan(&[], Some("d"), false),
        Err(GitError::Message(text("无法定位旧 JSON 配置目录")))
    );
    assert_eq!(
        plan(&["--db", "e", "--legacy-dir", "l"], Some("d"), false),
        Ok(MigrationPlan::Import {
            db: text("e"),
            source: LegacySource::Directory(text("l")),
        })
    );
    assert_eq!(import_mode(true, true), (true, true));
    assert_eq!(import_mode(true, false), (false, false));
}

#[test]
fn what_was_imported_is_listed() {
    let summary = LegacyImportSummary {
        session: true,
        diff_encodings: false,
        remote_credentials: true,
        network_proxy: false,
        credentials: true,
    };
    let lines = summary_lines("d", summary, false);
    assert_eq!(lines[0], "SQLite 数据库：d");
    assert_eq!(lines[1], "导入模式：保守导入");
    assert_eq!(
        lines[2],
        "导入结果：session=已导入 diff_encodings=跳过 remote_credentials=已导入 network_proxy=跳过 credentials=已导入"
    );
}

#[test]
fn composed_text_is_underlined() {
    let run = |len: usize, underlined: bool| InputRun { len, underlined };
    assert_eq!(input_runs(5, None), vec![run(5, false)]);
    assert_eq!(
        input_runs(5, Some((1, 4))),
        vec![run(1, false), run(3, true), run(1, false)]
    );
    assert_eq!(input_runs(5, Some((0, 5))), vec![run(5, true)]);
    assert_eq!(input_runs(5, Some((2, 2))), vec![run(2, false), run(3, false)]);
}

#[test]
fn chosen_things_stand_out() {
    assert!(segmented_button(true, true).bold);
    assert_eq!(segmented_button(false, false).text, theme::TEXT_FAINT);
    assert_eq!(toggle_box(true).2, Some("✓"));
    assert_eq!(toggle_box(false), (theme::BORDER, theme::SURFACE, None));
    assert_eq!(list_row_surface(true).1, theme::ROW_SELECTED);
    assert_eq!(status_pill(true).text, theme::ACCENT_STRONG);
    assert_eq!(nav_row(true, true).1, 0x9bbcff);
    assert_eq!(nav_row(false, true).0, theme::COLOR_BLUE_SOFT);
    assert_eq!(badge(Some(0)), None);
    assert_eq!(badge(Some(3)), Some(3));
}
