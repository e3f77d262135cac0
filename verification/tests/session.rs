//! Tabs, what is selected in them, and what loads report.

use khaslana::credentials::{
    remote_binding_for_request, set_remote_binding_for_request, AllowedTypes, CredentialRequest,
    RemoteCredentialBindings, RemoteCredentialPolicy,
};
use khaslana::git::diff::{diff_render_model_for, diff_render_rows_for, DiffRenderRow};
use khaslana::session::commands::{discarded_message, RepoCommand};
use khaslana::session::effects::Effect;
use khaslana::session::events::{progress_event, UiEvent};
use khaslana::session::keys::{handle_field_key, submit, FieldId, KeyAction, Submit};
use khaslana::session::loading::{LoadStage, RepositoryLoad, StageOutcome};
use khaslana::session::paths::{
    clone_request, dedupe_repo_paths, infer_clone_directory_name, infer_clone_target_path,
    path_key, restore_failure, restore_plan, short_oid,
};
use khaslana::session::popups::{ContextMenu, DialogState, DiscardTarget, EncodingMenuTarget, Popups};
use khaslana::session::selection::{change_paths, ChangeListIndexes, ChangeSelection};
use khaslana::session::tab::{HistoryScope, MainMode, RepoTabId, RepoTabState};
use khaslana::session::view::RepositoryView;
use khaslana::session::view_changes::DiffEncodingPreferences;
use khaslana::session::view_workflow::WorkflowPanel;
use khaslana::types::conflicts::ConflictResolutionSide;
use khaslana::types::{
    BranchInfo, BranchKind, ChangeState, CommitFileChange, CommitInfo, DiffEncodingChoice,
    DiffEncodingInfo, DiffLine, DiffLineKind, DiffScope, FileDiff, OperationEvent, RemoteInfo,
    RepositorySnapshot, WorktreeChange,
};

fn text(s: &str) -> String {
    s.to_string()
}

fn texts(items: &[&str]) -> Vec<String> {
    items.iter().map(|s| s.to_string()).collect()
}

fn request(url: &str) -> CredentialRequest {
    CredentialRequest {
        url: text(url),
        username_from_url: None,
        allowed_types: AllowedTypes {
            user_pass_plaintext: true,
            ssh_key: false,
            default: false,
        },
        repo_key: Some(text("c:/work/a")),
        remote_name: Some(text("origin")),
    }
}

#[test]
fn session_paths_are_deduped_in_original_order() {
    let given = texts(&["C:/work/a", "C:/work/b", "C:/work/a"]);
    let paths = dedupe_repo_paths(&given, &given);

    assert_eq!(paths, texts(&["C:/work/a", "C:/work/b"]));
}

#[test]
fn paths_that_differ_in_case_are_one() {
    assert_eq!(path_key("C:/Work/ÄB"), "c:/work/äb");
    assert_eq!(path_key("C:/WORK_1"), "c:/work_1");
    let given = texts(&["C:/Work/A", "c:/work/a", "d"]);
    assert_eq!(dedupe_repo_paths(&given, &given), texts(&["C:/Work/A", "d"]));
}

#[test]
fn remote_binding_for_request_defaults_to_auto_match() {
    let bindings = RemoteCredentialBindings::default();

    assert_eq!(
        remote_binding_for_request(&bindings, &request("https://example.com/a.git")),
        RemoteCredentialPolicy::AutoMatch
    );
}

#[test]
fn remote_binding_for_request_matches_repo_remote_and_url() {
    let mut bindings = RemoteCredentialBindings::default();
    let asked = request("https://example.com/a.git");

    set_remote_binding_for_request(
        &mut bindings,
        &asked,
        RemoteCredentialPolicy::Record(text("record-1")),
    );

    assert_eq!(
        remote_binding_for_request(&bindings, &asked),
        RemoteCredentialPolicy::Record(text("record-1"))
    );
    assert_eq!(
        remote_binding_for_request(&bindings, &request("https://example.com/renamed.git")),
        RemoteCredentialPolicy::AutoMatch
    );
}

#[test]
fn a_remote_has_one_binding_at_a_time() {
    let mut bindings = RemoteCredentialBindings::default();
    let asked = request("https://example.com/a.git");
    set_remote_binding_for_request(&mut bindings, &asked, RemoteCredentialPolicy::NoCredential);
    set_remote_binding_for_request(
        &mut bindings,
        &asked,
        RemoteCredentialPolicy::Record(text("r")),
    );
    assert_eq!(bindings.remotes.len(), 1);
    assert_eq!(
        remote_binding_for_request(&bindings, &asked),
        RemoteCredentialPolicy::Record(text("r"))
    );
}

#[test]
fn clone_directory_name_is_inferred_from_remote_url() {
    assert_eq!(
        infer_clone_directory_name("https://github.com/FuturePrayer/khaslana.git"),
        Some("khaslana".to_string())
    );
    assert_eq!(
        infer_clone_directory_name("https://example.invalid/team/repo/"),
        Some("repo".to_string())
    );
    assert_eq!(
        infer_clone_directory_name("git@github.com:FuturePrayer/khaslana.git"),
        Some("khaslana".to_string())
    );
    assert_eq!(
        infer_clone_directory_name("https://example.invalid/team/repo.git?ref=main"),
        Some("repo".to_string())
    );
    assert_eq!(infer_clone_directory_name(""), None);
    assert_eq!(infer_clone_directory_name("https://example.invalid/"), None);
}

#[test]
fn clone_target_path_uses_selected_parent_directory() {
    let target = infer_clone_target_path("https://github.com/example/abc", "D:/dev").unwrap();
    assert_eq!((target.parent.as_str(), target.name.as_str()), ("D:/dev", "abc"));
    let target = infer_clone_target_path("https://github.com/example/abc.git", "D:/dev/").unwrap();
    assert_eq!((target.parent.as_str(), target.name.as_str()), ("D:/dev/", "abc"));
    assert!(infer_clone_target_path("", "D:/dev").is_none());
    assert!(infer_clone_target_path("https://github.com/example/abc", "").is_none());
}

#[test]
fn clone_requests_say_what_is_missing() {
    assert_eq!(
        clone_request(" ", "D:/dev").unwrap_err(),
        "需要填写远程仓库 URL 和克隆到父文件夹"
    );
    assert_eq!(
        clone_request("https://example.invalid/", "D:/dev").unwrap_err(),
        "无法从远程仓库 URL 推导仓库文件夹名"
    );
    assert_eq!(clone_request(" a/b ", " p ").unwrap().name, "b");
}

#[test]
fn directory_names_that_no_system_takes_are_refused() {
    assert_eq!(infer_clone_directory_name("https://h/a/.."), None);
    assert_eq!(infer_clone_directory_name("https://h/a/b*c"), None);
    assert_eq!(infer_clone_directory_name("https://h/a/b#c/d"), Some(text("b")));
}

#[test]
fn short_ids_have_eight_bytes() {
    assert_eq!(short_oid("0123456789abcdef"), "01234567");
    assert_eq!(short_oid("0123"), "0123");
}

fn test_diff(lines: Vec<DiffLine>, is_binary: bool) -> FileDiff {
    FileDiff {
        path: "file.txt".to_string(),
        scope: DiffScope::Unstaged,
        is_binary,
        encoding: DiffEncodingInfo {
            requested: DiffEncodingChoice::Utf8,
            resolved: DiffEncodingChoice::Utf8,
            lossy: false,
        },
        lines,
    }
}

fn test_line(kind: DiffLineKind, content: &str) -> DiffLine {
    DiffLine {
        kind,
        old_lineno: None,
        new_lineno: None,
        content: content.to_string(),
    }
}

#[test]
fn diff_render_rows_track_headers_and_empty_states() {
    let diff = test_diff(
        vec![
            test_line(DiffLineKind::Header, "diff --git a/file.txt b/file.txt"),
            test_line(DiffLineKind::Header, "index 0000000..1111111"),
            test_line(DiffLineKind::Removed, "-old"),
            test_line(DiffLineKind::Added, "+new"),
        ],
        false,
    );

    assert_eq!(
        diff_render_rows_for(Some(&diff), false),
        vec![
            DiffRenderRow::HeaderToggle,
            DiffRenderRow::DiffLine(2),
            DiffRenderRow::DiffLine(3),
        ]
    );
    assert_eq!(
        diff_render_rows_for(Some(&diff), true),
        vec![
            DiffRenderRow::HeaderToggle,
            DiffRenderRow::DiffLine(0),
            DiffRenderRow::DiffLine(1),
            DiffRenderRow::DiffLine(2),
            DiffRenderRow::DiffLine(3),
        ]
    );

    let empty_text_diff = test_diff(Vec::new(), false);
    let empty_binary_diff = test_diff(Vec::new(), true);
    assert_eq!(
        diff_render_rows_for(Some(&empty_text_diff), false),
        vec![DiffRenderRow::Empty]
    );
    assert_eq!(
        diff_render_rows_for(Some(&empty_binary_diff), false),
        vec![DiffRenderRow::Empty]
    );
    assert_eq!(diff_render_rows_for(None, false), vec![DiffRenderRow::Empty]);
}

#[test]
fn a_render_model_gives_the_rows_one_by_one() {
    let diff = test_diff(
        vec![
            test_line(DiffLineKind::Header, "h"),
            test_line(DiffLineKind::Context, "c"),
        ],
        false,
    );
    for expanded in [false, true] {
        let model = diff_render_model_for(Some(&diff), expanded);
        let rows = diff_render_rows_for(Some(&diff), expanded);
        assert_eq!(model.row_count, rows.len());
        for (i, row) in rows.into_iter().enumerate() {
            assert_eq!(model.row_at(i), row);
        }
    }
}

// ---------------------------------------------------------------------------
// Selecting changes
// ---------------------------------------------------------------------------
fn change(path: &str, staged: bool, unstaged: bool) -> WorktreeChange {
    WorktreeChange {
        path: text(path),
        staged: staged.then_some(ChangeState::Modified),
        unstaged: unstaged.then_some(ChangeState::Modified),
    }
}

fn some_changes() -> Vec<WorktreeChange> {
    vec![
        change("a", false, true),
        change("b", true, true),
        change("c", false, true),
        change("d", true, false),
    ]
}

fn nothing_selected() -> ChangeSelection {
    let mut view = ready_view();
    let mut selection = ChangeSelection {
        staged: khaslana::strset::StringSet::new(),
        unstaged: khaslana::strset::StringSet::new(),
        staged_anchor: None,
        unstaged_anchor: None,
    };
    core::mem::swap(&mut selection, &mut view.tabs[0].change_selection);
    selection
}

#[test]
fn lists_show_the_changes_of_their_scope() {
    let changes = some_changes();
    assert_eq!(change_paths(&changes, DiffScope::Unstaged), texts(&["a", "b", "c"]));
    assert_eq!(change_paths(&changes, DiffScope::Staged), texts(&["b", "d"]));
    let indexes = ChangeListIndexes::rebuild(&changes);
    assert_eq!(indexes.staged, vec![1, 3]);
    assert_eq!(indexes.unstaged, vec![0, 1, 2]);
}

#[test]
fn a_range_is_selected_from_the_anchor_on() {
    let changes = some_changes();
    let mut selection = nothing_selected();
    assert!(selection.select_change_from_mouse(
        &changes,
        text("a"),
        DiffScope::Unstaged,
        false,
        false
    ));
    selection.select_change_from_mouse(&changes, text("c"), DiffScope::Unstaged, true, false);
    assert_eq!(
        selection.selected_change_paths(DiffScope::Unstaged),
        texts(&["a", "b", "c"])
    );
    assert!(selection.selected_change_paths(DiffScope::Staged).is_empty());
}

#[test]
fn toggling_twice_changes_nothing() {
    let changes = some_changes();
    let mut selection = nothing_selected();
    selection.select_change_from_mouse(&changes, text("a"), DiffScope::Unstaged, false, false);
    selection.select_change_from_mouse(&changes, text("b"), DiffScope::Unstaged, false, true);
    assert!(selection.is_change_selected(DiffScope::Unstaged, "b"));
    selection.select_change_from_mouse(&changes, text("b"), DiffScope::Unstaged, false, true);
    assert_eq!(selection.selected_change_paths(DiffScope::Unstaged), texts(&["a"]));
}

#[test]
fn pruning_keeps_what_is_still_listed() {
    let changes = some_changes();
    let mut selection = nothing_selected();
    selection.select_change_from_mouse(&changes, text("a"), DiffScope::Unstaged, false, false);
    selection.select_change_from_mouse(&changes, text("b"), DiffScope::Unstaged, false, true);
    let left = vec![change("b", false, true)];
    selection.prune_change_selection(Some(&left));
    assert_eq!(selection.selected_change_paths(DiffScope::Unstaged), texts(&["b"]));
    selection.prune_change_selection(Some(&left));
    assert_eq!(selection.selected_change_paths(DiffScope::Unstaged), texts(&["b"]));
    selection.prune_change_selection(None);
    assert!(selection.selected_change_paths(DiffScope::Unstaged).is_empty());
}

// ---------------------------------------------------------------------------
// Loading a repository
// ---------------------------------------------------------------------------
fn snapshot(path: &str) -> RepositorySnapshot {
    RepositorySnapshot {
        path: text(path),
        head: Some(text("main")),
        branches: vec![BranchInfo {
            name: text("main"),
            kind: BranchKind::Local,
            is_head: true,
            upstream: None,
        }],
        remotes: vec![RemoteInfo {
            name: text("origin"),
            url: text("https://example.invalid/a.git"),
        }],
        ..RepositorySnapshot::default()
    }
}

#[test]
fn a_load_goes_through_its_stages_and_ends_once() {
    let (mut load, started) = RepositoryLoad::start(RepoTabId(1), 7, "正在打开", "已打开");
    assert!(matches!(started, UiEvent::OperationStarted { tab_id: Some(RepoTabId(1)), .. }));
    assert_eq!(load.stage, LoadStage::OpenFast);
    let mut ends = 0;
    let outcomes = vec![
        StageOutcome::Snapshot(snapshot("p")),
        StageOutcome::Opened,
        StageOutcome::Snapshot(snapshot("p")),
        StageOutcome::Changes(Vec::new()),
        StageOutcome::Changes(some_changes()),
    ];
    for outcome in outcomes {
        for event in load.stage_done(outcome) {
            if matches!(event, UiEvent::RepositoryLoadFinished { load_id: 7, .. }) {
                ends += 1;
            }
        }
    }
    assert_eq!(load.stage, LoadStage::Done);
    assert_eq!(ends, 1);
}

#[test]
fn a_repository_that_does_not_open_ends_the_load() {
    let (mut load, _) = RepositoryLoad::start(RepoTabId(1), 7, "正在打开", "已打开");
    let events = load.stage_done(StageOutcome::Failed(text("gone")));
    assert_eq!(load.stage, LoadStage::Done);
    assert!(matches!(
        events.last(),
        Some(UiEvent::RepositoryLoadFinished { load_id: 7, .. })
    ));
}

fn open(view: &mut RepositoryView, path: &str, effects: &mut Vec<Effect>) {
    let open: Vec<Option<String>> = view.tabs.iter().map(|tab| tab.repo_path.clone()).collect();
    view.open_repo(text(path), path, &open, effects);
}

/// A window with one repository that is loaded.
fn ready_view() -> RepositoryView {
    let mut view = RepositoryView::new();
    let mut effects = Vec::new();
    open(&mut view, "p", &mut effects);
    let tab_id = view.tabs[0].id;
    let load_id = view.tabs[0].repository_load_id;
    view.handle_ui_event(
        UiEvent::RepositoryFastLoaded {
            tab_id,
            message: text("已打开"),
            snapshot: snapshot("p"),
            load_id,
        },
        &mut effects,
    );
    view.handle_ui_event(
        UiEvent::RepositoryMetadataLoaded {
            tab_id,
            message: text("已打开"),
            snapshot: snapshot("p"),
            load_id,
        },
        &mut effects,
    );
    view.handle_ui_event(
        UiEvent::RepositoryStatusFullLoaded {
            tab_id,
            message: text("已打开"),
            changes: some_changes(),
            load_id,
        },
        &mut effects,
    );
    view.handle_ui_event(UiEvent::RepositoryLoadFinished { tab_id, load_id }, &mut effects);
    view
}

#[test]
fn opening_a_repository_starts_its_load() {
    let mut view = RepositoryView::new();
    let mut effects = Vec::new();
    open(&mut view, "p", &mut effects);
    assert_eq!(view.tabs.len(), 1);
    assert_eq!(view.active_tab, Some(view.tabs[0].id));
    assert!(effects.iter().any(|e| matches!(e, Effect::StartLoad { path, .. } if path == "p")));
    let before = view.tabs.len();
    open(&mut view, "P", &mut effects);
    assert_eq!(view.tabs.len(), before);
}

#[test]
fn two_repositories_load_at_a_time() {
    let mut view = RepositoryView::new();
    let mut effects = Vec::new();
    for path in ["a", "b", "c"] {
        open(&mut view, path, &mut effects);
    }
    let started = effects.iter().filter(|e| matches!(e, Effect::StartLoad { .. })).count();
    assert_eq!(started, 2);
    assert_eq!(view.repository_load_queue.len(), 1);
    let tab_id = view.tabs[0].id;
    let load_id = view.tabs[0].repository_load_id;
    effects.clear();
    view.handle_ui_event(UiEvent::RepositoryLoadFinished { tab_id, load_id }, &mut effects);
    assert!(effects.iter().any(|e| matches!(e, Effect::StartLoad { path, .. } if path == "c")));
}

#[test]
fn a_loaded_repository_shows_its_state() {
    let view = ready_view();
    let tab = &view.tabs[0];
    assert!(!tab.busy);
    assert_eq!(tab.selected_remote.as_deref(), Some("origin"));
    assert_eq!(tab.snapshot.as_ref().unwrap().changes.len(), 4);
    assert_eq!(tab.change_indexes.unstaged, vec![0, 1, 2]);
    assert_eq!(view.active_repository_loads, 0);
}

#[test]
fn what_an_earlier_load_brings_is_dropped() {
    let mut view = ready_view();
    let tab_id = view.tabs[0].id;
    let old_load = view.tabs[0].repository_load_id;
    let mut effects = Vec::new();
    view.refresh(&mut effects);
    assert_ne!(view.tabs[0].repository_load_id, old_load);
    view.handle_ui_event(
        UiEvent::RepositoryStatusFullLoaded {
            tab_id,
            message: text("旧"),
            changes: Vec::new(),
            load_id: old_load,
        },
        &mut effects,
    );
    assert_eq!(view.tabs[0].snapshot.as_ref().unwrap().changes.len(), 4);
}

#[test]
fn closed_tabs_hear_nothing() {
    let mut view = ready_view();
    let tab_id = view.tabs[0].id;
    let mut effects = Vec::new();
    view.close_tab(tab_id, &mut effects);
    assert!(view.tabs.is_empty());
    assert_eq!(view.active_tab, None);
    effects.clear();
    view.handle_ui_event(
        UiEvent::OperationFailed {
            tab_id: Some(tab_id),
            error: text("late"),
        },
        &mut effects,
    );
    assert!(effects.is_empty());
    assert_eq!(view.fallback_tab.last_error, None);
}

#[test]
fn only_one_operation_runs_in_a_tab() {
    let mut view = ready_view();
    let mut effects = Vec::new();
    view.fetch(&mut effects);
    assert!(view.tabs[0].busy);
    assert_eq!(view.tabs[0].status, "拉取远程引用完成");
    assert!(matches!(
        effects.last(),
        Some(Effect::RunCommand { command: RepoCommand::Fetch { remote }, .. }) if remote == "origin"
    ));
    effects.clear();
    view.push(&mut effects);
    assert!(effects.is_empty());
    assert_eq!(view.tabs[0].last_error.as_deref(), Some("已有操作正在运行"));
}

#[test]
fn operations_need_a_repository_and_a_remote() {
    let mut view = RepositoryView::new();
    let mut effects = Vec::new();
    view.pull(&mut effects);
    assert_eq!(view.fallback_tab.last_error.as_deref(), Some("当前仓库没有远端"));
    view.create_branch("x", &mut effects);
    assert_eq!(view.fallback_tab.last_error.as_deref(), Some("请先打开一个仓库"));
    view.create_branch("  ", &mut effects);
    assert_eq!(view.fallback_tab.last_error.as_deref(), Some("需要填写分支名称"));
    view.rename_branch(text("a"), "", &mut effects);
    assert_eq!(view.fallback_tab.last_error.as_deref(), Some("需要填写新的分支名称"));
    assert!(!view.commit("", &mut effects));
    assert_eq!(view.fallback_tab.last_error.as_deref(), Some("需要填写提交信息"));
    assert!(effects.is_empty());
}

#[test]
fn resolving_a_conflict_clears_the_shown_differences() {
    let mut view = ready_view();
    view.tabs[0].diff = Some(test_diff(Vec::new(), false));
    let mut effects = Vec::new();
    view.resolve_conflict_with_side(text("a"), ConflictResolutionSide::Theirs, &mut effects);
    assert!(view.tabs[0].diff.is_none());
    let tab_id = view.tabs[0].id;
    assert_eq!(effects[0], Effect::ResetDiffScroll { tab_id });
    assert_eq!(view.tabs[0].status, "已使用传入版本解决冲突");
    let mut view = ready_view();
    view.mark_conflict_resolved(text("a"), &mut effects);
    assert_eq!(view.tabs[0].status, "冲突已标记为解决");
}

#[test]
fn discarding_asks_first_and_then_runs() {
    let mut view = ready_view();
    let mut effects = Vec::new();
    view.open_discard_change_confirm_dialog(Vec::new(), DiffScope::Unstaged, DiscardTarget::All);
    assert_eq!(view.tabs[0].last_error.as_deref(), Some("没有可回滚的文件"));
    view.open_discard_change_confirm_dialog(
        texts(&["a"]),
        DiffScope::Unstaged,
        DiscardTarget::Single,
    );
    assert!(matches!(
        view.popups.active_dialog,
        Some(DialogState::ConfirmDiscardChange { .. })
    ));
    view.discard_change(
        texts(&["a"]),
        DiffScope::Unstaged,
        DiscardTarget::Single,
        &mut effects,
    );
    assert!(view.popups.active_dialog.is_none());
    assert!(effects.iter().any(|e| matches!(e, Effect::RunDiscard { .. })));
    assert_ne!(
        discarded_message(DiffScope::Staged, DiscardTarget::All),
        discarded_message(DiffScope::Unstaged, DiscardTarget::All)
    );
}

fn commit(oid: &str, parents: &[&str]) -> CommitInfo {
    CommitInfo {
        oid: text(oid),
        short_oid: text(oid),
        summary: text("s"),
        author: text("a"),
        time: 0,
        parents: texts(parents),
        refs: Vec::new(),
    }
}

#[test]
fn the_history_is_loaded_step_by_step() {
    let mut view = ready_view();
    let tab_id = view.tabs[0].id;
    let mut effects = Vec::new();
    view.set_main_mode(MainMode::History, &mut effects);
    let load_id = view.tabs[0].repository_load_id;
    assert!(matches!(
        effects.last(),
        Some(Effect::LoadHistoryPage { offset: 0, append: false, .. })
    ));
    effects.clear();
    let scope = view.tabs[0].history_scope;
    view.handle_ui_event(
        UiEvent::HistoryCommitsLoaded {
            tab_id,
            commits: vec![commit("2", &["1"]), commit("1", &[])],
            append: false,
            has_more: false,
            scope,
            load_id,
        },
        &mut effects,
    );
    assert_eq!(view.tabs[0].history_graph_rows.len(), 2);
    assert_eq!(view.tabs[0].history_selected_commit.as_deref(), Some("2"));
    assert!(effects
        .iter()
        .any(|e| matches!(e, Effect::LoadHistoryFiles { oid, .. } if oid == "2")));
    effects.clear();
    view.handle_ui_event(
        UiEvent::HistoryFilesLoaded {
            tab_id,
            commit_oid: text("1"),
            files: Vec::new(),
            load_id,
        },
        &mut effects,
    );
    assert!(effects.is_empty());
    view.handle_ui_event(
        UiEvent::HistoryFilesLoaded {
            tab_id,
            commit_oid: text("2"),
            files: vec![CommitFileChange {
                path: text("f"),
                old_path: None,
                status: ChangeState::Added,
            }],
            load_id,
        },
        &mut effects,
    );
    assert!(effects
        .iter()
        .any(|e| matches!(e, Effect::LoadHistoryDiff { file, .. } if file == "f")));
}

#[test]
fn another_scope_loads_the_history_anew() {
    let mut view = ready_view();
    let mut effects = Vec::new();
    view.set_main_mode(MainMode::History, &mut effects);
    effects.clear();
    let other = match view.tabs[0].history_scope {
        HistoryScope::AllBranches => HistoryScope::CurrentBranch,
        HistoryScope::CurrentBranch => HistoryScope::AllBranches,
    };
    view.tabs[0].set_history_scope(other, "其他", &mut effects);
    assert_eq!(view.tabs[0].history_scope, other);
    effects.clear();
    view.tabs[0].set_history_scope(other, "其他", &mut effects);
    assert!(effects.is_empty());
}

// ---------------------------------------------------------------------------
// Sessions
// ---------------------------------------------------------------------------
#[test]
fn a_session_opens_what_still_exists() {
    let mut view = RepositoryView::new();
    let mut effects = Vec::new();
    let paths = texts(&["a", "gone", "b"]);
    view.restore_session(
        &paths,
        &paths,
        &vec![true, false, true],
        &Some(text("b")),
        &mut effects,
    );
    assert_eq!(view.tabs.len(), 2);
    assert_eq!(view.active_tab, Some(view.tabs[1].id));
    assert!(!view.restoring_session);
    assert!(effects.contains(&Effect::SaveSession));
    let plan = restore_plan(&paths, &vec![true, false, true]);
    assert_eq!((plan.restored, plan.failed), (vec![0, 2], 1));
    assert!(restore_failure(1).contains('1'));
}

// ---------------------------------------------------------------------------
// Credentials that are asked for
// ---------------------------------------------------------------------------
#[test]
fn requests_for_credentials_wait_for_each_other() {
    let mut view = ready_view();
    let tab_id = Some(view.tabs[0].id);
    let mut effects = Vec::new();
    for ticket in [1, 2] {
        view.handle_ui_event(
            UiEvent::CredentialRequested {
                tab_id,
                request: request("https://example.com/a.git"),
                ticket,
            },
            &mut effects,
        );
    }
    assert_eq!(view.pending_credential.as_ref().unwrap().ticket, 1);
    assert_eq!(view.pending_credentials.len(), 1);
    assert_eq!(view.cancel_credential_request(), Some(1));
    assert_eq!(view.pending_credential.as_ref().unwrap().ticket, 2);
    assert_eq!(view.answer_credential_request("已提供凭据"), Some(2));
    assert!(view.pending_credential.is_none());
    assert_eq!(view.cancel_credential_request(), None);
}

#[test]
fn a_session_without_repositories_is_restored_too() {
    let mut view = RepositoryView::new();
    view.restoring_session = true;
    let mut effects = Vec::new();
    view.restore_session(&texts(&["gone"]), &texts(&["gone"]), &vec![false], &None, &mut effects);
    assert!(!view.restoring_session);
    assert!(view.tabs.is_empty());
    assert_eq!(effects, vec![Effect::SaveSession]);
}

#[test]
fn credentials_are_typed_into_one_form() {
    let mut view = ready_view();
    assert!(!view.form.save);
    let mut effects = Vec::new();
    view.handle_ui_event(
        UiEvent::CredentialRequested {
            tab_id: Some(view.tabs[0].id),
            request: request("https://me@example.com/a.git"),
            ticket: 1,
        },
        &mut effects,
    );
    assert!(view.form.save);
    assert_eq!(view.form.remote_url, "https://me@example.com/a.git");
    view.open_credential_form();
    assert!(view.form.save);
    assert_eq!(view.form.remote_url, "");
    assert_eq!(view.popups.active_dialog, Some(DialogState::CredentialForm { editing: None }));
    assert_eq!(view.pending_credential.as_ref().unwrap().ticket, 1);
}

#[test]
fn differences_that_arrive_scroll_the_list_of_their_own_tab() {
    let mut view = ready_view();
    let first = view.tabs[0].id;
    let mut effects = Vec::new();
    open(&mut view, "q", &mut effects);
    assert_ne!(view.active_tab, Some(first));
    effects.clear();
    view.handle_ui_event(
        UiEvent::OperationFinished {
            tab_id: Some(first),
            message: text("差异已加载"),
            snapshot: None,
            diff: Some(test_diff(Vec::new(), false)),
        },
        &mut effects,
    );
    assert!(effects.contains(&Effect::ResetDiffScroll { tab_id: first }));
}

#[test]
fn closing_a_tab_declines_what_it_asked_for() {
    let mut view = ready_view();
    let id = view.tabs[0].id;
    let mut effects = Vec::new();
    view.handle_ui_event(
        UiEvent::CredentialRequested {
            tab_id: Some(id),
            request: request("https://example.com/a.git"),
            ticket: 5,
        },
        &mut effects,
    );
    effects.clear();
    view.close_tab(id, &mut effects);
    assert!(effects.contains(&Effect::DeclineCredential { ticket: 5 }));
    assert!(view.pending_credential.is_none());
}

// ---------------------------------------------------------------------------
// Popups and keys
// ---------------------------------------------------------------------------
#[test]
fn a_click_outside_closes_menus_but_not_dialogs() {
    let mut popups = Popups::new();
    popups.open_menu(ContextMenu::Tag { tag: text("v1") });
    popups.capture_mouse_down(true);
    assert!(popups.menu.is_some());
    popups.capture_mouse_down(false);
    assert!(popups.menu.is_none());
    popups.open_dialog(DialogState::CloneRepo);
    popups.capture_mouse_down(false);
    assert_eq!(popups.active_dialog, Some(DialogState::CloneRepo));
}

#[test]
fn the_click_that_closes_the_encoding_menu_does_not_reopen_it() {
    let mut popups = Popups::new();
    popups.toggle_encoding_menu(EncodingMenuTarget::History);
    assert_eq!(popups.encoding_menu_target, Some(EncodingMenuTarget::History));
    popups.capture_mouse_down(false);
    popups.toggle_encoding_menu(EncodingMenuTarget::History);
    assert_eq!(popups.encoding_menu_target, None);
    popups.capture_mouse_down(false);
    popups.toggle_encoding_menu(EncodingMenuTarget::History);
    assert_eq!(popups.encoding_menu_target, Some(EncodingMenuTarget::History));
}

#[test]
fn keys_edit_fields_or_submit_them() {
    assert_eq!(handle_field_key("arrowleft", false), KeyAction::MoveLeft);
    assert_eq!(handle_field_key("end", true), KeyAction::MoveEnd);
    assert_eq!(handle_field_key("A", true), KeyAction::SelectAll);
    assert_eq!(handle_field_key("v", true), KeyAction::Paste);
    assert_eq!(handle_field_key("q", true), KeyAction::Nothing);
    assert_eq!(handle_field_key("q", false), KeyAction::Type);
    assert_eq!(handle_field_key("enter", false), KeyAction::Submit);
    assert_eq!(submit(FieldId::CommitMessage, &None), Submit::Commit);
    assert_eq!(submit(FieldId::CloneUrl, &None), Submit::Nothing);
    assert_eq!(submit(FieldId::CloneUrl, &Some(DialogState::CloneRepo)), Submit::Clone);
    assert_eq!(
        submit(
            FieldId::BranchRename,
            &Some(DialogState::RenameBranch { branch: text("b") })
        ),
        Submit::RenameBranch(text("b"))
    );
    assert_eq!(submit(FieldId::CredentialSecret, &None), Submit::UseCredentials);
    assert_eq!(
        submit(
            FieldId::CredentialSecret,
            &Some(DialogState::CredentialForm { editing: None })
        ),
        Submit::SaveCredential
    );
}

#[test]
fn dialogs_about_a_repository_need_one() {
    let mut view = RepositoryView::new();
    view.open_dialog(DialogState::CreateBranch);
    assert!(view.popups.active_dialog.is_none());
    assert_eq!(view.fallback_tab.last_error.as_deref(), Some("请先打开一个仓库"));
    view.open_dialog(DialogState::CloneRepo);
    assert_eq!(view.popups.active_dialog, Some(DialogState::CloneRepo));
    assert_eq!(view.fallback_tab.last_error, None);
}

#[test]
fn the_form_for_a_remote_starts_with_what_is_known() {
    let mut view = ready_view();
    assert_eq!(
        view.open_remote_form(Some(text("origin"))),
        Some((text("origin"), text("https://example.invalid/a.git")))
    );
    assert_eq!(view.open_remote_form(Some(text("nope"))), None);
    assert_eq!(view.tabs[0].last_error.as_deref(), Some("远端不存在"));
    assert_eq!(view.open_remote_form(None), Some((text(""), text(""))));
}

#[test]
fn a_deleted_remote_is_not_selected_any_more() {
    let mut view = ready_view();
    let mut effects = Vec::new();
    view.delete_remote(text("origin"), &mut effects);
    assert_eq!(view.tabs[0].selected_remote, None);
    assert!(matches!(
        effects.last(),
        Some(Effect::RunCommand { command: RepoCommand::DeleteRemote { .. }, .. })
    ));
}

#[test]
fn a_trial_of_a_credential_needs_its_record() {
    let mut view = ready_view();
    assert_eq!(view.test_credential_record("x"), None);
    assert_eq!(view.tabs[0].last_error.as_deref(), Some("凭据记录不存在"));
    view.tabs[0].busy = true;
    assert_eq!(view.test_credential_record("x"), None);
    assert_eq!(view.tabs[0].last_error.as_deref(), Some("已有操作正在运行"));
}

#[test]
fn a_workflow_runs_only_once_it_is_chosen() {
    let mut view = RepositoryView::new();
    let mut panel = WorkflowPanel::new();
    view.open_workflow_dialog(&mut panel);
    assert_eq!(view.fallback_tab.last_error.as_deref(), Some("请先打开一个仓库"));
    let mut view = ready_view();
    view.open_workflow_dialog(&mut panel);
    assert_eq!(view.popups.active_dialog, Some(DialogState::WorkflowRunner));
    assert_eq!(view.run_workflow(&mut panel), None);
    assert_eq!(view.tabs[0].last_error.as_deref(), Some("请先选择工作流文件"));
    let target = view.workflow_target().unwrap();
    assert_eq!(target.default_remote, "origin");
    view.workflow_file_loaded(&mut panel, text("w.json5"), Err(text("bad")));
    assert_eq!(view.tabs[0].last_error.as_deref(), Some("bad"));
}

#[test]
fn encodings_are_remembered_per_repository() {
    let mut preferences = DiffEncodingPreferences::new();
    preferences.set_diff_encoding("C:/Work/A", DiffEncodingChoice::Gb18030);
    preferences.set_diff_encoding("c:/work/b", DiffEncodingChoice::Big5);
    assert_eq!(
        preferences.diff_encoding_choice_for_path("c:/work/a"),
        DiffEncodingChoice::Gb18030
    );
    assert_eq!(
        preferences.diff_encoding_choice_for_path("c:/work/b"),
        DiffEncodingChoice::Big5
    );
    assert_eq!(
        preferences.diff_encoding_choice_for_path("c:/work/c"),
        DiffEncodingChoice::Auto
    );
    assert_eq!(DiffEncodingChoice::default(), DiffEncodingChoice::Auto);
}

#[test]
fn reports_of_an_operation_go_to_its_tab() {
    let event = progress_event(RepoTabId(3), OperationEvent::Progress(text("1/2")));
    assert_eq!(
        event,
        UiEvent::OperationProgress {
            tab_id: Some(RepoTabId(3)),
            message: text("1/2"),
        }
    );
}

#[test]
fn a_new_tab_is_idle() {
    let tab = RepoTabState::new(RepoTabId(1), None);
    assert!(!tab.busy);
    assert_eq!(tab.main_mode, MainMode::Worktree);
    assert_eq!(RepoTabState::display_name(Some(text("repo"))), "repo");
}
