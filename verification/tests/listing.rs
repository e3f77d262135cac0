//! What repositories list, and how it is ordered.

use khaslana::git::diff::{
    diff_encoding_label, diff_line, diff_line_with_text, diff_scope_id, diff_scope_label, PatchLine,
};
use khaslana::git::history::{
    commit_graph_refs, commit_info, commit_page, history_without_head, is_empty_head_error, refs_of,
    walk_start, BranchTip, FaultCode, GraphRefs, RawCommit, TagTip, WalkStart,
};
use khaslana::git::listing::{
    branch_info, branches, commit_files, conflicts, remotes, sort_branches, status_with_options,
    tags, BranchEntry, ConflictPaths, Delta, FileDelta, StatusEntry, StatusFlags,
};
use khaslana::git::paths::{ensure_worktree_relative_path, path_to_git, PathPart};
use khaslana::git::service::{
    check_reset, check_revert, checkout_target, commit_message, merge_action, merge_message,
    remote_checkout_error, remote_checkout_target, revert_message, snapshot_path, stage_action,
    transfer_progress, MergeAction, MergeAnalysis, StageAction,
};
use khaslana::git::{
    checkout_remote_branch, commit_id, remote_branch_name_parts, validate_branch_name,
};
use khaslana::graph::{active_lane_indices, commit_graph_rows};
use khaslana::types::{
    BranchInfo, BranchKind, ChangeState, CommitInfo, CommitRefKind, DiffEncodingChoice,
    DiffEncodingInfo, DiffLineKind, DiffScope, GitError, OperationEvent,
};

fn text(s: &str) -> String {
    s.to_string()
}

fn texts(items: &[&str]) -> Vec<String> {
    items.iter().map(|s| s.to_string()).collect()
}

fn no_flags() -> StatusFlags {
    StatusFlags {
        conflicted: false,
        index_new: false,
        index_modified: false,
        index_deleted: false,
        index_renamed: false,
        index_typechange: false,
        wt_new: false,
        wt_modified: false,
        wt_deleted: false,
        wt_renamed: false,
        wt_typechange: false,
    }
}

fn branch(name: &str, kind: BranchKind) -> BranchInfo {
    BranchInfo {
        name: text(name),
        kind,
        is_head: false,
        upstream: None,
    }
}

#[test]
fn branches_are_listed_by_name_and_what_they_follow() {
    let entry = |name: Option<&str>, kind: BranchKind, upstream: Option<&str>| BranchEntry {
        name: name.map(text),
        kind,
        is_head: name == Some("main"),
        upstream: upstream.map(text),
    };
    let listed = branches(&vec![
        entry(Some("origin/a"), BranchKind::Remote, Some("x")),
        entry(None, BranchKind::Local, Some("y")),
        entry(Some("main"), BranchKind::Local, Some("origin/main")),
        entry(Some("b"), BranchKind::Local, None),
    ]);
    let seen: Vec<(&str, bool, Option<&str>)> = listed
        .iter()
        .map(|b| (b.name.as_str(), b.is_head, b.upstream.as_deref()))
        .collect();
    assert_eq!(
        seen,
        vec![("b", false, None), ("main", true, Some("origin/main")), ("origin/a", false, None)]
    );
    assert_eq!(branch_info(&entry(None, BranchKind::Local, None)), None);
}

#[test]
fn a_walk_starts_at_the_references_or_at_the_head() {
    let refs = |starts: &[&str]| GraphRefs { starts: texts(starts), labels: Vec::new() };
    assert_eq!(walk_start(true, &refs(&["1", "2"])), WalkStart::Commits(texts(&["1", "2"])));
    assert_eq!(walk_start(false, &refs(&["1"])), WalkStart::Head);
    assert_eq!(walk_start(true, &refs(&[])), WalkStart::Head);
    assert!(history_without_head(FaultCode::UnbornBranch, text("m")).unwrap().is_empty());
    let missing = text("reference 'refs/heads/main' not found");
    assert!(history_without_head(FaultCode::Other, missing).unwrap().is_empty());
    assert_eq!(
        history_without_head(FaultCode::Other, text("broken")).unwrap_err().message(),
        "broken"
    );
}

#[test]
fn the_lane_of_a_parent_is_connected_above() {
    let commits = vec![
        commit("m", &["a", "b"]),
        commit("a", &["r"]),
        commit("b", &["r"]),
        commit("r", &[]),
    ];
    let rows = commit_graph_rows(&commits);
    for n in 1..commits.len() {
        let connected = (0..n).any(|j| {
            commits[j].parents.contains(&commits[n].oid)
                && rows[j].connectors.contains(&rows[n].lane)
        });
        assert!(connected);
    }
}

#[test]
fn local_branches_come_first() {
    let sorted = sort_branches(vec![
        branch("origin/a", BranchKind::Remote),
        branch("z", BranchKind::Local),
        branch("b", BranchKind::Local),
    ]);
    let names: Vec<&str> = sorted.iter().map(|b| b.name.as_str()).collect();
    assert_eq!(names, vec!["b", "z", "origin/a"]);
}

#[test]
fn names_that_cannot_be_read_are_left_out() {
    assert_eq!(
        remotes(vec![Some(text("up")), None, Some(text("origin"))]),
        texts(&["origin", "up"])
    );
    let names: Vec<String> = tags(vec![None, Some(text("v2")), Some(text("v1"))])
        .into_iter()
        .map(|tag| tag.name)
        .collect();
    assert_eq!(names, texts(&["v1", "v2"]));
}

#[test]
fn entries_of_one_path_are_one_change() {
    let entry = |path: &str, flags: StatusFlags| StatusEntry { path: text(path), flags };
    let changes = status_with_options(vec![
        entry("b", StatusFlags { index_new: true, ..no_flags() }),
        entry("a", StatusFlags { wt_deleted: true, ..no_flags() }),
        entry("b", StatusFlags { wt_modified: true, ..no_flags() }),
        entry("c", StatusFlags { conflicted: true, wt_new: true, ..no_flags() }),
    ]);
    assert_eq!(changes.len(), 3);
    assert_eq!(changes[0].unstaged, Some(ChangeState::Deleted));
    assert_eq!(
        (changes[1].staged, changes[1].unstaged),
        (Some(ChangeState::Added), Some(ChangeState::Modified))
    );
    assert_eq!(
        (changes[2].staged, changes[2].unstaged),
        (Some(ChangeState::Conflicted), Some(ChangeState::Conflicted))
    );
}

#[test]
fn conflicts_are_named_once_and_in_order() {
    let entry = |our: Option<&[u8]>, their: Option<&[u8]>| ConflictPaths {
        our: our.map(|p| p.to_vec()),
        their: their.map(|p| p.to_vec()),
        ancestor: None,
    };
    let entries = vec![
        entry(None, Some(&b"z"[..])),
        entry(Some(&b"a"[..]), Some(&b"q"[..])),
        entry(Some(&b"a"[..]), None),
        entry(Some(&[0xff][..]), Some(&b"hidden"[..])),
    ];
    assert_eq!(conflicts(&entries), texts(&["a", "z"]));
}

#[test]
fn files_of_a_commit_are_sorted() {
    let delta = |new: Option<&str>, old: Option<&str>, delta: Delta| FileDelta {
        new_path: new.map(text),
        old_path: old.map(text),
        delta,
    };
    let files = commit_files(&vec![
        delta(Some("b"), None, Delta::Added),
        delta(None, Some("a"), Delta::Deleted),
        delta(None, None, Delta::Modified),
        delta(Some("c"), Some("d"), Delta::Copied),
    ]);
    let seen: Vec<(&str, ChangeState)> = files.iter().map(|f| (f.path.as_str(), f.status)).collect();
    assert_eq!(
        seen,
        vec![
            ("a", ChangeState::Deleted),
            ("b", ChangeState::Added),
            ("c", ChangeState::Modified),
        ]
    );
}

#[test]
fn labels_stand_at_their_commits_in_order() {
    let tip = |name: &str, remote: bool, target: &str| BranchTip {
        name: Some(text(name)),
        remote,
        target: Some(text(target)),
        is_commit: true,
    };
    let refs = commit_graph_refs(
        &vec![
            tip("origin/main", true, "2"),
            tip("origin/HEAD", true, "2"),
            tip("main", false, "2"),
            tip("old", false, "1"),
            BranchTip { is_commit: false, ..tip("broken", false, "9") },
        ],
        &vec![TagTip { name: text("v1"), commit: Some(text("1")) }],
        &Some(text("2")),
    );
    assert_eq!(refs.starts, texts(&["1", "2"]));
    let at = |oid: &str| -> Vec<(String, CommitRefKind)> {
        refs_of(&refs.labels, oid).into_iter().map(|r| (r.name, r.kind)).collect()
    };
    assert_eq!(
        at("2"),
        vec![
            (text("HEAD"), CommitRefKind::Head),
            (text("main"), CommitRefKind::LocalBranch),
            (text("origin/main"), CommitRefKind::RemoteBranch),
        ]
    );
    assert_eq!(
        at("1"),
        vec![
            (text("old"), CommitRefKind::LocalBranch),
            (text("v1"), CommitRefKind::Tag),
        ]
    );
    assert!(at("9").is_empty());
    let info = commit_info(
        &RawCommit {
            oid: text("0123456789"),
            summary: None,
            author: None,
            time: 3,
            parents: Vec::new(),
        },
        &refs.labels,
    );
    assert_eq!(
        (info.short_oid.as_str(), info.summary.as_str(), info.author.as_str()),
        ("01234567", "(无提交信息)", "未知作者")
    );
}

#[test]
fn pages_follow_each_other() {
    let walk = texts(&["a", "b", "c", "d", "e"]);
    assert_eq!(commit_page(&walk, 0, 3), texts(&["a", "b", "c"]));
    assert_eq!(commit_page(&walk, 3, 3), texts(&["d", "e"]));
    assert!(commit_page(&walk, 9, 3).is_empty());
}

#[test]
fn a_repository_without_commits_is_no_error() {
    assert!(is_empty_head_error(FaultCode::UnbornBranch, ""));
    assert!(is_empty_head_error(FaultCode::Other, "reference 'refs/heads/main' not found"));
    assert!(!is_empty_head_error(FaultCode::Other, "disk"));
}

fn commit(oid: &str, parents: &[&str]) -> CommitInfo {
    CommitInfo {
        oid: text(oid),
        short_oid: text(oid),
        summary: text(""),
        author: text(""),
        time: 0,
        parents: texts(parents),
        refs: Vec::new(),
    }
}

#[test]
fn a_linear_history_is_one_lane() {
    let rows = commit_graph_rows(&vec![commit("3", &["2"]), commit("2", &["1"]), commit("1", &[])]);
    assert!(rows.iter().all(|row| row.lane == 0));
}

#[test]
fn a_merge_opens_a_lane_that_its_branch_closes() {
    let rows = commit_graph_rows(&vec![
        commit("m", &["a", "b"]),
        commit("a", &["r"]),
        commit("b", &["r"]),
        commit("r", &[]),
    ]);
    let lanes: Vec<usize> = rows.iter().map(|row| row.lane).collect();
    assert_eq!(lanes, vec![0, 0, 1, 0]);
    assert_eq!(
        active_lane_indices(&vec![Some(text("x")), None, Some(text("y"))], 1),
        vec![0, 1, 2]
    );
}

// ---------------------------------------------------------------------------
// Operations
// ---------------------------------------------------------------------------
#[test]
fn names_of_branches_are_checked() {
    assert!(validate_branch_name("feature/a").is_ok());
    for name in ["", " ", "a\\b", "-a", "a..b", "a b", "a~", "HEAD"] {
        assert_eq!(
            validate_branch_name(name),
            Err(GitError::InvalidBranchName(text(name))),
            "{name}"
        );
    }
}

#[test]
fn a_remote_branch_is_split_at_its_first_slash() {
    assert_eq!(remote_branch_name_parts("origin/a/b"), Ok((text("origin"), text("a/b"))));
    assert!(remote_branch_name_parts("origin").is_err());
    assert!(remote_branch_name_parts("origin/ ").is_err());
    let plan = checkout_remote_branch("origin/a/b").unwrap();
    assert_eq!((plan.local_name.as_str(), plan.upstream.as_str()), ("a/b", "origin/a/b"));
    assert!(checkout_remote_branch("origin/a..b").is_err());
}

#[test]
fn ids_of_commits_are_completed_or_refused() {
    assert_eq!(
        commit_id("0123456789abcdef0123456789ABCDEF01234567").unwrap(),
        "0123456789abcdef0123456789abcdef01234567"
    );
    match commit_id("xyz") {
        Err(GitError::Message(message)) => assert!(message.starts_with("提交 ID 无效：")),
        other => panic!("{other:?}"),
    }
}

#[test]
fn messages_of_commits_are_trimmed_and_needed() {
    assert_eq!(commit_message(" fix \n", None), Ok(text("fix")));
    assert_eq!(commit_message("  ", None), Err(GitError::EmptyCommitMessage));
    assert_eq!(
        commit_message("fix", Some(texts(&["a"]))),
        Err(GitError::Conflicts(texts(&["a"])))
    );
    assert_eq!(merge_message("b"), "Merge branch 'b'");
    assert_eq!(
        revert_message(None, "0a"),
        "Revert \"commit\"\n\nThis reverts commit 0a."
    );
}

#[test]
fn merges_follow_what_git_finds() {
    let found = |up_to_date: bool, fast_forward: bool, normal: bool| {
        merge_action(MergeAnalysis { up_to_date, fast_forward, normal }, "b")
    };
    assert_eq!(found(true, true, true), Ok(MergeAction::Nothing));
    assert_eq!(found(false, true, true), Ok(MergeAction::FastForward));
    assert_eq!(found(false, false, true), Ok(MergeAction::MergeCommit));
    assert_eq!(
        found(false, false, false),
        Err(GitError::Message(text("无法合并 b：不支持的合并分析结果")))
    );
}

#[test]
fn resets_and_reverts_have_conditions() {
    assert!(check_reset(false).is_ok());
    assert!(check_reset(true).is_err());
    assert!(check_revert(0, 0, 1).is_ok());
    assert!(check_revert(1, 0, 1).is_err());
    assert!(check_revert(0, 1, 1).is_err());
    assert_eq!(
        check_revert(0, 0, 2),
        Err(GitError::Git(text("暂不支持回滚合并提交")))
    );
}

#[test]
fn a_branch_without_a_commit_is_not_checked_out() {
    assert_eq!(checkout_target("b", Some(text("1"))), Ok(text("1")));
    assert_eq!(
        checkout_target("b", None),
        Err(GitError::Message(text("分支 b 没有目标提交")))
    );
    assert_eq!(
        remote_checkout_target("o/b", None),
        Err(GitError::Message(text("远端分支 o/b 没有目标提交")))
    );
    assert_eq!(
        remote_checkout_error("b", GitError::Git(text("dirty"))),
        GitError::Message(text("无法切换到本地分支 b：dirty"))
    );
}

#[test]
fn paths_are_staged_as_they_stand() {
    assert_eq!(stage_action(".", false), StageAction::AddAll);
    assert_eq!(stage_action("a", true), StageAction::Remove);
    assert_eq!(stage_action("a", false), StageAction::Add);
    assert_eq!(snapshot_path(None, Some(text("p")), text("g")), "p");
    assert_eq!(
        transfer_progress(1, 2),
        OperationEvent::Progress(text("已接收 1/2 个对象"))
    );
}

#[test]
fn bytes_that_are_no_text_are_replaced() {
    let line = PatchLine {
        origin: '+',
        old_lineno: None,
        new_lineno: Some(1),
        content: vec![b'a', 0xff, b'b', b'\n'],
    };
    assert_eq!(diff_line(&line).content, "a\u{FFFD}b");
    assert_eq!(diff_line_with_text(&line, "kept\r\n").content, "kept");
}

#[test]
fn paths_stay_in_the_worktree() {
    let inside = vec![PathPart::Current, PathPart::Normal];
    assert!(ensure_worktree_relative_path(&inside, "不能回滚更改").is_ok());
    assert!(ensure_worktree_relative_path(&Vec::new(), "不能回滚更改").is_ok());
    for part in [PathPart::Parent, PathPart::Root, PathPart::Prefix] {
        let error = ensure_worktree_relative_path(&vec![PathPart::Normal, part], "不能回滚更改");
        assert_eq!(error.unwrap_err().message(), "路径不在工作区内，不能回滚更改");
    }
    assert_eq!(path_to_git(&texts(&["a", "b", "c.txt"])), "a/b/c.txt");
    assert_eq!(path_to_git(&Vec::new()), "");
}

#[test]
fn errors_are_put_into_words() {
    assert_eq!(GitError::Git(text("g")).message(), "g");
    assert_eq!(GitError::Io(text("i")).message(), "i");
    assert_eq!(GitError::Credential(text("c")).message(), "c");
    assert_eq!(GitError::Message(text("m")).message(), "m");
    assert_eq!(GitError::InvalidBranchName(text("a b")).message(), "分支名称无效：a b");
    assert_eq!(GitError::EmptyCommitMessage.message(), "提交信息不能为空");
    assert_eq!(GitError::Conflicts(texts(&["a", "b"])).message(), "存在冲突：a, b");
}

#[test]
fn encodings_have_names() {
    assert_eq!(DiffEncodingChoice::Auto.label(), "自动");
    assert_eq!(DiffEncodingChoice::Utf8.label(), "UTF-8");
    assert_eq!(DiffEncodingChoice::Gb18030.label(), "GB18030");
    assert_eq!(DiffEncodingChoice::Big5.label(), "Big5");
}

#[test]
fn pages_are_windows_of_the_whole_walk() {
    let walk = texts(&["a", "b", "c", "d", "e"]);
    let all = commit_page(&walk, 0, 5);
    assert_eq!(all, walk);
    assert_eq!(commit_page(&walk, 1, 3), all[1..4].to_vec());
    assert_eq!(commit_page(&walk, 4, 3), all[4..].to_vec());
}

#[test]
fn lines_of_a_patch_are_told_apart() {
    let line = |origin: char, content: &str| {
        diff_line(&PatchLine {
            origin,
            old_lineno: None,
            new_lineno: None,
            content: content.as_bytes().to_vec(),
        })
    };
    assert_eq!(line('+', "a\r\n").kind, DiffLineKind::Added);
    assert_eq!(line('+', "a\r\n").content, "a");
    assert_eq!(line('-', "").kind, DiffLineKind::Removed);
    assert_eq!(line('F', "").kind, DiffLineKind::Header);
    assert_eq!(line('H', "").kind, DiffLineKind::Header);
    assert_eq!(line('=', "").kind, DiffLineKind::Context);
    assert_eq!(diff_scope_label(&DiffScope::Staged), "已暂存");
    assert_eq!(diff_scope_id(&DiffScope::Unstaged), "unstaged");
    let read = diff_encoding_label(
        DiffEncodingInfo {
            requested: DiffEncodingChoice::Auto,
            resolved: DiffEncodingChoice::Utf8,
            lossy: false,
        },
        "自动",
        "UTF-8",
    );
    assert!(read.contains("UTF-8"));
}
