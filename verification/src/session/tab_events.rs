//! What loads and operations bring to a tab.

use vstd::prelude::*;

use crate::graph::commit_graph_rows;
use crate::session::effects::Effect;
use crate::session::tab::{
    HistoryLoading, HistoryScope, RepoTabState, RepositoryLoading, TabView, opt_state, rows_draw,
    state_of,
};
use crate::strings::opt_str_eq;
use crate::types::{CommitFileChange, CommitInfo, FileDiff, RepositorySnapshot, WorktreeChange};

verus! {

impl RepoTabState {
    pub fn operation_started(&mut self, message: String)
        requires
            old(self).wf(),
        ensures
            final(self).wf(),
            final(self)@ == old(self)@.on_started(message@),
    {
        self.busy = true;
        self.status = message;
        self.last_error = None;
    }

    pub fn operation_progress(&mut self, message: String)
        requires
            old(self).wf(),
        ensures
            final(self).wf(),
            final(self)@ == old(self)@.on_progress(message@),
    {
        self.status = message;
    }

    pub fn operation_failed(&mut self, error: String)
        requires
            old(self).wf(),
        ensures
            final(self).wf(),
            final(self)@ == old(self)@.on_failed(error@),
    {
        self.busy = false;
        self.loading = RepositoryLoading::default();
        self.status = "操作失败".to_string();
        self.last_error = Some(error);
    }

    pub fn repository_fast_loaded(
        &mut self,
        message: String,
        snapshot: RepositorySnapshot,
        load_id: u64,
        effects: &mut Vec<Effect>,
    )
        requires
            old(self).wf(),
        ensures
            final(self).wf(),
            final(self).id == old(self).id,
            final(self)@ == old(self)@.on_fast(message@, state_of(snapshot), load_id).0,
            final(effects)@ == old(effects)@ + old(self)@.on_fast(
                message@,
                state_of(snapshot),
                load_id,
            ).1,
    {
        proof {
            reveal(TabView::on_fast);
        }
        if load_id != self.repository_load_id {
            return ;
        }
        self.busy = false;
        self.loading = RepositoryLoading { metadata: true, status_fast: true, status_full: true };
        self.status = message;
        self.last_error = None;
        self.diff = None;
        self.clear_history();
        self.change_selection.clear();
        self.repo_path = Some(snapshot.path.clone());
        self.show_snapshot(snapshot);
        effects.push(Effect::ShowCurrentBranch { tab_id: self.id });
        self.reload_history_if_active(effects);
        assert(effects@ =~= old(effects)@ + old(self)@.on_fast(
            message@,
            state_of(snapshot),
            load_id,
        ).1);
    }

    pub fn repository_metadata_loaded(
        &mut self,
        message: String,
        snapshot: RepositorySnapshot,
        load_id: u64,
        effects: &mut Vec<Effect>,
    )
        requires
            old(self).wf(),
        ensures
            final(self).wf(),
            final(self).id == old(self).id,
            final(self)@ == old(self)@.on_metadata(message@, state_of(snapshot), load_id).0,
            final(effects)@ == old(effects)@ + old(self)@.on_metadata(
                message@,
                state_of(snapshot),
                load_id,
            ).1,
    {
        proof {
            reveal(TabView::on_metadata);
        }
        if load_id != self.repository_load_id {
            return ;
        }
        self.busy = false;
        self.loading.metadata = false;
        self.status = message;
        self.merge_metadata_snapshot(snapshot);
        effects.push(Effect::ShowCurrentBranch { tab_id: self.id });
        assert(effects@ =~= old(effects)@ + old(self)@.on_metadata(
            message@,
            state_of(snapshot),
            load_id,
        ).1);
    }

    pub fn repository_status_fast_loaded(
        &mut self,
        message: String,
        changes: Vec<WorktreeChange>,
        load_id: u64,
    )
        requires
            old(self).wf(),
        ensures
            final(self).wf(),
            final(self)@ == old(self)@.on_status_fast(message@, changes@, load_id),
    {
        if load_id != self.repository_load_id {
            return ;
        }
        self.loading.status_fast = false;
        self.status = message;
        self.replace_changes(changes);
    }

    pub fn repository_status_full_loaded(
        &mut self,
        message: String,
        changes: Vec<WorktreeChange>,
        load_id: u64,
    )
        requires
            old(self).wf(),
        ensures
            final(self).wf(),
            final(self)@ == old(self)@.on_status_full(message@, changes@, load_id),
    {
        if load_id != self.repository_load_id {
            return ;
        }
        self.loading.status_full = false;
        self.status = message;
        self.replace_changes(changes);
    }

    pub fn repository_load_stage_failed(&mut self, error: String, load_id: u64)
        requires
            old(self).wf(),
        ensures
            final(self).wf(),
            final(self)@ == old(self)@.on_stage_failed(error@, load_id),
    {
        if load_id != self.repository_load_id {
            return ;
        }
        self.loading = RepositoryLoading::default();
        self.status = "仓库已打开，后台加载失败".to_string();
        self.last_error = Some(error);
    }

    fn take_snapshot(&mut self, snapshot: RepositorySnapshot, own: bool, effects: &mut Vec<Effect>)
        requires
            old(self).wf(),
        ensures
            final(self).wf(),
            final(self)@ == old(self)@.after_operation(state_of(snapshot), own).0,
            final(effects)@ == old(effects)@ + old(self)@.after_operation(
                state_of(snapshot),
                own,
            ).1,
    {
        let chars: Vec<char> = crate::text::to_chars(snapshot.path.as_str());
        if chars.len() > 0 {
            self.repo_path = Some(snapshot.path.clone());
        }
        self.show_snapshot(snapshot);
        self.prune_change_selection();
        self.clear_history();
        effects.push(Effect::ShowCurrentBranch { tab_id: self.id });
        self.reload_history_if_active(effects);
        if own {
            self.loading.status_full = true;
        }
        assert(effects@ =~= old(effects)@ + old(self)@.after_operation(state_of(snapshot), own).1);
    }

    fn take_diff(&mut self, diff: Option<FileDiff>, effects: &mut Vec<Effect>)
        requires
            old(self).wf(),
        ensures
            final(self).wf(),
            final(self)@ == old(self)@.with_diff(diff).0,
            final(effects)@ == old(effects)@ + old(self)@.with_diff(diff).1,
    {
        match diff {
            Some(diff) => {
                self.diff = Some(diff);
                self.diff_headers_expanded = false;
                effects.push(Effect::ResetDiffScroll { tab_id: self.id });
            },
            None => {},
        }
        assert(effects@ =~= old(effects)@ + old(self)@.with_diff(diff).1);
    }

    fn reread(&self, effects: &mut Vec<Effect>)
        ensures
            final(effects)@ == old(effects)@ + self@.rereading(),
    {
        match &self.repo_path {
            Some(path) => {
                effects.push(
                    Effect::LoadFullStatus {
                        tab_id: self.id,
                        path: path.clone(),
                        load_id: self.repository_load_id,
                        message: "变更已补全",
                    },
                );
            },
            None => {},
        }
        assert(effects@ =~= old(effects)@ + self@.rereading());
    }

    /// An operation is done. `own` says whether it was one of this tab.
    pub fn operation_finished(
        &mut self,
        message: String,
        snapshot: Option<RepositorySnapshot>,
        diff: Option<FileDiff>,
        own: bool,
        effects: &mut Vec<Effect>,
    )
        requires
            old(self).wf(),
        ensures
            final(self).wf(),
            final(self).id == old(self).id,
            final(self)@ == old(self)@.on_finished(message@, opt_state(snapshot), diff, own).0,
            final(effects)@ == old(effects)@ + old(self)@.on_finished(
                message@,
                opt_state(snapshot),
                diff,
                own,
            ).1,
    {
        proof {
            reveal(TabView::on_finished);
        }
        let ghost done = old(self)@.on_finished(message@, opt_state(snapshot), diff, own);
        let again: bool = own && snapshot.is_some();
        self.busy = false;
        self.loading = RepositoryLoading::default();
        self.status = message;
        match snapshot {
            Some(snapshot) => {
                self.take_snapshot(snapshot, own, effects);
            },
            None => {},
        }
        self.take_diff(diff, effects);
        if again {
            self.reread(effects);
        }
        assert(effects@ =~= old(effects)@ + done.1);
    }

    pub fn discard_change_finished(
        &mut self,
        message: String,
        snapshot: RepositorySnapshot,
        changes: Vec<WorktreeChange>,
        load_id: u64,
        effects: &mut Vec<Effect>,
    )
        requires
            old(self).wf(),
        ensures
            final(self).wf(),
            final(self).id == old(self).id,
            final(self)@ == old(self)@.on_discarded(
                message@,
                state_of(snapshot),
                changes@,
                load_id,
            ).0,
            final(effects)@ == old(effects)@ + old(self)@.on_discarded(
                message@,
                state_of(snapshot),
                changes@,
                load_id,
            ).1,
    {
        proof {
            reveal(TabView::on_discarded);
        }
        if load_id != self.repository_load_id {
            return ;
        }
        let ghost done = old(self)@.on_discarded(message@, state_of(snapshot), changes@, load_id);
        self.busy = false;
        self.loading = RepositoryLoading::default();
        self.status = message;
        self.last_error = None;
        self.repo_path = Some(snapshot.path.clone());
        self.show_snapshot(snapshot);
        self.replace_changes(changes);
        self.diff = None;
        self.diff_headers_expanded = false;
        effects.push(Effect::ResetDiffScroll { tab_id: self.id });
        self.clear_history();
        effects.push(Effect::ShowCurrentBranch { tab_id: self.id });
        self.reload_history_if_active(effects);
        assert(effects@ =~= old(effects)@ + done.1);
    }

    fn take_commits(&mut self, commits: Vec<CommitInfo>, append: bool, has_more: bool)
        requires
            old(self).wf(),
        ensures
            final(self).wf(),
            final(self)@ == old(self)@.with_commits(commits@, append, has_more),
    {
        self.history_loading.commits = false;
        self.history_has_more = has_more;
        if append {
            let mut more: Vec<CommitInfo> = commits;
            let ghost all = self.history_commits@ + more@;
            self.history_commits.append(&mut more);
            assert(self.history_commits@ =~= all);
        } else {
            self.history_commits = commits;
            self.history_selected_commit = None;
            self.history_files = Vec::new();
            self.history_selected_file = None;
            self.history_diff = None;
        }
        self.history_graph_rows = commit_graph_rows(&self.history_commits);
        proof {
            reveal(rows_draw);
        }
    }

    pub fn history_commits_loaded(
        &mut self,
        commits: Vec<CommitInfo>,
        append: bool,
        has_more: bool,
        scope: HistoryScope,
        load_id: u64,
        effects: &mut Vec<Effect>,
    )
        requires
            old(self).wf(),
        ensures
            final(self).wf(),
            final(self).id == old(self).id,
            final(self)@ == old(self)@.on_commits(
                commits@,
                append,
                has_more,
                scope,
                load_id,
            ).0,
            final(effects)@ == old(effects)@ + old(self)@.on_commits(
                commits@,
                append,
                has_more,
                scope,
                load_id,
            ).1,
    {
        proof {
            reveal(TabView::on_commits);
        }
        if load_id != self.repository_load_id || scope != self.history_scope {
            return ;
        }
        self.take_commits(commits, append, has_more);
        self.settle_history(effects);
    }

    fn settle_history(&mut self, effects: &mut Vec<Effect>)
        requires
            old(self).wf(),
        ensures
            final(self).wf(),
            final(self)@ == old(self)@.settling().0,
            final(effects)@ == old(effects)@ + old(self)@.settling().1,
    {
        if self.history_selected_commit.is_none() {
            if self.history_commits.len() > 0 {
                let oid: String = self.history_commits[0].oid.clone();
                self.select_history_commit(oid, effects);
            } else {
                self.status = "当前分支暂无提交记录".to_string();
                assert(effects@ =~= old(effects)@ + Seq::<Effect>::empty());
            }
        } else {
            self.status = "提交记录已加载".to_string();
            assert(effects@ =~= old(effects)@ + Seq::<Effect>::empty());
        }
    }

    pub fn history_files_loaded(
        &mut self,
        oid: &str,
        files: Vec<CommitFileChange>,
        load_id: u64,
        effects: &mut Vec<Effect>,
    )
        requires
            old(self).wf(),
        ensures
            final(self).wf(),
            final(self).id == old(self).id,
            final(self)@ == old(self)@.on_files(oid@, files@, load_id).0,
            final(effects)@ == old(effects)@ + old(self)@.on_files(oid@, files@, load_id).1,
    {
        proof {
            reveal(TabView::on_files);
        }
        if load_id != self.repository_load_id || !opt_str_eq(&self.history_selected_commit, oid) {
            return ;
        }
        self.history_loading.files = false;
        self.history_files = files;
        self.history_selected_file = None;
        self.history_diff = None;
        self.history_diff_headers_expanded = false;
        if self.history_files.len() > 0 {
            let file: String = self.history_files[0].path.clone();
            self.select_history_file(file, effects);
        } else {
            self.status = "该提交没有文件变更".to_string();
        }
    }

    pub fn history_diff_loaded(
        &mut self,
        oid: &str,
        file: &str,
        diff: FileDiff,
        load_id: u64,
        effects: &mut Vec<Effect>,
    )
        requires
            old(self).wf(),
        ensures
            final(self).wf(),
            final(self).id == old(self).id,
            final(self)@ == old(self)@.on_diff(oid@, file@, diff, load_id).0,
            final(effects)@ == old(effects)@ + old(self)@.on_diff(oid@, file@, diff, load_id).1,
    {
        proof {
            reveal(TabView::on_diff);
        }
        if load_id != self.repository_load_id || !opt_str_eq(&self.history_selected_commit, oid)
            || !opt_str_eq(&self.history_selected_file, file) {
            return ;
        }
        self.history_loading.diff = false;
        self.history_diff = Some(diff);
        self.history_diff_headers_expanded = false;
        effects.push(Effect::ResetHistoryDiffScroll { tab_id: self.id });
        self.status = "提交差异已加载".to_string();
        assert(effects@ =~= old(effects)@ + seq![Effect::ResetHistoryDiffScroll { tab_id: self.id }]);
    }

    pub fn history_load_failed(&mut self, error: String, load_id: u64)
        requires
            old(self).wf(),
        ensures
            final(self).wf(),
            final(self)@ == old(self)@.on_history_failed(error@, load_id),
    {
        if load_id != self.repository_load_id {
            return ;
        }
        self.history_loading = HistoryLoading::default();
        self.status = "提交记录加载失败".to_string();
        self.last_error = Some(error);
    }

    // What is asked of the tab
    pub fn toggle_diff_headers(&mut self, effects: &mut Vec<Effect>)
        requires
            old(self).wf(),
        ensures
            final(self).wf(),
            final(self)@ == (TabView {
                diff_headers_expanded: !old(self)@.diff_headers_expanded,
                ..old(self)@
            }),
            final(effects)@ == old(effects)@.push(
                Effect::ResetDiffScroll { tab_id: old(self).id },
            ),
    {
        self.diff_headers_expanded = !self.diff_headers_expanded;
        effects.push(Effect::ResetDiffScroll { tab_id: self.id });
    }

    pub fn toggle_history_diff_headers(&mut self, effects: &mut Vec<Effect>)
        requires
            old(self).wf(),
        ensures
            final(self).wf(),
            final(self)@ == (TabView {
                history_headers_expanded: !old(self)@.history_headers_expanded,
                ..old(self)@
            }),
            final(effects)@ == old(effects)@.push(
                Effect::ResetHistoryDiffScroll { tab_id: old(self).id },
            ),
    {
        self.history_diff_headers_expanded = !self.history_diff_headers_expanded;
        effects.push(Effect::ResetHistoryDiffScroll { tab_id: self.id });
    }

    /// Shows the history of other commits. `label` is what the scope is called.
    pub fn set_history_scope(&mut self, scope: HistoryScope, label: &str, effects: &mut Vec<Effect>)
        requires
            old(self).wf(),
        ensures
            final(self).wf(),
            final(self)@ == old(self)@.scoped(scope, label@).0,
            final(effects)@ == old(effects)@ + old(self)@.scoped(scope, label@).1,
    {
        if self.history_scope == scope {
            return ;
        }
        self.history_scope = scope;
        self.clear_history();
        self.status = crate::strings::cat2("提交记录范围已切换为", label);
        self.load_history_page(false, effects);
    }

    /// Asks for the next page of the history, if there is one.
    pub fn load_more_history(&mut self, effects: &mut Vec<Effect>)
        requires
            old(self).wf(),
        ensures
            final(self).wf(),
            old(self)@.has_more ==> final(self)@ == old(self)@.asking_history(true).0 && final(
                effects)@ == old(effects)@ + old(self)@.asking_history(true).1,
            !old(self)@.has_more ==> final(self)@ == old(self)@ && final(effects)@ == old(effects)@,
    {
        if !self.history_has_more {
            return ;
        }
        self.load_history_page(true, effects);
    }
}

impl TabView {
    /// The tab once its history is that of another scope.
    pub open spec fn scoped(self, scope: HistoryScope, label: Seq<char>) -> (Self, Seq<Effect>) {
        if self.scope == scope {
            (self, Seq::empty())
        } else {
            (TabView {
                scope,
                status: "提交记录范围已切换为"@ + label,
                ..self.without_history()
            }).asking_history(false)
        }
    }

    /// The changes are those of an earlier load, and nothing comes of them.
    pub open spec fn is_stale(self, load_id: u64) -> bool {
        load_id != self.load_id
    }
}

/// Nothing that an earlier load brings changes a tab or has an effect.
pub proof fn lemma_stale_results_are_dropped(
    tab: TabView,
    load_id: u64,
    message: Seq<char>,
    snapshot: crate::session::tab::SnapshotState,
    changes: Seq<WorktreeChange>,
    commits: Seq<CommitInfo>,
    append: bool,
    has_more: bool,
    scope: HistoryScope,
    files: Seq<CommitFileChange>,
    oid: Seq<char>,
    file: Seq<char>,
    diff: FileDiff,
)
    requires
        tab.is_stale(load_id),
    ensures
        tab.on_fast(message, snapshot, load_id) == (tab, Seq::<Effect>::empty()),
        tab.on_metadata(message, snapshot, load_id) == (tab, Seq::<Effect>::empty()),
        tab.on_status_fast(message, changes, load_id) == tab,
        tab.on_status_full(message, changes, load_id) == tab,
        tab.on_stage_failed(message, load_id) == tab,
        tab.on_discarded(message, snapshot, changes, load_id) == (tab, Seq::<Effect>::empty()),
        tab.on_commits(commits, append, has_more, scope, load_id) == (tab, Seq::<Effect>::empty()),
        tab.on_files(oid, files, load_id) == (tab, Seq::<Effect>::empty()),
        tab.on_diff(oid, file, diff, load_id) == (tab, Seq::<Effect>::empty()),
        tab.on_history_failed(message, load_id) == tab,
{
    reveal(TabView::on_fast);
    reveal(TabView::on_metadata);
    reveal(TabView::on_discarded);
    reveal(TabView::on_commits);
    reveal(TabView::on_files);
    reveal(TabView::on_diff);
}

/// What a load brings after the others leaves nothing to wait for.
pub proof fn lemma_full_load_is_complete(
    tab: TabView,
    message: Seq<char>,
    snapshot: crate::session::tab::SnapshotState,
    details: crate::session::tab::SnapshotState,
    fast: Seq<WorktreeChange>,
    full: Seq<WorktreeChange>,
)
    ensures
        ({
            let load_id = tab.load_id;
            let a = tab.on_fast(message, snapshot, load_id).0;
            let b = a.on_metadata(message, details, load_id).0;
            let c = b.on_status_fast(message, fast, load_id);
            let d = c.on_status_full(message, full, load_id);
            &&& d.loading == RepositoryLoading::nothing()
            &&& !d.busy
            &&& d.snapshot is Some
            &&& d.snapshot->0 == (crate::session::tab::SnapshotState { changes: full, ..details })
        }),
{
    reveal(TabView::on_fast);
    reveal(TabView::on_metadata);
}

/// The history of the other scope is asked for from the start, without what was there of the first;
/// the scope that is shown is not asked for again.
pub proof fn lemma_changing_the_scope(tab: TabView, scope: HistoryScope, label: Seq<char>)
    ensures
        ({
            let (t, effects) = tab.scoped(scope, label);
            &&& t.scope == scope
            &&& tab.scope == scope ==> t == tab && effects.len() == 0
            &&& tab.scope != scope ==> {
                &&& t.commits.len() == 0
                &&& t.selected_commit is None
                &&& t.files.len() == 0
                &&& tab.id.0 != 0 && tab.repo_path is Some ==> {
                    &&& effects.len() == 1
                    &&& effects[0] == (Effect::LoadHistoryPage {
                        tab_id: tab.id,
                        path: tab.repo_path->0,
                        scope,
                        offset: 0,
                        append: false,
                        load_id: tab.load_id,
                    })
                }
            }
        }),
{
}

/// What a load brings is late if another was started since.
pub proof fn lemma_late_results(tab: TabView, load_id: u64)
    ensures
        tab.is_stale(load_id) <==> load_id != tab.load_id,
{
}

} // verus!
