//! Opening dialogs, and what the dialogs for remotes and stored credentials do.

use vstd::prelude::*;

use crate::credential_forms::{
    delete_remote, empty_form, find_record, open_credential_form, record_at, RemoteOperation,
    SaveRemotePlan,
};
use crate::credentials::CredentialRecord;
use crate::session::commands::RepoCommand;
use crate::session::effects::Effect;
use crate::session::popups::{DialogState, Popups};
use crate::session::tab::{RepoTabState, TabView};
use crate::session::view::{RepositoryView, Spot, ViewState};
use crate::strings::{opt_view, str_eq};
use crate::types::RemoteInfo;

verus! {

/// Whether a dialog is about the repository that is shown.
pub open spec fn needs_repository(dialog: DialogState) -> bool {
    dialog is CreateBranch || dialog is RemoteManager
}

/// The first remote with a name, from `from` on, or how many there are.
pub open spec fn remote_at(remotes: Seq<RemoteInfo>, name: Seq<char>, from: int) -> int
    decreases remotes.len() - from,
{
    if from < 0 || from >= remotes.len() {
        remotes.len() as int
    } else if remotes[from].name@ == name {
        from
    } else {
        remote_at(remotes, name, from + 1)
    }
}

fn find_remote(remotes: &Vec<RemoteInfo>, name: &str) -> (r: usize)
    ensures
        r == remote_at(remotes@, name@, 0),
        r <= remotes@.len(),
{
    let mut i: usize = 0;
    while i < remotes.len()
        invariant
            i <= remotes@.len(),
            remote_at(remotes@, name@, 0) == remote_at(remotes@, name@, i as int),
        decreases remotes@.len() - i,
    {
        if str_eq(remotes[i].name.as_str(), name) {
            return i;
        }
        i = i + 1;
    }
    i
}

impl ViewState {
    /// A dialog opens in place of everything else.
    pub open spec fn showing_dialog(self, dialog: DialogState) -> Self {
        ViewState {
            popups: Popups { active_dialog: Some(dialog), ..Popups::none() },
            ..self.put(self.spot(None), TabView { error: None, ..self.current() })
        }
    }

    /// A dialog takes the place of another.
    pub open spec fn switching(self, dialog: DialogState) -> Self {
        ViewState {
            popups: Popups { active_dialog: Some(dialog), ..self.popups },
            ..self.put(self.spot(None), TabView { error: None, ..self.current() })
        }
    }

    /// The stored credentials were listed, or not.
    pub open spec fn relisting(
        self,
        listed: Result<Seq<CredentialRecord>, Seq<char>>,
        message: Seq<char>,
    ) -> Self {
        match listed {
            Ok(records) => ViewState {
                records,
                ..self.put(
                    self.spot(None),
                    TabView { status: message, error: None, ..self.current() },
                )
            },
            Err(error) => self.failing(error),
        }
    }

    pub open spec fn with_dialog(self, dialog: DialogState) -> Self {
        ViewState { popups: Popups { active_dialog: Some(dialog), ..self.popups }, ..self }
    }

    pub open spec fn with_remote(self, remote: Option<String>) -> Self {
        self.put(self.spot(None), TabView { selected_remote: remote, ..self.current() })
    }
}

/// What listing the stored credentials gave.
pub open spec fn listing(listed: Result<Vec<CredentialRecord>, String>) -> Result<
    Seq<CredentialRecord>,
    Seq<char>,
> {
    match listed {
        Ok(records) => Ok(records@),
        Err(error) => Err(error@),
    }
}

impl RepositoryView {
    /// Opens a dialog in place of everything else.
    pub fn open_dialog(&mut self, dialog: DialogState)
        requires
            old(self).wf(),
        ensures
            final(self).wf(),
            final(self)@ == if needs_repository(dialog) && old(self)@.current().repo_path is None {
                old(self)@.without_repository()
            } else {
                old(self)@.showing_dialog(dialog)
            },
    {
        let needs: bool = match &dialog {
            DialogState::CreateBranch | DialogState::RemoteManager => true,
            _ => false,
        };
        let spot: Spot = self.spot(None);
        let tab = self.tab_at(spot);
        if needs && tab.repo_path.is_none() {
            tab.fail("请先打开一个仓库");
            return ;
        }
        tab.last_error = None;
        self.popups.open_dialog(dialog);
    }

    /// Puts a dialog in the place of the one that is open.
    pub fn switch_dialog(&mut self, dialog: DialogState)
        requires
            old(self).wf(),
        ensures
            final(self).wf(),
            final(self)@ == old(self)@.switching(dialog),
    {
        let spot: Spot = self.spot(None);
        let tab = self.tab_at(spot);
        tab.last_error = None;
        self.popups.active_dialog = Some(dialog);
    }

    /// Takes the list of stored credentials.
    pub fn reload_credential_records(
        &mut self,
        listed: Result<Vec<CredentialRecord>, String>,
        message: &str,
    )
        requires
            old(self).wf(),
        ensures
            final(self).wf(),
            final(self)@ == old(self)@.relisting(listing(listed), message@),
    {
        match listed {
            Ok(records) => {
                self.credential_records = records;
                let spot: Spot = self.spot(None);
                let tab = self.tab_at(spot);
                tab.status = message.to_string();
                tab.last_error = None;
            },
            Err(error) => {
                self.fail(error.as_str());
            },
        }
    }

    pub fn open_credential_manager(&mut self, listed: Result<Vec<CredentialRecord>, String>)
        requires
            old(self).wf(),
        ensures
            final(self).wf(),
            final(self)@ == (ViewState {
                popups: Popups {
                    active_dialog: Some(DialogState::CredentialManager),
                    ..Popups::none()
                },
                ..old(self)@
            }).relisting(listing(listed), "凭据列表已加载"@),
    {
        self.popups.open_dialog(DialogState::CredentialManager);
        self.reload_credential_records(listed, "凭据列表已加载");
    }

    pub fn open_remote_manager(&mut self, listed: Result<Vec<CredentialRecord>, String>)
        requires
            old(self).wf(),
        ensures
            final(self).wf(),
            final(self)@ == if old(self)@.current().repo_path is None {
                old(self)@.without_repository()
            } else {
                (ViewState {
                    popups: Popups {
                        active_dialog: Some(DialogState::RemoteManager),
                        ..Popups::none()
                    },
                    ..old(self)@
                }).relisting(listing(listed), "远端管理已打开"@)
            },
    {
        let missing: bool = match self.spot(None) {
            Spot::Tab(i) => self.tabs[i].repo_path.is_none(),
            _ => self.fallback_tab.repo_path.is_none(),
        };
        if missing {
            self.fail("请先打开一个仓库");
            return ;
        }
        self.popups.open_dialog(DialogState::RemoteManager);
        self.reload_credential_records(listed, "远端管理已打开");
    }

    /// Opens the form for a new credential. A prompt that waits is emptied with it.
    pub fn open_credential_form(&mut self)
        requires
            old(self).wf(),
        ensures
            final(self).wf(),
            final(self)@ == (ViewState {
                form: empty_form(old(self)@.form.save),
                ..old(self)@
            }).switching(DialogState::CredentialForm { editing: None }),
    {
        open_credential_form(&mut self.form);
        self.switch_dialog(DialogState::CredentialForm { editing: None });
    }

    /// Opens the form for a remote. Says what the fields for its name and address start with.
    pub fn open_remote_form(&mut self, editing: Option<String>) -> (r: Option<(String, String)>)
        requires
            old(self).wf(),
        ensures
            final(self).wf(),
            match editing {
                None => {
                    &&& r matches Some((name, url))
                    &&& name@.len() == 0 && url@.len() == 0
                    &&& final(self)@ == old(self)@.switching(DialogState::RemoteForm { editing })
                },
                Some(wanted) => match old(self)@.current().snapshot {
                    None => r is None && final(self)@ == old(self)@.without_repository(),
                    Some(snapshot) => {
                        let at = remote_at(snapshot.remotes, wanted@, 0);
                        if at < snapshot.remotes.len() {
                            &&& r == Some((snapshot.remotes[at].name, snapshot.remotes[at].url))
                            &&& final(self)@ == old(self)@.switching(
                                DialogState::RemoteForm { editing },
                            )
                        } else {
                            r is None && final(self)@ == old(self)@.failing("远端不存在"@)
                        }
                    },
                },
            },
    {
        let started: (String, String) = match &editing {
            None => (String::new(), String::new()),
            Some(wanted) => {
                let tab: &RepoTabState = match self.spot(None) {
                    Spot::Tab(i) => &self.tabs[i],
                    _ => &self.fallback_tab,
                };
                match &tab.snapshot {
                    None => {
                        self.fail("请先打开一个仓库");
                        return None;
                    },
                    Some(snapshot) => {
                        let at: usize = find_remote(&snapshot.remotes, wanted.as_str());
                        if at >= snapshot.remotes.len() {
                            self.fail("远端不存在");
                            return None;
                        }
                        (snapshot.remotes[at].name.clone(), snapshot.remotes[at].url.clone())
                    },
                }
            },
        };
        self.switch_dialog(DialogState::RemoteForm { editing });
        Some(started)
    }

    /// Carries out what saving a remote comes down to in the repository.
    pub fn save_remote(&mut self, plan: SaveRemotePlan, effects: &mut Vec<Effect>)
        requires
            old(self).wf(),
        ensures
            final(self).wf(),
            ({
                let command = match plan.operation {
                    RemoteOperation::Update { old_name, new_name, url } => RepoCommand::UpdateRemote {
                        old_name,
                        new_name,
                        url,
                    },
                    RemoteOperation::Add { name, url } => RepoCommand::AddRemote { name, url },
                };
                let done = old(self)@.with_remote(plan.selected_remote).commanding(command);
                final(self)@ == done.0 && final(effects)@ == old(effects)@ + done.1
            }),
    {
        let spot: Spot = self.spot(None);
        let tab = self.tab_at(spot);
        tab.selected_remote = plan.selected_remote;
        match plan.operation {
            RemoteOperation::Update { old_name, new_name, url } => {
                self.with_repo(RepoCommand::UpdateRemote { old_name, new_name, url }, effects);
            },
            RemoteOperation::Add { name, url } => {
                self.with_repo(RepoCommand::AddRemote { name, url }, effects);
            },
        }
    }

    /// Deletes a remote. It is not selected any more.
    pub fn delete_remote(&mut self, name: String, effects: &mut Vec<Effect>)
        requires
            old(self).wf(),
        ensures
            final(self).wf(),
            ({
                let selected = old(self)@.current().selected_remote;
                let left = if opt_view(selected) == Some(name@) {
                    None
                } else {
                    selected
                };
                let done = old(self)@.with_remote(left).commanding(
                    RepoCommand::DeleteRemote { name },
                );
                final(self)@ == done.0 && final(effects)@ == old(effects)@ + done.1
            }),
    {
        let spot: Spot = self.spot(None);
        let tab = self.tab_at(spot);
        tab.selected_remote = delete_remote(name.as_str(), &tab.selected_remote);
        self.with_repo(RepoCommand::DeleteRemote { name }, effects);
    }

    /// A stored credential was deleted, or not. `listed` is the list afterwards.
    pub fn credential_deleted(
        &mut self,
        deleted: Result<(), String>,
        listed: Result<Vec<CredentialRecord>, String>,
    )
        requires
            old(self).wf(),
        ensures
            final(self).wf(),
            final(self)@ == match deleted {
                Ok(_) => old(self)@.with_dialog(DialogState::CredentialManager).relisting(
                    listing(listed),
                    "凭据已删除"@,
                ),
                Err(error) => old(self)@.with_dialog(DialogState::CredentialManager).failing(error@),
            },
    {
        self.popups.active_dialog = Some(DialogState::CredentialManager);
        match deleted {
            Ok(_) => self.reload_credential_records(listed, "凭据已删除"),
            Err(error) => self.fail(error.as_str()),
        }
    }

    /// A new credential was stored, or not. `listed` is the list afterwards.
    pub fn credential_saved(
        &mut self,
        saved: Result<(), String>,
        listed: Result<Vec<CredentialRecord>, String>,
    )
        requires
            old(self).wf(),
        ensures
            final(self).wf(),
            final(self)@ == match saved {
                Ok(_) => old(self)@.with_dialog(DialogState::CredentialManager).relisting(
                    listing(listed),
                    "凭据已添加"@,
                ),
                Err(error) => old(self)@.failing(error@),
            },
    {
        match saved {
            Ok(_) => {
                self.popups.active_dialog = Some(DialogState::CredentialManager);
                self.reload_credential_records(listed, "凭据已添加");
            },
            Err(error) => self.fail(error.as_str()),
        }
    }

    /// Starts a trial of a stored credential, unless something runs. Says which one.
    pub fn test_credential_record(&mut self, record_id: &str) -> (r: Option<usize>)
        requires
            old(self).wf(),
        ensures
            final(self).wf(),
            ({
                let at = record_at(old(self)@.records, record_id@, 0);
                if old(self)@.current().busy {
                    r is None && final(self)@ == old(self)@.failing("已有操作正在运行"@)
                } else if at >= old(self)@.records.len() {
                    r is None && final(self)@ == old(self)@.failing("凭据记录不存在"@)
                } else {
                    &&& r is Some && r->0 == at
                    &&& final(self)@ == old(self)@.put(
                        old(self)@.spot(None),
                        TabView {
                            busy: true,
                            status: "正在测试凭据连接"@,
                            error: None,
                            ..old(self)@.current()
                        },
                    )
                }
            }),
    {
        let spot: Spot = self.spot(None);
        let at: usize = find_record(&self.credential_records, record_id);
        let known: bool = at < self.credential_records.len();
        let tab = self.tab_at(spot);
        if tab.busy {
            tab.fail("已有操作正在运行");
            return None;
        }
        if !known {
            tab.fail("凭据记录不存在");
            return None;
        }
        tab.busy = true;
        tab.status = "正在测试凭据连接".to_string();
        tab.last_error = None;
        Some(at)
    }
}

// ---------------------------------------------------------------------------
// Laws
// ---------------------------------------------------------------------------
/// A dialog is opened over which nothing else is open, and the error of before is gone; one that
/// takes the place of another leaves the menus as they are.
pub proof fn lemma_opened_dialogs(state: ViewState, dialog: DialogState)
    requires
        state.is_place(state.spot(None)),
    ensures
        ({
            let after = state.showing_dialog(dialog);
            &&& after.popups.active_dialog == Some(dialog)
            &&& after.popups.open_count() == 1
            &&& after.at(state.spot(None)).error is None
            &&& after.at(state.spot(None)).snapshot == state.current().snapshot
        }),
        ({
            let after = state.switching(dialog);
            &&& after.popups.active_dialog == Some(dialog)
            &&& after.popups.menu == state.popups.menu
            &&& after.at(state.spot(None)).error is None
        }),
        ({
            let after = state.with_dialog(dialog);
            &&& after.popups.active_dialog == Some(dialog)
            &&& after.tabs == state.tabs
            &&& after.fallback == state.fallback
        }),
{
}

/// Creating a branch and managing remotes need a repository; no other dialog does.
pub proof fn lemma_dialogs_without_a_repository(dialog: DialogState)
    ensures
        needs_repository(dialog) <==> dialog is CreateBranch || dialog is RemoteManager,
{
}

/// The stored credentials are listed anew if they could be read; otherwise the list stays and the
/// failure is shown.
pub proof fn lemma_credentials_are_listed(
    state: ViewState,
    listed: Result<Vec<CredentialRecord>, String>,
    message: Seq<char>,
)
    requires
        state.is_place(state.spot(None)),
    ensures
        ({
            let after = state.relisting(listing(listed), message);
            match listed {
                Ok(records) => {
                    &&& after.records == records@
                    &&& after.at(state.spot(None)).status == message
                    &&& after.at(state.spot(None)).error is None
                },
                Err(error) => {
                    &&& after.records == state.records
                    &&& after.at(state.spot(None)).error == Some(error@)
                },
            }
        }),
{
}

/// The place of a remote is that of the first with its name, or behind them all.
pub proof fn lemma_remote_at(remotes: Seq<RemoteInfo>, name: Seq<char>, from: int)
    requires
        0 <= from <= remotes.len(),
    ensures
        from <= remote_at(remotes, name, from) <= remotes.len(),
        remote_at(remotes, name, from) < remotes.len() ==> remotes[remote_at(
            remotes,
            name,
            from,
        )].name@ == name,
        forall|i: int|
            from <= i < remote_at(remotes, name, from) ==> (#[trigger] remotes[i]).name@ != name,
    decreases remotes.len() - from,
{
    if from < remotes.len() && remotes[from].name@ != name {
        lemma_remote_at(remotes, name, from + 1);
    }
}

/// The remote that is selected is set in the tab that is shown, and nothing else.
pub proof fn lemma_selected_remote(state: ViewState, remote: Option<String>)
    requires
        state.is_place(state.spot(None)),
    ensures
        state.with_remote(remote).at(state.spot(None)).selected_remote == remote,
        state.with_remote(remote).at(state.spot(None)).snapshot == state.current().snapshot,
        state.with_remote(remote).at(state.spot(None)).selected_branch
            == state.current().selected_branch,
        state.with_remote(remote).popups == state.popups,
{
}

} // verus!
