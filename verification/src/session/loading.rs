//! Loading a repository, stage after stage.

use vstd::prelude::*;

use crate::session::events::UiEvent;
use crate::session::tab::RepoTabId;
use crate::types::{RepositorySnapshot, WorktreeChange};

verus! {

/// What is to be done next for a load.
#[derive(Clone, Copy, Debug, PartialEq, Eq, Structural)]
pub enum LoadStage {
    /// To open the repository and read its branches.
    OpenFast,
    /// To open the repository for the rest.
    Open,
    /// To read branches, remotes, tags, stashes and conflicts.
    Metadata,
    /// To read the status without untracked files.
    StatusFast,
    /// To read the whole status.
    StatusFull,
    Done,
}

/// What a stage brought.
#[derive(Debug, PartialEq, Eq)]
pub enum StageOutcome {
    Opened,
    Snapshot(RepositorySnapshot),
    Changes(Vec<WorktreeChange>),
    Failed(String),
}

/// A load of a repository.
#[derive(Debug, PartialEq, Eq)]
pub struct RepositoryLoad {
    pub tab_id: RepoTabId,
    pub load_id: u64,
    pub finished: &'static str,
    pub stage: LoadStage,
}

impl LoadStage {
    /// What comes after a stage that succeeds.
    pub open spec fn next(self) -> LoadStage {
        match self {
            LoadStage::OpenFast => LoadStage::Open,
            LoadStage::Open => LoadStage::Metadata,
            LoadStage::Metadata => LoadStage::StatusFast,
            LoadStage::StatusFast => LoadStage::StatusFull,
            LoadStage::StatusFull => LoadStage::Done,
            LoadStage::Done => LoadStage::Done,
        }
    }

    /// How many stages are left.
    pub open spec fn left(self) -> nat {
        match self {
            LoadStage::OpenFast => 5,
            LoadStage::Open => 4,
            LoadStage::Metadata => 3,
            LoadStage::StatusFast => 2,
            LoadStage::StatusFull => 1,
            LoadStage::Done => 0,
        }
    }

    /// Whether a stage can bring this.
    pub open spec fn brings(self, outcome: StageOutcome) -> bool {
        match (self, outcome) {
            (LoadStage::Done, _) => false,
            (_, StageOutcome::Failed(_)) => true,
            (LoadStage::OpenFast, StageOutcome::Snapshot(_)) => true,
            (LoadStage::Open, StageOutcome::Opened) => true,
            (LoadStage::Metadata, StageOutcome::Snapshot(_)) => true,
            (LoadStage::StatusFast, StageOutcome::Changes(_)) => true,
            (LoadStage::StatusFull, StageOutcome::Changes(_)) => true,
            _ => false,
        }
    }
}

impl RepositoryLoad {
    /// Whether the events are those that the outcome of the current stage gives.
    pub open spec fn reports(self, outcome: StageOutcome, events: Seq<UiEvent>) -> bool {
        match (self.stage, outcome) {
            (LoadStage::OpenFast, StageOutcome::Failed(error)) => {
                &&& events.len() == 2
                &&& events[0] == (UiEvent::OperationFailed { tab_id: Some(self.tab_id), error })
                &&& events[1] == self.last_event()
            },
            (_, StageOutcome::Failed(error)) => {
                &&& events.len() == 2
                &&& events[0] == (UiEvent::RepositoryLoadStageFailed {
                    tab_id: self.tab_id,
                    error,
                    load_id: self.load_id,
                })
                &&& events[1] == self.last_event()
            },
            (LoadStage::OpenFast, StageOutcome::Snapshot(given)) => {
                &&& events.len() == 1
                &&& events[0] matches UiEvent::RepositoryFastLoaded {
                    tab_id,
                    message,
                    snapshot,
                    load_id,
                } && tab_id == self.tab_id && load_id == self.load_id && snapshot == given
                    && message@ == "本地分支已加载，正在加载仓库详情"@
            },
            (LoadStage::Open, _) => events.len() == 0,
            (LoadStage::Metadata, StageOutcome::Snapshot(given)) => {
                &&& events.len() == 1
                &&& events[0] matches UiEvent::RepositoryMetadataLoaded {
                    tab_id,
                    message,
                    snapshot,
                    load_id,
                } && tab_id == self.tab_id && load_id == self.load_id && snapshot == given
                    && message@ == "仓库信息已加载"@
            },
            (LoadStage::StatusFast, StageOutcome::Changes(given)) => {
                &&& events.len() == 1
                &&& events[0] matches UiEvent::RepositoryStatusFastLoaded {
                    tab_id,
                    message,
                    changes,
                    load_id,
                } && tab_id == self.tab_id && load_id == self.load_id && changes == given
                    && message@ == "快速变更已加载，正在补全未跟踪文件"@
            },
            (LoadStage::StatusFull, StageOutcome::Changes(given)) => {
                &&& events.len() == 2
                &&& events[0] matches UiEvent::RepositoryStatusFullLoaded {
                    tab_id,
                    message,
                    changes,
                    load_id,
                } && tab_id == self.tab_id && load_id == self.load_id && changes == given
                    && message@ == self.finished@
                &&& events[1] == self.last_event()
            },
            _ => false,
        }
    }

    /// What is reported at the end of every load.
    pub open spec fn last_event(self) -> UiEvent {
        UiEvent::RepositoryLoadFinished { tab_id: self.tab_id, load_id: self.load_id }
    }

    /// A load, and the report that it starts.
    pub fn start(
        tab_id: RepoTabId,
        load_id: u64,
        started: &'static str,
        finished: &'static str,
    ) -> (r: (Self, UiEvent))
        ensures
            r.0 == (RepositoryLoad { tab_id, load_id, finished, stage: LoadStage::OpenFast }),
            r.1 matches UiEvent::OperationStarted { tab_id: t, message } && t == Some(tab_id)
                && message@ == started@,
    {
        (
            RepositoryLoad { tab_id, load_id, finished, stage: LoadStage::OpenFast },
            UiEvent::OperationStarted { tab_id: Some(tab_id), message: started.to_string() },
        )
    }

    /// Goes on after a stage: what is reported, in order.
    pub fn stage_done(&mut self, outcome: StageOutcome) -> (events: Vec<UiEvent>)
        requires
            old(self).stage.brings(outcome),
        ensures
            old(self).reports(outcome, events@),
            *final(self) == (RepositoryLoad {
                stage: if outcome is Failed {
                    LoadStage::Done
                } else {
                    old(self).stage.next()
                },
                ..*old(self)
            }),
    {
        let mut events: Vec<UiEvent> = Vec::new();
        let tab_id: RepoTabId = self.tab_id;
        let load_id: u64 = self.load_id;
        match outcome {
            StageOutcome::Failed(error) => {
                if self.stage == LoadStage::OpenFast {
                    events.push(UiEvent::OperationFailed { tab_id: Some(tab_id), error });
                } else {
                    events.push(UiEvent::RepositoryLoadStageFailed { tab_id, error, load_id });
                }
                self.stage = LoadStage::Done;
            },
            StageOutcome::Opened => {
                self.stage = LoadStage::Metadata;
            },
            StageOutcome::Snapshot(snapshot) => {
                if self.stage == LoadStage::OpenFast {
                    events.push(
                        UiEvent::RepositoryFastLoaded {
                            tab_id,
                            message: "本地分支已加载，正在加载仓库详情".to_string(),
                            snapshot,
                            load_id,
                        },
                    );
                    self.stage = LoadStage::Open;
                } else {
                    events.push(
                        UiEvent::RepositoryMetadataLoaded {
                            tab_id,
                            message: "仓库信息已加载".to_string(),
                            snapshot,
                            load_id,
                        },
                    );
                    self.stage = LoadStage::StatusFast;
                }
            },
            StageOutcome::Changes(changes) => {
                if self.stage == LoadStage::StatusFast {
                    events.push(
                        UiEvent::RepositoryStatusFastLoaded {
                            tab_id,
                            message: "快速变更已加载，正在补全未跟踪文件".to_string(),
                            changes,
                            load_id,
                        },
                    );
                    self.stage = LoadStage::StatusFull;
                } else {
                    events.push(
                        UiEvent::RepositoryStatusFullLoaded {
                            tab_id,
                            message: self.finished.to_string(),
                            changes,
                            load_id,
                        },
                    );
                    self.stage = LoadStage::Done;
                }
            },
        }
        if self.stage == LoadStage::Done {
            events.push(UiEvent::RepositoryLoadFinished { tab_id, load_id });
        }
        events
    }
}

/// The last report of a load is that it is finished, and it comes when the load is done and not
/// before.
pub proof fn lemma_load_ends_once(load: RepositoryLoad, outcome: StageOutcome, events: Seq<UiEvent>)
    requires
        load.stage.brings(outcome),
        load.reports(outcome, events),
    ensures
        ({
            let after = if outcome is Failed {
                LoadStage::Done
            } else {
                load.stage.next()
            };
            &&& after.left() < load.stage.left()
            &&& after == LoadStage::Done ==> events.len() > 0 && events.last() is
                RepositoryLoadFinished
            &&& forall|i: int|
                0 <= i < events.len() && (after != LoadStage::Done || i < events.len() - 1)
                    ==> !((#[trigger] events[i]) is RepositoryLoadFinished)
        }),
{
}

/// The stages of a load follow each other, each one once, until it is done.
pub proof fn lemma_stages_follow_each_other(stage: LoadStage)
    ensures
        stage is Done <==> stage.left() == 0,
        !(stage is Done) ==> stage.next().left() == stage.left() - 1,
        stage is OpenFast ==> stage.next() is Open,
        stage is Open ==> stage.next() is Metadata,
        stage is Metadata ==> stage.next() is StatusFast,
        stage is StatusFast ==> stage.next() is StatusFull,
        stage is StatusFull ==> stage.next() is Done,
{
}

/// A stage brings what it is for, or fails.
pub proof fn lemma_what_stages_bring(stage: LoadStage, outcome: StageOutcome)
    ensures
        stage.brings(outcome) <==> !(stage is Done) && match outcome {
            StageOutcome::Failed(_) => true,
            StageOutcome::Opened => stage is Open,
            StageOutcome::Snapshot(_) => stage is OpenFast || stage is Metadata,
            StageOutcome::Changes(_) => stage is StatusFast || stage is StatusFull,
        },
{
}

/// What a load brings is reported to its own tab under its own number, as it was brought: first the
/// branches, then the details, then the changes found fast, then all of them. A failure is reported
/// as it is, and ends the load.
pub proof fn lemma_loads_report_to_their_tab(
    load: RepositoryLoad,
    outcome: StageOutcome,
    events: Seq<UiEvent>,
)
    requires
        load.stage.brings(outcome),
        load.reports(outcome, events),
    ensures
        match outcome {
            StageOutcome::Opened => events.len() == 0,
            StageOutcome::Snapshot(given) => events.len() == 1 && match events[0] {
                UiEvent::RepositoryFastLoaded { tab_id, snapshot, load_id, .. } => {
                    &&& load.stage is OpenFast
                    &&& tab_id == load.tab_id
                    &&& snapshot == given
                    &&& load_id == load.load_id
                },
                UiEvent::RepositoryMetadataLoaded { tab_id, snapshot, load_id, .. } => {
                    &&& load.stage is Metadata
                    &&& tab_id == load.tab_id
                    &&& snapshot == given
                    &&& load_id == load.load_id
                },
                _ => false,
            },
            StageOutcome::Changes(given) => match events[0] {
                UiEvent::RepositoryStatusFastLoaded { tab_id, changes, load_id, .. } => {
                    &&& load.stage is StatusFast
                    &&& tab_id == load.tab_id
                    &&& changes == given
                    &&& load_id == load.load_id
                    &&& events.len() == 1
                },
                UiEvent::RepositoryStatusFullLoaded { tab_id, message, changes, load_id } => {
                    &&& load.stage is StatusFull
                    &&& tab_id == load.tab_id
                    &&& message@ == load.finished@
                    &&& changes == given
                    &&& load_id == load.load_id
                    &&& events.len() == 2
                    &&& events[1] == (UiEvent::RepositoryLoadFinished {
                        tab_id: load.tab_id,
                        load_id: load.load_id,
                    })
                },
                _ => false,
            },
            StageOutcome::Failed(given) => {
                &&& events.len() == 2
                &&& match events[0] {
                    UiEvent::OperationFailed { tab_id, error } => {
                        &&& load.stage is OpenFast
                        &&& tab_id == Some(load.tab_id)
                        &&& error == given
                    },
                    UiEvent::RepositoryLoadStageFailed { tab_id, error, load_id } => {
                        &&& !(load.stage is OpenFast)
                        &&& tab_id == load.tab_id
                        &&& error == given
                        &&& load_id == load.load_id
                    },
                    _ => false,
                }
                &&& events[1] == (UiEvent::RepositoryLoadFinished {
                    tab_id: load.tab_id,
                    load_id: load.load_id,
                })
            },
        },
{
}

} // verus!
