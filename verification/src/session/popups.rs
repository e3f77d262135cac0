//! Dialogs and menus. At most one is open at a time.

use vstd::prelude::*;

use crate::types::{BranchKind, DiffScope, ResetMode};

verus! {

/// Which changes are discarded.
#[derive(Clone, Copy, Debug, PartialEq, Eq, Structural)]
pub enum DiscardTarget {
    Single,
    Selected,
    All,
}

/// Whose encoding a menu chooses.
#[derive(Clone, Copy, Debug, PartialEq, Eq, Structural)]
pub enum EncodingMenuTarget {
    Worktree,
    History,
}

/// Whose header lines are shown or not.
#[derive(Clone, Copy, Debug, PartialEq, Eq, Structural)]
pub enum DiffHeaderTarget {
    Worktree,
    History,
}

#[derive(Debug, PartialEq, Eq)]
pub enum DialogState {
    CloneRepo,
    CreateBranch,
    RenameBranch { branch: String },
    ConfirmReset { oid: String, summary: String, mode: ResetMode },
    ConfirmRevert { oid: String, summary: String },
    ConfirmDiscardChange { scope: DiffScope, target: DiscardTarget, paths: Vec<String> },
    CredentialManager,
    CredentialForm { editing: Option<String> },
    RemoteManager,
    RemoteForm { editing: Option<String> },
    ConfirmDeleteRemote { name: String },
    ConfirmDeleteCredential { record_id: String, label: String },
    WorkflowRunner,
}

/// A menu, and what it is for.
#[derive(Debug, PartialEq, Eq)]
pub enum ContextMenu {
    Branch { branch: String, kind: BranchKind, is_head: bool },
    Change { path: String, scope: DiffScope },
    Tag { tag: String },
    Stash { index: usize },
    Commit { oid: String, short_oid: String, summary: String, parent_count: usize },
}

/// What is open over the window.
#[derive(Debug, PartialEq, Eq)]
pub struct Popups {
    pub active_dialog: Option<DialogState>,
    pub menu: Option<ContextMenu>,
    pub encoding_menu_target: Option<EncodingMenuTarget>,
    /// The menu that the click which is being handled has closed already.
    pub encoding_menu_closed_by_capture: Option<EncodingMenuTarget>,
}

impl Popups {
    pub open spec fn none() -> Self {
        Popups {
            active_dialog: None,
            menu: None,
            encoding_menu_target: None,
            encoding_menu_closed_by_capture: None,
        }
    }

    /// How many are open.
    pub open spec fn open_count(self) -> int {
        (if self.active_dialog is Some {
            1int
        } else {
            0
        }) + (if self.menu is Some {
            1int
        } else {
            0
        }) + (if self.encoding_menu_target is Some {
            1int
        } else {
            0
        })
    }

    pub fn new() -> (r: Self)
        ensures
            r == Popups::none(),
    {
        Popups {
            active_dialog: None,
            menu: None,
            encoding_menu_target: None,
            encoding_menu_closed_by_capture: None,
        }
    }

    pub fn close_popups(&mut self)
        ensures
            *final(self) == Popups::none(),
    {
        *self = Popups::new();
    }

    /// What a click does to what is open before anything else: one outside of a menu closes the
    /// menus. A menu for encodings that it closes is remembered until the click is handled.
    pub open spec fn captured(self, inside_menu: bool) -> Self {
        if inside_menu {
            Popups { encoding_menu_closed_by_capture: None, ..self }
        } else {
            Popups {
                menu: None,
                encoding_menu_target: None,
                encoding_menu_closed_by_capture: self.encoding_menu_target,
                ..self
            }
        }
    }

    pub fn capture_mouse_down(&mut self, inside_menu: bool)
        ensures
            *final(self) == old(self).captured(inside_menu),
    {
        self.encoding_menu_closed_by_capture = None;
        if inside_menu {
            return ;
        }
        if self.menu.is_some() || self.encoding_menu_target.is_some() {
            let closed: Option<EncodingMenuTarget> = self.encoding_menu_target;
            self.menu = None;
            self.encoding_menu_target = None;
            self.encoding_menu_closed_by_capture = closed;
        }
    }

    pub fn close_dialog(&mut self)
        ensures
            *final(self) == (Popups { active_dialog: None, ..*old(self) }),
    {
        self.active_dialog = None;
    }

    /// Opens a dialog in place of everything else.
    pub fn open_dialog(&mut self, dialog: DialogState)
        ensures
            *final(self) == (Popups { active_dialog: Some(dialog), ..Popups::none() }),
            final(self).open_count() == 1,
    {
        self.close_popups();
        self.active_dialog = Some(dialog);
    }

    /// Opens a menu in place of everything else.
    pub fn open_menu(&mut self, menu: ContextMenu)
        ensures
            *final(self) == (Popups {
                active_dialog: None,
                menu: Some(menu),
                encoding_menu_target: None,
                ..*old(self)
            }),
            final(self).open_count() == 1,
    {
        self.active_dialog = None;
        self.encoding_menu_target = None;
        self.menu = Some(menu);
    }

    /// Opens the menu for an encoding in place of everything else, or closes it. A click that has
    /// closed the menu does not open it again.
    pub fn toggle_encoding_menu(&mut self, target: EncodingMenuTarget)
        ensures
            *final(self) == old(self).encoding_toggled(target),
    {
        let closed: bool = match self.encoding_menu_closed_by_capture {
            Some(t) => t == target,
            None => false,
        };
        if closed {
            self.encoding_menu_closed_by_capture = None;
            self.encoding_menu_target = None;
            return ;
        }
        let open: bool = match self.encoding_menu_target {
            Some(t) => t == target,
            None => false,
        };
        self.encoding_menu_closed_by_capture = None;
        self.menu = None;
        self.active_dialog = None;
        self.encoding_menu_target = if open {
            None
        } else {
            Some(target)
        };
    }

    pub open spec fn encoding_toggled(self, target: EncodingMenuTarget) -> Self {
        if self.encoding_menu_closed_by_capture == Some(target) {
            Popups {
                encoding_menu_closed_by_capture: None,
                encoding_menu_target: None,
                ..self
            }
        } else {
            Popups {
                encoding_menu_target: if self.encoding_menu_target == Some(target) {
                    None
                } else {
                    Some(target)
                },
                ..Popups::none()
            }
        }
    }

    pub fn choose_encoding(&mut self)
        ensures
            *final(self) == (Popups {
                encoding_menu_target: None,
                encoding_menu_closed_by_capture: None,
                ..*old(self)
            }),
    {
        self.encoding_menu_target = None;
        self.encoding_menu_closed_by_capture = None;
    }
}

/// Opening a menu for an encoding twice closes it, and leaves nothing else open.
pub proof fn lemma_encoding_menu_toggles(popups: Popups, target: EncodingMenuTarget)
    requires
        popups.encoding_menu_closed_by_capture is None,
        popups.encoding_menu_target != Some(target),
    ensures
        popups.encoding_toggled(target).open_count() == 1,
        popups.encoding_toggled(target).encoding_toggled(target) == Popups::none(),
{
}

/// A click beside a menu closes the menus and remembers which one it closed; a click in one closes
/// nothing. A dialog stays either way.
pub proof fn lemma_clicks_beside_menus(popups: Popups)
    ensures
        ({
            let after = popups.captured(false);
            &&& after.menu is None
            &&& after.encoding_menu_target is None
            &&& after.encoding_menu_closed_by_capture == popups.encoding_menu_target
            &&& after.active_dialog == popups.active_dialog
        }),
        ({
            let after = popups.captured(true);
            &&& after.menu == popups.menu
            &&& after.encoding_menu_target == popups.encoding_menu_target
            &&& after.encoding_menu_closed_by_capture is None
            &&& after.active_dialog == popups.active_dialog
        }),
{
}

/// Nothing is open at first, and a click on the button of a menu that the same click has just closed
/// does not open it again.
pub proof fn lemma_menus_stay_closed(popups: Popups, target: EncodingMenuTarget)
    ensures
        Popups::none().open_count() == 0,
        popups.open_count() == 0 <==> popups.active_dialog is None && popups.menu is None
            && popups.encoding_menu_target is None,
        popups.encoding_menu_target == Some(target) ==> popups.captured(false).encoding_toggled(
            target,
        ).encoding_menu_target is None,
        popups.encoding_menu_target != Some(target) ==> popups.captured(false).encoding_toggled(
            target,
        ).encoding_menu_target == Some(target),
{
}

} // verus!
