//! Buttons and what they do.

use vstd::prelude::*;

use crate::session::commands::RepoCommand;
use crate::session::popups::DiscardTarget;
use crate::session::tab::MainMode;
use crate::strings::{decimal, usize_to_string};
use crate::types::conflicts::{ConflictBlockResolution, ConflictResolutionSide};
use crate::types::{DiffEncodingChoice, DiffScope, ResetMode};
use crate::ui::theme;

verus! {

/// What a click does.
#[derive(Debug, PartialEq, Eq)]
pub enum UiAction {
    OpenRepository,
    OpenClone,
    BrowseCloneTarget,
    Clone,
    Refresh,
    Fetch,
    Pull,
    Push,
    ShowMode(MainMode),
    NewBranch,
    CreateBranch,
    RenameBranch(String),
    StageSelected,
    StageAll,
    UnstageSelected,
    UnstageAll,
    Commit,
    CloseDialog,
    Reset { oid: String, mode: ResetMode },
    Revert { oid: String },
    Discard { paths: Vec<String>, scope: DiffScope, target: DiscardTarget },
    Run(RepoCommand),
    OpenRename(String),
    OpenReset { oid: String, summary: String, mode: ResetMode },
    OpenRevert { oid: String, summary: String },
    OpenDiscard { paths: Vec<String>, scope: DiffScope, target: DiscardTarget },
    CopySha(String),
    ChooseEncoding(DiffEncodingChoice),
    LoadMoreHistory,
    ManageRemotes,
    ShowRemoteManager,
    OpenRemoteForm(Option<String>),
    SaveRemote(Option<String>),
    OpenDeleteRemote(String),
    DeleteRemote(String),
    ShowCredentialManager,
    OpenCredentialForm,
    ReloadCredentials,
    SaveCredential,
    TestCredential(String),
    OpenDeleteCredential { record_id: String, label: String },
    DeleteCredential(String),
    UseCredentials,
    CancelCredentials,
    PreviousBlock,
    NextBlock,
    ToggleBase,
    ApplyDraft { mark_resolved: bool },
    AcceptBlock(ConflictBlockResolution),
    ResolveSide { path: String, side: ConflictResolutionSide },
    MarkResolved { path: String },
    BrowseWorkflow,
    ClearWorkflow,
    RunWorkflow,
}

#[derive(Clone, Copy, Debug, PartialEq, Eq, Structural)]
pub enum ButtonTone {
    Neutral,
    Primary,
    Danger,
}

/// A button. It does something only while it is enabled.
#[derive(Debug, PartialEq, Eq)]
pub struct Button {
    pub label: &'static str,
    pub enabled: bool,
    pub tone: ButtonTone,
    pub action: UiAction,
}

pub open spec fn plain(label: &'static str, enabled: bool, action: UiAction) -> Button {
    Button { label, enabled, tone: ButtonTone::Neutral, action }
}

pub open spec fn strong(label: &'static str, enabled: bool, action: UiAction) -> Button {
    Button { label, enabled, tone: ButtonTone::Primary, action }
}

pub fn button(label: &'static str, enabled: bool, action: UiAction) -> (r: Button)
    ensures
        r == plain(label, enabled, action),
{
    Button { label, enabled, tone: ButtonTone::Neutral, action }
}

pub fn primary_button(label: &'static str, enabled: bool, action: UiAction) -> (r: Button)
    ensures
        r == strong(label, enabled, action),
{
    Button { label, enabled, tone: ButtonTone::Primary, action }
}

pub fn danger_button(label: &'static str, enabled: bool, action: UiAction) -> (r: Button)
    ensures
        r == (Button { label, enabled, tone: ButtonTone::Danger, action }),
{
    Button { label, enabled, tone: ButtonTone::Danger, action }
}

#[derive(Clone, Copy, Debug, PartialEq, Eq, Structural)]
pub struct ButtonPalette {
    pub bg: u32,
    pub hover_bg: u32,
    pub fg: u32,
    pub border: u32,
}

/// The colours of a button.
pub open spec fn button_colors(tone: ButtonTone, enabled: bool) -> ButtonPalette {
    if !enabled {
        ButtonPalette {
            bg: theme::SURFACE_MUTED,
            hover_bg: theme::SURFACE_MUTED,
            fg: theme::TEXT_FAINT,
            border: theme::BORDER,
        }
    } else {
        match tone {
            ButtonTone::Neutral => ButtonPalette {
                bg: theme::SURFACE,
                hover_bg: theme::ACCENT_SOFT,
                fg: theme::TEXT,
                border: theme::BORDER,
            },
            ButtonTone::Primary => ButtonPalette {
                bg: theme::ACCENT,
                hover_bg: theme::ACCENT_STRONG,
                fg: theme::SURFACE,
                border: theme::ACCENT_STRONG,
            },
            ButtonTone::Danger => ButtonPalette {
                bg: theme::DANGER,
                hover_bg: theme::DANGER_STRONG,
                fg: theme::SURFACE,
                border: theme::DANGER_BORDER,
            },
        }
    }
}

pub fn app_button_palette(tone: ButtonTone, enabled: bool) -> (r: ButtonPalette)
    ensures
        r == button_colors(tone, enabled),
{
    if !enabled {
        return ButtonPalette {
            bg: theme::SURFACE_MUTED,
            hover_bg: theme::SURFACE_MUTED,
            fg: theme::TEXT_FAINT,
            border: theme::BORDER,
        };
    }
    match tone {
        ButtonTone::Neutral => ButtonPalette {
            bg: theme::SURFACE,
            hover_bg: theme::ACCENT_SOFT,
            fg: theme::TEXT,
            border: theme::BORDER,
        },
        ButtonTone::Primary => ButtonPalette {
            bg: theme::ACCENT,
            hover_bg: theme::ACCENT_STRONG,
            fg: theme::SURFACE,
            border: theme::ACCENT_STRONG,
        },
        ButtonTone::Danger => ButtonPalette {
            bg: theme::DANGER,
            hover_bg: theme::DANGER_STRONG,
            fg: theme::SURFACE,
            border: theme::DANGER_BORDER,
        },
    }
}

/// What the badge of a button shows.
pub fn format_badge_count(count: usize) -> (r: String)
    ensures
        r@ == if count > 99 {
            "99+"@
        } else {
            decimal(count as nat)
        },
{
    if count > 99 {
        "99+".to_string()
    } else {
        usize_to_string(count)
    }
}

// ---------------------------------------------------------------------------
// Laws
// ---------------------------------------------------------------------------
/// A button has the label, the state and the action that it was made with; one of them is only
/// coloured stronger.
pub proof fn lemma_buttons(label: &'static str, enabled: bool, action: UiAction)
    ensures
        plain(label, enabled, action).label == label,
        plain(label, enabled, action).enabled == enabled,
        plain(label, enabled, action).action == action,
        plain(label, enabled, action).tone == ButtonTone::Neutral,
        strong(label, enabled, action).label == label,
        strong(label, enabled, action).enabled == enabled,
        strong(label, enabled, action).action == action,
        strong(label, enabled, action).tone == ButtonTone::Primary,
{
}

/// A button that cannot be pressed looks the same whatever it is for and does not change under the
/// mouse; those that can be pressed look different by what they are for, and change.
pub proof fn lemma_button_colors(a: ButtonTone, b: ButtonTone)
    ensures
        button_colors(a, false) == button_colors(b, false),
        button_colors(a, false).bg == button_colors(a, false).hover_bg,
        button_colors(a, true).bg != button_colors(a, true).hover_bg,
        a != b ==> button_colors(a, true).bg != button_colors(b, true).bg,
        button_colors(a, true).fg != button_colors(a, true).bg,
{
}

} // verus!
