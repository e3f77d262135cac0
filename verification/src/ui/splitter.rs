//! The bars between panes that a mouse can drag.

use vstd::prelude::*;

use crate::ui::theme;

verus! {

/// What a bar makes larger or smaller.
#[derive(Clone, Copy, Debug, PartialEq, Eq, Structural)]
pub enum ResizeTarget {
    Sidebar,
    Changes,
    HistoryFiles,
    HistoryTop,
}

/// The sizes that something may have, in pixels.
#[derive(Clone, Copy, Debug, PartialEq, Eq, Structural)]
pub struct SizeRange {
    pub min: u16,
    pub default: u16,
    pub max: u16,
}

pub open spec fn sizes_of(target: ResizeTarget) -> SizeRange {
    match target {
        ResizeTarget::Sidebar => SizeRange { min: 240, default: 330, max: 640 },
        ResizeTarget::Changes => SizeRange { min: 240, default: 330, max: 640 },
        ResizeTarget::HistoryFiles => SizeRange { min: 260, default: 520, max: 720 },
        ResizeTarget::HistoryTop => SizeRange { min: 180, default: 430, max: 760 },
    }
}

pub fn size_range(target: ResizeTarget) -> (r: SizeRange)
    ensures
        r == sizes_of(target),
        r.min <= r.default <= r.max,
        match target {
            ResizeTarget::Sidebar | ResizeTarget::Changes => r.min == 240 && r.default == 330
                && r.max == 640,
            ResizeTarget::HistoryFiles => r.min == 260 && r.default == 520 && r.max == 720,
            ResizeTarget::HistoryTop => r.min == 180 && r.default == 430 && r.max == 760,
        },
{
    match target {
        ResizeTarget::Sidebar => SizeRange { min: 240, default: 330, max: 640 },
        ResizeTarget::Changes => SizeRange { min: 240, default: 330, max: 640 },
        ResizeTarget::HistoryFiles => SizeRange { min: 260, default: 520, max: 720 },
        ResizeTarget::HistoryTop => SizeRange { min: 180, default: 430, max: 760 },
    }
}

/// How a bar is drawn.
#[derive(Clone, Copy, Debug, PartialEq, Eq, Structural)]
pub struct SplitterLook {
    /// Whether the bar lies, and is dragged up and down.
    pub horizontal: bool,
    pub bg: u32,
    pub line: u32,
}

pub fn splitter_look(target: ResizeTarget, active: bool) -> (r: SplitterLook)
    ensures
        r.horizontal == (target == ResizeTarget::HistoryTop),
        r.bg == if active {
            theme::COLOR_BLUE_SOFT
        } else {
            theme::COLOR_PANEL_BG
        },
        r.line == if active {
            theme::COLOR_BLUE
        } else {
            theme::COLOR_BORDER
        },
{
    SplitterLook {
        horizontal: target == ResizeTarget::HistoryTop,
        bg: if active {
            theme::COLOR_BLUE_SOFT
        } else {
            theme::COLOR_PANEL_BG
        },
        line: if active {
            theme::COLOR_BLUE
        } else {
            theme::COLOR_BORDER
        },
    }
}

/// What the mouse does.
#[derive(Clone, Copy, Debug, PartialEq, Eq, Structural)]
pub enum MouseInput {
    /// A button goes down, on the bar or not, for the so-manieth time in a row.
    Down { inside: bool, click_count: usize },
    /// The mouse moves, with the button down or not.
    Move { dragging: bool },
    /// The button goes up, wherever the mouse is.
    Up,
}

/// What becomes of the size.
#[derive(Clone, Copy, Debug, PartialEq, Eq, Structural)]
pub enum ResizeStep {
    Nothing,
    /// The size is what it was at first again.
    Reset,
    /// From here on the size follows the mouse. Popups are closed.
    Start,
    /// The size follows the mouse, within its range.
    Follow,
    Finish,
}

/// What the mouse does to a bar, while it is being dragged or not.
pub open spec fn step_after(resizing: bool, input: MouseInput) -> ResizeStep {
    match input {
        MouseInput::Down { inside, click_count } => if !inside {
            ResizeStep::Nothing
        } else if click_count >= 2 {
            ResizeStep::Reset
        } else {
            ResizeStep::Start
        },
        MouseInput::Move { dragging } => if resizing && dragging {
            ResizeStep::Follow
        } else {
            ResizeStep::Nothing
        },
        MouseInput::Up => if resizing {
            ResizeStep::Finish
        } else {
            ResizeStep::Nothing
        },
    }
}

/// Which of the bars are being dragged.
#[derive(Clone, Copy, Debug, PartialEq, Eq, Structural)]
pub struct Splitters {
    pub sidebar: bool,
    pub changes: bool,
    pub history_files: bool,
    pub history_top: bool,
}

impl Splitters {
    pub open spec fn dragged(self, target: ResizeTarget) -> bool {
        match target {
            ResizeTarget::Sidebar => self.sidebar,
            ResizeTarget::Changes => self.changes,
            ResizeTarget::HistoryFiles => self.history_files,
            ResizeTarget::HistoryTop => self.history_top,
        }
    }

    pub open spec fn with(self, target: ResizeTarget, dragged: bool) -> Self {
        match target {
            ResizeTarget::Sidebar => Splitters { sidebar: dragged, ..self },
            ResizeTarget::Changes => Splitters { changes: dragged, ..self },
            ResizeTarget::HistoryFiles => Splitters { history_files: dragged, ..self },
            ResizeTarget::HistoryTop => Splitters { history_top: dragged, ..self },
        }
    }

    pub fn new() -> (r: Self)
        ensures
            forall|target: ResizeTarget| !#[trigger] r.dragged(target),
    {
        Splitters { sidebar: false, changes: false, history_files: false, history_top: false }
    }

    pub fn is_resizing(&self, target: ResizeTarget) -> (r: bool)
        ensures
            r == self.dragged(target),
    {
        match target {
            ResizeTarget::Sidebar => self.sidebar,
            ResizeTarget::Changes => self.changes,
            ResizeTarget::HistoryFiles => self.history_files,
            ResizeTarget::HistoryTop => self.history_top,
        }
    }

    fn set(&mut self, target: ResizeTarget, dragged: bool)
        ensures
            *final(self) == old(self).with(target, dragged),
    {
        match target {
            ResizeTarget::Sidebar => {
                self.sidebar = dragged;
            },
            ResizeTarget::Changes => {
                self.changes = dragged;
            },
            ResizeTarget::HistoryFiles => {
                self.history_files = dragged;
            },
            ResizeTarget::HistoryTop => {
                self.history_top = dragged;
            },
        }
    }

    /// What the mouse does to a bar.
    pub fn handle(&mut self, target: ResizeTarget, input: MouseInput) -> (r: ResizeStep)
        ensures
            r == step_after(old(self).dragged(target), input),
            *final(self) == match r {
                ResizeStep::Start => old(self).with(target, true),
                ResizeStep::Reset | ResizeStep::Finish => old(self).with(target, false),
                _ => *old(self),
            },
    {
        match input {
            MouseInput::Down { inside, click_count } => {
                if !inside {
                    ResizeStep::Nothing
                } else if click_count >= 2 {
                    self.set(target, false);
                    ResizeStep::Reset
                } else {
                    self.set(target, true);
                    ResizeStep::Start
                }
            },
            MouseInput::Move { dragging } => {
                if self.is_resizing(target) && dragging {
                    ResizeStep::Follow
                } else {
                    ResizeStep::Nothing
                }
            },
            MouseInput::Up => {
                if self.is_resizing(target) {
                    self.set(target, false);
                    ResizeStep::Finish
                } else {
                    ResizeStep::Nothing
                }
            },
        }
    }
}

/// Whatever the mouse does to one bar, the others stay as they are, and once the button is up the
/// bar is not being dragged.
pub proof fn lemma_bars_are_apart(before: Splitters, target: ResizeTarget, other: ResizeTarget, dragged: bool)
    requires
        other != target,
    ensures
        before.with(target, dragged).dragged(other) == before.dragged(other),
        before.with(target, dragged).dragged(target) == dragged,
        step_after(before.dragged(target), MouseInput::Up) == ResizeStep::Nothing ==> !before.dragged(
            target,
        ),
{
}

/// A bar starts to be dragged by a click on it and is put back by a double click; it follows the mouse
/// while it is dragged and the button is down, and is let go with the button.
pub proof fn lemma_dragging(resizing: bool, clicks: usize, down: bool)
    ensures
        step_after(resizing, MouseInput::Down { inside: false, click_count: clicks })
            == ResizeStep::Nothing,
        clicks >= 2 ==> step_after(resizing, MouseInput::Down { inside: true, click_count: clicks })
            == ResizeStep::Reset,
        clicks < 2 ==> step_after(resizing, MouseInput::Down { inside: true, click_count: clicks })
            == ResizeStep::Start,
        step_after(resizing, MouseInput::Move { dragging: down }) == ResizeStep::Follow <==> resizing
            && down,
        step_after(resizing, MouseInput::Move { dragging: down }) == ResizeStep::Nothing <==> !(
        resizing && down),
        step_after(resizing, MouseInput::Up) == ResizeStep::Finish <==> resizing,
        step_after(resizing, MouseInput::Up) == ResizeStep::Nothing <==> !resizing,
{
}

/// Every size starts between the least and the greatest that it may have.
pub proof fn lemma_sizes(target: ResizeTarget)
    ensures
        sizes_of(target).min < sizes_of(target).default < sizes_of(target).max,
        sizes_of(target).min >= 180,
        sizes_of(target).max <= 760,
        sizes_of(ResizeTarget::Sidebar) == sizes_of(ResizeTarget::Changes),
        sizes_of(ResizeTarget::HistoryFiles).default > sizes_of(ResizeTarget::HistoryTop).default,
        sizes_of(ResizeTarget::HistoryTop).default > sizes_of(ResizeTarget::Sidebar).default,
{
}

} // verus!
