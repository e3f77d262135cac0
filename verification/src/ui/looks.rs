//! The colours of rows, switches and marks.

use vstd::prelude::*;

use crate::ui::frame::RowColors;
use crate::ui::theme;

verus! {

/// How one of several choices is drawn.
#[derive(Clone, Copy, Debug, PartialEq, Eq, Structural)]
pub struct SegmentLook {
    pub border: u32,
    pub bg: u32,
    pub text: u32,
    pub bold: bool,
}

pub fn segmented_button(selected: bool, enabled: bool) -> (r: SegmentLook)
    ensures
        r.bold == selected,
        r.border == if selected {
            theme::FOCUS_RING
        } else {
            theme::BORDER
        },
        r.bg == if selected {
            theme::SEGMENT_SELECTED_BG
        } else {
            theme::SEGMENT_BG
        },
        r.text == if selected {
            theme::SEGMENT_SELECTED_TEXT
        } else if enabled {
            theme::TEXT_MUTED
        } else {
            theme::TEXT_FAINT
        },
{
    if selected {
        SegmentLook {
            border: theme::FOCUS_RING,
            bg: theme::SEGMENT_SELECTED_BG,
            text: theme::SEGMENT_SELECTED_TEXT,
            bold: true,
        }
    } else {
        SegmentLook {
            border: theme::BORDER,
            bg: theme::SEGMENT_BG,
            text: if enabled {
                theme::TEXT_MUTED
            } else {
                theme::TEXT_FAINT
            },
            bold: false,
        }
    }
}

/// How a box that can be ticked is drawn: its border, its background and its mark.
pub fn toggle_box(checked: bool) -> (r: (u32, u32, Option<&'static str>))
    ensures
        r == if checked {
            (theme::ACCENT, theme::ACCENT, Some("✓"))
        } else {
            (theme::BORDER, theme::SURFACE, None)
        },
{
    if checked {
        (theme::ACCENT, theme::ACCENT, Some("✓"))
    } else {
        (theme::BORDER, theme::SURFACE, None)
    }
}

/// The border and the background of a row in a list.
pub fn list_row_surface(selected: bool) -> (r: (u32, u32))
    ensures
        r == if selected {
            (theme::ROW_SELECTED_BORDER, theme::ROW_SELECTED)
        } else {
            (theme::BORDER, theme::SURFACE)
        },
{
    if selected {
        (theme::ROW_SELECTED_BORDER, theme::ROW_SELECTED)
    } else {
        (theme::BORDER, theme::SURFACE)
    }
}

/// The colours of a mark that is lit or not.
pub fn status_pill(active: bool) -> (r: RowColors)
    ensures
        r == if active {
            (RowColors {
                bg: theme::ACCENT_SOFT,
                border: theme::FOCUS_RING,
                text: theme::ACCENT_STRONG,
            })
        } else {
            (RowColors { bg: theme::SURFACE, border: theme::BORDER, text: theme::TEXT_MUTED })
        },
{
    if active {
        RowColors { bg: theme::ACCENT_SOFT, border: theme::FOCUS_RING, text: theme::ACCENT_STRONG }
    } else {
        RowColors { bg: theme::SURFACE, border: theme::BORDER, text: theme::TEXT_MUTED }
    }
}

/// The background and the border of a row beside the main part of the window.
pub fn nav_row(selected: bool, emphasized: bool) -> (r: (u32, u32))
    ensures
        r == if selected {
            (theme::COLOR_ROW_SELECTED, 0x9bbcffu32)
        } else if emphasized {
            (theme::COLOR_BLUE_SOFT, theme::COLOR_BORDER_STRONG)
        } else {
            (theme::COLOR_SURFACE, theme::COLOR_BORDER)
        },
{
    if selected {
        (theme::COLOR_ROW_SELECTED, 0x9bbcff)
    } else if emphasized {
        (theme::COLOR_BLUE_SOFT, theme::COLOR_BORDER_STRONG)
    } else {
        (theme::COLOR_SURFACE, theme::COLOR_BORDER)
    }
}

/// The number of a badge, unless there is nothing to count.
pub fn badge(count: Option<usize>) -> (r: Option<usize>)
    ensures
        r == if count matches Some(n) && n > 0 {
            count
        } else {
            None
        },
{
    match count {
        Some(n) => if n > 0 {
            Some(n)
        } else {
            None
        },
        None => None,
    }
}

} // verus!
