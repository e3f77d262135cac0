//! The colours of the window.

use vstd::prelude::*;

verus! {

pub const APP_BG: u32 = 0xf7fbff;

pub const APP_BG_ALT: u32 = 0xeaf4ff;

pub const SURFACE: u32 = 0xffffff;

pub const SURFACE_MUTED: u32 = 0xf4f8ff;

pub const SURFACE_HOVER: u32 = 0xf0f6ff;

pub const PANEL_BG: u32 = 0xfbfdff;

pub const PANEL_TINT: u32 = 0xf7fbff;

pub const HEADER_BG: u32 = 0xf6faff;

pub const GLASS_BG: u32 = 0xfffffff0;

pub const GLASS_BG_STRONG: u32 = 0xfffffff8;

pub const GLASS_BORDER: u32 = 0xd7e5f8dd;

pub const BORDER: u32 = 0xcbdaf0;

pub const BORDER_MUTED: u32 = 0xe4edf8;

pub const BORDER_STRONG: u32 = 0x93b4e8;

pub const ACCENT: u32 = 0x2f6fea;

pub const ACCENT_STRONG: u32 = 0x1f5fd6;

pub const ACCENT_SOFT: u32 = 0xeaf3ff;

pub const ACCENT_VIVID: u32 = 0x6f9ff0;

pub const ACCENT_VIVID_SOFT: u32 = 0xf1f7ff;

pub const FOCUS_RING: u32 = 0x9bbcf2;

pub const TEXT: u32 = 0x10233f;

pub const TEXT_MUTED: u32 = 0x52627a;

pub const TEXT_FAINT: u32 = 0x91a0b5;

pub const ROW_SELECTED: u32 = 0xe8f2ff;

pub const ROW_HOVER: u32 = 0xf2f7ff;

pub const ROW_SELECTED_BORDER: u32 = 0xaec9f4;

pub const HASH_BG: u32 = 0xeef5ff;

pub const DANGER: u32 = 0xe5484d;

pub const DANGER_STRONG: u32 = 0xc62a31;

pub const DANGER_BORDER: u32 = 0xd33b40;

pub const DANGER_SOFT: u32 = 0xfef2f2;

pub const DANGER_BORDER_SOFT: u32 = 0xfca5a5;

pub const DANGER_TEXT: u32 = 0x991b1b;

pub const SUCCESS: u32 = 0x30a46c;

pub const SUCCESS_SOFT: u32 = 0xe9f7ef;

pub const WARNING: u32 = 0xf59f00;

pub const WARNING_SOFT: u32 = 0xfff7e6;

pub const WARNING_TEXT: u32 = 0x92400e;

pub const WARNING_HOVER: u32 = 0xfff0d1;

pub const WARNING_ACCENT_TEXT: u32 = 0xa15c00;

pub const WARNING_BADGE_BG: u32 = 0xfff2d9;

pub const TYPECHANGE: u32 = 0x7c3aed;

pub const BADGE_BG: u32 = 0x2f6fea;

pub const BADGE_BORDER: u32 = 0xdbeafe;

pub const TOOLTIP_BG: u32 = 0x10233f;

pub const TOOLTIP_BORDER: u32 = 0x243654;

pub const DIALOG_OVERLAY: u32 = 0x0f172a55;

pub const INPUT_BG: u32 = 0xfffffff5;

pub const INPUT_BG_FOCUSED: u32 = 0xfffffffa;

pub const INPUT_BORDER: u32 = 0xb9cbed;

pub const INPUT_BORDER_FOCUSED: u32 = 0x2f6fea;

pub const INPUT_PLACEHOLDER: u32 = 0x8fa0b8;

pub const INPUT_SELECTION: u32 = 0x2f6fea33;

pub const INPUT_CARET: u32 = 0x10233f;

pub const SEGMENT_BG: u32 = 0xf2f6fd;

pub const SEGMENT_SELECTED_BG: u32 = 0xe2eeff;

pub const SEGMENT_SELECTED_TEXT: u32 = 0x1f5fd6;

pub const REF_LOCAL_BG: u32 = 0xedf7f1;

pub const REF_LOCAL_BORDER: u32 = 0xa8d5bc;

pub const REF_LOCAL_TEXT: u32 = 0x28784f;

pub const REF_REMOTE_BG: u32 = 0xeef5ff;

pub const REF_REMOTE_BORDER: u32 = 0xb8cbed;

pub const REF_REMOTE_TEXT: u32 = 0x3b5f8f;

pub const REF_TAG_BG: u32 = 0xf8f3e8;

pub const REF_TAG_BORDER: u32 = 0xe4cf9e;

pub const REF_TAG_TEXT: u32 = 0x856214;

pub const REF_HEAD_BG: u32 = 0x2f3742;

pub const REF_HEAD_TEXT: u32 = 0xffffff;

pub const FEEDBACK_BG: u32 = 0xfffffff6;

pub const FEEDBACK_INFO_BG: u32 = 0xeaf3ff;

pub const FEEDBACK_INFO_BORDER: u32 = 0xaec9f4;

pub const FEEDBACK_INFO_TEXT: u32 = 0x1f5fd6;

pub const FEEDBACK_SUCCESS_BG: u32 = 0xe9f7ef;

pub const FEEDBACK_SUCCESS_BORDER: u32 = 0xa8d5bc;

pub const FEEDBACK_SUCCESS_TEXT: u32 = 0x28784f;

pub const FEEDBACK_WARNING_BG: u32 = 0xfff7e6;

pub const FEEDBACK_WARNING_BORDER: u32 = 0xe4cf9e;

pub const FEEDBACK_WARNING_TEXT: u32 = 0xa15c00;

pub const FEEDBACK_ERROR_BG: u32 = 0xffe4e6;

pub const FEEDBACK_ERROR_BORDER: u32 = 0xf1a1a5;

pub const FEEDBACK_ERROR_TEXT: u32 = 0xc62a31;

pub const PROGRESS_TRACK: u32 = 0xe4edf8;

pub const PROGRESS_FILL: u32 = 0x2f6fea;

pub const SIDEBAR_GRADIENT_TOP: u32 = 0xe5f2ffc7;

pub const SIDEBAR_GRADIENT_BOTTOM: u32 = 0xf2e8ffc4;

pub const SIDEBAR_GRADIENT_SOFTEN: u32 = 0xffffff66;

pub const SCROLLBAR_TRACK: u32 = 0xf0f6ffcc;

pub const SCROLLBAR_THUMB: u32 = 0xb7d0f4dd;

pub const SCROLLBAR_THUMB_ACTIVE: u32 = 0x84ace8ee;

pub const DIFF_ADDED_BG: u32 = 0xedfbf4;

pub const DIFF_ADDED_TEXT: u32 = 0x168447;

pub const DIFF_REMOVED_BG: u32 = 0xfff0f2;

pub const DIFF_REMOVED_TEXT: u32 = 0xb8323a;

pub const DIFF_HEADER_BG: u32 = 0xeef5ff;

pub const DIFF_HEADER_TEXT: u32 = 0x52627a;

pub const COLOR_APP_BG: u32 = 0xf7f9fc;

pub const COLOR_SURFACE: u32 = 0xffffff;

pub const COLOR_SURFACE_SOFT: u32 = 0xf3f6fb;

pub const COLOR_PANEL_BG: u32 = 0xffffff;

pub const COLOR_HEADER_BG: u32 = 0xf8fbff;

pub const COLOR_BORDER: u32 = 0xdbe5f2;

pub const COLOR_BORDER_STRONG: u32 = 0x3b82f6;

pub const COLOR_BLUE: u32 = 0x3b82f6;

pub const COLOR_BLUE_DARK: u32 = 0x1d4ed8;

pub const COLOR_BLUE_SOFT: u32 = 0xeaf2ff;

pub const COLOR_TEXT: u32 = 0x111827;

pub const COLOR_TEXT_MUTED: u32 = 0x4b5563;

pub const COLOR_TEXT_FAINT: u32 = 0x8a96a8;

pub const COLOR_ROW_SELECTED: u32 = 0xeaf2ff;

pub const COLOR_HASH_BG: u32 = 0xf1f5fb;

/// The colours of the lanes of the history graph.
pub open spec fn lane_colors() -> Seq<u32> {
    seq![0xf97316, 0x14b8a6, 0x3b82f6, 0xeab308, 0xef4444, 0x8b5cf6, 0x22c55e, 0xec4899]
}

/// The colour of a lane of the history graph.
pub fn graph_color(lane: usize) -> (r: u32)
    ensures
        r == lane_colors()[lane as int % 8],
{
    match lane % 8 {
        0 => 0xf97316,
        1 => 0x14b8a6,
        2 => 0x3b82f6,
        3 => 0xeab308,
        4 => 0xef4444,
        5 => 0x8b5cf6,
        6 => 0x22c55e,
        _ => 0xec4899,
    }
}

/// There are eight colours for lanes, and no two of them are the same.
pub proof fn lemma_lane_colors(i: int, j: int)
    requires
        0 <= i < j < 8,
    ensures
        lane_colors().len() == 8,
        lane_colors()[i] != lane_colors()[j],
{
}

} // verus!
