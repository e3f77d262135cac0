//! What the window shows: texts, colours, and what a click does. Drawing is left to the window.

pub mod actions;
pub mod avatar;
pub mod changes;
pub mod conflict_view;
pub mod credential_view;
pub mod dialogs;
pub mod feedback;
pub mod frame;
pub mod history;
pub mod input;
pub mod looks;
pub mod menus;
pub mod sidebar;
pub mod splitter;
pub mod theme;
pub mod workflow_view;
