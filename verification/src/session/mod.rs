//! What the client has open: tabs with repositories, what is selected in them and what is being
//! loaded.

pub mod commands;
pub mod effects;
pub mod events;
pub mod keys;
pub mod loading;
pub mod paths;
pub mod popups;
pub mod selection;
pub mod tab;
pub mod tab_events;
pub mod view;
pub mod view_changes;
pub mod view_close;
pub mod view_commands;
pub mod view_conflicts;
pub mod view_dialogs;
pub mod view_events;
pub mod view_open;
pub mod view_restore;
pub mod view_tabs;
pub mod view_workflow;
