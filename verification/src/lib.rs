//! Right-panel logic of the herdr terminal workspace: panel modes, per-pane
//! panel state, and the text helpers that the panel, diff and Jira views share.

pub mod text;
pub mod split;
pub mod gc;
pub mod jira;
pub mod issues;
pub mod json;
pub mod jira_state;
pub mod worker;
pub mod model;
pub mod adf_render;
pub mod ansi;
pub mod diff_state;
pub mod diff;
pub mod adf;
pub mod jira_ui;
pub mod jira_time;
pub mod jira_api;
pub mod setup;
pub mod diff_ui;
pub mod panel_cli;
pub mod right_panel;
pub mod panel_state;
pub mod sessions;
pub mod scanner;
pub mod app;
pub mod jira_detail;
