//! Core logic of the AI image package: asset pipeline, prompt rules,
//! project metadata, skill repository decisions and TUI navigation.

pub mod text;
pub mod rules;
pub mod prompt;
pub mod asset;
pub mod git;
pub mod skill;
pub mod project;
pub mod tui;
