//! Verified core of the neomux tmux cockpit and its coding-agent pane.

pub mod agent;
pub mod cli;
pub mod command;
pub mod json;
pub mod launch;
pub mod laws;
pub mod number;
pub mod prompt;
pub mod shell;
pub mod step;
pub mod text;
pub mod wire;
pub mod workspace;
