//! Git worktree manager for multi-repo projects.
//!
//! A *base* is a named list of local repositories; a *workspace* is a directory
//! with one worktree per repository of a base, all on one branch.
pub mod ai_link;
pub mod assistant;
pub mod cli;
pub mod commands;
pub mod config;
pub mod error;
pub mod git;
pub mod gui;
pub mod json;
pub mod order;
pub mod paths;
pub mod pr;
pub mod session;
pub mod table;
pub mod term_input;
pub mod text;
pub mod time;
pub mod window_manager;
pub mod workspace;
