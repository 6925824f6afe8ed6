//! What the commands decide and compute.
pub mod ai;
pub mod assembly;
pub mod base;
pub mod create;
pub mod headless;
pub mod list;
pub mod open;
pub mod remove;
pub mod session;
pub mod status;
