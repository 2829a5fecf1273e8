//! The decisions behind krypta's commands: what to sync, encrypt, check and show.
pub mod actions;
pub mod commands;
pub mod config;
