//! Verified core of `azdo`, a small client for Azure DevOps Server.

pub mod backend;
pub mod browser;
pub mod builds;
pub mod client;
pub mod commands;
pub mod config;
pub mod daily;
pub mod error;
pub mod ops;
pub mod query;
pub mod text;
pub mod tui;
pub mod wiki;
pub mod workitem;
