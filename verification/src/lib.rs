//! doty: a NixOS cleanup orchestrator's decision core.
use vstd::prelude::*;

pub mod framework;
pub mod analyze;
pub mod commands;
pub mod config;
pub mod exec;
pub mod guard;
pub mod mount;
pub mod paths;
pub mod reclaim;
pub mod reclaim_human;
pub mod registry;
pub mod rm;
pub mod scan_report;
pub mod settings;
pub mod sort;
pub mod targets;
pub mod text;
pub mod tokens;

verus! {
}
