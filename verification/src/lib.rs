//! Alias Manager: a cross-platform command alias manager.
//!
//! The library holds the verified core: the alias model and its validation,
//! structured argument expansion, shell script rendering, loader blocks in
//! shell profiles, search, the alias store and import rules.
use vstd::prelude::*;

pub mod cli;
pub mod commands;
pub mod config;
pub mod detection;
pub mod digest;
pub mod error;
pub mod executor;
pub mod gui;
pub mod exit_code;
pub mod migrations;
pub mod output;
pub mod model;
pub mod rotation;
pub mod search;
pub mod service;
pub mod shell;
pub mod shells;
pub mod storage;
pub mod sync;
pub mod text;
pub mod transfer;
pub mod uninstall;
pub mod validation;

verus! {

/// The version of the alias manager core.
pub fn version() -> (v: &'static str)
    ensures
        v@ == "0.1.0"@,
{
    proof {
        reveal_strlit("0.1.0");
    }
    "0.1.0"
}

} // verus!
