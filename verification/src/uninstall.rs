//! Uninstalling: the loader block leaves the shell profile; in purge mode
//! the managed files go too, never a target that an alias points to.
use vstd::prelude::*;
use crate::config::{join_path, join_path_spec};
use crate::shells::common::_filesystem_exists;

verus! {

/// Whether uninstalling keeps the aliases' data.
#[derive(Debug, Clone, Copy, PartialEq, Eq, Structural)]
pub enum UninstallMode {
    RetainAliases,
    PurgeAliases,
}

/// What an uninstall did.
#[derive(Debug)]
pub struct UninstallReport {
    pub removed_files: Vec<String>,
    pub retained_targets: Vec<String>,
    pub loader_removed: bool,
}

impl Default for UninstallReport {
    /// Nothing removed.
    fn default() -> (r: Self)
        ensures
            r.removed_files@.len() == 0,
            r.retained_targets@.len() == 0,
            !r.loader_removed,
    {
        UninstallReport { removed_files: Vec::new(), retained_targets: Vec::new(), loader_removed: false }
    }
}

/// The files the alias manager owns under its configuration directory:
/// the four generated files, the database and the journal.
pub open spec fn managed_file_names() -> Seq<Seq<char>> {
    seq![
        "generated/bash.sh"@,
        "generated/zsh.sh"@,
        "generated/powershell5.ps1"@,
        "generated/powershell7.ps1"@,
        "aliases.db"@,
        "operation.journal"@,
    ]
}

/// The files an uninstall removes when they exist: the managed files in
/// purge mode, none in retain mode.
pub fn removal_candidates(config_dir: &str, mode: UninstallMode) -> (v: Vec<String>)
    ensures
        mode == UninstallMode::RetainAliases ==> v@.len() == 0,
        mode == UninstallMode::PurgeAliases ==> v@.len() == 6 && forall|i: int|
            0 <= i < 6 ==> (#[trigger] v@[i])@ == join_path_spec(config_dir@, managed_file_names()[i]),
{
    let mut v: Vec<String> = Vec::new();
    if mode == UninstallMode::PurgeAliases {
        v.push(join_path(config_dir, "generated/bash.sh"));
        v.push(join_path(config_dir, "generated/zsh.sh"));
        v.push(join_path(config_dir, "generated/powershell5.ps1"));
        v.push(join_path(config_dir, "generated/powershell7.ps1"));
        v.push(join_path(config_dir, "aliases.db"));
        v.push(join_path(config_dir, "operation.journal"));
    }
    v
}

/// Whether a generated file is missing (asks the file system).
pub fn guard_missing_generated(path: &str) -> bool {
    !_filesystem_exists(path)
}

} // verus!
