//! The exit status of the command-line tool for each kind of error.
use vstd::prelude::*;
use crate::error::AliasError;

verus! {

/// The exit status for an error: 3 for conflicts and reserved names, 6 for
/// missing targets and unsafe paths, 5 for invalid aliases, 7 for denied
/// permission, 8 for a lock timeout, 12 for an unsupported schema or shell,
/// 13 for integrity, storage and I/O failures, 1 for configuration errors.
pub open spec fn exit_code_spec(error: AliasError) -> i32 {
    match error {
        AliasError::AliasConflict(_) | AliasError::ExactNameConflict(_) | AliasError::CaseFoldConflict(_)
        | AliasError::NameReserved => 3,
        AliasError::TargetMissing(_) | AliasError::UnsafePath => 6,
        AliasError::InvalidAliasName | AliasError::InvalidArgTemplate | AliasError::AdvancedModeUnsupported => 5,
        AliasError::PermissionDenied => 7,
        AliasError::LockTimeout => 8,
        AliasError::SchemaTooNew | AliasError::ShellNotInstalled => 12,
        AliasError::ChecksumMismatch | AliasError::Database(_) | AliasError::Serialization(_) | AliasError::Io(_)
        | AliasError::UnreliableFilesystem => 13,
        AliasError::Config(_) => 1,
    }
}

/// The exit status for an error.
pub fn exit_code(error: &AliasError) -> (c: i32)
    ensures
        c == exit_code_spec(*error),
{
    match error {
        AliasError::AliasConflict(_) | AliasError::ExactNameConflict(_) | AliasError::CaseFoldConflict(_)
        | AliasError::NameReserved => 3,
        AliasError::TargetMissing(_) | AliasError::UnsafePath => 6,
        AliasError::InvalidAliasName | AliasError::InvalidArgTemplate | AliasError::AdvancedModeUnsupported => 5,
        AliasError::PermissionDenied => 7,
        AliasError::LockTimeout => 8,
        AliasError::SchemaTooNew | AliasError::ShellNotInstalled => 12,
        AliasError::ChecksumMismatch | AliasError::Database(_) | AliasError::Serialization(_) | AliasError::Io(_)
        | AliasError::UnreliableFilesystem => 13,
        AliasError::Config(_) => 1,
    }
}

} // verus!
