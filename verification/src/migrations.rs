//! Schema migrations: what opening a database at a schema version calls
//! for, and the checksum recorded for an applied migration script.
use vstd::prelude::*;
use crate::digest::{sha256_hex_spec, sha256_hex_string};
use crate::error::AliasError;

verus! {

/// The schema version this program writes.
pub const CURRENT_VERSION: i64 = 1;

/// What a database at some schema version needs.
#[derive(Debug, Clone, Copy, PartialEq, Eq, Structural)]
pub enum MigrationStep {
    UpToDate,
    ApplyInitial,
}

/// What a database at a schema version needs: a newer schema is refused, the
/// current one needs nothing, an older one gets the initial script.
pub fn migration_step(current: i64) -> (r: Result<MigrationStep, AliasError>)
    ensures
        current > CURRENT_VERSION ==> r == Err::<MigrationStep, AliasError>(AliasError::SchemaTooNew),
        current == CURRENT_VERSION ==> r == Ok::<MigrationStep, AliasError>(MigrationStep::UpToDate),
        current < CURRENT_VERSION ==> r == Ok::<MigrationStep, AliasError>(MigrationStep::ApplyInitial),
{
    if current > CURRENT_VERSION {
        Err(AliasError::SchemaTooNew)
    } else if current == CURRENT_VERSION {
        Ok(MigrationStep::UpToDate)
    } else {
        Ok(MigrationStep::ApplyInitial)
    }
}

/// The checksum recorded for a migration script: its SHA-256 digest in
/// lowercase hexadecimal.
pub fn script_checksum(script: &str) -> (c: String)
    ensures
        c@ == sha256_hex_spec(script@),
{
    sha256_hex_string(script)
}

} // verus!
