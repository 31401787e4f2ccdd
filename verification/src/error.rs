//! The errors of the alias manager.
use vstd::prelude::*;

verus! {

/// An error reported by the alias manager.
///
/// Errors that come from the outside world (the database file, JSON or TOML
/// text, the file system) carry the outside error's message.
#[derive(Debug, Clone)]
pub enum AliasError {
    InvalidAliasName,
    InvalidArgTemplate,
    AdvancedModeUnsupported,
    AliasConflict(String),
    ExactNameConflict(String),
    CaseFoldConflict(String),
    NameReserved,
    TargetMissing(String),
    SchemaTooNew,
    LockTimeout,
    PermissionDenied,
    UnsafePath,
    Config(String),
    ShellNotInstalled,
    ChecksumMismatch,
    UnreliableFilesystem,
    Database(String),
    Serialization(String),
    Io(String),
}

/// The human-readable message of an error.
pub open spec fn error_message(e: AliasError) -> Seq<char> {
    match e {
        AliasError::InvalidAliasName => "invalid alias name"@,
        AliasError::InvalidArgTemplate => "invalid argument template"@,
        AliasError::AdvancedModeUnsupported => "advanced shell mode is unsupported"@,
        AliasError::AliasConflict(m) => "alias conflict: "@ + m@,
        AliasError::ExactNameConflict(m) => "alias name already exists: "@ + m@,
        AliasError::CaseFoldConflict(m) => "alias name conflicts ignoring case: "@ + m@,
        AliasError::NameReserved => "name is reserved"@,
        AliasError::TargetMissing(m) => "target is missing: "@ + m@,
        AliasError::SchemaTooNew => "database schema is newer than this program"@,
        AliasError::LockTimeout => "lock acquisition timed out"@,
        AliasError::PermissionDenied => "permission denied"@,
        AliasError::UnsafePath => "unsafe path"@,
        AliasError::Config(m) => "configuration error: "@ + m@,
        AliasError::ShellNotInstalled => "shell is not installed"@,
        AliasError::ChecksumMismatch => "record checksum mismatch"@,
        AliasError::UnreliableFilesystem => "file system is not reliable for atomic replacement"@,
        AliasError::Database(m) => "database error: "@ + m@,
        AliasError::Serialization(m) => "serialization error: "@ + m@,
        AliasError::Io(m) => "I/O error: "@ + m@,
    }
}

impl AliasError {
    /// The human-readable message of this error (what the command-line tool
    /// prints).
    pub fn message(&self) -> (m: String)
        ensures
            m@ == error_message(*self),
    {
        match self {
            AliasError::InvalidAliasName => String::from_str("invalid alias name"),
            AliasError::InvalidArgTemplate => String::from_str("invalid argument template"),
            AliasError::AdvancedModeUnsupported => String::from_str("advanced shell mode is unsupported"),
            AliasError::AliasConflict(m) => String::from_str("alias conflict: ").concat(m.as_str()),
            AliasError::ExactNameConflict(m) => String::from_str("alias name already exists: ").concat(m.as_str()),
            AliasError::CaseFoldConflict(m) => String::from_str("alias name conflicts ignoring case: ").concat(m.as_str()),
            AliasError::NameReserved => String::from_str("name is reserved"),
            AliasError::TargetMissing(m) => String::from_str("target is missing: ").concat(m.as_str()),
            AliasError::SchemaTooNew => String::from_str("database schema is newer than this program"),
            AliasError::LockTimeout => String::from_str("lock acquisition timed out"),
            AliasError::PermissionDenied => String::from_str("permission denied"),
            AliasError::UnsafePath => String::from_str("unsafe path"),
            AliasError::Config(m) => String::from_str("configuration error: ").concat(m.as_str()),
            AliasError::ShellNotInstalled => String::from_str("shell is not installed"),
            AliasError::ChecksumMismatch => String::from_str("record checksum mismatch"),
            AliasError::UnreliableFilesystem => String::from_str("file system is not reliable for atomic replacement"),
            AliasError::Database(m) => String::from_str("database error: ").concat(m.as_str()),
            AliasError::Serialization(m) => String::from_str("serialization error: ").concat(m.as_str()),
            AliasError::Io(m) => String::from_str("I/O error: ").concat(m.as_str()),
        }
    }
}

} // verus!
