use aliasmgr::config::{
    classify_filesystem, filesystem_reliability, mounted_filesystem, path_safety, AppConfig, AppPaths, FilesystemReliability,
    PathSafety,
};
use aliasmgr::detection::{
    conflicts, detect, find_definition_in, installed_shells, parse_shell_name, DetectionContext,
};
use aliasmgr::error::AliasError;
use aliasmgr::executor::{executor_for, render_argv, render_argv_given, Executor};
use aliasmgr::exit_code::exit_code;
use aliasmgr::migrations::{migration_step, MigrationStep};
use aliasmgr::model::{
    format_rfc3339, parse_rfc3339, parse_uuid, record_from_fields, AliasRecord, Environment, PathMode, PathOrigin, ShellKind,
    TargetType,
};
use aliasmgr::validation::{validate_alias, validate_alias_name};

fn alias(target_type: TargetType) -> AliasRecord {
    AliasRecord { target_type, executable: "tool".into(), ..Default::default() }
}

fn named(name: &str) -> AliasRecord {
    AliasRecord { name: name.into(), executable: "tool".into(), ..Default::default() }
}

#[test]
fn workspace_builds() {
    assert_eq!(aliasmgr::version(), "0.1.0");
}

#[test]
fn version_is_non_empty() {
    let v = aliasmgr::version();
    assert!(!v.is_empty(), "core version must not be empty");
}

#[test]
fn accepts_valid_names_and_rejects_invalid_names() {
    for name in ["cm", "copy-mv", "build_cam", "g1"] {
        assert!(validate_alias_name(name).is_ok());
    }
    for name in ["my alias", "a=b", "hello;world", "$cmd", ""] {
        assert!(validate_alias_name(name).is_err());
    }
    assert!(validate_alias_name(&"a".repeat(65)).is_err());
}

#[test]
fn validates_argument_placeholders() {
    let mut value = named("cm");
    value.fixed_args = vec!["build".into(), "{{args}}".into()];
    assert!(validate_alias(&value).is_ok());
    value.pass_args = false;
    assert!(matches!(validate_alias(&value), Err(AliasError::InvalidArgTemplate)));
    value.pass_args = true;
    value.fixed_args.push("{{args}}".into());
    assert!(matches!(validate_alias(&value), Err(AliasError::InvalidArgTemplate)));
    value.fixed_args = vec!["{{{{args}}}}".into()];
    assert!(validate_alias(&value).is_ok());
}

#[test]
fn rejects_advanced_mode_and_reserved_powershell_names() {
    let mut value = named("cm");
    value.advanced_shell_mode = true;
    assert!(matches!(validate_alias(&value), Err(AliasError::AdvancedModeUnsupported)));
    value.advanced_shell_mode = false;
    value.name = "ls".into();
    value.shells = vec![ShellKind::PowerShell7];
    assert!(matches!(validate_alias(&value), Err(AliasError::NameReserved)));
}

#[test]
fn expands_native_arguments_without_joining_strings() {
    let mut value = alias(TargetType::NativeExecutable);
    value.fixed_args = vec!["build".into(), "{{args}}".into(), "--verbose".into()];
    assert_eq!(render_argv(&value, &["a b".into(), "".into()]).unwrap(), vec!["tool", "build", "a b", "", "--verbose"]);
}

#[test]
fn selects_script_and_jar_as_structured_commands() {
    for target in [TargetType::PythonScript, TargetType::PowerShellScript, TargetType::JavaJar, TargetType::ChangeDirectory] {
        assert!(matches!(executor_for(&alias(target)).unwrap().target_type(), TargetType::NativeExecutable));
    }
}

#[test]
fn batch_executor_rejects_command_metacharacters() {
    let value = AliasRecord { target_type: TargetType::Batch, executable: "tool.bat".into(), fixed_args: vec!["bad&arg".into()], ..Default::default() };
    assert!(matches!(render_argv(&value, &[]), Err(AliasError::InvalidArgTemplate)));
}

#[test]
fn carries_working_directory_and_environment_without_string_joining() {
    let mut value = alias(TargetType::NativeExecutable);
    value.working_directory = Some("/tmp/work dir".into());
    value.environment.insert("MODE".into(), "test value".into());
    let spec = executor_for(&value).unwrap().render_argv(&value, &[]).unwrap();
    assert_eq!(spec.working_directory.as_deref(), Some("/tmp/work dir"));
    assert_eq!(spec.environment.get("MODE").map(|v| v.as_str()), Some("test value"));
}

#[test]
fn preserves_exact_argument_boundaries_for_special_values() {
    let mut value = alias(TargetType::NativeExecutable);
    value.fixed_args = vec!["{{args}}".into()];
    let args: [String; 5] = ["".into(), "a b".into(), "quote\"value".into(), r"C:\dir\".into(), "通配*?".into()];
    let spec = executor_for(&value).unwrap().render_argv(&value, &args).unwrap();
    assert_eq!(&spec.argv[1..], args.as_slice());
    assert_eq!(spec.argv.len(), 1 + args.len());
}

#[test]
fn rejects_batch_metacharacters_in_user_arguments() {
    let value = alias(TargetType::Batch);
    for argument in ["%PATH%", "bang!", "left&right", "a|b", "a^b", "a<b", "a>b"] {
        assert!(matches!(executor_for(&value).unwrap().render_argv(&value, &[argument.into()]), Err(AliasError::InvalidArgTemplate)));
    }
}

#[test]
fn preserves_escaped_args_placeholder_as_literal_argument() {
    let mut value = alias(TargetType::NativeExecutable);
    value.fixed_args = vec!["{{{{args}}}}".into()];
    let spec = executor_for(&value).unwrap().render_argv(&value, &[]).unwrap();
    assert_eq!(spec.argv, vec!["tool", "{{args}}"]);
}

#[test]
fn rejects_repeated_or_disabled_args_placeholders_through_validation() {
    let mut repeated = alias(TargetType::NativeExecutable);
    repeated.name = "repeated".into();
    repeated.fixed_args = vec!["{{args}}".into(), "{{args}}".into()];
    assert!(matches!(validate_alias(&repeated), Err(AliasError::InvalidArgTemplate)));
    let mut disabled = alias(TargetType::NativeExecutable);
    disabled.name = "disabled".into();
    disabled.pass_args = false;
    disabled.fixed_args = vec!["{{args}}".into()];
    assert!(matches!(validate_alias(&disabled), Err(AliasError::InvalidArgTemplate)));
}

#[test]
fn carries_target_specific_fixed_arguments_without_reparsing() {
    for target in [TargetType::PythonScript, TargetType::PowerShellScript, TargetType::JavaJar, TargetType::ChangeDirectory] {
        let mut value = alias(target);
        value.fixed_args = vec!["script path.py".into()];
        let spec = executor_for(&value).unwrap().render_argv(&value, &["参数".into()]).unwrap();
        assert_eq!(spec.argv[0], "tool");
        assert_eq!(spec.argv[1], "script path.py");
    }
}

#[test]
fn reports_missing_path_targets() {
    let value = AliasRecord { executable: "/definitely/missing/aliasmgr-target".into(), ..Default::default() };
    assert!(matches!(executor_for(&value).unwrap().render_argv(&value, &[]), Err(AliasError::TargetMissing(_))));
}

#[test]
fn path_check_outcome_decides_for_slashed_targets() {
    let value = AliasRecord { executable: "/opt/tool".into(), ..Default::default() };
    assert_eq!(render_argv_given(&value, &[], true).unwrap(), vec!["/opt/tool"]);
    assert!(matches!(render_argv_given(&value, &[], false), Err(AliasError::TargetMissing(t)) if t == "/opt/tool"));
    let raw = AliasRecord { executable: "tool".into(), target_type: TargetType::RawShellCommand, ..Default::default() };
    assert!(matches!(render_argv_given(&raw, &[], true), Err(AliasError::AdvancedModeUnsupported)));
}

#[test]
fn runtime_arguments_follow_fixed_ones_without_placeholder() {
    let mut value = alias(TargetType::NativeExecutable);
    value.fixed_args = vec!["status".into()];
    assert_eq!(render_argv(&value, &["-s".into()]).unwrap(), vec!["tool", "status", "-s"]);
    value.pass_args = false;
    assert_eq!(render_argv(&value, &["-s".into()]).unwrap(), vec!["tool", "status"]);
}

#[test]
fn maps_stable_core_error_categories() {
    assert_eq!(exit_code(&AliasError::NameReserved), 3);
    assert_eq!(exit_code(&AliasError::ExactNameConflict("cm".into())), 3);
    assert_eq!(exit_code(&AliasError::CaseFoldConflict("Build".into())), 3);
    assert_eq!(exit_code(&AliasError::TargetMissing("x".into())), 6);
    assert_eq!(exit_code(&AliasError::InvalidArgTemplate), 5);
    assert_eq!(exit_code(&AliasError::ChecksumMismatch), 13);
    assert_eq!(exit_code(&AliasError::UnreliableFilesystem), 13);
    assert_eq!(exit_code(&AliasError::PermissionDenied), 7);
    assert_eq!(exit_code(&AliasError::LockTimeout), 8);
    assert_eq!(exit_code(&AliasError::SchemaTooNew), 12);
}

#[test]
fn every_error_has_its_exit_code_and_message() {
    assert_eq!(exit_code(&AliasError::Config("x".into())), 1);
    assert_eq!(exit_code(&AliasError::UnsafePath), 6);
    assert_eq!(exit_code(&AliasError::ShellNotInstalled), 12);
    assert_eq!(exit_code(&AliasError::Io("disk".into())), 13);
    assert_eq!(AliasError::TargetMissing("x".into()).message(), "target is missing: x");
    assert_eq!(AliasError::Config("bad".into()).message(), "configuration error: bad");
}

#[test]
fn powershell_versions_have_separate_generated_files() {
    let paths = AppPaths { root: "config".into() };
    assert_ne!(paths.generated_path("powershell5"), paths.generated_path("powershell7"));
    assert!(paths.generated_path("powershell5").ends_with(".ps1"));
    assert_eq!(paths.generated_path("bash"), "config/generated/bash.sh");
    assert_eq!(paths.config_file(), "config/config.toml");
}

#[test]
fn explicit_path_precedes_environment() {
    assert_eq!(AppPaths::discover_from(Some("cli-config"), Some("env-config"), false, None, None).root, "cli-config");
}

#[test]
fn environment_path_precedes_platform_default() {
    assert_eq!(AppPaths::discover_from(None, Some("env-config"), false, None, None).root, "env-config");
    assert_eq!(AppPaths::discover_from(None, None, false, None, Some("/xdg")).root, "/xdg/alias-manager");
    assert_eq!(AppPaths::discover_from(None, None, false, None, None).root, "~/.config/alias-manager");
    assert_eq!(AppPaths::discover_from(None, None, true, None, None).root, ".");
}

#[test]
fn default_configuration_values() {
    let config = AppConfig::default();
    assert_eq!(config.backups.rc_keep, 10);
    assert_eq!(config.backups.db_keep, 5);
    assert_eq!(config.logs.keep_files, 7);
    assert_eq!(config.retired_names.keep_revisions, 20);
}

#[test]
fn filesystem_kinds_and_permission_bits_are_classified() {
    assert_eq!(classify_filesystem(Some("nfs4")), FilesystemReliability::FallbackDelete);
    assert_eq!(classify_filesystem(Some("ext4")), FilesystemReliability::Reliable);
    assert_eq!(classify_filesystem(Some("zfs")), FilesystemReliability::Unknown);
    assert_eq!(classify_filesystem(None), FilesystemReliability::Unknown);
    assert_eq!(path_safety(Some(0o777)), PathSafety::OtherWritable);
    assert_eq!(path_safety(Some(0o644)), PathSafety::Safe);
    assert_eq!(path_safety(None), PathSafety::Unknown);
}

#[test]
fn detection_precedence_is_explicit_parent_environment_login_installed() {
    let result = detect(&DetectionContext { explicit: Some(ShellKind::Zsh), parent_shell: Some(ShellKind::Bash), shell_env: Some("/bin/bash".into()), login_shell: Some(ShellKind::PowerShell7) }, vec![]);
    assert_eq!(result.selected, Some(ShellKind::Zsh));
    assert_eq!(result.source, "explicit");
    let result = detect(&DetectionContext { explicit: None, parent_shell: Some(ShellKind::Bash), shell_env: Some("/bin/zsh".into()), login_shell: None }, vec![]);
    assert_eq!(result.selected, Some(ShellKind::Bash));
}

#[test]
fn detection_falls_back_to_environment_login_and_installed() {
    let result = detect(&DetectionContext { explicit: None, parent_shell: None, shell_env: Some("/usr/bin/pwsh".into()), login_shell: Some(ShellKind::Bash) }, vec![]);
    assert_eq!(result.selected, Some(ShellKind::PowerShell7));
    assert_eq!(result.source, "shell_env");
    let result = detect(&DetectionContext { explicit: None, parent_shell: None, shell_env: Some("/bin/fish".into()), login_shell: Some(ShellKind::Bash) }, vec![]);
    assert_eq!(result.source, "login_shell");
    let result = detect(&DetectionContext { explicit: None, parent_shell: None, shell_env: None, login_shell: None }, installed_shells(&[false, true, false, true]));
    assert_eq!(result.selected, Some(ShellKind::Zsh));
    assert_eq!(result.installed, vec![ShellKind::Zsh, ShellKind::PowerShell7]);
    assert_eq!(result.source, "installed");
}

#[test]
fn shell_names_come_from_the_program_file_name() {
    assert_eq!(parse_shell_name("/bin/bash"), Some(ShellKind::Bash));
    assert_eq!(parse_shell_name("zsh"), Some(ShellKind::Zsh));
    assert_eq!(parse_shell_name("/usr/bin/pwsh/"), Some(ShellKind::PowerShell7));
    assert_eq!(parse_shell_name("/opt/powershell/."), Some(ShellKind::PowerShell5));
    assert_eq!(parse_shell_name("/bin/.."), None);
    assert_eq!(parse_shell_name("/"), None);
    assert_eq!(parse_shell_name("/bin/sh"), None);
}

#[test]
fn reports_reserved_and_path_conflicts() {
    let result = conflicts("ls", false).unwrap();
    assert!(!result.is_empty());
    assert!(result[0].reason.contains("built-in"));
}

#[test]
fn path_conflicts_follow_reserved_ones() {
    let result = conflicts("CD", true).unwrap();
    assert_eq!(result.len(), 2);
    assert_eq!(result[1].reason, "executable found on PATH");
    assert!(conflicts("mytool", false).unwrap().is_empty());
}

#[test]
fn finds_simple_definition_source_with_line_number() {
    let found = find_definition_in("# comment\nalias gs='git status'\n", "gs").unwrap();
    assert_eq!(found.0, 2);
    assert_eq!(found.1, "alias gs='git status'");
    let found = find_definition_in("x\r\nfunction gs() {}\r\n", "gs").unwrap();
    assert_eq!(found, (2, "function gs() {}".to_string()));
    assert!(find_definition_in("gs=1\n", "gs").is_none());
}

#[test]
fn newer_schema_is_refused() {
    assert!(matches!(migration_step(999), Err(AliasError::SchemaTooNew)));
    assert_eq!(migration_step(1).unwrap(), MigrationStep::UpToDate);
    assert_eq!(migration_step(0).unwrap(), MigrationStep::ApplyInitial);
}

const MOUNTS: &str = "proc /proc proc rw 0 0\n/dev/sda1 / ext4 rw,relatime 0 0\nserver:/x /mnt/nfs nfs4 rw 0 0\nbroken line\n";

#[test]
fn mount_table_names_the_filesystem_of_a_path() {
    assert_eq!(mounted_filesystem(MOUNTS, "/home/user").as_deref(), Some("ext4"));
    // `/mnt/nfs` holds the path, and `nfs4` is as long as `ext4` and comes later.
    assert_eq!(mounted_filesystem(MOUNTS, "/mnt/nfs/share").as_deref(), Some("nfs4"));
    // A mount point holds a path by whole components only.
    assert_eq!(mounted_filesystem(MOUNTS, "/mnt/nfsx").as_deref(), Some("ext4"));
    // Among the mounts that hold a path, the longest kind wins, the later on ties.
    assert_eq!(mounted_filesystem(MOUNTS, "/proc/1").as_deref(), Some("ext4"));
    assert_eq!(mounted_filesystem(MOUNTS, "relative/path"), None);
    assert_eq!(mounted_filesystem("", "/"), None);
}

#[test]
fn filesystem_reliability_follows_the_mount_of_the_path() {
    assert_eq!(filesystem_reliability(true, Some(MOUNTS), Some("/home/user")), FilesystemReliability::Reliable);
    assert_eq!(filesystem_reliability(true, Some(MOUNTS), Some("/mnt/nfs/share")), FilesystemReliability::FallbackDelete);
    assert_eq!(filesystem_reliability(false, Some(MOUNTS), Some("/home/user")), FilesystemReliability::Unknown);
    assert_eq!(filesystem_reliability(true, None, Some("/home/user")), FilesystemReliability::Unknown);
    assert_eq!(filesystem_reliability(true, Some(MOUNTS), None), FilesystemReliability::Unknown);
    assert_eq!(filesystem_reliability(true, Some("none /weird zfs-x rw 0 0\n"), Some("/weird")), FilesystemReliability::Unknown);
}

#[test]
fn required_directories_lie_under_the_root() {
    let paths = AppPaths { root: "config".into() };
    assert_eq!(
        paths.required_directories(),
        vec!["config", "config/generated", "config/backups/rc", "config/backups/generated", "config/backups/db", "config/logs"]
    );
}

fn fields(id: &str, created: &str, updated: &str) -> Result<AliasRecord, AliasError> {
    record_from_fields(
        id,
        "gs".to_string(),
        "status".to_string(),
        TargetType::NativeExecutable,
        "git".to_string(),
        vec!["status".to_string()],
        true,
        None,
        Environment::new(),
        vec![ShellKind::Zsh],
        true,
        false,
        vec!["vcs".to_string()],
        PathMode::Absolute,
        PathOrigin::CliArgument,
        created,
        updated,
        "abc".to_string(),
        3,
    )
}

#[test]
fn stored_fields_read_back_as_a_record() {
    let record = fields("01234567-89ab-cdef-0123-456789abcdef", "1970-01-01T00:00:01Z", "1970-01-01T00:00:01.5+00:00").unwrap();
    assert_eq!(record.id, 0x0123456789abcdef0123456789abcdef);
    assert_eq!(record.created_at, 1_000_000_000);
    assert_eq!(record.updated_at, 1_500_000_000);
    assert_eq!(record.name, "gs");
    assert_eq!(record.shells, vec![ShellKind::Zsh]);
    assert_eq!(record.record_checksum, "abc");
    assert_eq!(record.revision, 3);
    assert!(matches!(fields("not-a-uuid", "1970-01-01T00:00:01Z", "1970-01-01T00:00:01Z"), Err(AliasError::Serialization(_))));
    assert!(matches!(fields("01234567-89ab-cdef-0123-456789abcdef", "yesterday", "1970-01-01T00:00:01Z"), Err(AliasError::Serialization(_))));
    assert!(matches!(fields("01234567-89ab-cdef-0123-456789abcdef", "1970-01-01T00:00:01Z", "later"), Err(AliasError::Serialization(_))));
}

#[test]
fn times_and_ids_read_and_write_as_text() {
    assert_eq!(format_rfc3339(0, false).as_deref(), Some("1970-01-01T00:00:00+00:00"));
    assert_eq!(format_rfc3339(0, true).as_deref(), Some("1970-01-01T00:00:00Z"));
    assert_eq!(parse_rfc3339(&format_rfc3339(1_500_000_000, true).unwrap()).unwrap(), 1_500_000_000);
    // Times beyond what an i64 of nanoseconds holds are kept.
    let far = parse_rfc3339("3000-01-01T00:00:00Z").unwrap();
    assert_eq!(far, 32_503_680_000 * 1_000_000_000);
    assert_eq!(format_rfc3339(far, true).as_deref(), Some("3000-01-01T00:00:00Z"));
    let early = parse_rfc3339("1600-01-01T00:00:00.5Z").unwrap();
    assert!(early < i64::MIN as i128);
    assert_eq!(format_rfc3339(early, true).as_deref(), Some("1600-01-01T00:00:00.500Z"));
    assert_eq!(format_rfc3339(i128::MAX, true), None);
    assert!(parse_rfc3339("nonsense").is_err());
    assert_eq!(parse_uuid("01234567-89ab-cdef-0123-456789abcdef").unwrap(), 0x0123456789abcdef0123456789abcdef);
    assert!(parse_uuid("xyz").is_err());
}
