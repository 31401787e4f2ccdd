use aliasmgr::cli::{AddArgs, Command, OutputFormat};
use aliasmgr::commands::{
    alias_from_add_args, ensure_interactive, find_query, list_query, reload_print, requires_confirmation,
    search_field, shells_to_sync, sort_field,
};
use aliasmgr::error::AliasError;
use aliasmgr::gui::{
    alias_to_dto, config_get, config_save, doctor_status, dto_to_alias, generated_preview, import_confirm, import_preview,
    create_alias, list_aliases, reload_command, search_aliases, search_query_of, shell_kind_to_str, startup_status, tag_counts,
    uninstall_confirm, uninstall_preview, update_alias, SearchRequest,
};
use aliasmgr::service::AliasService;
use aliasmgr::storage::Database;
use aliasmgr::detection::DetectionResult;
use aliasmgr::model::{AliasRecord, ShellKind, TargetType};
use aliasmgr::output::{alias_rows, row, rows, table};
use aliasmgr::rotation::{files_to_prune, path_is_other_writable, FileEntry};
use aliasmgr::search::{SearchField, SortField};
use aliasmgr::uninstall::{removal_candidates, UninstallMode};

#[test]
fn shell_kind_to_str_returns_stable_values() {
    assert_eq!(shell_kind_to_str(&ShellKind::Bash), "bash");
    assert_eq!(shell_kind_to_str(&ShellKind::Zsh), "zsh");
    assert_eq!(shell_kind_to_str(&ShellKind::PowerShell5), "powershell5");
    assert_eq!(shell_kind_to_str(&ShellKind::PowerShell7), "powershell7");
    assert_eq!(shell_kind_to_str(&ShellKind::Fish), "fish");
    assert_eq!(shell_kind_to_str(&ShellKind::PosixSh), "posix_sh");
}

#[test]
fn dto_carries_fields_and_reads_back_through_serialized_names() {
    let alias = AliasRecord { id: 0x0123456789abcdef0123456789abcdef, name: "gs".into(), executable: "git".into(), target_type: TargetType::Batch, ..Default::default() };
    let dto = alias_to_dto(&alias);
    assert_eq!(dto.id, "01234567-89ab-cdef-0123-456789abcdef");
    assert_eq!(dto.target_type, "batch");
    assert_eq!(dto.shells, vec!["bash"]);
    let back = dto_to_alias(dto).unwrap();
    assert_eq!(back.id, alias.id);
    assert_eq!(back.name, "gs");
    let native = alias_to_dto(&AliasRecord { name: "gs".into(), executable: "git".into(), ..Default::default() });
    assert_eq!(native.target_type, "nativeexecutable");
    let err = dto_to_alias(native).unwrap_err();
    assert!(err.starts_with("unknown variant `nativeexecutable`"));
    assert_eq!(reload_command("zsh".into()).unwrap(), "source generated/zsh.sh");
}

#[test]
fn rows_and_table_are_stable() {
    let alias = AliasRecord { name: "gs".into(), executable: "git".into(), ..Default::default() };
    let r = row(&alias);
    assert_eq!(r.target_type, "native_executable");
    assert_eq!(r.shells, vec!["bash"]);
    assert_eq!(table(&rows(&[alias])), "NAME\tTARGET\tENABLED\ngs\tgit\ttrue\n");
}

#[test]
fn confirmation_and_interactivity() {
    assert!(requires_confirmation(&Command::Remove { name: "cm".into(), yes: false }));
    assert!(!requires_confirmation(&Command::Remove { name: "cm".into(), yes: true }));
    assert!(requires_confirmation(&Command::Uninstall { purge_aliases: true }));
    assert!(!requires_confirmation(&Command::Doctor));
    assert!(matches!(ensure_interactive(&Command::Uninstall { purge_aliases: true }, false), Err(AliasError::Config(m)) if m == "NonInteractive"));
    assert!(ensure_interactive(&Command::Uninstall { purge_aliases: true }, true).is_ok());
}

#[test]
fn add_arguments_build_the_alias() {
    let args = AddArgs { name: "cm".into(), executable: "python3".into(), args: vec!["copymv.py".into()], shell: vec!["zsh".into(), "nope".into(), "powershell7".into()], cwd: None, environment: vec![], tags: vec!["t".into()], no_pass_args: true };
    let alias = alias_from_add_args(&args);
    assert_eq!(alias.name, "cm");
    assert_eq!(alias.fixed_args, vec!["copymv.py"]);
    assert_eq!(alias.shells, vec![ShellKind::Zsh, ShellKind::PowerShell7]);
    assert!(!alias.pass_args);
}

#[test]
fn query_options_become_searches() {
    assert_eq!(search_field(None).unwrap(), SearchField::All);
    assert_eq!(search_field(Some("target_type")).unwrap(), SearchField::TargetType);
    assert!(matches!(search_field(Some("bogus")), Err(AliasError::Config(m)) if m == "unsupported search field: bogus"));
    assert_eq!(sort_field(Some("updated_at")).unwrap(), SortField::UpdatedAt);
    assert!(sort_field(Some("size")).is_err());
    let q = list_query(Some("updated_at"), true, Some(0), vec!["work".into()]).unwrap();
    assert_eq!(q.limit, 0);
    assert!(q.descending);
    let q = find_query("build", true, Some("description"), None, vec![]).unwrap();
    assert_eq!(q.field, SearchField::Description);
    assert_eq!(q.limit, 50);
}

#[test]
fn dry_run_and_reload_are_non_mutating_helpers() {
    assert!(reload_print(Some("cfg"), "bash").contains("generated/bash.sh"));
    assert_eq!(reload_print(None, "zsh"), "source '.alias-manager/generated/zsh.sh'");
}

#[test]
fn sync_covers_alias_and_retired_shells_once_in_order() {
    let a = AliasRecord { name: "a".into(), executable: "x".into(), shells: vec![ShellKind::Zsh, ShellKind::Bash], ..Default::default() };
    let b = AliasRecord { name: "b".into(), executable: "x".into(), shells: vec![ShellKind::Bash], ..Default::default() };
    assert_eq!(shells_to_sync(&[a, b], &[ShellKind::PowerShell7]), vec![ShellKind::Bash, ShellKind::Zsh, ShellKind::PowerShell7]);
}

#[test]
fn rotation_preserves_protected_file() {
    let files = vec![
        FileEntry { path: "root/old".into(), is_file: true, modified: Some(1) },
        FileEntry { path: "root/current".into(), is_file: true, modified: Some(2) },
    ];
    // The protected file counts toward the one kept, so the old file goes.
    assert_eq!(files_to_prune(&files, &["root/current".to_string()], 1), vec!["root/old"]);
    assert_eq!(files_to_prune(&files, &[], 1), vec!["root/old"]);
    // A protected file never goes, even when more than `keep` remain.
    assert_eq!(files_to_prune(&files, &["root/old".to_string(), "root/current".to_string()], 0), Vec::<String>::new());
}

#[test]
fn rotation_removes_oldest_first() {
    let files = vec![
        FileEntry { path: "c".into(), is_file: true, modified: Some(30) },
        FileEntry { path: "dir".into(), is_file: false, modified: Some(1) },
        FileEntry { path: "a".into(), is_file: true, modified: Some(10) },
        FileEntry { path: "unknown".into(), is_file: true, modified: None },
        FileEntry { path: "b".into(), is_file: true, modified: Some(20) },
    ];
    assert_eq!(files_to_prune(&files, &[], 1), vec!["unknown", "a", "b"]);
    assert!(path_is_other_writable(0o666));
    assert!(!path_is_other_writable(0o644));
}

#[test]
fn uninstall_purges_only_managed_files() {
    assert!(removal_candidates("root", UninstallMode::RetainAliases).is_empty());
    let files = removal_candidates("root", UninstallMode::PurgeAliases);
    assert_eq!(files.len(), 6);
    assert_eq!(files[4], "root/aliases.db");
}

#[test]
fn alias_rows_print_a_table_or_the_given_json() {
    let alias = AliasRecord { name: "gs".into(), executable: "git".into(), enabled: true, ..Default::default() };
    let aliases = vec![alias];
    assert_eq!(alias_rows(&aliases, OutputFormat::Table, &Ok(String::new())), "NAME\tTARGET\tENABLED\ngs\tgit\ttrue\n");
    assert_eq!(alias_rows(&aliases, OutputFormat::Json, &Ok("[{\"name\": \"gs\"}]".to_string())), "[{\"name\": \"gs\"}]");
    assert_eq!(alias_rows(&aliases, OutputFormat::Json, &Err("boom".to_string())), "serialization error: boom");
}

#[test]
fn interface_settings_and_previews_are_fixed() {
    let settings = config_get("/cfg".to_string()).unwrap();
    assert_eq!(settings.config_directory, "/cfg");
    assert_eq!(settings.default_shell, "bash");
    assert_eq!((settings.backup_keep, settings.log_keep, settings.allow_relative_paths), (10, 7, false));
    let saved = config_save(settings).unwrap();
    assert_eq!(saved.config_directory, "/cfg");
    assert!(doctor_status().unwrap().is_empty());
    assert_eq!(generated_preview("bash".to_string()).unwrap(), "");
    assert!(import_preview("f.json".to_string()).unwrap().imported.is_empty());
    assert!(import_confirm("f.json".to_string()).unwrap().skipped.is_empty());
    assert_eq!(uninstall_preview(true).unwrap(), vec!["Referenced target files are protected".to_string()]);
    assert!(uninstall_confirm(false).unwrap().is_empty());
}

#[test]
fn startup_status_and_search_requests_carry_their_inputs() {
    let detection = DetectionResult { selected: Some(ShellKind::Zsh), installed: vec![], source: "shell_env".to_string() };
    let status = startup_status(&detection, "/cfg".to_string());
    assert_eq!(status.version, "0.1.0");
    assert_eq!(status.detected_shell.as_deref(), Some("zsh"));
    assert_eq!(status.detection_source, "shell_env");
    assert_eq!(status.config_directory, "/cfg");
    let none = DetectionResult { selected: None, installed: vec![], source: "none".to_string() };
    assert_eq!(startup_status(&none, String::new()).detected_shell, None);

    let query = search_query_of(SearchRequest { query: "g".to_string(), fuzzy: true, limit: 5, tag_filter: vec!["vcs".to_string()] });
    assert_eq!(query.query, "g");
    assert!(query.fuzzy);
    assert_eq!(query.limit, 5);
    assert_eq!(query.tag_filter, vec!["vcs".to_string()]);
    assert_eq!(query.field, SearchField::All);
    assert_eq!(query.sort, SortField::Name);
    assert!(!query.descending);
}

#[test]
fn interface_commands_store_list_search_and_update_aliases() {
    let mut service = AliasService::new(Database::open_in_memory().unwrap());
    let alias = AliasRecord {
        id: 0x0123456789abcdef0123456789abcdef,
        name: "gs".into(),
        executable: "git".into(),
        target_type: TargetType::Batch,
        tags: vec!["vcs".into()],
        ..Default::default()
    };
    let created = create_alias(&mut service, alias_to_dto(&alias)).unwrap();
    assert_eq!(created.name, "gs");
    assert_eq!(created.id, "01234567-89ab-cdef-0123-456789abcdef");
    // The same name again is refused and nothing more is stored.
    let mut again = alias_to_dto(&alias);
    again.id = "11111111-2222-3333-4444-555555555555".to_string();
    assert!(create_alias(&mut service, again).is_err());
    assert_eq!(list_aliases(&service).unwrap().len(), 1);
    // A record whose target type is not a serialized name is refused.
    let mut bad = alias_to_dto(&alias);
    bad.target_type = "nativeexecutable".to_string();
    assert!(create_alias(&mut service, bad).unwrap_err().starts_with("unknown variant `nativeexecutable`"));

    let found = search_aliases(&service, SearchRequest { query: "gs".to_string(), fuzzy: false, limit: 10, tag_filter: vec![] }).unwrap();
    assert_eq!(found.len(), 1);
    assert_eq!(found[0].name, "gs");
    assert_eq!(tag_counts(&service).unwrap(), vec![("vcs".to_string(), 1)]);

    let mut changed = alias_to_dto(&alias);
    changed.description = "status".to_string();
    assert_eq!(update_alias(&mut service, changed).unwrap().description, "status");
    let mut missing = alias_to_dto(&alias);
    missing.id = "11111111-2222-3333-4444-555555555555".to_string();
    missing.name = "other".to_string();
    assert_eq!(update_alias(&mut service, missing).unwrap_err(), "configuration error: alias not found");
}
