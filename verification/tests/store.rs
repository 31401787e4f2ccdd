use aliasmgr::error::AliasError;
use aliasmgr::model::{record_checksum, AliasRecord, ShellKind, ShellState, ShellStatus, PathMode, TargetType};
use aliasmgr::search::{score, search, SearchField, SearchQuery, EXACT_WEIGHT, FUZZY_WEIGHT, PREFIX_WEIGHT, SUBSTRING_WEIGHT};
use aliasmgr::service::AliasService;
use aliasmgr::storage::Database;
use aliasmgr::transfer::{accept_export_file, export_file, import_records, ConflictStrategy};

fn checked(mut alias: AliasRecord) -> AliasRecord {
    alias.record_checksum = record_checksum(&alias);
    alias
}

fn database_alias(name: &str) -> AliasRecord {
    checked(AliasRecord { name: name.into(), executable: "tool".into(), ..Default::default() })
}

fn alias(name: &str, executable: &str) -> AliasRecord {
    AliasRecord { name: name.into(), executable: executable.into(), ..Default::default() }
}

#[test]
fn crud_and_ordering_work_in_memory() {
    let mut database = Database::open_in_memory().unwrap();
    let mut first = database_alias("zeta");
    let second = database_alias("alpha");
    database.insert_alias(&first).unwrap();
    database.insert_alias(&second).unwrap();
    assert_eq!(database.get_alias(first.id).unwrap().unwrap(), first);
    assert_eq!(database.get_alias_by_name("alpha").unwrap().unwrap(), second);
    assert_eq!(
        database.list_aliases().unwrap().iter().map(|alias| alias.name.as_str()).collect::<Vec<_>>(),
        vec!["alpha", "zeta"]
    );
    first.description = "updated".into();
    first.record_checksum = record_checksum(&first);
    assert!(database.update_alias(&first).unwrap());
    assert_eq!(database.get_alias(first.id).unwrap().unwrap().description, "updated");
    assert!(database.delete_alias(second.id).unwrap());
    assert!(database.get_alias(second.id).unwrap().is_none());
}

#[test]
fn duplicate_names_have_a_distinct_exact_name_error() {
    let mut database = Database::open_in_memory().unwrap();
    let first = database_alias("same");
    let second = first.copy();
    database.insert_alias(&first).unwrap();
    assert!(matches!(
        database.insert_alias(&second),
        Err(AliasError::ExactNameConflict(name)) if name == "same"
    ));
}

#[test]
fn powershell_case_conflicts_are_rejected_on_insert_and_update() {
    let mut database = Database::open_in_memory().unwrap();
    let first = AliasRecord { name: "Build".into(), executable: "tool".into(), shells: vec![ShellKind::PowerShell7], ..Default::default() };
    database.insert_alias(&first).unwrap();
    let second = AliasRecord { name: "build".into(), executable: "tool".into(), shells: vec![ShellKind::PowerShell5], ..Default::default() };
    assert!(matches!(
        database.insert_alias(&second),
        Err(AliasError::CaseFoldConflict(name)) if name == "build"
    ));
    let mut bash_alias = AliasRecord { name: "other".into(), executable: "tool".into(), ..Default::default() };
    database.insert_alias(&bash_alias).unwrap();
    bash_alias.name = "Build".into();
    bash_alias.shells = vec![ShellKind::PowerShell5];
    bash_alias.record_checksum = record_checksum(&bash_alias);
    assert!(matches!(
        database.update_alias(&bash_alias),
        Err(AliasError::CaseFoldConflict(name)) if name == "Build"
    ));
}

#[test]
fn pure_bash_case_variants_can_coexist() {
    let mut database = Database::open_in_memory().unwrap();
    database.insert_alias(&AliasRecord { name: "CM".into(), executable: "tool".into(), ..Default::default() }).unwrap();
    database.insert_alias(&AliasRecord { name: "cm".into(), executable: "tool".into(), ..Default::default() }).unwrap();
    assert_eq!(database.list_aliases().unwrap().len(), 2);
}

#[test]
fn supplied_wrong_checksums_are_rejected_on_insert_and_update() {
    let mut database = Database::open_in_memory().unwrap();
    let mut new_alias = AliasRecord { name: "bad-checksum".into(), executable: "tool".into(), ..Default::default() };
    new_alias.record_checksum = "not-the-record-checksum".into();
    assert!(matches!(database.insert_alias(&new_alias), Err(AliasError::ChecksumMismatch)));
    let mut existing = database_alias("update-checksum");
    database.insert_alias(&existing).unwrap();
    existing.description = "changed".into();
    assert!(matches!(database.update_alias(&existing), Err(AliasError::ChecksumMismatch)));
}

#[test]
fn legacy_empty_checksum_is_rejected_when_read() {
    let mut database = Database::open_in_memory().unwrap();
    let legacy = AliasRecord { name: "legacy".into(), executable: "tool".into(), ..Default::default() };
    database.restore_alias(legacy).unwrap();
    assert!(matches!(database.get_alias_by_name("legacy"), Err(AliasError::ChecksumMismatch)));
    assert!(matches!(database.list_aliases(), Err(AliasError::ChecksumMismatch)));
}

#[test]
fn checksum_is_stored_and_tampering_is_detected() {
    let mut database = Database::open_in_memory().unwrap();
    let alias = AliasRecord { name: "checked".into(), executable: "tool".into(), ..Default::default() };
    database.insert_alias(&alias).unwrap();
    let stored = database.get_alias_by_name("checked").unwrap().unwrap();
    assert_eq!(stored.record_checksum, record_checksum(&stored));
    let mut tampered = stored.copy();
    tampered.description = "tampered".into();
    let mut other = Database::open_in_memory().unwrap();
    other.restore_alias(tampered).unwrap();
    assert!(matches!(other.get_alias(alias.id), Err(AliasError::ChecksumMismatch)));
}

#[test]
fn duplicate_ids_and_missing_rows() {
    let mut database = Database::open_in_memory().unwrap();
    let first = database_alias("one");
    database.insert_alias(&first).unwrap();
    let mut same_id = database_alias("two");
    same_id.id = first.id;
    same_id.record_checksum = record_checksum(&same_id);
    assert!(matches!(database.insert_alias(&same_id), Err(AliasError::AliasConflict(_))));
    let missing = database_alias("missing");
    assert!(!database.update_alias(&missing).unwrap());
    assert!(!database.delete_alias(missing.id).unwrap());
    assert_eq!(database.schema_version().unwrap(), 1);
}

#[test]
fn auxiliary_shell_state_and_retired_names_are_stored() {
    let mut database = Database::open_in_memory().unwrap();
    let state = ShellState { shell: ShellKind::Bash, applied_revision: 1, file_checksum: "abc".into(), loader_installed: true, status: ShellStatus::UpToDate, last_error: None };
    database.upsert_shell_state(&state).unwrap();
    database.retire_name("old", &ShellKind::Bash, 1).unwrap();
    assert_eq!(database.managed_name_set(&ShellKind::Bash).unwrap().retired, vec!["old"]);
    database.record_override("old", &ShellKind::Bash, Some("fn"), true).unwrap();
    assert_eq!(database.prune_retired_names(2).unwrap(), 1);
}

#[test]
fn shell_states_are_replaced_per_shell_and_names_are_managed() {
    let mut database = Database::open_in_memory().unwrap();
    let state = ShellState { shell: ShellKind::Zsh, applied_revision: 1, file_checksum: "a".into(), loader_installed: true, status: ShellStatus::UpToDate, last_error: None };
    database.upsert_shell_state(&state).unwrap();
    let newer = ShellState { shell: ShellKind::Zsh, applied_revision: 2, file_checksum: "b".into(), loader_installed: true, status: ShellStatus::Stale, last_error: None };
    database.upsert_shell_state(&newer).unwrap();
    let states = database.shell_states();
    assert_eq!(states.len(), 1);
    assert_eq!(states[0].applied_revision, 2);
    database.insert_alias(&AliasRecord { name: "b".into(), executable: "tool".into(), shells: vec![ShellKind::Zsh], ..Default::default() }).unwrap();
    database.insert_alias(&AliasRecord { name: "a".into(), executable: "tool".into(), shells: vec![ShellKind::Zsh], enabled: false, ..Default::default() }).unwrap();
    database.retire_name("late", &ShellKind::Zsh, 5).unwrap();
    database.retire_name("early", &ShellKind::Zsh, 3).unwrap();
    let names = database.managed_name_set(&ShellKind::Zsh).unwrap();
    assert_eq!(names.current, vec!["b"]);
    assert_eq!(names.retired, vec!["early", "late"]);
}

#[test]
fn scores_exact_prefix_substring_and_fuzzy_name_matches() {
    assert_eq!(score(&alias("cm", "tool"), "cm"), EXACT_WEIGHT);
    assert_eq!(score(&alias("cm-build", "tool"), "cm"), PREFIX_WEIGHT);
    assert_eq!(score(&alias("build-cm", "tool"), "cm"), SUBSTRING_WEIGHT);
    let query = SearchQuery { query: "cb".into(), fuzzy: true, ..Default::default() };
    assert_eq!(search(&[alias("copy-build", "tool")], &query)[0].score, FUZZY_WEIGHT);
}

#[test]
fn searches_target_and_applies_stable_limit() {
    let query = SearchQuery { query: "python".into(), field: SearchField::Target, limit: 1, ..Default::default() };
    let results = search(&[alias("zeta", "python3"), alias("alpha", "python3")], &query);
    assert_eq!(results.len(), 1);
    assert_eq!(results[0].alias.name, "alpha");
}

#[test]
fn tag_filter_requires_all_requested_tags() {
    let mut both = alias("both", "tool");
    both.tags = vec!["git".into(), "work".into()];
    let mut one = alias("one", "tool");
    one.tags = vec!["git".into()];
    let query = SearchQuery { tag_filter: vec!["git".into(), "work".into()], ..Default::default() };
    let results = search(&[both, one], &query);
    assert_eq!(results.iter().map(|result| result.alias.name.as_str()).collect::<Vec<_>>(), vec!["both"]);
}

#[test]
fn ranking_puts_higher_scores_first_and_ignores_case_of_tags() {
    let mut tagged = alias("zz-cm", "tool");
    tagged.tags = vec!["Work".into()];
    let query = SearchQuery { query: "CM".into(), tag_filter: vec!["work".into()], limit: 0, ..Default::default() };
    let results = search(&[alias("xcm", "tool"), tagged, alias("cm", "tool")], &query);
    assert_eq!(results.len(), 1);
    assert_eq!(results[0].alias.name, "zz-cm");
    let query = SearchQuery { query: "cm".into(), limit: 0, ..Default::default() };
    let results = search(&[alias("xcm", "tool"), alias("cm-a", "tool"), alias("cm", "tool")], &query);
    assert_eq!(results.iter().map(|r| r.score).collect::<Vec<_>>(), vec![1000, 800, 600]);
}

#[test]
fn service_lists_searches_and_counts_tags() {
    let mut database = Database::open_in_memory().unwrap();
    let mut first = AliasRecord { name: "gs".into(), executable: "git".into(), ..Default::default() };
    first.tags = vec!["git".into(), "work".into()];
    first.record_checksum = record_checksum(&first);
    database.insert_alias(&first).unwrap();
    let service = AliasService::new(database);
    assert_eq!(service.list().unwrap()[0].name, "gs");
    let query = SearchQuery { query: "gs".into(), tag_filter: vec!["git".into(), "work".into()], ..Default::default() };
    assert_eq!(service.search(&query).unwrap()[0].alias.name, "gs");
    let counts = service.tag_counts().unwrap();
    assert_eq!(counts.iter().find(|(tag, _)| tag == "git").map(|(_, n)| *n), Some(1));
}

#[test]
fn service_create_rejects_invalid_records() {
    let database = Database::open_in_memory().unwrap();
    let mut service = AliasService::new(database);
    let invalid = AliasRecord { name: "bad name".into(), executable: "tool".into(), ..Default::default() };
    assert!(matches!(service.create(invalid), Err(AliasError::InvalidAliasName)));
}

#[test]
fn service_update_recalculates_checksum() {
    let mut database = Database::open_in_memory().unwrap();
    let mut alias = AliasRecord { name: "one".into(), executable: "tool".into(), ..Default::default() };
    alias.record_checksum = record_checksum(&alias);
    database.insert_alias(&alias).unwrap();
    let mut service = AliasService::new(database);
    alias.description = "updated".into();
    let saved = service.update(alias).unwrap();
    assert_eq!(saved.record_checksum, record_checksum(&saved));
}

#[test]
fn service_counts_tags_in_order_and_reports_missing_updates() {
    let mut service = AliasService::new(Database::open_in_memory().unwrap());
    let mut a = alias("a", "tool");
    a.tags = vec!["work".into(), "git".into()];
    let mut b = alias("b", "tool");
    b.tags = vec!["git".into()];
    service.create(a).unwrap();
    service.create(b).unwrap();
    assert_eq!(service.tag_counts().unwrap(), vec![("git".to_string(), 2), ("work".to_string(), 1)]);
    assert!(matches!(service.update(alias("ghost", "tool")), Err(AliasError::Config(m)) if m == "alias not found"));
}

#[test]
fn import_filters_sensitive_values_and_handles_conflicts() {
    let mut gs = alias("gs", "git");
    gs.environment.insert("TOKEN".into(), "secret".into());
    gs.environment.insert("MODE".into(), "test".into());
    gs.environment.insert("my_api_key".into(), "k".into());
    let report = import_records(vec![gs], &[], ConflictStrategy::Ask).unwrap();
    assert_eq!(report.imported, vec!["gs"]);
    assert_eq!(report.warnings, vec!["sensitive environment variable omitted: TOKEN", "sensitive environment variable omitted: my_api_key"]);
    assert_eq!(report.accepted_records[0].environment.len(), 1);
    let existing = vec!["gs".to_string()];
    assert_eq!(import_records(vec![alias("gs", "git")], &existing, ConflictStrategy::Skip).unwrap().skipped, vec!["gs"]);
    assert_eq!(import_records(vec![alias("gs", "git")], &existing, ConflictStrategy::Rename).unwrap().imported, vec!["gs_imported"]);
    assert_eq!(import_records(vec![alias("gs", "git")], &existing, ConflictStrategy::Overwrite).unwrap().imported, vec!["gs"]);
    let mut raw = alias("raw", "x");
    raw.target_type = TargetType::RawShellCommand;
    let mut rel = alias("rel", "x");
    rel.path_mode = PathMode::RelativeToWorkingDirectory;
    let report = import_records(vec![raw, rel], &[], ConflictStrategy::Ask).unwrap();
    assert_eq!(report.unsupported, vec!["raw"]);
    assert_eq!(report.skipped, vec!["rel"]);
    assert_eq!(report.warnings, vec!["relative path requires a selected base directory: rel"]);
    assert!(report.into_public().accepted_records.is_empty());
}

#[test]
fn rejects_unknown_format_version() {
    let mut file = export_file(vec![alias("gs", "git")], "2024-01-01T00:00:00+00:00".into());
    assert_eq!(file.exported_by_version, "0.1.0");
    file.format_version = 2;
    assert!(matches!(accept_export_file(file), Err(AliasError::Config(m)) if m == "unsupported format_version: 2"));
    let file = export_file(vec![alias("gs", "git")], "now".into());
    assert_eq!(accept_export_file(file).unwrap().len(), 1);
}

#[test]
fn renaming_onto_a_taken_name_is_an_exact_conflict() {
    let mut database = Database::open_in_memory().unwrap();
    database.insert_alias(&database_alias("one")).unwrap();
    let mut two = database_alias("two");
    database.insert_alias(&two).unwrap();
    two.name = "one".into();
    two.record_checksum = record_checksum(&two);
    assert!(matches!(database.update_alias(&two), Err(AliasError::ExactNameConflict(name)) if name == "one"));
    two.name = "three".into();
    two.record_checksum = record_checksum(&two);
    assert!(database.update_alias(&two).unwrap());
    assert_eq!(database.list_aliases().unwrap().iter().map(|a| a.name.as_str()).collect::<Vec<_>>(), vec!["one", "three"]);
}

#[test]
fn failed_transaction_rolls_back() {
    let mut database = Database::open_in_memory().unwrap();
    let result: Result<(), AliasError> = database.transaction(|mut db: Database| {
        db.insert_alias(&database_alias("rollback")).unwrap();
        (db, Err(AliasError::InvalidAliasName))
    });
    assert!(result.is_err());
    assert!(database.get_alias_by_name("rollback").unwrap().is_none());
    let kept: Result<usize, AliasError> = database.transaction(|mut db: Database| {
        db.insert_alias(&database_alias("kept")).unwrap();
        (db, Ok(1))
    });
    assert_eq!(kept.unwrap(), 1);
    assert!(database.get_alias_by_name("kept").unwrap().is_some());
}

#[test]
fn named_commands_remove_enable_update_and_rename() {
    let mut database = Database::open_in_memory().unwrap();
    let mut zb = database_alias("gs");
    zb.shells = vec![ShellKind::Zsh, ShellKind::Bash];
    zb.record_checksum = record_checksum(&zb);
    database.insert_alias(&zb).unwrap();
    database.insert_alias(&database_alias("ll")).unwrap();

    assert_eq!(database.set_enabled("gs", false).unwrap(), true);
    assert!(!database.get_alias_by_name("gs").unwrap().unwrap().enabled);
    assert!(matches!(database.set_enabled("nope", true), Err(AliasError::Config(m)) if m == "alias not found: nope"));

    assert_eq!(database.update_target("gs", "git", vec!["status".to_string()]).unwrap(), true);
    let updated = database.get_alias_by_name("gs").unwrap().unwrap();
    assert_eq!((updated.executable.as_str(), updated.fixed_args.clone()), ("git", vec!["status".to_string()]));
    assert!(database.update_target("gs", "  ", vec![]).is_err());

    assert_eq!(database.rename_alias("ll", "la").unwrap(), true);
    assert!(database.get_alias_by_name("ll").unwrap().is_none());
    assert!(database.get_alias_by_name("la").unwrap().is_some());
    assert!(database.retired_names().iter().any(|r| r.name == "ll" && r.shell == ShellKind::Bash));
    // A refused rename still retires the old name.
    assert!(database.rename_alias("la", "bad name!").is_err());
    assert!(database.retired_names().iter().any(|r| r.name == "la"));
    assert!(database.get_alias_by_name("la").unwrap().is_some());

    assert_eq!(database.remove_by_name("gs").unwrap(), true);
    assert!(database.get_alias_by_name("gs").unwrap().is_none());
    let retired = database.retired_names();
    assert!(retired.iter().any(|r| r.name == "gs" && r.shell == ShellKind::Zsh));
    assert!(retired.iter().any(|r| r.name == "gs" && r.shell == ShellKind::Bash));
    assert_eq!(database.remove_by_name("gs").unwrap(), false);
}
