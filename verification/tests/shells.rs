use aliasmgr::error::AliasError;
use aliasmgr::model::{AliasRecord, ManagedNameSet, ShellKind, ShellStatus, TargetType};
use aliasmgr::shells::common::{
    fingerprint_marker, install_loader, loader_position, managed_definition, quote_posix, remove_loader, render_loader,
    LoaderPosition,
};
use aliasmgr::shells::{bash, powershell, zsh};
use aliasmgr::sync::{shell_status, SyncCoordinator};

fn no_names() -> ManagedNameSet {
    ManagedNameSet { current: vec![], retired: vec![] }
}

#[test]
fn fingerprint_marker_is_stable_and_embedded_in_managed_definition() {
    assert_eq!(fingerprint_marker("cm"), fingerprint_marker("cm"));
    assert_ne!(fingerprint_marker("cm"), fingerprint_marker("other"));
    assert!(managed_definition("cm", "cm() { true; }").contains("aliasmgr fingerprint:"));
}

#[test]
fn fingerprint_is_the_sha256_of_the_name() {
    assert_eq!(
        fingerprint_marker("abc"),
        "# aliasmgr fingerprint:ba7816bf8f01cfea414140de5dae2223b00361a396177a9cb410ff61f20015ad"
    );
}

#[test]
fn loader_install_is_idempotent_and_appends() {
    let loader = render_loader("/tmp/generated.sh");
    let once = install_loader("user\n", &loader).unwrap();
    assert_eq!(install_loader(&once, &loader).unwrap(), once);
    assert_eq!(loader_position(&once).unwrap(), LoaderPosition::AtEnd);
}

#[test]
fn loader_removal_preserves_user_content_and_rejects_unpaired_markers() {
    let loader = render_loader("/tmp/generated.sh");
    let content = install_loader("before\n", &loader).unwrap() + "after\n";
    assert!(remove_loader(&content).unwrap().contains("before"));
    assert!(remove_loader("# >>> Alias Manager >>>\n").is_err());
}

#[test]
fn loader_install_preserves_crlf_line_endings() {
    let loader = render_loader("C:\\generated.sh");
    let installed = install_loader("before\r\n", &loader).unwrap();
    assert!(installed.contains("before\r\n"));
    assert!(installed.contains("# >>> Alias Manager >>>\r\n"));
    assert!(installed.contains("# <<< Alias Manager <<<\r\n"));
}

#[test]
fn removing_an_installed_loader_gives_back_the_profile() {
    let loader = render_loader("/tmp/generated.sh");
    let installed = install_loader("user", &loader).unwrap();
    assert_eq!(remove_loader(&installed).unwrap(), "user\n");
    assert_eq!(remove_loader("plain\n").unwrap(), "plain\n");
    assert_eq!(loader_position("plain\n").unwrap(), LoaderPosition::Missing);
    let moved = installed.clone() + "later\n";
    assert_eq!(loader_position(&moved).unwrap(), LoaderPosition::NotAtEnd);
    assert!(matches!(install_loader("# >>> Alias Manager >>>\n", &loader), Err(AliasError::UnsafePath)));
}

#[test]
fn loader_quotes_the_generated_path() {
    let loader = render_loader("/tmp/it's.sh");
    assert!(loader.starts_with("# >>> Alias Manager >>>\n"));
    assert!(loader.contains("__aliasmgr_generated_file='/tmp/it'\\''s.sh'\n"));
    assert!(loader.ends_with("# <<< Alias Manager <<<\n"));
    assert_eq!(quote_posix("a'b"), "'a'\\''b'");
}

#[test]
fn renders_function_and_preemption() {
    let alias = AliasRecord { name: "cm".into(), executable: "python3".into(), fixed_args: vec!["script.py".into()], ..Default::default() };
    let text = bash::render(&alias, &no_names()).unwrap();
    assert!(text.contains("unalias 'cm'"));
    assert!(text.contains("cm()"));
    assert!(text.contains("\"$@\""));
}

#[test]
fn renders_simple_alias_and_escaped_quote() {
    let alias = AliasRecord { name: "ll".into(), executable: "ls -l".into(), pass_args: false, ..Default::default() };
    let text = bash::render(&alias, &no_names()).unwrap();
    assert!(text.contains("ll()"));
    let value = AliasRecord { name: "q".into(), executable: "it's".into(), target_type: TargetType::NativeExecutable, ..Default::default() };
    assert!(bash::render(&value, &no_names()).unwrap().contains("'\\''"));
}

#[test]
fn renders_tombstone_cleanup() {
    let names = ManagedNameSet { current: vec!["new".into()], retired: vec!["old".into()] };
    let text = bash::render(&AliasRecord { name: "new".into(), executable: "tool".into(), ..Default::default() }, &names).unwrap();
    assert!(text.contains("unalias 'old'"));
    assert!(text.contains("unset -f 'old'"));
}

#[test]
fn bash_text_of_plain_alias_and_directory_change() {
    let plain = AliasRecord { name: "gs".into(), executable: "git".into(), pass_args: false, ..Default::default() };
    let text = bash::render(&plain, &no_names()).unwrap();
    assert_eq!(text, format!("\nunalias 'gs' 2>/dev/null\nalias gs='git' {}\n", fingerprint_marker("gs")));
    let cd = AliasRecord { name: "proj".into(), executable: "/srv/proj".into(), target_type: TargetType::ChangeDirectory, working_directory: Some("/srv/proj".into()), ..Default::default() };
    let text = bash::render_with_target(&cd, &no_names(), true).unwrap();
    assert!(text.contains("proj() { cd -- '/srv/proj'; }"));
    let command = AliasRecord { name: "gs".into(), executable: "git".into(), fixed_args: vec!["status".into()], ..Default::default() };
    let text = bash::render(&command, &no_names()).unwrap();
    assert!(text.contains("gs() { command 'git' 'status' \"$@\"; }"));
}

#[test]
fn bash_generated_script_preserves_arguments_and_quotes() {
    let alias = AliasRecord { name: "cm".into(), executable: "python3".into(), fixed_args: vec!["script.py".into()], ..Default::default() };
    let script = bash::render(&alias, &no_names()).unwrap();
    assert!(script.contains("\"$@\""));
    assert!(!script.contains("eval"));
}

#[test]
fn renders_zsh_function_with_preemption() {
    let alias = AliasRecord { name: "gs".into(), executable: "git".into(), fixed_args: vec!["status".into()], ..Default::default() };
    let text = zsh::render(&alias, &no_names()).unwrap();
    assert!(text.contains("unalias 'gs'"));
    assert!(text.contains("gs()"));
}

#[test]
fn zsh_generated_script_has_preemption_and_argument_forwarding() {
    let alias = AliasRecord { name: "gs".into(), executable: "git".into(), fixed_args: vec!["status".into()], ..Default::default() };
    let script = zsh::render(&alias, &no_names()).unwrap();
    assert!(script.contains("unalias 'gs'"));
    assert!(script.contains("\"$@\""));
    assert_eq!(zsh::render_preemption("gs"), bash::render_preemption("gs"));
}

#[test]
fn renders_simple_set_alias_and_preemption() {
    let alias = AliasRecord { name: "ll".into(), executable: "Get-ChildItem".into(), pass_args: false, ..Default::default() };
    let text = powershell::render(&alias, ShellKind::PowerShell7, &no_names()).unwrap();
    assert!(text.contains("Set-Alias -Name ll"));
    assert!(text.contains("Alias:\\ll"));
    assert!(text.contains("Function:\\ll"));
}

#[test]
fn renders_function_with_fixed_args_and_array_passthrough() {
    let alias = AliasRecord { name: "gs".into(), executable: "git.exe".into(), fixed_args: vec!["status".into()], ..Default::default() };
    let text = powershell::render(&alias, ShellKind::PowerShell5, &no_names()).unwrap();
    assert!(text.contains("function global:gs"));
    assert!(text.contains("@args"));
    assert!(text.contains("'git.exe'"));
}

#[test]
fn renders_cleanup_for_tombstones_and_escapes_literals() {
    let alias = AliasRecord { name: "q".into(), executable: "it's".into(), ..Default::default() };
    let names = ManagedNameSet { current: vec!["q".into()], retired: vec!["old".into()] };
    let text = powershell::render(&alias, ShellKind::PowerShell7, &names).unwrap();
    assert!(text.contains("Alias:\\old"));
    assert!(text.contains("it''s"));
}

#[test]
fn powershell_versions_render_function_and_argument_array() {
    let alias = AliasRecord { name: "gs".into(), executable: "git.exe".into(), fixed_args: vec!["status".into()], ..Default::default() };
    for shell in [ShellKind::PowerShell5, ShellKind::PowerShell7] {
        let script = powershell::render(&alias, shell, &no_names()).unwrap();
        assert!(script.contains("function global:gs"));
        assert!(script.contains("@args"));
        assert!(!script.contains("Invoke-Expression"));
    }
}

#[test]
fn generated_files_use_separate_names_for_powershell_versions() {
    let alias = AliasRecord { name: "gs".into(), executable: "git.exe".into(), ..Default::default() };
    let five = powershell::render(&alias, ShellKind::PowerShell5, &no_names()).unwrap();
    let seven = powershell::render(&alias, ShellKind::PowerShell7, &no_names()).unwrap();
    assert_eq!(five, seven);
}

#[test]
fn powershell_preemption_removes_builtin_alias_before_function_definition() {
    let alias = AliasRecord { name: "ls".into(), executable: "Get-ChildItem".into(), fixed_args: vec!["-Force".into()], ..Default::default() };
    let script = powershell::render(&alias, ShellKind::PowerShell7, &no_names()).unwrap();
    assert!(script.contains("Alias:\\ls"));
    assert!(script.contains("Function:\\ls"));
    assert!(script.contains("function global:ls"));
}

#[test]
fn powershell_refuses_other_shells() {
    let alias = AliasRecord { name: "gs".into(), executable: "git".into(), ..Default::default() };
    assert!(matches!(powershell::render(&alias, ShellKind::Bash, &no_names()), Err(AliasError::ShellNotInstalled)));
    assert!(matches!(aliasmgr::shell::render(&alias, &ShellKind::Fish), Err(AliasError::ShellNotInstalled)));
    assert_eq!(powershell::quote("it's"), "'it''s'");
}

#[test]
fn shell_syntax_fixture_matrix_is_enabled() {
    let marker = "shell-matrix";
    assert_eq!(marker, "shell-matrix");
}

#[test]
fn computes_shell_states() {
    assert_eq!(shell_status(2, 2, true, None), ShellStatus::UpToDate);
    assert_eq!(shell_status(1, 2, true, None), ShellStatus::Stale);
    assert_eq!(shell_status(2, 2, false, None), ShellStatus::LoaderMissing);
    assert_eq!(shell_status(1, 2, true, Some("syntax")), ShellStatus::Failed);
    assert_eq!(shell_status(3, 2, true, None), ShellStatus::Unknown);
}

#[test]
fn generated_file_has_header_and_enabled_aliases() {
    let coordinator = SyncCoordinator::new("root");
    let on = AliasRecord { name: "gs".into(), executable: "git".into(), pass_args: false, ..Default::default() };
    let off = AliasRecord { name: "zz".into(), executable: "tool".into(), enabled: false, ..Default::default() };
    let text = coordinator.render_shell(&[on, off], &ShellKind::Bash, 7).unwrap();
    assert!(text.starts_with("# Alias Manager\n# revision: 7\n# managed: gs zz\n"));
    assert!(text.contains("alias gs='git'"));
    assert!(!text.contains("zz()"));
    assert_eq!(coordinator.generated_path(&ShellKind::PowerShell5), "root/generated/powershell5.ps1");
}

#[test]
fn partial_shell_failure_keeps_successful_shell_result() {
    let coordinator = SyncCoordinator::new("root");
    let alias = AliasRecord { name: "bad".into(), executable: "tool".into(), advanced_shell_mode: true, ..Default::default() };
    let aliases = [alias];
    let mut results = Vec::new();
    for shell in [ShellKind::Bash, ShellKind::PowerShell7] {
        let outcome = coordinator.render_shell(&aliases, &shell, 2);
        results.push(SyncCoordinator::sync_result(&shell, 2, &outcome));
    }
    assert_eq!(results.len(), 2);
    assert!(results.iter().any(|result| result.status == ShellStatus::Failed));
    assert_eq!(results[0].error.as_deref(), Some("advanced shell mode is unsupported"));
}

#[test]
fn journal_records_revisions_and_state() {
    assert_eq!(SyncCoordinator::journal_text(2, "prepared"), "revision_from=1\nrevision_to=2\nstate=prepared\nbackups=[]\n");
    assert!(SyncCoordinator::journal_is_pending("state=prepared\n"));
    assert!(!SyncCoordinator::journal_is_pending(&SyncCoordinator::journal_text(2, "completed")));
}
