use aliasmgr::cli::{Cli, CliErrorKind, Command, OutputFormat, ShellCommand};

#[test]
fn parses_add_with_structured_arguments() {
    let cli = Cli::try_parse_from(&["aliasmgr", "add", "cm", "--exec", "python3", "--arg", "copymv.py", "--shell", "bash"]).unwrap();
    match cli.command {
        Command::Add(args) => {
            assert_eq!(args.name, "cm");
            assert_eq!(args.args, vec!["copymv.py"]);
            assert_eq!(args.shell, vec!["bash"]);
        }
        _ => panic!("expected add"),
    }
}

#[test]
fn parses_lifecycle_and_diagnostic_commands() {
    for argv in [
        vec!["aliasmgr", "remove", "cm", "--yes"], vec!["aliasmgr", "find", "query", "--fuzzy", "--limit", "10"],
        vec!["aliasmgr", "list", "--sort", "updated_at", "--desc"], vec!["aliasmgr", "sync", "--dry-run"],
        vec!["aliasmgr", "reload", "--print"], vec!["aliasmgr", "doctor"], vec!["aliasmgr", "import", "file.json"],
        vec!["aliasmgr", "export", "file.json"], vec!["aliasmgr", "uninstall", "--purge-aliases"],
    ] {
        Cli::try_parse_from(&argv).unwrap();
    }
    let cli = Cli::try_parse_from(&["aliasmgr", "shell", "detect"]).unwrap();
    assert!(matches!(cli.command, Command::Shell { command: ShellCommand::Detect }));
}

#[test]
fn global_options_parse() {
    let cli = Cli::try_parse_from(&["aliasmgr", "--config-dir", "/tmp/test", "--format", "json", "--quiet", "list"]).unwrap();
    assert_eq!(cli.config_dir.as_deref(), Some("/tmp/test"));
    assert!(cli.quiet);
}

#[test]
fn parses_complete_search_and_list_query_options() {
    let cli = Cli::try_parse_from(&[
        "aliasmgr", "find", "build", "--fuzzy", "--field", "description",
        "--tag", "work", "--tag", "python", "--limit", "7",
    ]).unwrap();
    match cli.command {
        Command::Find { query, fuzzy, field, limit, tags } => {
            assert_eq!(query, "build");
            assert!(fuzzy);
            assert_eq!(field.as_deref(), Some("description"));
            assert_eq!(limit, Some(7));
            assert_eq!(tags, vec!["work", "python"]);
        }
        _ => panic!("expected find"),
    }

    let cli = Cli::try_parse_from(&[
        "aliasmgr", "--format", "json", "list", "--sort", "updated_at",
        "--desc", "--tag", "work", "--tag", "python", "--limit", "0",
    ]).unwrap();
    match cli.command {
        Command::List { sort, desc, limit, tags } => {
            assert_eq!(sort.as_deref(), Some("updated_at"));
            assert!(desc);
            assert_eq!(limit, Some(0));
            assert_eq!(tags, vec!["work", "python"]);
        }
        _ => panic!("expected list"),
    }
}

fn error_of(argv: &[&str]) -> (CliErrorKind, String) {
    match Cli::try_parse_from(argv) {
        Ok(_) => panic!("expected an error"),
        Err(e) => (e.kind, e.argument),
    }
}

#[test]
fn add_reads_inline_values_and_every_repeated_option() {
    let cli = Cli::try_parse_from(&[
        "aliasmgr", "add", "--exec=git", "g", "--arg", "status", "--arg=-s", "--env", "A=1", "--tag", "vcs",
        "--cwd", "/repo", "--no-pass-args",
    ]).unwrap();
    match cli.command {
        Command::Add(args) => {
            assert_eq!(args.name, "g");
            assert_eq!(args.executable, "git");
            assert_eq!(args.args, vec!["status", "-s"]);
            assert_eq!(args.environment, vec!["A=1"]);
            assert_eq!(args.tags, vec!["vcs"]);
            assert_eq!(args.cwd.as_deref(), Some("/repo"));
            assert!(args.no_pass_args);
        }
        _ => panic!("expected add"),
    }
    assert_eq!(cli.format, OutputFormat::Table);
}

#[test]
fn positional_after_double_dash_is_taken_literally() {
    let cli = Cli::try_parse_from(&["aliasmgr", "get", "--", "--odd"]).unwrap();
    match cli.command {
        Command::Get { name } => assert_eq!(name, "--odd"),
        _ => panic!("expected get"),
    }
}

#[test]
fn refused_command_lines_name_the_error() {
    assert_eq!(error_of(&["aliasmgr"]).0, CliErrorKind::DisplayHelp);
    assert_eq!(error_of(&["aliasmgr", "--quiet"]).0, CliErrorKind::MissingSubcommand);
    assert_eq!(error_of(&["aliasmgr", "--version"]).0, CliErrorKind::DisplayVersion);
    assert_eq!(error_of(&["aliasmgr", "list", "-h"]).0, CliErrorKind::DisplayHelp);
    assert_eq!(error_of(&["aliasmgr", "bogus"]), (CliErrorKind::InvalidSubcommand, "bogus".to_string()));
    assert_eq!(error_of(&["aliasmgr", "add", "cm"]), (CliErrorKind::MissingArgument, "exec".to_string()));
    assert_eq!(error_of(&["aliasmgr", "rename", "a"]), (CliErrorKind::MissingArgument, "new".to_string()));
    assert_eq!(error_of(&["aliasmgr", "list", "--limit", "many"]), (CliErrorKind::InvalidValue, "many".to_string()));
    assert_eq!(error_of(&["aliasmgr", "--format", "xml", "list"]), (CliErrorKind::InvalidValue, "xml".to_string()));
    assert_eq!(error_of(&["aliasmgr", "list", "--bogus"]), (CliErrorKind::UnknownArgument, "--bogus".to_string()));
    assert_eq!(error_of(&["aliasmgr", "get", "a", "b"]), (CliErrorKind::UnexpectedArgument, "b".to_string()));
    assert_eq!(error_of(&["aliasmgr", "find", "q", "--field"]), (CliErrorKind::MissingValue, "field".to_string()));
    assert_eq!(error_of(&["aliasmgr", "remove", "a", "--yes", "--yes"]), (CliErrorKind::ArgumentUsedTwice, "yes".to_string()));
    assert_eq!(error_of(&["aliasmgr", "sync", "--dry-run=1"]), (CliErrorKind::UnexpectedValue, "dry-run".to_string()));
    assert_eq!(error_of(&["aliasmgr", "--verbose", "--quiet", "doctor"]), (CliErrorKind::ArgumentConflict, "quiet".to_string()));
    assert_eq!(error_of(&["aliasmgr", "shell"]).0, CliErrorKind::DisplayHelp);
    assert_eq!(error_of(&["aliasmgr", "shell", "install"]), (CliErrorKind::MissingArgument, "shell".to_string()));
}

#[test]
fn shell_subcommands_take_their_shell() {
    let cli = Cli::try_parse_from(&["aliasmgr", "shell", "install", "zsh"]).unwrap();
    match cli.command {
        Command::Shell { command: ShellCommand::Install { shell } } => assert_eq!(shell, "zsh"),
        _ => panic!("expected shell install"),
    }
}
