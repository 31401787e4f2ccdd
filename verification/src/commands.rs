//! The decisions behind the command-line tool's commands: which commands
//! need a confirmation, how `add` builds an alias, how query options become
//! a search, which shells a sync covers, and the reload line.
use vstd::prelude::*;
use crate::cli::{AddArgs, Command};
use crate::error::AliasError;
use crate::model::{AliasRecord, ShellKind, copy_opt, copy_strings, opt_view, strings_view};
use crate::search::{SearchField, SearchQuery, SortField};
use crate::text::str_eq;

verus! {

/// Whether a command changes data in a way that asks for confirmation: a
/// removal without `--yes`, an uninstall that purges aliases.
pub open spec fn requires_confirmation_spec(command: Command) -> bool {
    match command {
        Command::Remove { yes, .. } => !yes,
        Command::Uninstall { purge_aliases } => purge_aliases,
        _ => false,
    }
}

/// Whether a command asks for confirmation.
pub fn requires_confirmation(command: &Command) -> (b: bool)
    ensures
        b == requires_confirmation_spec(*command),
{
    match command {
        Command::Remove { yes, .. } => !*yes,
        Command::Uninstall { purge_aliases } => *purge_aliases,
        _ => false,
    }
}

/// Refuses a command that asks for confirmation when no terminal can give
/// it.
pub fn ensure_interactive(command: &Command, is_tty: bool) -> (r: Result<(), AliasError>)
    ensures
        r is Ok <==> !(requires_confirmation_spec(*command) && !is_tty),
        r matches Err(e) ==> (e matches AliasError::Config(m) && m@ == "NonInteractive"@),
{
    if requires_confirmation(command) && !is_tty {
        return Err(AliasError::Config(String::from_str("NonInteractive")));
    }
    Ok(())
}

/// The shell a `--shell` value names, if any.
pub open spec fn shell_from_option(value: Seq<char>) -> Option<ShellKind> {
    if value == "bash"@ {
        Some(ShellKind::Bash)
    } else if value == "zsh"@ {
        Some(ShellKind::Zsh)
    } else if value == "powershell5"@ {
        Some(ShellKind::PowerShell5)
    } else if value == "powershell7"@ {
        Some(ShellKind::PowerShell7)
    } else {
        None
    }
}

/// The shells that `--shell` values name, in order; unknown values are
/// dropped.
pub open spec fn shells_from_options(values: Seq<Seq<char>>) -> Seq<ShellKind>
    decreases values.len(),
{
    if values.len() == 0 {
        Seq::empty()
    } else {
        match shell_from_option(values.last()) {
            Some(s) => shells_from_options(values.drop_last()).push(s),
            None => shells_from_options(values.drop_last()),
        }
    }
}

/// The shell a `--shell` value names.
fn parse_shell_option(value: &str) -> (r: Option<ShellKind>)
    ensures
        r == shell_from_option(value@),
{
    if str_eq(value, "bash") {
        Some(ShellKind::Bash)
    } else if str_eq(value, "zsh") {
        Some(ShellKind::Zsh)
    } else if str_eq(value, "powershell5") {
        Some(ShellKind::PowerShell5)
    } else if str_eq(value, "powershell7") {
        Some(ShellKind::PowerShell7)
    } else {
        None
    }
}

/// The alias that `add` stores: the name, target, fixed arguments, working
/// directory and tags given; arguments passed unless `--no-pass-args`; the
/// shells named by `--shell` when any value is given, else Bash; defaults
/// elsewhere.
pub fn alias_from_add_args(args: &AddArgs) -> (a: AliasRecord)
    ensures
        a@.name == args.name@,
        a@.executable == args.executable@,
        a@.fixed_args == strings_view(args.args@),
        a@.pass_args == !args.no_pass_args,
        a@.working_directory == opt_view(args.cwd),
        a@.tags == strings_view(args.tags@),
        args.shell@.len() > 0 ==> a@.shells == shells_from_options(strings_view(args.shell@)),
        args.shell@.len() == 0 ==> a@.shells == seq![ShellKind::Bash],
        a@.description.len() == 0,
        a@.target_type == crate::model::TargetType::NativeExecutable,
        a@.environment.len() == 0,
        a@.enabled,
        !a@.advanced_shell_mode,
        a@.path_mode == crate::model::PathMode::Absolute,
        a@.path_origin == crate::model::PathOrigin::CliArgument,
        a@.record_checksum.len() == 0,
        a@.revision == 1,
{
    let mut alias = AliasRecord::default();
    alias.name = args.name.clone();
    alias.executable = args.executable.clone();
    alias.fixed_args = copy_strings(&args.args);
    alias.pass_args = !args.no_pass_args;
    alias.working_directory = copy_opt(&args.cwd);
    alias.tags = copy_strings(&args.tags);
    if args.shell.len() > 0 {
        let ghost values = strings_view(args.shell@);
        let mut shells: Vec<ShellKind> = Vec::new();
        let mut i: usize = 0;
        while i < args.shell.len()
            invariant
                i <= args.shell@.len(),
                values == strings_view(args.shell@),
                shells@ == shells_from_options(values.take(i as int)),
            decreases args.shell.len() - i,
        {
            assert(values.take(i + 1).drop_last() =~= values.take(i as int));
            assert(values.take(i + 1).last() == args.shell@[i as int]@);
            match parse_shell_option(args.shell[i].as_str()) {
                Some(s) => shells.push(s),
                None => {},
            }
            i += 1;
        }
        assert(values.take(values.len() as int) =~= values);
        alias.shells = shells;
    }
    alias
}

/// The search field a `--field` value names; `all` when absent.
pub open spec fn search_field_spec(value: Seq<char>) -> Option<SearchField> {
    if value == "all"@ {
        Some(SearchField::All)
    } else if value == "name"@ {
        Some(SearchField::Name)
    } else if value == "target"@ {
        Some(SearchField::Target)
    } else if value == "description"@ {
        Some(SearchField::Description)
    } else if value == "tags"@ {
        Some(SearchField::Tags)
    } else if value == "shells"@ {
        Some(SearchField::Shells)
    } else if value == "target_type"@ {
        Some(SearchField::TargetType)
    } else {
        None
    }
}

/// The search field a `--field` value names; another value is a
/// configuration error.
pub fn search_field(value: Option<&str>) -> (r: Result<SearchField, AliasError>)
    ensures
        ({
            let v = match value {
                Some(s) => s@,
                None => "all"@,
            };
            &&& search_field_spec(v) matches Some(f) ==> r == Ok::<SearchField, AliasError>(f)
            &&& search_field_spec(v) is None ==> (r matches Err(AliasError::Config(m)) && m@ == "unsupported search field: "@ + v)
        }),
{
    let v = match value {
        Some(s) => s,
        None => "all",
    };
    if str_eq(v, "all") {
        Ok(SearchField::All)
    } else if str_eq(v, "name") {
        Ok(SearchField::Name)
    } else if str_eq(v, "target") {
        Ok(SearchField::Target)
    } else if str_eq(v, "description") {
        Ok(SearchField::Description)
    } else if str_eq(v, "tags") {
        Ok(SearchField::Tags)
    } else if str_eq(v, "shells") {
        Ok(SearchField::Shells)
    } else if str_eq(v, "target_type") {
        Ok(SearchField::TargetType)
    } else {
        let mut m = String::from_str("unsupported search field: ");
        m.append(v);
        Err(AliasError::Config(m))
    }
}

/// The sort field a `--sort` value names; `name` when absent.
pub open spec fn sort_field_spec(value: Seq<char>) -> Option<SortField> {
    if value == "name"@ {
        Some(SortField::Name)
    } else if value == "updated_at"@ {
        Some(SortField::UpdatedAt)
    } else if value == "created_at"@ {
        Some(SortField::CreatedAt)
    } else if value == "target_type"@ {
        Some(SortField::TargetType)
    } else if value == "enabled"@ {
        Some(SortField::Enabled)
    } else {
        None
    }
}

/// The sort field a `--sort` value names; another value is a configuration
/// error.
pub fn sort_field(value: Option<&str>) -> (r: Result<SortField, AliasError>)
    ensures
        ({
            let v = match value {
                Some(s) => s@,
                None => "name"@,
            };
            &&& sort_field_spec(v) matches Some(f) ==> r == Ok::<SortField, AliasError>(f)
            &&& sort_field_spec(v) is None ==> (r matches Err(AliasError::Config(m)) && m@ == "unsupported sort field: "@ + v)
        }),
{
    let v = match value {
        Some(s) => s,
        None => "name",
    };
    if str_eq(v, "name") {
        Ok(SortField::Name)
    } else if str_eq(v, "updated_at") {
        Ok(SortField::UpdatedAt)
    } else if str_eq(v, "created_at") {
        Ok(SortField::CreatedAt)
    } else if str_eq(v, "target_type") {
        Ok(SortField::TargetType)
    } else if str_eq(v, "enabled") {
        Ok(SortField::Enabled)
    } else {
        let mut m = String::from_str("unsupported sort field: ");
        m.append(v);
        Err(AliasError::Config(m))
    }
}

/// The search that `list` runs: no query, every field, the given order
/// and tags, at most `limit` results (50 when not given).
pub fn list_query(sort: Option<&str>, descending: bool, limit: Option<usize>, tags: Vec<String>) -> (r: Result<
    SearchQuery,
    AliasError,
>)
    ensures
        ({
            let v = match sort {
                Some(s) => s@,
                None => "name"@,
            };
            &&& sort_field_spec(v) is None ==> r is Err
            &&& sort_field_spec(v) matches Some(f) ==> (r matches Ok(q) && q.query@.len() == 0 && q.field
                == SearchField::All && !q.fuzzy && q.limit == (match limit {
                Some(l) => l,
                None => 50usize,
            }) && q.sort == f && q.descending == descending && q.tag_filter == tags)
        }),
{
    let sort = sort_field(sort)?;
    Ok(SearchQuery {
        query: String::new(),
        field: SearchField::All,
        fuzzy: false,
        limit: match limit {
            Some(l) => l,
            None => 50,
        },
        sort,
        descending,
        tag_filter: tags,
    })
}

/// The search that `find` runs: the query, fuzzy matching and field given,
/// the given tags, at most `limit` results (50 when not given), by name.
pub fn find_query(query: &str, fuzzy: bool, field: Option<&str>, limit: Option<usize>, tags: Vec<String>) -> (r: Result<
    SearchQuery,
    AliasError,
>)
    ensures
        ({
            let v = match field {
                Some(s) => s@,
                None => "all"@,
            };
            &&& search_field_spec(v) is None ==> r is Err
            &&& search_field_spec(v) matches Some(f) ==> (r matches Ok(q) && q.query@ == query@ && q.fuzzy == fuzzy
                && q.field == f && q.limit == (match limit {
                Some(l) => l,
                None => 50usize,
            }) && q.sort == SortField::Name && !q.descending && q.tag_filter == tags)
        }),
{
    let field = search_field(field)?;
    Ok(SearchQuery {
        query: String::from_str(query),
        fuzzy,
        field,
        limit: match limit {
            Some(l) => l,
            None => 50,
        },
        sort: SortField::Name,
        descending: false,
        tag_filter: tags,
    })
}

/// Every shell kind, in declaration order.
pub open spec fn all_shells() -> Seq<ShellKind> {
    seq![
        ShellKind::Bash,
        ShellKind::Zsh,
        ShellKind::PowerShell5,
        ShellKind::PowerShell7,
        ShellKind::Fish,
        ShellKind::PosixSh,
    ]
}

/// Whether some alias is for a shell.
pub open spec fn some_alias_uses(aliases: Seq<AliasRecord>, shell: ShellKind) -> bool {
    exists|i: int| 0 <= i < aliases.len() && (#[trigger] aliases[i]).shells@.contains(shell)
}

/// The shells a sync covers, sorted and without repeats: every shell of an
/// alias and every shell with retired names.
pub open spec fn covered(aliases: Seq<AliasRecord>, retired: Seq<ShellKind>, shell: ShellKind) -> bool {
    some_alias_uses(aliases, shell) || retired.contains(shell)
}

/// The covered shells among the first `n` shell kinds, in order.
pub open spec fn covered_shells(aliases: Seq<AliasRecord>, retired: Seq<ShellKind>, n: int) -> Seq<ShellKind>
    decreases n,
{
    if n <= 0 || n > 6 {
        Seq::empty()
    } else {
        let rest = covered_shells(aliases, retired, n - 1);
        if covered(aliases, retired, all_shells()[n - 1]) {
            rest.push(all_shells()[n - 1])
        } else {
            rest
        }
    }
}

/// Whether some alias is for a shell.
fn any_alias_uses(aliases: &[AliasRecord], shell: ShellKind) -> (b: bool)
    ensures
        b == some_alias_uses(aliases@, shell),
{
    let mut i: usize = 0;
    while i < aliases.len()
        invariant
            i <= aliases@.len(),
            forall|j: int| 0 <= j < i ==> !(#[trigger] aliases@[j]).shells@.contains(shell),
        decreases aliases.len() - i,
    {
        let shells = &aliases[i].shells;
        let mut k: usize = 0;
        while k < shells.len()
            invariant
                i < aliases@.len(),
                shells@ == aliases@[i as int].shells@,
                k <= shells@.len(),
                forall|m: int| 0 <= m < k ==> shells@[m] != shell,
            decreases shells.len() - k,
        {
            if shells[k] == shell {
                assert(aliases@[i as int].shells@[k as int] == shell);
                return true;
            }
            k += 1;
        }
        i += 1;
    }
    false
}

/// The shells a sync covers, in the order of the shell kinds, each once:
/// every shell of an alias and every shell with retired names.
pub fn shells_to_sync(aliases: &[AliasRecord], with_retired: &[ShellKind]) -> (r: Vec<ShellKind>)
    ensures
        r@ == covered_shells(aliases@, with_retired@, 6),
{
    let order = [
        ShellKind::Bash,
        ShellKind::Zsh,
        ShellKind::PowerShell5,
        ShellKind::PowerShell7,
        ShellKind::Fish,
        ShellKind::PosixSh,
    ];
    let mut r: Vec<ShellKind> = Vec::new();
    let mut i: usize = 0;
    while i < 6
        invariant
            i <= 6,
            order@ == all_shells(),
            r@ == covered_shells(aliases@, with_retired@, i as int),
        decreases 6 - i,
    {
        let s = order[i];
        let mut retired = false;
        let mut k: usize = 0;
        while k < with_retired.len()
            invariant
                k <= with_retired@.len(),
                retired == exists|m: int| 0 <= m < k && with_retired@[m] == s,
            decreases with_retired.len() - k,
        {
            if with_retired[k] == s {
                retired = true;
            }
            k += 1;
        }
        assert(retired == with_retired@.contains(s));
        let used = any_alias_uses(aliases, s);
        if used || retired {
            r.push(s);
        }
        i += 1;
    }
    r
}

/// The line that reloads a shell's generated file under a configuration
/// directory (`.alias-manager` when none is given).
pub open spec fn reload_print_spec(root: Seq<char>, shell: Seq<char>) -> Seq<char> {
    if shell == "zsh"@ {
        "source '"@ + root + "/generated/zsh.sh'"@
    } else if shell == "powershell5"@ {
        ". '"@ + root + "/generated/powershell5.ps1'"@
    } else if shell == "powershell7"@ {
        ". '"@ + root + "/generated/powershell7.ps1'"@
    } else {
        ". '"@ + root + "/generated/bash.sh'"@
    }
}

/// The line that reloads a shell's generated file.
pub fn reload_print(config_dir: Option<&str>, shell: &str) -> (s: String)
    ensures
        s@ == reload_print_spec(
            match config_dir {
                Some(d) => d@,
                None => ".alias-manager"@,
            },
            shell@,
        ),
{
    let root = match config_dir {
        Some(d) => d,
        None => ".alias-manager",
    };
    let (head, tail) = if str_eq(shell, "zsh") {
        ("source '", "/generated/zsh.sh'")
    } else if str_eq(shell, "powershell5") {
        (". '", "/generated/powershell5.ps1'")
    } else if str_eq(shell, "powershell7") {
        (". '", "/generated/powershell7.ps1'")
    } else {
        (". '", "/generated/bash.sh'")
    };
    let mut s = String::from_str(head);
    s.append(root);
    s.append(tail);
    s
}

/// The position of a shell kind among all shell kinds.
pub open spec fn shell_index(shell: ShellKind) -> int {
    match shell {
        ShellKind::Bash => 0,
        ShellKind::Zsh => 1,
        ShellKind::PowerShell5 => 2,
        ShellKind::PowerShell7 => 3,
        ShellKind::Fish => 4,
        ShellKind::PosixSh => 5,
    }
}

/// The covered shells among the first `n` shell kinds hold each covered one
/// of them, and only covered ones.
proof fn lemma_covered_shells_members(aliases: Seq<AliasRecord>, retired: Seq<ShellKind>, n: int)
    requires
        0 <= n <= 6,
    ensures
        forall|s: ShellKind|
            shell_index(s) < n && covered(aliases, retired, s) ==> #[trigger] covered_shells(aliases, retired, n).contains(s),
        forall|k: int|
            0 <= k < covered_shells(aliases, retired, n).len() ==> covered(
                aliases,
                retired,
                #[trigger] covered_shells(aliases, retired, n)[k],
            ),
    decreases n,
{
    if n > 0 {
        lemma_covered_shells_members(aliases, retired, n - 1);
        let rest = covered_shells(aliases, retired, n - 1);
        let cur = covered_shells(aliases, retired, n);
        assert forall|s: ShellKind| shell_index(s) < n && covered(aliases, retired, s) implies #[trigger] cur.contains(s) by {
            assert(all_shells()[shell_index(s)] == s);
            if shell_index(s) < n - 1 {
                assert(rest.contains(s));
                let m = choose|m: int| 0 <= m < rest.len() && rest[m] == s;
                assert(cur[m] == rest[m]);
            } else {
                assert(cur[cur.len() - 1] == s);
            }
        }
        assert forall|k: int| 0 <= k < cur.len() implies covered(aliases, retired, #[trigger] cur[k]) by {
            if k < rest.len() {
                assert(cur[k] == rest[k]);
            }
        }
    }
}

/// A sync covers every shell that some alias lists and every shell with
/// retired names, and nothing else.
pub proof fn law_sync_covers_every_listed_shell(aliases: Seq<AliasRecord>, retired: Seq<ShellKind>)
    ensures
        forall|i: int, j: int|
            0 <= i < aliases.len() && 0 <= j < aliases[i].shells@.len() ==> covered_shells(aliases, retired, 6).contains(
                #[trigger] aliases[i].shells@[j],
            ),
        forall|j: int| 0 <= j < retired.len() ==> covered_shells(aliases, retired, 6).contains(#[trigger] retired[j]),
        forall|k: int|
            0 <= k < covered_shells(aliases, retired, 6).len() ==> (exists|i: int|
                0 <= i < aliases.len() && (#[trigger] aliases[i]).shells@.contains(covered_shells(aliases, retired, 6)[k]))
                || retired.contains(covered_shells(aliases, retired, 6)[k]),
{
    lemma_covered_shells_members(aliases, retired, 6);
    assert forall|i: int, j: int| 0 <= i < aliases.len() && 0 <= j < aliases[i].shells@.len() implies covered_shells(
        aliases,
        retired,
        6,
    ).contains(#[trigger] aliases[i].shells@[j]) by {
        let s = aliases[i].shells@[j];
        assert(aliases[i].shells@.contains(s));
        assert(some_alias_uses(aliases, s));
    }
    assert forall|j: int| 0 <= j < retired.len() implies covered_shells(aliases, retired, 6).contains(
        #[trigger] retired[j],
    ) by {
        assert(retired.contains(retired[j]));
    }
}

} // verus!
