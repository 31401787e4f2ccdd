//! Writing the generated files: the text of each shell's file, the state a
//! shell is in, the outcome of each shell, and the journal that records an
//! operation in progress.
use vstd::prelude::*;
use crate::config::{join_path, join_path_spec};
use crate::error::{AliasError, error_message};
use crate::executor::target_exists;
use crate::model::{AliasRecord, ManagedNameSet, ShellKind, ShellStatus, ShellSyncResult, opt_view, strings_view};
use crate::shells::bash::{bash_render_spec, names_view, text_view};
use crate::shells::powershell::ps_render_spec;
use crate::text::{chars_of, contains_chars, contains_seq, i64_text, int_text, string_of};

verus! {

/// The state of a shell's generated file: failed when an error was
/// recorded, else missing its loader, else current when it has the current
/// revision, stale when it has an older one, unknown when a newer one.
pub open spec fn shell_status_spec(applied_revision: i64, current_revision: i64, loader_installed: bool, failed: bool) -> ShellStatus {
    if failed {
        ShellStatus::Failed
    } else if !loader_installed {
        ShellStatus::LoaderMissing
    } else if applied_revision == current_revision {
        ShellStatus::UpToDate
    } else if applied_revision < current_revision {
        ShellStatus::Stale
    } else {
        ShellStatus::Unknown
    }
}

/// The state of a shell's generated file.
pub fn shell_status(applied_revision: i64, current_revision: i64, loader_installed: bool, error: Option<&str>) -> (s:
    ShellStatus)
    ensures
        s == shell_status_spec(applied_revision, current_revision, loader_installed, error is Some),
{
    if error.is_some() {
        ShellStatus::Failed
    } else if !loader_installed {
        ShellStatus::LoaderMissing
    } else if applied_revision == current_revision {
        ShellStatus::UpToDate
    } else if applied_revision < current_revision {
        ShellStatus::Stale
    } else {
        ShellStatus::Unknown
    }
}

/// Writes the generated files under a configuration directory.
#[derive(Debug)]
pub struct SyncCoordinator {
    pub config_dir: String,
}

/// The file name of a shell's generated file.
pub open spec fn generated_file_name(shell: ShellKind) -> Seq<char> {
    match shell {
        ShellKind::Bash => "bash.sh"@,
        ShellKind::Zsh => "zsh.sh"@,
        ShellKind::PowerShell5 => "powershell5.ps1"@,
        ShellKind::PowerShell7 => "powershell7.ps1"@,
        _ => "unsupported.sh"@,
    }
}

/// Names joined by single spaces.
pub open spec fn join_spaces(names: Seq<Seq<char>>) -> Seq<char>
    decreases names.len(),
{
    if names.len() == 0 {
        Seq::empty()
    } else if names.len() == 1 {
        names[0]
    } else {
        join_spaces(names.drop_last()) + seq![' '] + names.last()
    }
}

/// The header of a generated file: the revision and every alias name.
pub open spec fn sync_header(revision: i64, names: Seq<Seq<char>>) -> Seq<char> {
    "# Alias Manager\n# revision: "@ + int_text(revision as int) + "\n# managed: "@ + join_spaces(names) + "\n"@
}

/// The text of one alias for a shell, given whether its target path exists;
/// shells without a renderer are not supported.
pub open spec fn alias_text(a: AliasRecord, shell: ShellKind, names: Seq<Seq<char>>, exists: bool) -> Result<
    Seq<char>,
    AliasError,
> {
    match shell {
        ShellKind::Bash | ShellKind::Zsh => bash_render_spec(a@, a.executable, names, exists),
        ShellKind::PowerShell5 | ShellKind::PowerShell7 => ps_render_spec(a@, a.executable, shell, names, exists),
        _ => Err(AliasError::ShellNotInstalled),
    }
}

/// The texts of the enabled aliases, in order; the first error stops.
pub open spec fn sync_body(aliases: Seq<AliasRecord>, shell: ShellKind, names: Seq<Seq<char>>, exists: Seq<bool>) -> Result<
    Seq<char>,
    AliasError,
>
    decreases aliases.len(),
{
    if aliases.len() == 0 {
        Ok(Seq::empty())
    } else {
        match sync_body(aliases.drop_last(), shell, names, exists) {
            Err(e) => Err(e),
            Ok(prefix) => if aliases.last().enabled {
                match alias_text(aliases.last(), shell, names, exists[aliases.len() - 1]) {
                    Ok(t) => Ok(prefix + t),
                    Err(e) => Err(e),
                }
            } else {
                Ok(prefix)
            },
        }
    }
}

/// The names of aliases.
pub open spec fn alias_names(aliases: Seq<AliasRecord>) -> Seq<Seq<char>> {
    aliases.map_values(|a: AliasRecord| a.name@)
}

/// A shell's generated file: the header, then each enabled alias's text
/// with every alias name managed; the first error is the result.
pub open spec fn render_shell_spec(aliases: Seq<AliasRecord>, shell: ShellKind, revision: i64, exists: Seq<bool>) -> Result<
    Seq<char>,
    AliasError,
> {
    match sync_body(aliases, shell, alias_names(aliases), exists) {
        Ok(body) => Ok(sync_header(revision, alias_names(aliases)) + body),
        Err(e) => Err(e),
    }
}

/// The journal text of an operation from the previous revision to this one.
pub open spec fn journal_spec(revision: i64, state: Seq<char>) -> Seq<char> {
    "revision_from="@ + int_text(if revision == i64::MIN {
        i64::MIN as int
    } else {
        revision - 1
    }) + "\nrevision_to="@ + int_text(revision as int) + "\nstate="@ + state + "\nbackups=[]\n"@
}

/// The outcome of one shell: current without error when its file was
/// rendered, failed with the error's message otherwise.
pub open spec fn sync_result_spec(shell: ShellKind, outcome: Result<Seq<char>, AliasError>, r: ShellSyncResult) -> bool {
    &&& r.shell == shell
    &&& match outcome {
        Ok(_) => r.status == ShellStatus::UpToDate && r.error is None,
        Err(e) => r.status == ShellStatus::Failed && opt_view(r.error) == Some(error_message(e)),
    }
}

/// An error in the texts of the first aliases is the error of all of them.
proof fn lemma_sync_body_error_stays(
    aliases: Seq<AliasRecord>,
    k: int,
    shell: ShellKind,
    names: Seq<Seq<char>>,
    exists: Seq<bool>,
)
    requires
        0 <= k <= aliases.len(),
        sync_body(aliases.take(k), shell, names, exists) is Err,
    ensures
        sync_body(aliases, shell, names, exists) == sync_body(aliases.take(k), shell, names, exists),
    decreases aliases.len() - k,
{
    if k < aliases.len() {
        assert(aliases.take(k + 1).drop_last() =~= aliases.take(k));
        lemma_sync_body_error_stays(aliases, k + 1, shell, names, exists);
    } else {
        assert(aliases.take(k) =~= aliases);
    }
}

/// The alias names, in order.
fn names_of(aliases: &[AliasRecord]) -> (names: Vec<String>)
    ensures
        strings_view(names@) == alias_names(aliases@),
{
    let mut names: Vec<String> = Vec::new();
    let mut i: usize = 0;
    while i < aliases.len()
        invariant
            i <= aliases@.len(),
            strings_view(names@) =~= alias_names(aliases@.take(i as int)),
        decreases aliases.len() - i,
    {
        let ghost prev = names@;
        names.push(aliases[i].name.clone());
        assert(strings_view(names@) =~= strings_view(prev).push(aliases@[i as int].name@));
        assert(alias_names(aliases@.take(i + 1)) =~= alias_names(aliases@.take(i as int)).push(aliases@[i as int].name@));
        i += 1;
    }
    assert(aliases@.take(aliases@.len() as int) =~= aliases@);
    names
}

/// Names joined by single spaces.
fn join_names(names: &Vec<String>) -> (s: String)
    ensures
        s@ == join_spaces(strings_view(names@)),
{
    let ghost v = strings_view(names@);
    let mut s = String::new();
    let mut i: usize = 0;
    while i < names.len()
        invariant
            i <= names@.len(),
            v == strings_view(names@),
            s@ == join_spaces(v.take(i as int)),
        decreases names.len() - i,
    {
        assert(v.take(i + 1).drop_last() =~= v.take(i as int));
        assert(v.take(i + 1).last() == names@[i as int]@);
        if i > 0 {
            s.append(" ");
            proof {
                reveal_strlit(" ");
            }
        } else {
            assert(v.take(1)[0] == names@[0]@);
        }
        s.append(names[i].as_str());
        assert(s@ =~= join_spaces(v.take(i + 1)));
        i += 1;
    }
    assert(v.take(v.len() as int) =~= v);
    s
}

impl SyncCoordinator {
    /// A coordinator for a configuration directory.
    pub fn new(config_dir: &str) -> (c: Self)
        ensures
            c.config_dir@ == config_dir@,
    {
        SyncCoordinator { config_dir: String::from_str(config_dir) }
    }

    /// The generated file of a shell.
    pub fn generated_path(&self, shell: &ShellKind) -> (p: String)
        ensures
            p@ == join_path_spec(join_path_spec(self.config_dir@, "generated"@), generated_file_name(*shell)),
    {
        let name = match shell {
            ShellKind::Bash => "bash.sh",
            ShellKind::Zsh => "zsh.sh",
            ShellKind::PowerShell5 => "powershell5.ps1",
            ShellKind::PowerShell7 => "powershell7.ps1",
            _ => "unsupported.sh",
        };
        let dir = join_path(self.config_dir.as_str(), "generated");
        join_path(dir.as_str(), name)
    }

    /// The journal file.
    pub fn journal_path(&self) -> (p: String)
        ensures
            p@ == join_path_spec(self.config_dir@, "operation.journal"@),
    {
        join_path(self.config_dir.as_str(), "operation.journal")
    }

    /// The lock file.
    pub fn lock_path(&self) -> (p: String)
        ensures
            p@ == join_path_spec(self.config_dir@, "sync.lock"@),
    {
        join_path(self.config_dir.as_str(), "sync.lock")
    }

    /// A shell's generated file, given whether each alias's target path
    /// exists.
    pub fn render_shell_with_targets(&self, aliases: &[AliasRecord], shell: &ShellKind, revision: i64, exists: &[bool]) -> (r:
        Result<String, AliasError>)
        requires
            exists@.len() == aliases@.len(),
        ensures
            text_view(r) == render_shell_spec(aliases@, *shell, revision, exists@),
    {
        let name_list = names_of(aliases);
        let mut output = String::from_str("# Alias Manager\n# revision: ");
        output.append(string_of(&i64_text(revision)).as_str());
        output.append("\n# managed: ");
        output.append(join_names(&name_list).as_str());
        output.append("\n");
        let ghost header = output@;
        assert(header =~= sync_header(revision, alias_names(aliases@)));
        let names = ManagedNameSet { current: name_list, retired: Vec::new() };
        let ghost nv = alias_names(aliases@);
        assert(names_view(names) =~= nv);
        let mut i: usize = 0;
        assert(aliases@.take(0) =~= Seq::<AliasRecord>::empty());
        assert(output@.skip(header.len() as int) =~= Seq::<char>::empty());
        assert(output@.take(header.len() as int) =~= header);
        while i < aliases.len()
            invariant
                i <= aliases@.len(),
                exists@.len() == aliases@.len(),
                names_view(names) == nv,
                nv == alias_names(aliases@),
                sync_body(aliases@.take(i as int), *shell, nv, exists@) == Ok::<Seq<char>, AliasError>(
                    output@.skip(header.len() as int),
                ),
                output@.len() >= header.len(),
                output@.take(header.len() as int) == header,
                header == sync_header(revision, nv),
            decreases aliases.len() - i,
        {
            let alias = &aliases[i];
            let ghost prev = output@;
            assert(aliases@.take(i + 1).drop_last() =~= aliases@.take(i as int));
            assert(aliases@.take(i + 1).last() == *alias);
            if alias.enabled {
                let text = match shell {
                    ShellKind::Bash => crate::shells::bash::render_with_target(alias, &names, exists[i]),
                    ShellKind::Zsh => crate::shells::bash::render_with_target(alias, &names, exists[i]),
                    ShellKind::PowerShell5 | ShellKind::PowerShell7 => crate::shells::powershell::render_with_target(
                        alias,
                        *shell,
                        &names,
                        exists[i],
                    ),
                    _ => Err(AliasError::ShellNotInstalled),
                };
                assert(text_view(text) == alias_text(*alias, *shell, nv, exists@[i as int]));
                match text {
                    Ok(t) => {
                        output.append(t.as_str());
                        assert(output@.skip(header.len() as int) =~= prev.skip(header.len() as int) + t@);
                        assert(output@.take(header.len() as int) =~= prev.take(header.len() as int));
                    },
                    Err(e) => {
                        proof {
                            lemma_sync_body_error_stays(aliases@, i + 1, *shell, nv, exists@);
                        }
                        return Err(e);
                    },
                }
            }
            i += 1;
        }
        assert(aliases@.take(aliases@.len() as int) =~= aliases@);
        assert(output@ =~= header + output@.skip(header.len() as int));
        Ok(output)
    }

    /// A shell's generated file; target paths are checked on disk.
    pub fn render_shell(&self, aliases: &[AliasRecord], shell: &ShellKind, revision: i64) -> (r: Result<String, AliasError>)
        ensures
            exists|ex: Seq<bool>| ex.len() == aliases@.len() && text_view(r) == render_shell_spec(aliases@, *shell, revision, ex),
    {
        let mut exists: Vec<bool> = Vec::new();
        let mut i: usize = 0;
        while i < aliases.len()
            invariant
                i <= aliases@.len(),
                exists@.len() == i,
            decreases aliases.len() - i,
        {
            exists.push(target_exists(&aliases[i]));
            i += 1;
        }
        self.render_shell_with_targets(aliases, shell, revision, exists.as_slice())
    }

    /// The journal text of an operation that moves to a revision, in a state.
    pub fn journal_text(revision: i64, state: &str) -> (t: String)
        ensures
            t@ == journal_spec(revision, state@),
    {
        let from = if revision == i64::MIN {
            i64::MIN
        } else {
            revision - 1
        };
        let mut t = String::from_str("revision_from=");
        t.append(string_of(&i64_text(from)).as_str());
        t.append("\nrevision_to=");
        t.append(string_of(&i64_text(revision)).as_str());
        t.append("\nstate=");
        t.append(state);
        t.append("\nbackups=[]\n");
        t
    }

    /// The outcome of one shell, from the result of rendering its file.
    pub fn sync_result(shell: &ShellKind, revision: i64, outcome: &Result<String, AliasError>) -> (r: ShellSyncResult)
        ensures
            sync_result_spec(*shell, text_view(*outcome), r),
    {
        match outcome {
            Ok(_) => ShellSyncResult {
                shell: *shell,
                status: shell_status(revision, revision, true, None),
                error: None,
            },
            Err(e) => {
                let message = e.message();
                let previous = if revision == i64::MIN {
                    i64::MIN
                } else {
                    revision - 1
                };
                let status = shell_status(previous, revision, true, Some(message.as_str()));
                ShellSyncResult { shell: *shell, status, error: Some(message) }
            },
        }
    }

    /// Whether a journal records an operation that never completed, which
    /// recovery discards.
    pub fn journal_is_pending(content: &str) -> (b: bool)
        ensures
            b == contains_seq(content@, "state=prepared"@),
    {
        contains_chars(&chars_of(content), &chars_of("state=prepared"))
    }
}

} // verus!
