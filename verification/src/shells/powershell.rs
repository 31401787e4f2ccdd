//! The PowerShell definition of an alias: removal of managed and same-named
//! aliases and functions, then `Set-Alias` or a global function that passes
//! its arguments as an array.
use vstd::prelude::*;
use crate::error::AliasError;
use crate::executor::{argv_outcome, lemma_argv_outcome_undecided, render_argv_given, target_check_decides, target_exists};
use crate::model::{AliasRecord, AliasView, ManagedNameSet, ShellKind, is_powershell, strings_view};
use crate::text::{chars_of, ends_with, replace_all, replace_chars, string_of};
use super::bash::{names_view, text_view};
use super::common::is_simple_alias_spec;

verus! {

/// A PowerShell single-quoted literal: each single quote is doubled.
pub open spec fn quote_spec(value: Seq<char>) -> Seq<char> {
    seq!['\''] + replace_all(value, seq!['\''], seq!['\'', '\'']) + seq!['\'']
}

/// Quotes a text as a PowerShell literal.
pub fn quote(value: &str) -> (q: String)
    ensures
        q@ == quote_spec(value@),
{
    let v = chars_of(value);
    let mut single: Vec<char> = Vec::new();
    single.push('\'');
    let mut doubled: Vec<char> = Vec::new();
    doubled.push('\'');
    doubled.push('\'');
    let body = replace_chars(&v, &single, &doubled);
    let mut out: Vec<char> = Vec::new();
    out.push('\'');
    out.extend_from_slice(&body);
    out.push('\'');
    assert(single@ =~= seq!['\'']);
    assert(doubled@ =~= seq!['\'', '\'']);
    assert(out@ =~= quote_spec(value@));
    string_of(&out)
}

/// Whether an alias can be a plain `Set-Alias`.
pub fn is_simple_alias(alias: &AliasRecord) -> (b: bool)
    ensures
        b == is_simple_alias_spec(alias@),
{
    super::common::is_simple_alias(alias)
}

/// The lines that remove an alias and a function of a name, silently.
pub open spec fn preemption_spec(name: Seq<char>) -> Seq<char> {
    "Remove-Item -LiteralPath Alias:\\"@ + name + " -Force -ErrorAction SilentlyContinue\nRemove-Item -LiteralPath Function:\\"@
        + name + " -Force -ErrorAction SilentlyContinue\n"@
}

/// Removes an alias and a function of a name, silently.
pub fn render_preemption(name: &str) -> (s: String)
    ensures
        s@ == preemption_spec(name@),
{
    let mut s = String::from_str("Remove-Item -LiteralPath Alias:\\");
    s.append(name);
    s.append(" -Force -ErrorAction SilentlyContinue\nRemove-Item -LiteralPath Function:\\");
    s.append(name);
    s.append(" -Force -ErrorAction SilentlyContinue\n");
    s
}

/// The removal lines for each name, in order.
pub open spec fn cleanup_spec(names: Seq<Seq<char>>) -> Seq<char>
    decreases names.len(),
{
    if names.len() == 0 {
        Seq::empty()
    } else {
        cleanup_spec(names.drop_last()) + preemption_spec(names.last())
    }
}

/// The removal lines for every managed name, current and retired.
pub fn render_cleanup(names: &ManagedNameSet) -> (out: String)
    ensures
        out@ == cleanup_spec(names_view(*names)),
{
    let all = super::common::managed_names(names);
    let ghost all_v = strings_view(all@);
    let mut out = String::new();
    let mut i: usize = 0;
    while i < all.len()
        invariant
            i <= all@.len(),
            all_v == strings_view(all@),
            out@ == cleanup_spec(all_v.take(i as int)),
        decreases all.len() - i,
    {
        out.append(render_preemption(all[i].as_str()).as_str());
        assert(all_v.take(i + 1).drop_last() =~= all_v.take(i as int));
        assert(all_v.take(i + 1).last() == all@[i as int]@);
        i += 1;
    }
    assert(all_v.take(all_v.len() as int) =~= all_v);
    out
}

/// The words of a command, each quoted, separated by single spaces.
pub open spec fn ps_words(argv: Seq<Seq<char>>) -> Seq<char>
    decreases argv.len(),
{
    if argv.len() == 0 {
        Seq::empty()
    } else if argv.len() == 1 {
        quote_spec(argv[0])
    } else {
        ps_words(argv.drop_last()) + seq![' '] + quote_spec(argv.last())
    }
}

/// Quotes each word of a command and joins them with spaces.
fn ps_command(argv: &Vec<String>) -> (s: String)
    ensures
        s@ == ps_words(strings_view(argv@)),
{
    let ghost words = strings_view(argv@);
    let mut s = String::new();
    let mut i: usize = 0;
    while i < argv.len()
        invariant
            i <= argv@.len(),
            words == strings_view(argv@),
            s@ == ps_words(words.take(i as int)),
        decreases argv.len() - i,
    {
        assert(words.take(i + 1).drop_last() =~= words.take(i as int));
        assert(words.take(i + 1).last() == argv@[i as int]@);
        if i > 0 {
            s.append(" ");
            proof {
                reveal_strlit(" ");
            }
        } else {
            assert(words.take(1)[0] == argv@[0]@);
        }
        s.append(quote(argv[i].as_str()).as_str());
        assert(s@ =~= ps_words(words.take(i + 1)));
        i += 1;
    }
    assert(words.take(words.len() as int) =~= words);
    s
}

/// The `Set-Alias` line of a plain alias.
pub open spec fn set_alias_spec(v: AliasView) -> Seq<char> {
    "Set-Alias -Name "@ + v.name + " -Value "@ + quote_spec(v.executable) + " -Scope Global -Force\n"@
}

/// The global function of an alias that runs its command with the caller's
/// arguments as an array.
pub open spec fn function_spec(v: AliasView, argv: Seq<Seq<char>>) -> Seq<char> {
    "function global:"@ + v.name + " { & "@ + ps_words(argv) + " @args }\n"@
}

/// The PowerShell text of an alias, given whether its target path exists:
/// only PowerShell shells are accepted; a plain alias needs no argument
/// vector, any other alias builds one first and fails with its error.
pub open spec fn ps_render_spec(
    v: AliasView,
    exe: String,
    shell: ShellKind,
    names: Seq<Seq<char>>,
    target_exists: bool,
) -> Result<Seq<char>, AliasError> {
    if !is_powershell(shell) {
        Err(AliasError::ShellNotInstalled)
    } else if is_simple_alias_spec(v) {
        Ok(cleanup_spec(names) + preemption_spec(v.name) + set_alias_spec(v))
    } else {
        match argv_outcome(v, exe, Seq::empty(), target_exists) {
            Ok(argv) => Ok(cleanup_spec(names) + preemption_spec(v.name) + function_spec(v, argv)),
            Err(e) => Err(e),
        }
    }
}

/// The PowerShell text of an alias, given whether its target path exists.
pub fn render_with_target(alias: &AliasRecord, shell: ShellKind, names: &ManagedNameSet, target_exists: bool) -> (r:
    Result<String, AliasError>)
    ensures
        text_view(r) == ps_render_spec(alias@, alias.executable, shell, names_view(*names), target_exists),
{
    if !(shell == ShellKind::PowerShell5 || shell == ShellKind::PowerShell7) {
        return Err(AliasError::ShellNotInstalled);
    }
    let mut output = render_cleanup(names);
    output.append(render_preemption(alias.name.as_str()).as_str());
    if is_simple_alias(alias) {
        output.append("Set-Alias -Name ");
        output.append(alias.name.as_str());
        output.append(" -Value ");
        output.append(quote(alias.executable.as_str()).as_str());
        output.append(" -Scope Global -Force\n");
        assert(output@ =~= cleanup_spec(names_view(*names)) + preemption_spec(alias@.name) + set_alias_spec(alias@));
        return Ok(output);
    }
    let no_args: Vec<String> = Vec::new();
    assert(strings_view(no_args@) =~= Seq::<Seq<char>>::empty());
    let argv = render_argv_given(alias, no_args.as_slice(), target_exists)?;
    output.append("function global:");
    output.append(alias.name.as_str());
    output.append(" { & ");
    output.append(ps_command(&argv).as_str());
    output.append(" @args }\n");
    assert(output@ =~= cleanup_spec(names_view(*names)) + preemption_spec(alias@.name) + function_spec(
        alias@,
        strings_view(argv@),
    ));
    Ok(output)
}

/// The PowerShell text of an alias and the cleanup of the managed names; a
/// target path is checked on disk.
pub fn render(alias: &AliasRecord, shell: ShellKind, names: &ManagedNameSet) -> (r: Result<String, AliasError>)
    ensures
        exists|e: bool| text_view(r) == ps_render_spec(alias@, alias.executable, shell, names_view(*names), e),
        !target_check_decides(alias@) ==> text_view(r) == ps_render_spec(
            alias@,
            alias.executable,
            shell,
            names_view(*names),
            false,
        ),
        !is_powershell(shell) ==> text_view(r) == Err::<Seq<char>, AliasError>(AliasError::ShellNotInstalled),
{
    let exists = target_exists(alias);
    proof {
        if !target_check_decides(alias@) {
            lemma_argv_outcome_undecided(alias@, alias.executable, Seq::empty());
        }
    }
    render_with_target(alias, shell, names, exists)
}

/// Both PowerShell versions get the same text for an alias, given the same
/// answer about its target path; any other shell is refused whatever that
/// answer.
pub proof fn law_powershell_versions_render_alike(v: AliasView, exe: String, names: Seq<Seq<char>>, target_exists: bool)
    ensures
        forall|s: ShellKind| !is_powershell(s) ==> #[trigger] ps_render_spec(v, exe, s, names, target_exists) == Err::<
            Seq<char>,
            AliasError,
        >(AliasError::ShellNotInstalled),
        ps_render_spec(v, exe, ShellKind::PowerShell5, names, target_exists) == ps_render_spec(
            v,
            exe,
            ShellKind::PowerShell7,
            names,
            target_exists,
        ),
{
}

/// The global function generated for an alias that is not a plain alias
/// runs its argument vector through the call operator: the text ends with
/// `function global:<name> { & ` followed by the quoted words of the
/// argument vector and ` @args }`.
pub proof fn law_powershell_function_uses_call_operator(
    v: AliasView,
    exe: String,
    shell: ShellKind,
    names: Seq<Seq<char>>,
    target_exists: bool,
)
    requires
        ps_render_spec(v, exe, shell, names, target_exists) is Ok,
        !is_simple_alias_spec(v),
    ensures
        ({
            let t = ps_render_spec(v, exe, shell, names, target_exists)->Ok_0;
            let argv = argv_outcome(v, exe, Seq::empty(), target_exists)->Ok_0;
            &&& argv_outcome(v, exe, Seq::empty(), target_exists) is Ok
            &&& ends_with(t, "function global:"@ + v.name + " { & "@ + ps_words(argv) + " @args }\n"@)
        }),
{
    let t = ps_render_spec(v, exe, shell, names, target_exists)->Ok_0;
    let argv = argv_outcome(v, exe, Seq::empty(), target_exists)->Ok_0;
    let f = "function global:"@ + v.name + " { & "@ + ps_words(argv) + " @args }\n"@;
    assert(t =~= (cleanup_spec(names) + preemption_spec(v.name)) + f);
    assert(t.skip(t.len() - f.len()) =~= f);
}

} // verus!
