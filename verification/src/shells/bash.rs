//! The Bash definition of an alias: cleanup of managed names, removal of any
//! alias of the same name, then a plain alias or a function.
use vstd::prelude::*;
use crate::error::AliasError;
use crate::executor::{argv_outcome, lemma_argv_outcome_undecided, render_argv_given, target_check_decides, target_exists};
use crate::model::{AliasRecord, AliasView, ManagedNameSet, TargetType, strings_view};
use super::common::{
    cleanup_text, is_simple_alias, is_simple_alias_spec, managed_definition, managed_definition_spec, quote_posix,
    quote_posix_spec, render_cleanup,
};

verus! {

/// The line that removes an existing alias of a name before the function is
/// defined.
pub open spec fn preemption_spec(name: Seq<char>) -> Seq<char> {
    "\nunalias "@ + quote_posix_spec(name) + " 2>/dev/null\n"@
}

/// Removes an existing alias of a name, silently.
pub fn render_preemption(name: &str) -> (s: String)
    ensures
        s@ == preemption_spec(name@),
{
    let mut s = String::from_str("\nunalias ");
    s.append(quote_posix(name).as_str());
    s.append(" 2>/dev/null\n");
    s
}

/// The words of a command, each quoted, separated by single spaces.
pub open spec fn posix_words(argv: Seq<Seq<char>>) -> Seq<char>
    decreases argv.len(),
{
    if argv.len() == 0 {
        Seq::empty()
    } else if argv.len() == 1 {
        quote_posix_spec(argv[0])
    } else {
        posix_words(argv.drop_last()) + seq![' '] + quote_posix_spec(argv.last())
    }
}

/// Quotes each word of a command and joins them with spaces.
pub fn posix_command(argv: &Vec<String>) -> (s: String)
    ensures
        s@ == posix_words(strings_view(argv@)),
{
    let ghost words = strings_view(argv@);
    let mut s = String::new();
    let mut i: usize = 0;
    while i < argv.len()
        invariant
            i <= argv@.len(),
            words == strings_view(argv@),
            s@ == posix_words(words.take(i as int)),
        decreases argv.len() - i,
    {
        assert(words.take(i + 1).drop_last() =~= words.take(i as int));
        assert(words.take(i + 1).last() == argv@[i as int]@);
        if i > 0 {
            s.append(" ");
            proof {
                reveal_strlit(" ");
            }
        } else {
            assert(words.take(1)[0] == argv@[0]@);
        }
        s.append(quote_posix(argv[i].as_str()).as_str());
        assert(s@ =~= posix_words(words.take(i + 1)));
        i += 1;
    }
    assert(words.take(words.len() as int) =~= words);
    s
}

/// The definition line of an alias: a plain alias when the target needs no
/// quoting or arguments, a function that changes directory for a directory
/// target, else a function that runs the quoted command with the caller's
/// arguments.
pub open spec fn definition_spec(v: AliasView, argv: Seq<Seq<char>>) -> Seq<char> {
    if is_simple_alias_spec(v) {
        managed_definition_spec(v.name, "alias "@ + v.name + "="@ + quote_posix_spec(v.executable)) + "\n"@
    } else if v.target_type == TargetType::ChangeDirectory {
        let dir = match v.working_directory {
            Some(d) => d,
            None => v.executable,
        };
        managed_definition_spec(v.name, v.name + "() { cd -- "@ + quote_posix_spec(dir) + "; }"@) + "\n"@
    } else {
        managed_definition_spec(v.name, v.name + "() { command "@ + posix_words(argv) + " \"$@\"; }"@) + "\n"@
    }
}

/// The Bash text of an alias with its argument vector and the managed names.
pub open spec fn bash_text(v: AliasView, names: Seq<Seq<char>>, argv: Seq<Seq<char>>) -> Seq<char> {
    cleanup_text(names) + preemption_spec(v.name) + definition_spec(v, argv)
}

/// The Bash text of an alias, given whether its target path exists; the
/// argument vector is built first, and its error is the result.
pub open spec fn bash_render_spec(v: AliasView, exe: String, names: Seq<Seq<char>>, target_exists: bool) -> Result<
    Seq<char>,
    AliasError,
> {
    match argv_outcome(v, exe, Seq::empty(), target_exists) {
        Ok(argv) => Ok(bash_text(v, names, argv)),
        Err(e) => Err(e),
    }
}

/// The text of a rendered result, or its error.
pub open spec fn text_view(r: Result<String, AliasError>) -> Result<Seq<char>, AliasError> {
    match r {
        Ok(s) => Ok(s@),
        Err(e) => Err(e),
    }
}

/// The managed names in order: current, then retired.
pub open spec fn names_view(names: ManagedNameSet) -> Seq<Seq<char>> {
    strings_view(names.current@) + strings_view(names.retired@)
}

/// The definition line of an alias with its argument vector.
fn render_definition(alias: &AliasRecord, argv: &Vec<String>) -> (s: String)
    ensures
        s@ == definition_spec(alias@, strings_view(argv@)),
{
    let mut line = String::new();
    if is_simple_alias(alias) {
        line.append("alias ");
        line.append(alias.name.as_str());
        line.append("=");
        line.append(quote_posix(alias.executable.as_str()).as_str());
    } else if alias.target_type == TargetType::ChangeDirectory {
        let dir = match &alias.working_directory {
            Some(d) => d.as_str(),
            None => alias.executable.as_str(),
        };
        line.append(alias.name.as_str());
        line.append("() { cd -- ");
        line.append(quote_posix(dir).as_str());
        line.append("; }");
    } else {
        line.append(alias.name.as_str());
        line.append("() { command ");
        line.append(posix_command(argv).as_str());
        line.append(" \"$@\"; }");
    }
    let mut s = managed_definition(alias.name.as_str(), line.as_str());
    s.append("\n");
    s
}

/// The Bash text of an alias, given whether its target path exists.
pub fn render_with_target(alias: &AliasRecord, names: &ManagedNameSet, target_exists: bool) -> (r: Result<String, AliasError>)
    ensures
        text_view(r) == bash_render_spec(alias@, alias.executable, names_view(*names), target_exists),
{
    let no_args: Vec<String> = Vec::new();
    let argv = render_argv_given(alias, no_args.as_slice(), target_exists)?;
    assert(strings_view(no_args@) =~= Seq::<Seq<char>>::empty());
    let mut output = render_cleanup(names);
    output.append(render_preemption(alias.name.as_str()).as_str());
    output.append(render_definition(alias, &argv).as_str());
    Ok(output)
}

/// The Bash text of an alias and the cleanup of the managed names; a target
/// path is checked on disk.
pub fn render(alias: &AliasRecord, names: &ManagedNameSet) -> (r: Result<String, AliasError>)
    ensures
        exists|e: bool| text_view(r) == bash_render_spec(alias@, alias.executable, names_view(*names), e),
        !target_check_decides(alias@) ==> text_view(r) == bash_render_spec(
            alias@,
            alias.executable,
            names_view(*names),
            false,
        ),
{
    let exists = target_exists(alias);
    proof {
        if !target_check_decides(alias@) {
            lemma_argv_outcome_undecided(alias@, alias.executable, Seq::empty());
        }
    }
    render_with_target(alias, names, exists)
}

} // verus!
