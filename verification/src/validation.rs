//! Validation of alias names, argument templates and whole records.
use vstd::prelude::*;
use crate::error::AliasError;
use crate::model::{AliasRecord, AliasView, TargetType, has_powershell_spec, has_powershell_shell, strings_view};
use crate::text::{all_white_space, chars_of, eq_ignore_ascii_case, eq_ignore_ascii_case_str, is_blank, str_eq};

verus! {

/// An ASCII letter.
pub open spec fn is_ascii_alpha(c: char) -> bool {
    ('a' <= c && c <= 'z') || ('A' <= c && c <= 'Z')
}

/// An ASCII letter or digit.
pub open spec fn is_ascii_alnum(c: char) -> bool {
    is_ascii_alpha(c) || ('0' <= c && c <= '9')
}

/// A character allowed at a position of an alias name: the first must be an
/// ASCII letter or `_`, the others an ASCII letter, digit, `_` or `-`.
pub open spec fn name_char_ok(c: char, first: bool) -> bool {
    if first {
        is_ascii_alpha(c) || c == '_'
    } else {
        is_ascii_alnum(c) || c == '_' || c == '-'
    }
}

/// A valid alias name: 1 to 64 characters, each allowed at its position.
pub open spec fn alias_name_valid(name: Seq<char>) -> bool {
    &&& 0 < name.len() <= 64
    &&& forall|i: int| 0 <= i < name.len() ==> name_char_ok(#[trigger] name[i], i == 0)
}

/// Checks an alias name.
pub fn validate_alias_name(name: &str) -> (r: Result<(), AliasError>)
    ensures
        r is Ok <==> alias_name_valid(name@),
        r is Err ==> r == Err::<(), AliasError>(AliasError::InvalidAliasName),
{
    let c = chars_of(name);
    if c.len() == 0 || c.len() > 64 {
        return Err(AliasError::InvalidAliasName);
    }
    let mut i: usize = 0;
    while i < c.len()
        invariant
            c@ == name@,
            i <= c@.len(),
            forall|j: int| 0 <= j < i ==> name_char_ok(#[trigger] c@[j], j == 0),
        decreases c.len() - i,
    {
        let ch = c[i];
        let alpha = ('a' <= ch && ch <= 'z') || ('A' <= ch && ch <= 'Z');
        let valid = if i == 0 {
            alpha || ch == '_'
        } else {
            alpha || ('0' <= ch && ch <= '9') || ch == '_' || ch == '-'
        };
        if !valid {
            return Err(AliasError::InvalidAliasName);
        }
        i += 1;
    }
    Ok(())
}

/// The argument placeholder that stands for the arguments given at run time.
pub open spec fn args_placeholder() -> Seq<char> {
    "{{args}}"@
}

/// The escaped placeholder, which stands for the literal text `{{args}}`.
pub open spec fn escaped_placeholder() -> Seq<char> {
    "{{{{args}}}}"@
}

/// How many of the arguments are exactly the placeholder.
pub open spec fn placeholder_count(args: Seq<Seq<char>>) -> nat
    decreases args.len(),
{
    if args.len() == 0 {
        0
    } else {
        placeholder_count(args.drop_last()) + if args.last() == args_placeholder() {
            1nat
        } else {
            0nat
        }
    }
}

/// An argument template is valid when the placeholder occurs at most once,
/// and only if run-time arguments are passed.
pub open spec fn arg_template_valid(fixed_args: Seq<Seq<char>>, pass_args: bool) -> bool {
    let n = placeholder_count(fixed_args);
    n <= 1 && (n == 1 ==> pass_args)
}

/// How many of the arguments are exactly the placeholder.
pub fn count_placeholders(args: &Vec<String>) -> (n: usize)
    ensures
        n == placeholder_count(strings_view(args@)),
{
    let mut n: usize = 0;
    let mut i: usize = 0;
    assert(strings_view(args@.take(0)) =~= Seq::<Seq<char>>::empty());
    while i < args.len()
        invariant
            i <= args@.len(),
            n <= i,
            n == placeholder_count(strings_view(args@.take(i as int))),
        decreases args.len() - i,
    {
        assert(strings_view(args@.take(i + 1)).drop_last() =~= strings_view(args@.take(i as int)));
        if str_eq(args[i].as_str(), "{{args}}") {
            n += 1;
        }
        i += 1;
    }
    assert(args@.take(args@.len() as int) =~= args@);
    n
}

/// Checks the placeholders of an alias's fixed arguments.
pub fn validate_arg_template(alias: &AliasRecord) -> (r: Result<(), AliasError>)
    ensures
        r is Ok <==> arg_template_valid(alias@.fixed_args, alias.pass_args),
        r is Err ==> r == Err::<(), AliasError>(AliasError::InvalidArgTemplate),
{
    let count = count_placeholders(&alias.fixed_args);
    if count > 1 || (count == 1 && !alias.pass_args) {
        return Err(AliasError::InvalidArgTemplate);
    }
    Ok(())
}

/// Names that PowerShell already defines as built-in aliases.
pub open spec fn powershell_reserved(name: Seq<char>) -> bool {
    ||| eq_ignore_ascii_case("ls"@, name)
    ||| eq_ignore_ascii_case("cp"@, name)
    ||| eq_ignore_ascii_case("mv"@, name)
    ||| eq_ignore_ascii_case("rm"@, name)
    ||| eq_ignore_ascii_case("cat"@, name)
    ||| eq_ignore_ascii_case("gc"@, name)
}

/// Checks that a name is not one of PowerShell's built-in aliases (compared
/// ignoring ASCII case).
pub fn validate_powershell_name(name: &str) -> (r: Result<(), AliasError>)
    ensures
        r is Ok <==> !powershell_reserved(name@),
        r is Err ==> r == Err::<(), AliasError>(AliasError::NameReserved),
{
    if eq_ignore_ascii_case_str("ls", name) || eq_ignore_ascii_case_str("cp", name)
        || eq_ignore_ascii_case_str("mv", name) || eq_ignore_ascii_case_str("rm", name)
        || eq_ignore_ascii_case_str("cat", name) || eq_ignore_ascii_case_str("gc", name) {
        return Err(AliasError::NameReserved);
    }
    Ok(())
}

/// The outcome of validating a record: the first rule it breaks, in this
/// order, or success.
pub open spec fn validate_alias_spec(v: AliasView) -> Result<(), AliasError> {
    if !alias_name_valid(v.name) {
        Err(AliasError::InvalidAliasName)
    } else if all_white_space(v.executable) || v.shells.len() == 0 {
        Err(AliasError::InvalidAliasName)
    } else if v.advanced_shell_mode || v.target_type == TargetType::RawShellCommand {
        Err(AliasError::AdvancedModeUnsupported)
    } else if !arg_template_valid(v.fixed_args, v.pass_args) {
        Err(AliasError::InvalidArgTemplate)
    } else if has_powershell_spec(v.shells) && powershell_reserved(v.name) {
        Err(AliasError::NameReserved)
    } else {
        Ok(())
    }
}

/// Checks a whole record: its name, that it has a target and at least one
/// shell, that it asks for no advanced shell mode, its argument template, and,
/// for PowerShell, that its name is not reserved.
pub fn validate_alias(alias: &AliasRecord) -> (r: Result<(), AliasError>)
    ensures
        r == validate_alias_spec(alias@),
{
    validate_alias_name(alias.name.as_str())?;
    if is_blank(alias.executable.as_str()) || alias.shells.len() == 0 {
        return Err(AliasError::InvalidAliasName);
    }
    if alias.advanced_shell_mode || alias.target_type == TargetType::RawShellCommand {
        return Err(AliasError::AdvancedModeUnsupported);
    }
    validate_arg_template(alias)?;
    if has_powershell_shell(alias.shells.as_slice()) {
        validate_powershell_name(alias.name.as_str())?;
    }
    Ok(())
}

/// An alias for a PowerShell shell whose name is one of PowerShell's
/// built-in aliases `ls`, `cp`, `mv`, `rm`, `cat` or `gc`, in any ASCII
/// case, never validates; when every earlier rule holds, it is refused as a
/// reserved name. For a record without a PowerShell shell the names are not
/// reserved.
pub proof fn law_powershell_builtin_names_refused(v: AliasView, builtin: Seq<char>)
    requires
        builtin == "ls"@ || builtin == "cp"@ || builtin == "mv"@ || builtin == "rm"@ || builtin == "cat"@
            || builtin == "gc"@,
        eq_ignore_ascii_case(builtin, v.name),
    ensures
        has_powershell_spec(v.shells) ==> validate_alias_spec(v) is Err,
        has_powershell_spec(v.shells) && alias_name_valid(v.name) && !all_white_space(v.executable)
            && !v.advanced_shell_mode && v.target_type != TargetType::RawShellCommand && arg_template_valid(
            v.fixed_args,
            v.pass_args,
        ) ==> validate_alias_spec(v) == Err::<(), AliasError>(AliasError::NameReserved),
        !has_powershell_spec(v.shells) && validate_alias_spec(v) is Err ==> validate_alias_spec(v) != Err::<
            (),
            AliasError,
        >(AliasError::NameReserved),
{
}

} // verus!
