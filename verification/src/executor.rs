//! Structured command construction: an alias becomes an argument vector, a
//! working directory and environment variables, never one command string.
use vstd::prelude::*;
use crate::error::AliasError;
use crate::model::{AliasRecord, AliasView, Environment, TargetType, copy_opt, strings_view};
use crate::text::{all_white_space, chars_of, contains_seq, find_seq, is_blank, str_eq};
use crate::validation::{args_placeholder, escaped_placeholder};

verus! {

/// A command ready to be started: its arguments (the program first), working
/// directory and environment variables.
#[derive(Debug, PartialEq, Eq)]
pub struct CommandSpec {
    pub argv: Vec<String>,
    pub working_directory: Option<String>,
    pub environment: Environment,
}

/// The fixed arguments with placeholders resolved: the placeholder becomes
/// the run-time arguments, the escaped placeholder becomes the literal text
/// `{{args}}`, every other argument stays as it is.
pub open spec fn expand_fixed(fixed: Seq<Seq<char>>, args: Seq<Seq<char>>) -> Seq<Seq<char>>
    decreases fixed.len(),
{
    if fixed.len() == 0 {
        Seq::empty()
    } else {
        expand_fixed(fixed.drop_last(), args) + if fixed.last() == args_placeholder() {
            args
        } else if fixed.last() == escaped_placeholder() {
            seq![args_placeholder()]
        } else {
            seq![fixed.last()]
        }
    }
}

/// The argument vector of an alias run with `args`: the program, the expanded
/// fixed arguments, and, when arguments are passed but no placeholder placed
/// them, the run-time arguments at the end.
pub open spec fn expand_args_spec(v: AliasView, args: Seq<Seq<char>>) -> Seq<Seq<char>> {
    seq![v.executable] + expand_fixed(v.fixed_args, args) + if v.pass_args && !v.fixed_args.contains(
        args_placeholder(),
    ) {
        args
    } else {
        Seq::empty()
    }
}

/// Whether any of the texts is the placeholder.
fn has_placeholder(fixed: &Vec<String>) -> (b: bool)
    ensures
        b == strings_view(fixed@).contains(args_placeholder()),
{
    let mut i: usize = 0;
    while i < fixed.len()
        invariant
            i <= fixed@.len(),
            forall|j: int| 0 <= j < i ==> strings_view(fixed@)[j] != args_placeholder(),
        decreases fixed.len() - i,
    {
        if str_eq(fixed[i].as_str(), "{{args}}") {
            assert(strings_view(fixed@)[i as int] == args_placeholder());
            return true;
        }
        i += 1;
    }
    false
}

/// Appends copies of the texts.
fn push_all(out: &mut Vec<String>, items: &[String])
    ensures
        strings_view(final(out)@) == strings_view(old(out)@) + strings_view(items@),
{
    let ghost start = strings_view(out@);
    let mut i: usize = 0;
    while i < items.len()
        invariant
            i <= items@.len(),
            strings_view(out@) =~= start + strings_view(items@.take(i as int)),
        decreases items.len() - i,
    {
        let ghost prev = out@;
        out.push(items[i].clone());
        assert(strings_view(out@) =~= strings_view(prev).push(items@[i as int]@));
        assert(strings_view(items@.take(i + 1)) =~= strings_view(items@.take(i as int)).push(items@[i as int]@));
        i += 1;
    }
    assert(items@.take(items@.len() as int) =~= items@);
}

/// The argument vector of an alias run with `args`.
pub fn expand_args(alias: &AliasRecord, args: &[String]) -> (out: Vec<String>)
    ensures
        strings_view(out@) == expand_args_spec(alias@, strings_view(args@)),
{
    let mut out: Vec<String> = Vec::new();
    out.push(alias.executable.clone());
    let ghost a = strings_view(args@);
    let ghost fixed = strings_view(alias.fixed_args@);
    let mut i: usize = 0;
    proof {
        reveal_strlit("{{args}}");
        reveal_strlit("{{{{args}}}}");
        assert(args_placeholder().len() != escaped_placeholder().len());
    }
    assert(strings_view(out@) =~= seq![alias.executable@] + expand_fixed(fixed.take(0), a));
    while i < alias.fixed_args.len()
        invariant
            i <= alias.fixed_args@.len(),
            fixed == strings_view(alias.fixed_args@),
            a == strings_view(args@),
            strings_view(out@) =~= seq![alias.executable@] + expand_fixed(fixed.take(i as int), a),
            args_placeholder() != escaped_placeholder(),
        decreases alias.fixed_args.len() - i,
    {
        let item = &alias.fixed_args[i];
        assert(fixed.take(i + 1).drop_last() =~= fixed.take(i as int));
        assert(fixed.take(i + 1).last() == item@);
        if str_eq(item.as_str(), "{{args}}") {
            push_all(&mut out, args);
        } else if str_eq(item.as_str(), "{{{{args}}}}") {
            let ghost prev = out@;
            out.push(String::from_str("{{args}}"));
            assert(strings_view(out@) =~= strings_view(prev).push(args_placeholder()));
            assert(strings_view(out@) =~= seq![alias.executable@] + expand_fixed(fixed.take(i + 1), a));
        } else {
            let ghost prev = out@;
            out.push(item.clone());
            assert(strings_view(out@) =~= strings_view(prev).push(item@));
            assert(strings_view(out@) =~= seq![alias.executable@] + expand_fixed(fixed.take(i + 1), a));
        }
        i += 1;
    }
    assert(fixed.take(fixed.len() as int) =~= fixed);
    if alias.pass_args && !has_placeholder(&alias.fixed_args) {
        push_all(&mut out, args);
    }
    assert(strings_view(out@) =~= expand_args_spec(alias@, a));
    out
}

/// The characters that Windows command interpreters treat specially in batch
/// files.
pub open spec fn is_batch_metachar(c: char) -> bool {
    c == '%' || c == '!' || c == '&' || c == '|' || c == '^' || c == '<' || c == '>'
}

/// Whether a text holds a batch metacharacter.
pub open spec fn has_batch_metachar(s: Seq<char>) -> bool {
    exists|i: int| 0 <= i < s.len() && is_batch_metachar(#[trigger] s[i])
}

/// Rejects a value that holds a batch metacharacter.
pub fn reject_batch_metacharacters(value: &str) -> (r: Result<(), AliasError>)
    ensures
        r is Ok <==> !has_batch_metachar(value@),
        r is Err ==> r == Err::<(), AliasError>(AliasError::InvalidArgTemplate),
{
    let c = chars_of(value);
    let mut i: usize = 0;
    while i < c.len()
        invariant
            c@ == value@,
            i <= c@.len(),
            forall|j: int| 0 <= j < i ==> !is_batch_metachar(#[trigger] c@[j]),
        decreases c.len() - i,
    {
        let ch = c[i];
        if ch == '%' || ch == '!' || ch == '&' || ch == '|' || ch == '^' || ch == '<' || ch == '>' {
            return Err(AliasError::InvalidArgTemplate);
        }
        i += 1;
    }
    Ok(())
}

/// Whether none of the texts holds a batch metacharacter.
pub open spec fn none_has_batch_metachar(xs: Seq<Seq<char>>) -> bool {
    forall|i: int| 0 <= i < xs.len() ==> !has_batch_metachar(#[trigger] xs[i])
}

/// Rejects a list of values if any holds a batch metacharacter.
fn reject_all_batch_metacharacters(values: &[String]) -> (r: Result<(), AliasError>)
    ensures
        r is Ok <==> none_has_batch_metachar(strings_view(values@)),
        r is Err ==> r == Err::<(), AliasError>(AliasError::InvalidArgTemplate),
{
    let mut i: usize = 0;
    while i < values.len()
        invariant
            i <= values@.len(),
            forall|j: int| 0 <= j < i ==> !has_batch_metachar(#[trigger] strings_view(values@)[j]),
        decreases values.len() - i,
    {
        assert(strings_view(values@)[i as int] == values@[i as int]@);
        match reject_batch_metacharacters(values[i].as_str()) {
            Ok(()) => {},
            Err(e) => {
                return Err(e);
            },
        }
        i += 1;
    }
    Ok(())
}

/// The target check of a structured command, given whether the target path
/// exists: a blank target is missing; a target with a backslash, or with a
/// slash and nothing on disk at that path, is missing.
pub open spec fn structured_target_ok(v: AliasView, target_exists: bool) -> bool {
    !all_white_space(v.executable) && !contains_seq(v.executable, seq!['\\'])
        && (target_exists || !contains_seq(v.executable, seq!['/']))
}

/// Checks a structured command's target, given whether its path exists.
pub fn check_structured_target(alias: &AliasRecord, target_exists: bool) -> (r: Result<(), AliasError>)
    ensures
        r is Ok <==> structured_target_ok(alias@, target_exists),
        r is Err ==> r == Err::<(), AliasError>(AliasError::TargetMissing(alias.executable)),
{
    if is_blank(alias.executable.as_str()) {
        return Err(AliasError::TargetMissing(alias.executable.clone()));
    }
    let c = chars_of(alias.executable.as_str());
    let mut slash: Vec<char> = Vec::new();
    slash.push('/');
    let mut backslash: Vec<char> = Vec::new();
    backslash.push('\\');
    let has_slash = find_seq(&c, &slash).is_some();
    let has_backslash = find_seq(&c, &backslash).is_some();
    if !target_exists && has_slash || has_backslash {
        return Err(AliasError::TargetMissing(alias.executable.clone()));
    }
    Ok(())
}

/// The outcome of building a structured command, given whether the target
/// path exists.
pub open spec fn structured_outcome_ok(v: AliasView, target_exists: bool) -> bool {
    structured_target_ok(v, target_exists) && v.target_type != TargetType::RawShellCommand
        && !v.advanced_shell_mode
}

/// The command of an alias run with `args` through a structured executor,
/// given whether the target path exists.
pub fn structured_command(alias: &AliasRecord, args: &[String], target_exists: bool) -> (r: Result<CommandSpec, AliasError>)
    ensures
        r is Ok <==> structured_outcome_ok(alias@, target_exists),
        !structured_target_ok(alias@, target_exists) ==> r == Err::<CommandSpec, AliasError>(
            AliasError::TargetMissing(alias.executable),
        ),
        structured_target_ok(alias@, target_exists) && !structured_outcome_ok(alias@, target_exists) ==> r
            == Err::<CommandSpec, AliasError>(AliasError::AdvancedModeUnsupported),
        r matches Ok(c) ==> command_matches(c, alias@, strings_view(args@)),
{
    check_structured_target(alias, target_exists)?;
    if alias.target_type == TargetType::RawShellCommand || alias.advanced_shell_mode {
        return Err(AliasError::AdvancedModeUnsupported);
    }
    Ok(CommandSpec {
        argv: expand_args(alias, args),
        working_directory: copy_opt(&alias.working_directory),
        environment: alias.environment.copy(),
    })
}

/// A command carries the expanded arguments, the working directory and the
/// environment of the alias.
pub open spec fn command_matches(c: CommandSpec, v: AliasView, args: Seq<Seq<char>>) -> bool {
    &&& strings_view(c.argv@) == expand_args_spec(v, args)
    &&& crate::model::opt_view(c.working_directory) == v.working_directory
    &&& c.environment@ == v.environment
}

/// The outcome of a batch executor's check of an alias: a blank target is
/// missing; a fixed argument with a batch metacharacter is rejected.
pub open spec fn batch_validate_spec(v: AliasView, exe: String) -> Result<(), AliasError> {
    if all_white_space(v.executable) {
        Err(AliasError::TargetMissing(exe))
    } else if !none_has_batch_metachar(v.fixed_args) {
        Err(AliasError::InvalidArgTemplate)
    } else {
        Ok(())
    }
}

/// Something that turns an alias into a command.
pub trait Executor {
    /// The kind of target this executor handles.
    fn target_type(&self) -> TargetType;

    /// Checks that an alias can be run by this executor.
    fn validate(&self, alias: &AliasRecord) -> Result<(), AliasError>;

    /// The command of an alias run with `args`.
    fn render_argv(&self, alias: &AliasRecord, args: &[String]) -> (r: Result<CommandSpec, AliasError>)
        ensures
            r matches Ok(c) ==> command_matches(c, alias@, strings_view(args@)),
    ;
}

/// Runs native executables and every kind of script by its interpreter, with
/// structured arguments.
pub struct StructuredExecutor;

/// Runs Windows batch files, whose interpreter re-parses arguments.
pub struct BatchExecutor;

impl Executor for StructuredExecutor {
    fn target_type(&self) -> (t: TargetType)
        ensures
            t == TargetType::NativeExecutable,
    {
        TargetType::NativeExecutable
    }

    /// Checks the target; the path check asks the file system.
    fn validate(&self, alias: &AliasRecord) -> (r: Result<(), AliasError>)
        ensures
            all_white_space(alias.executable@) ==> r == Err::<(), AliasError>(AliasError::TargetMissing(alias.executable)),
            contains_seq(alias.executable@, seq!['\\']) ==> r is Err,
            !all_white_space(alias.executable@) && !contains_seq(alias.executable@, seq!['\\'])
                && !contains_seq(alias.executable@, seq!['/']) ==> r is Ok,
            r is Err ==> r == Err::<(), AliasError>(AliasError::TargetMissing(alias.executable)),
    {
        let exists = crate::shells::common::_filesystem_exists(alias.executable.as_str());
        check_structured_target(alias, exists)
    }

    fn render_argv(&self, alias: &AliasRecord, args: &[String]) -> (r: Result<CommandSpec, AliasError>)
        ensures
            exists|e: bool| structured_outcome_ok(alias@, e) == (r is Ok),
            all_white_space(alias.executable@) ==> r == Err::<CommandSpec, AliasError>(AliasError::TargetMissing(alias.executable)),
            !all_white_space(alias.executable@) && !contains_seq(alias.executable@, seq!['\\'])
                && !contains_seq(alias.executable@, seq!['/']) ==> (r is Ok <==> alias.target_type
                != TargetType::RawShellCommand && !alias.advanced_shell_mode),
    {
        let exists = crate::shells::common::_filesystem_exists(alias.executable.as_str());
        structured_command(alias, args, exists)
    }
}

impl Executor for BatchExecutor {
    fn target_type(&self) -> (t: TargetType)
        ensures
            t == TargetType::Batch,
    {
        TargetType::Batch
    }

    fn validate(&self, alias: &AliasRecord) -> (r: Result<(), AliasError>)
        ensures
            r == batch_validate_spec(alias@, alias.executable),
    {
        if is_blank(alias.executable.as_str()) {
            return Err(AliasError::TargetMissing(alias.executable.clone()));
        }
        let fixed = alias.fixed_args.as_slice();
        let r = reject_all_batch_metacharacters(fixed);
        assert(fixed@ == alias.fixed_args@);
        assert(strings_view(fixed@) == alias@.fixed_args);
        assert(!all_white_space(alias@.executable));
        match r {
            Ok(()) => {
                assert(none_has_batch_metachar(alias@.fixed_args));
                Ok(())
            },
            Err(e) => {
                assert(!none_has_batch_metachar(alias@.fixed_args));
                Err(e)
            },
        }
    }

    fn render_argv(&self, alias: &AliasRecord, args: &[String]) -> (r: Result<CommandSpec, AliasError>)
        ensures
            batch_validate_spec(alias@, alias.executable) is Err ==> r == Err::<CommandSpec, AliasError>(
                batch_validate_spec(alias@, alias.executable)->Err_0,
            ),
            batch_validate_spec(alias@, alias.executable) is Ok ==> (r is Ok <==> none_has_batch_metachar(
                strings_view(args@),
            )),
            batch_validate_spec(alias@, alias.executable) is Ok && r is Err ==> r == Err::<CommandSpec, AliasError>(
                AliasError::InvalidArgTemplate,
            ),
    {
        self.validate(alias)?;
        reject_all_batch_metacharacters(args)?;
        Ok(CommandSpec {
            argv: expand_args(alias, args),
            working_directory: copy_opt(&alias.working_directory),
            environment: alias.environment.copy(),
        })
    }
}

/// The executor chosen for an alias.
pub enum AnyExecutor {
    Structured(StructuredExecutor),
    Batch(BatchExecutor),
}

impl Executor for AnyExecutor {
    fn target_type(&self) -> (t: TargetType)
        ensures
            t == match self {
                AnyExecutor::Structured(_) => TargetType::NativeExecutable,
                AnyExecutor::Batch(_) => TargetType::Batch,
            },
    {
        match self {
            AnyExecutor::Structured(e) => e.target_type(),
            AnyExecutor::Batch(e) => e.target_type(),
        }
    }

    fn validate(&self, alias: &AliasRecord) -> (r: Result<(), AliasError>)
        ensures
            self is Batch ==> r == batch_validate_spec(alias@, alias.executable),
    {
        match self {
            AnyExecutor::Structured(e) => e.validate(alias),
            AnyExecutor::Batch(e) => e.validate(alias),
        }
    }

    fn render_argv(&self, alias: &AliasRecord, args: &[String]) -> (r: Result<CommandSpec, AliasError>)
        ensures
            self is Batch && batch_validate_spec(alias@, alias.executable) is Err ==> r is Err,
            self is Batch && batch_validate_spec(alias@, alias.executable) is Ok ==> (r is Ok <==> none_has_batch_metachar(
                strings_view(args@),
            )),
            self is Structured && all_white_space(alias.executable@) ==> r is Err,
            self is Structured && !all_white_space(alias.executable@) && !contains_seq(alias.executable@, seq!['\\'])
                && !contains_seq(alias.executable@, seq!['/']) ==> (r is Ok <==> alias.target_type
                != TargetType::RawShellCommand && !alias.advanced_shell_mode),
    {
        match self {
            AnyExecutor::Structured(e) => e.render_argv(alias, args),
            AnyExecutor::Batch(e) => e.render_argv(alias, args),
        }
    }
}

/// The executor for an alias: batch files get the batch executor, every other
/// target the structured one.
pub fn executor_for(alias: &AliasRecord) -> (r: Result<AnyExecutor, AliasError>)
    ensures
        r matches Ok(e) && (e is Batch <==> alias.target_type == TargetType::Batch),
{
    if alias.target_type == TargetType::Batch {
        Ok(AnyExecutor::Batch(BatchExecutor))
    } else {
        Ok(AnyExecutor::Structured(StructuredExecutor))
    }
}

/// The argument vector of an alias run with `args`, given whether its target
/// path exists: a batch file is checked for metacharacters, any other target
/// by the structured checks.
pub open spec fn argv_outcome(v: AliasView, exe: String, args: Seq<Seq<char>>, target_exists: bool) -> Result<
    Seq<Seq<char>>,
    AliasError,
> {
    if v.target_type == TargetType::Batch {
        if batch_validate_spec(v, exe) is Err {
            Err(batch_validate_spec(v, exe)->Err_0)
        } else if !none_has_batch_metachar(args) {
            Err(AliasError::InvalidArgTemplate)
        } else {
            Ok(expand_args_spec(v, args))
        }
    } else if !structured_target_ok(v, target_exists) {
        Err(AliasError::TargetMissing(exe))
    } else if v.target_type == TargetType::RawShellCommand || v.advanced_shell_mode {
        Err(AliasError::AdvancedModeUnsupported)
    } else {
        Ok(expand_args_spec(v, args))
    }
}

/// The texts of an argument vector, or its error.
pub open spec fn argv_view(r: Result<Vec<String>, AliasError>) -> Result<Seq<Seq<char>>, AliasError> {
    match r {
        Ok(v) => Ok(strings_view(v@)),
        Err(e) => Err(e),
    }
}

/// Whether the file system decides the outcome for an alias: only a
/// structured target with a slash that passes every other check.
pub open spec fn target_check_decides(v: AliasView) -> bool {
    &&& v.target_type != TargetType::Batch
    &&& !all_white_space(v.executable)
    &&& !contains_seq(v.executable, seq!['\\'])
    &&& contains_seq(v.executable, seq!['/'])
}

/// Whether the target path of an alias exists on disk; asked only of
/// targets that the structured executor checks (batch files get `false`).
pub fn target_exists(alias: &AliasRecord) -> (b: bool)
    ensures
        alias.target_type == TargetType::Batch ==> !b,
{
    if alias.target_type == TargetType::Batch {
        false
    } else {
        crate::shells::common::_filesystem_exists(alias.executable.as_str())
    }
}

/// The argument vector of an alias run with `args`, given whether its target
/// path exists.
pub fn render_argv_given(alias: &AliasRecord, args: &[String], target_exists: bool) -> (r: Result<Vec<String>, AliasError>)
    ensures
        argv_view(r) == argv_outcome(alias@, alias.executable, strings_view(args@), target_exists),
{
    if alias.target_type == TargetType::Batch {
        let spec = BatchExecutor.render_argv(alias, args)?;
        Ok(spec.argv)
    } else {
        let spec = structured_command(alias, args, target_exists)?;
        Ok(spec.argv)
    }
}

/// Where the file system does not decide, both answers of the path check
/// give the same outcome.
pub proof fn lemma_argv_outcome_undecided(v: AliasView, exe: String, args: Seq<Seq<char>>)
    requires
        !target_check_decides(v),
    ensures
        argv_outcome(v, exe, args, true) == argv_outcome(v, exe, args, false),
{
}

/// The argument vector of an alias run with `args`, through its executor; the
/// structured executor asks the file system whether a target path exists.
pub fn render_argv(alias: &AliasRecord, args: &[String]) -> (r: Result<Vec<String>, AliasError>)
    ensures
        exists|e: bool| argv_view(r) == argv_outcome(alias@, alias.executable, strings_view(args@), e),
        !target_check_decides(alias@) ==> argv_view(r) == argv_outcome(
            alias@,
            alias.executable,
            strings_view(args@),
            false,
        ),
{
    let exists = target_exists(alias);
    let r = render_argv_given(alias, args, exists);
    proof {
        if !target_check_decides(alias@) {
            lemma_argv_outcome_undecided(alias@, alias.executable, strings_view(args@));
        }
    }
    r
}

// ---------------------------------------------------------------------------
// Laws of argument expansion
// ---------------------------------------------------------------------------

/// Expansion distributes over concatenation of the fixed arguments.
pub proof fn lemma_expand_fixed_concat(a: Seq<Seq<char>>, b: Seq<Seq<char>>, args: Seq<Seq<char>>)
    ensures
        expand_fixed(a + b, args) == expand_fixed(a, args) + expand_fixed(b, args),
    decreases b.len(),
{
    if b.len() == 0 {
        assert(a + b =~= a);
        assert(expand_fixed(a, args) + expand_fixed(b, args) =~= expand_fixed(a, args));
    } else {
        lemma_expand_fixed_concat(a, b.drop_last(), args);
        assert((a + b).drop_last() =~= a + b.drop_last());
        assert((a + b).last() == b.last());
        assert(expand_fixed(a + b, args) =~= expand_fixed(a, args) + expand_fixed(b, args));
    }
}

/// No placeholder counted means no placeholder present.
pub proof fn lemma_no_placeholder(xs: Seq<Seq<char>>)
    requires
        crate::validation::placeholder_count(xs) == 0,
    ensures
        !xs.contains(args_placeholder()),
    decreases xs.len(),
{
    if xs.len() > 0 {
        lemma_no_placeholder(xs.drop_last());
        assert forall|i: int| 0 <= i < xs.len() implies xs[i] != args_placeholder() by {
            if i < xs.len() - 1 {
                assert(xs.drop_last()[i] == xs[i]);
            }
        }
    }
}

/// A counted placeholder is present somewhere.
pub proof fn lemma_some_placeholder(xs: Seq<Seq<char>>)
    requires
        crate::validation::placeholder_count(xs) > 0,
    ensures
        xs.contains(args_placeholder()),
    decreases xs.len(),
{
    if xs.last() != args_placeholder() {
        lemma_some_placeholder(xs.drop_last());
        let i = choose|i: int| 0 <= i < xs.drop_last().len() && xs.drop_last()[i] == args_placeholder();
        assert(xs[i] == args_placeholder());
    } else {
        assert(xs[xs.len() - 1] == args_placeholder());
    }
}

/// Without a placeholder the expansion does not depend on the run-time
/// arguments.
pub proof fn lemma_expand_fixed_without_placeholder(fixed: Seq<Seq<char>>, args: Seq<Seq<char>>)
    requires
        !fixed.contains(args_placeholder()),
    ensures
        expand_fixed(fixed, args) == expand_fixed(fixed, Seq::empty()),
    decreases fixed.len(),
{
    if fixed.len() > 0 {
        assert(!fixed.drop_last().contains(args_placeholder())) by {
            if fixed.drop_last().contains(args_placeholder()) {
                let i = choose|i: int| 0 <= i < fixed.drop_last().len() && fixed.drop_last()[i] == args_placeholder();
                assert(fixed[i] == args_placeholder());
            }
        }
        assert(fixed[fixed.len() - 1] == fixed.last());
        lemma_expand_fixed_without_placeholder(fixed.drop_last(), args);
    }
}

/// Run-time arguments reach the command intact: for an alias that passes
/// arguments and has a valid template, the command begins with the program
/// and holds the run-time arguments, each unchanged, one after the other, in
/// their order (they are never joined into one string or split apart).
pub proof fn law_runtime_arguments_intact(v: AliasView, args: Seq<Seq<char>>)
    requires
        v.pass_args,
        crate::validation::arg_template_valid(v.fixed_args, v.pass_args),
    ensures
        expand_args_spec(v, args)[0] == v.executable,
        exists|k: int|
            1 <= k && k + args.len() <= expand_args_spec(v, args).len() && #[trigger] expand_args_spec(v, args).subrange(
                k,
                k + args.len(),
            ) == args,
{
    let argv = expand_args_spec(v, args);
    let e = expand_fixed(v.fixed_args, args);
    if crate::validation::placeholder_count(v.fixed_args) == 0 {
        lemma_no_placeholder(v.fixed_args);
        let k = 1 + e.len();
        assert(argv =~= seq![v.executable] + e + args);
        assert(argv.subrange(k as int, (k + args.len()) as int) =~= args);
    } else {
        lemma_some_placeholder(v.fixed_args);
        let p = choose|p: int| 0 <= p < v.fixed_args.len() && v.fixed_args[p] == args_placeholder();
        let pre = v.fixed_args.take(p);
        let post = v.fixed_args.skip(p + 1);
        assert(v.fixed_args =~= pre + seq![args_placeholder()] + post);
        lemma_expand_fixed_concat(pre + seq![args_placeholder()], post, args);
        lemma_expand_fixed_concat(pre, seq![args_placeholder()], args);
        let one = seq![args_placeholder()];
        assert(one.drop_last() =~= Seq::<Seq<char>>::empty());
        assert(one.last() == args_placeholder());
        assert(expand_fixed(one.drop_last(), args) =~= Seq::<Seq<char>>::empty());
        assert(expand_fixed(one, args) =~= args);
        let k = 1 + expand_fixed(pre, args).len();
        assert(argv =~= seq![v.executable] + expand_fixed(pre, args) + args + expand_fixed(post, args));
        assert(argv.subrange(k as int, (k + args.len()) as int) =~= args);
    }
}

/// An alias that does not pass arguments ignores them: with a valid template
/// its command is the same whatever is given at run time.
pub proof fn law_arguments_ignored_without_pass_args(v: AliasView, args: Seq<Seq<char>>)
    requires
        !v.pass_args,
        crate::validation::arg_template_valid(v.fixed_args, v.pass_args),
    ensures
        expand_args_spec(v, args) == expand_args_spec(v, Seq::empty()),
{
    lemma_no_placeholder(v.fixed_args);
    lemma_expand_fixed_without_placeholder(v.fixed_args, args);
    assert(expand_args_spec(v, args) =~= expand_args_spec(v, Seq::empty()));
}

} // verus!
