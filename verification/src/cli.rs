//! The command-line interface's commands and options, and the grammar
//! that reads them from the program's arguments.
use vstd::prelude::*;
use crate::model::{opt_view, strings_view};
use crate::text::{chars_of, chars_view, first_occurrence, find_seq, string_of, sub_chars};

verus! {

/// The options and the command of one invocation.
#[derive(Debug)]
pub struct Cli {
    pub config_dir: Option<String>,
    pub format: OutputFormat,
    pub no_color: bool,
    pub verbose: bool,
    pub quiet: bool,
    pub command: Command,
}

/// How listings are printed.
#[derive(Debug, Clone, Copy, PartialEq, Eq, Structural)]
pub enum OutputFormat {
    Table,
    Json,
}

/// A command of the command-line tool.
#[derive(Debug)]
pub enum Command {
    Add(AddArgs),
    Remove { name: String, yes: bool },
    Update { name: String },
    Rename { old: String, new: String },
    Get { name: String },
    Find { query: String, fuzzy: bool, field: Option<String>, limit: Option<usize>, tags: Vec<String> },
    List { sort: Option<String>, desc: bool, limit: Option<usize>, tags: Vec<String> },
    Enable { name: String },
    Disable { name: String },
    Sync { dry_run: bool },
    Reload { print: bool },
    Doctor,
    Shell { command: ShellCommand },
    Import { file: String },
    Export { file: String },
    Uninstall { purge_aliases: bool },
}

/// The arguments of `add` (`--exec` fills `executable`).
#[derive(Debug)]
pub struct AddArgs {
    pub name: String,
    pub executable: String,
    pub args: Vec<String>,
    pub shell: Vec<String>,
    pub cwd: Option<String>,
    pub environment: Vec<String>,
    pub tags: Vec<String>,
    pub no_pass_args: bool,
}

/// A command of `shell`.
#[derive(Debug)]
pub enum ShellCommand {
    Detect,
    Install { shell: String },
    Uninstall { shell: String },
}

// ---------------------------------------------------------------------------
// Scanning arguments
// ---------------------------------------------------------------------------

/// Why the arguments were not accepted (or a request for help or the
/// version, which ends parsing the same way).
#[derive(Debug, Clone, Copy, PartialEq, Eq, Structural)]
pub enum CliErrorKind {
    DisplayHelp,
    DisplayVersion,
    UnknownArgument,
    UnexpectedArgument,
    ArgumentUsedTwice,
    MissingValue,
    UnexpectedValue,
    MissingArgument,
    MissingSubcommand,
    InvalidSubcommand,
    InvalidValue,
    ArgumentConflict,
}

/// A refused command line: the kind of error and the argument it concerns.
#[derive(Debug)]
pub struct CliError {
    pub kind: CliErrorKind,
    pub argument: String,
}

/// The options one command takes: flags, options with one value, options
/// that may repeat, the number of positional arguments, and whether
/// `-V`/`--version` is known.
pub struct ArgSchema {
    pub flags: Seq<Seq<char>>,
    pub singles: Seq<Seq<char>>,
    pub multis: Seq<Seq<char>>,
    pub positionals: nat,
    pub version: bool,
}

/// What scanning found: flags in order, option values in order, positional
/// arguments in order.
pub struct Scan {
    pub flags: Seq<Seq<char>>,
    pub singles: Seq<(Seq<char>, Seq<char>)>,
    pub multis: Seq<(Seq<char>, Seq<char>)>,
    pub positionals: Seq<Seq<char>>,
}

/// Nothing found yet.
pub open spec fn empty_scan() -> Scan {
    Scan { flags: Seq::empty(), singles: Seq::empty(), multis: Seq::empty(), positionals: Seq::empty() }
}

/// A token that is an option rather than a value: a dash followed by more.
pub open spec fn looks_like_option(t: Seq<char>) -> bool {
    t.len() > 1 && t[0] == '-'
}

/// A long option: two dashes followed by more.
pub open spec fn is_long(t: Seq<char>) -> bool {
    t.len() > 2 && t[0] == '-' && t[1] == '-'
}

/// The name of a long option: the text after the dashes, up to a `=`.
pub open spec fn long_name(t: Seq<char>) -> Seq<char> {
    let body = t.skip(2);
    match first_occurrence(body, seq!['=']) {
        Some(k) => body.take(k),
        None => body,
    }
}

/// The value written into a long option after `=`, if any.
pub open spec fn inline_value(t: Seq<char>) -> Option<Seq<char>> {
    let body = t.skip(2);
    match first_occurrence(body, seq!['=']) {
        Some(k) => Some(body.skip(k + 1)),
        None => None,
    }
}

/// Whether an option with one value was already given.
pub open spec fn has_single(pairs: Seq<(Seq<char>, Seq<char>)>, name: Seq<char>) -> bool {
    exists|j: int| 0 <= j < pairs.len() && #[trigger] pairs[j].0 == name
}

/// An error of scanning.
pub open spec fn scan_error(kind: CliErrorKind, arg: Seq<char>) -> Result<(Scan, int), (CliErrorKind, Seq<char>)> {
    Err((kind, arg))
}

/// Whether an option's value is one the option accepts: `--limit` takes a
/// count and `--format` one of `table` and `json`; other values are free.
pub open spec fn value_ok(name: Seq<char>, v: Seq<char>) -> bool {
    if name == "limit"@ {
        usize_of(v) is Some
    } else if name == "format"@ {
        v == "table"@ || v == "json"@
    } else {
        true
    }
}

/// Scans tokens from position `i` by a schema. Positional arguments are
/// collected (or, when `stop` is set, end the scan at their position);
/// after `--` every token is positional. `-h` and `--help` ask for help,
/// `-V` and `--version` for the version where known. A flag may appear
/// once and takes no value; an option with one value may appear once; a
/// repeated option may appear many times; an option's value follows `=`
/// or is the next token, which must not look like an option, and is
/// checked as soon as it is read. Unknown
/// options and positional arguments beyond the schema are refused.
pub open spec fn scan_from(
    tokens: Seq<Seq<char>>,
    i: int,
    schema: ArgSchema,
    stop: bool,
    dd: bool,
    acc: Scan,
) -> Result<(Scan, int), (CliErrorKind, Seq<char>)>
    decreases tokens.len() - i,
{
    if i < 0 || i >= tokens.len() {
        Ok((acc, i))
    } else {
        let t = tokens[i];
        if dd || !looks_like_option(t) {
            if stop {
                Ok((acc, i))
            } else if acc.positionals.len() >= schema.positionals {
                scan_error(CliErrorKind::UnexpectedArgument, t)
            } else {
                scan_from(tokens, i + 1, schema, stop, dd, Scan { positionals: acc.positionals.push(t), ..acc })
            }
        } else if t == seq!['-', '-'] {
            if stop {
                scan_error(CliErrorKind::UnexpectedArgument, t)
            } else {
                scan_from(tokens, i + 1, schema, stop, true, acc)
            }
        } else if t == seq!['-', 'h'] {
            scan_error(CliErrorKind::DisplayHelp, t)
        } else if t == seq!['-', 'V'] && schema.version {
            scan_error(CliErrorKind::DisplayVersion, t)
        } else if !is_long(t) {
            scan_error(CliErrorKind::UnknownArgument, t)
        } else {
            let name = long_name(t);
            if name == "help"@ {
                scan_error(CliErrorKind::DisplayHelp, t)
            } else if name == "version"@ && schema.version {
                scan_error(CliErrorKind::DisplayVersion, t)
            } else if schema.flags.contains(name) {
                if inline_value(t) is Some {
                    scan_error(CliErrorKind::UnexpectedValue, name)
                } else if acc.flags.contains(name) {
                    scan_error(CliErrorKind::ArgumentUsedTwice, name)
                } else {
                    scan_from(tokens, i + 1, schema, stop, dd, Scan { flags: acc.flags.push(name), ..acc })
                }
            } else if schema.singles.contains(name) || schema.multis.contains(name) {
                let (value, next) = match inline_value(t) {
                    Some(v) => (Some(v), i + 1),
                    None => if i + 1 < tokens.len() && !looks_like_option(tokens[i + 1]) {
                        (Some(tokens[i + 1]), i + 2)
                    } else {
                        (None, i + 1)
                    },
                };
                match value {
                    None => scan_error(CliErrorKind::MissingValue, name),
                    Some(v) => if !value_ok(name, v) {
                        scan_error(CliErrorKind::InvalidValue, v)
                    } else if schema.singles.contains(name) {
                        if has_single(acc.singles, name) {
                            scan_error(CliErrorKind::ArgumentUsedTwice, name)
                        } else {
                            scan_from(tokens, next, schema, stop, dd, Scan { singles: acc.singles.push((name, v)), ..acc })
                        }
                    } else {
                        scan_from(tokens, next, schema, stop, dd, Scan { multis: acc.multis.push((name, v)), ..acc })
                    },
                }
            } else {
                scan_error(CliErrorKind::UnknownArgument, t)
            }
        }
    }
}

/// The options of one command, as the program knows them.
pub struct Schema {
    pub flags: Vec<&'static str>,
    pub singles: Vec<&'static str>,
    pub multis: Vec<&'static str>,
    pub positionals: usize,
    pub version: bool,
}

/// The texts of string slices.
pub open spec fn strs_view(v: Seq<&'static str>) -> Seq<Seq<char>> {
    v.map_values(|s: &'static str| s@)
}

/// The value of a schema.
pub open spec fn schema_view(s: Schema) -> ArgSchema {
    ArgSchema {
        flags: strs_view(s.flags@),
        singles: strs_view(s.singles@),
        multis: strs_view(s.multis@),
        positionals: s.positionals as nat,
        version: s.version,
    }
}

/// The texts of pairs of character vectors.
pub open spec fn pairs_view(v: Seq<(Vec<char>, Vec<char>)>) -> Seq<(Seq<char>, Seq<char>)> {
    v.map_values(|p: (Vec<char>, Vec<char>)| (p.0@, p.1@))
}

/// What scanning found, as the program holds it.
pub struct ScanResult {
    pub flags: Vec<Vec<char>>,
    pub singles: Vec<(Vec<char>, Vec<char>)>,
    pub multis: Vec<(Vec<char>, Vec<char>)>,
    pub positionals: Vec<Vec<char>>,
}

/// The value of a scan result.
pub open spec fn scan_view(r: ScanResult) -> Scan {
    Scan {
        flags: chars_view(r.flags@),
        singles: pairs_view(r.singles@),
        multis: pairs_view(r.multis@),
        positionals: chars_view(r.positionals@),
    }
}

/// Whether a name is among string slices.
fn names_contain(list: &Vec<&'static str>, name: &Vec<char>) -> (b: bool)
    ensures
        b == strs_view(list@).contains(name@),
{
    let mut i: usize = 0;
    while i < list.len()
        invariant
            i <= list@.len(),
            forall|j: int| 0 <= j < i ==> strs_view(list@)[j] != name@,
        decreases list.len() - i,
    {
        assert(strs_view(list@)[i as int] == list@[i as int]@);
        let item = chars_of(list[i]);
        if vec_eq(&item, name) {
            return true;
        }
        i += 1;
    }
    false
}

/// Whether two character vectors hold the same text.
fn vec_eq(a: &Vec<char>, b: &Vec<char>) -> (r: bool)
    ensures
        r == (a@ == b@),
{
    if a.len() != b.len() {
        return false;
    }
    let mut i: usize = 0;
    while i < a.len()
        invariant
            a@.len() == b@.len(),
            i <= a@.len(),
            forall|j: int| 0 <= j < i ==> a@[j] == b@[j],
        decreases a.len() - i,
    {
        if a[i] != b[i] {
            return false;
        }
        i += 1;
    }
    assert(a@ =~= b@);
    true
}

/// Whether a text is among character vectors.
fn vecs_contain(list: &Vec<Vec<char>>, name: &Vec<char>) -> (b: bool)
    ensures
        b == chars_view(list@).contains(name@),
{
    let mut i: usize = 0;
    while i < list.len()
        invariant
            i <= list@.len(),
            forall|j: int| 0 <= j < i ==> chars_view(list@)[j] != name@,
        decreases list.len() - i,
    {
        assert(chars_view(list@)[i as int] == list@[i as int]@);
        if vec_eq(&list[i], name) {
            return true;
        }
        i += 1;
    }
    false
}

/// Whether an option with one value was already given.
fn singles_contain(list: &Vec<(Vec<char>, Vec<char>)>, name: &Vec<char>) -> (b: bool)
    ensures
        b == has_single(pairs_view(list@), name@),
{
    let mut i: usize = 0;
    while i < list.len()
        invariant
            i <= list@.len(),
            forall|j: int| 0 <= j < i ==> pairs_view(list@)[j].0 != name@,
        decreases list.len() - i,
    {
        assert(pairs_view(list@)[i as int].0 == list@[i as int].0@);
        if vec_eq(&list[i].0, name) {
            return true;
        }
        i += 1;
    }
    false
}

/// A token's name and inline value, for a long option.
fn split_long(t: &Vec<char>) -> (r: (Vec<char>, Option<Vec<char>>))
    requires
        is_long(t@),
    ensures
        r.0@ == long_name(t@),
        match r.1 {
            Some(v) => inline_value(t@) == Some(v@),
            None => inline_value(t@) is None,
        },
{
    let body = sub_chars(t, 2, t.len());
    assert(body@ =~= t@.skip(2));
    let mut eq: Vec<char> = Vec::new();
    eq.push('=');
    assert(eq@ =~= seq!['=']);
    match find_seq(&body, &eq) {
        Some(k) => {
            let name = sub_chars(&body, 0, k);
            let value = sub_chars(&body, k + 1, body.len());
            assert(name@ =~= body@.take(k as int));
            assert(value@ =~= body@.skip(k + 1));
            (name, Some(value))
        },
        None => (body, None),
    }
}

/// Whether an option's value is one the option accepts.
fn value_accepted(name: &Vec<char>, v: &Vec<char>) -> (b: bool)
    ensures
        b == value_ok(name@, v@),
{
    if vec_eq(name, &chars_of("limit")) {
        parse_usize(v).is_some()
    } else if vec_eq(name, &chars_of("format")) {
        vec_eq(v, &chars_of("table")) || vec_eq(v, &chars_of("json"))
    } else {
        true
    }
}

/// An error of scanning, as the program returns it.
fn cli_error(kind: CliErrorKind, arg: &Vec<char>) -> (e: CliError)
    ensures
        e.kind == kind,
        e.argument@ == arg@,
{
    CliError { kind, argument: string_of(arg) }
}

/// The value of a scan outcome.
pub open spec fn outcome_view(r: Result<(ScanResult, usize), CliError>) -> Result<(Scan, int), (CliErrorKind, Seq<char>)> {
    match r {
        Ok((s, i)) => Ok((scan_view(s), i as int)),
        Err(e) => Err((e.kind, e.argument@)),
    }
}

/// Scans tokens from a position by a schema.
pub fn scan_tokens(tokens: &Vec<Vec<char>>, start: usize, schema: &Schema, stop: bool) -> (r: Result<(ScanResult, usize), CliError>)
    requires
        start <= tokens@.len(),
    ensures
        outcome_view(r) == scan_from(chars_view(tokens@), start as int, schema_view(*schema), stop, false, empty_scan()),
        r matches Ok((_, i)) ==> start <= i <= tokens@.len(),
{
    let ghost tv = chars_view(tokens@);
    let ghost sv = schema_view(*schema);
    let mut acc = ScanResult { flags: Vec::new(), singles: Vec::new(), multis: Vec::new(), positionals: Vec::new() };
    assert(scan_view(acc) =~= empty_scan()) by {
        assert(chars_view(acc.flags@) =~= Seq::<Seq<char>>::empty());
        assert(pairs_view(acc.singles@) =~= Seq::<(Seq<char>, Seq<char>)>::empty());
        assert(pairs_view(acc.multis@) =~= Seq::<(Seq<char>, Seq<char>)>::empty());
        assert(chars_view(acc.positionals@) =~= Seq::<Seq<char>>::empty());
    }
    let mut i = start;
    let mut dd = false;
    while i < tokens.len()
        invariant
            start <= i <= tokens@.len(),
            tv == chars_view(tokens@),
            sv == schema_view(*schema),
            scan_from(tv, start as int, sv, stop, false, empty_scan()) == scan_from(tv, i as int, sv, stop, dd, scan_view(acc)),
        decreases tokens.len() - i,
    {
        let t = &tokens[i];
        assert(tv[i as int] == t@);
        let is_option = t.len() > 1 && t[0] == '-';
        if dd || !is_option {
            if stop {
                return Ok((acc, i));
            }
            if acc.positionals.len() >= schema.positionals {
                return Err(cli_error(CliErrorKind::UnexpectedArgument, t));
            }
            let ghost prev = acc.positionals@;
            acc.positionals.push(t.clone());
            assert(chars_view(acc.positionals@) =~= chars_view(prev).push(t@));
            i += 1;
        } else if t.len() == 2 && t[1] == '-' {
            assert(t@ =~= seq!['-', '-']);
            if stop {
                return Err(cli_error(CliErrorKind::UnexpectedArgument, t));
            }
            dd = true;
            i += 1;
        } else if t.len() == 2 && t[1] == 'h' {
            assert(t@ =~= seq!['-', 'h']);
            return Err(cli_error(CliErrorKind::DisplayHelp, t));
        } else if t.len() == 2 && t[1] == 'V' && schema.version {
            assert(t@ =~= seq!['-', 'V']);
            return Err(cli_error(CliErrorKind::DisplayVersion, t));
        } else if !(t.len() > 2 && t[1] == '-') {
            assert(t@ != seq!['-', '-'] && t@ != seq!['-', 'h']);
            assert(!(t@ == seq!['-', 'V'] && sv.version));
            return Err(cli_error(CliErrorKind::UnknownArgument, t));
        } else {
            assert(t@ != seq!['-', '-'] && t@ != seq!['-', 'h'] && t@ != seq!['-', 'V']);
            let (name, inline) = split_long(t);
            let help = chars_of("help");
            let version = chars_of("version");
            if vec_eq(&name, &help) {
                return Err(cli_error(CliErrorKind::DisplayHelp, t));
            }
            if vec_eq(&name, &version) && schema.version {
                return Err(cli_error(CliErrorKind::DisplayVersion, t));
            }
            if names_contain(&schema.flags, &name) {
                if inline.is_some() {
                    return Err(cli_error(CliErrorKind::UnexpectedValue, &name));
                }
                if vecs_contain(&acc.flags, &name) {
                    return Err(cli_error(CliErrorKind::ArgumentUsedTwice, &name));
                }
                let ghost prev = acc.flags@;
                acc.flags.push(name);
                assert(chars_view(acc.flags@) =~= chars_view(prev).push(long_name(t@)));
                i += 1;
            } else {
                let single = names_contain(&schema.singles, &name);
                let multi = names_contain(&schema.multis, &name);
                if !single && !multi {
                    return Err(cli_error(CliErrorKind::UnknownArgument, t));
                }
                let (value, next) = match inline {
                    Some(v) => (Some(v), i + 1),
                    None => {
                        if i + 1 < tokens.len() && !(tokens[i + 1].len() > 1 && tokens[i + 1][0] == '-') {
                            assert(tv[i + 1] == tokens@[i + 1]@);
                            (Some(tokens[i + 1].clone()), i + 2)
                        } else {
                            proof {
                                if i + 1 < tokens@.len() {
                                    assert(tv[i + 1] == tokens@[i + 1]@);
                                }
                            }
                            (None, i + 1)
                        }
                    },
                };
                match value {
                    None => {
                        return Err(cli_error(CliErrorKind::MissingValue, &name));
                    },
                    Some(v) => {
                        if !value_accepted(&name, &v) {
                            return Err(cli_error(CliErrorKind::InvalidValue, &v));
                        }
                        if single {
                            if singles_contain(&acc.singles, &name) {
                                return Err(cli_error(CliErrorKind::ArgumentUsedTwice, &name));
                            }
                            let ghost prev = acc.singles@;
                            let ghost pair = (name@, v@);
                            acc.singles.push((name, v));
                            assert(pairs_view(acc.singles@) =~= pairs_view(prev).push(pair));
                        } else {
                            let ghost prev = acc.multis@;
                            let ghost pair = (name@, v@);
                            acc.multis.push((name, v));
                            assert(pairs_view(acc.multis@) =~= pairs_view(prev).push(pair));
                        }
                        i = next;
                    },
                }
            }
        }
    }
    Ok((acc, i))
}

// ---------------------------------------------------------------------------
// Values of options
// ---------------------------------------------------------------------------

/// The value of the first occurrence of an option.
pub open spec fn single_of(pairs: Seq<(Seq<char>, Seq<char>)>, name: Seq<char>) -> Option<Seq<char>>
    decreases pairs.len(),
{
    if pairs.len() == 0 {
        None
    } else if pairs[0].0 == name {
        Some(pairs[0].1)
    } else {
        single_of(pairs.skip(1), name)
    }
}

/// The values of every occurrence of an option, in order.
pub open spec fn multi_of(pairs: Seq<(Seq<char>, Seq<char>)>, name: Seq<char>) -> Seq<Seq<char>>
    decreases pairs.len(),
{
    if pairs.len() == 0 {
        Seq::empty()
    } else if pairs.last().0 == name {
        multi_of(pairs.drop_last(), name).push(pairs.last().1)
    } else {
        multi_of(pairs.drop_last(), name)
    }
}

/// The value of the first occurrence of an option.
fn single_value(pairs: &Vec<(Vec<char>, Vec<char>)>, name: &str) -> (r: Option<Vec<char>>)
    ensures
        match r {
            Some(v) => single_of(pairs_view(pairs@), name@) == Some(v@),
            None => single_of(pairs_view(pairs@), name@) is None,
        },
{
    let n = chars_of(name);
    let ghost pv = pairs_view(pairs@);
    let mut i: usize = 0;
    assert(pv.skip(0) =~= pv);
    while i < pairs.len()
        invariant
            i <= pairs@.len(),
            n@ == name@,
            pv == pairs_view(pairs@),
            single_of(pv.skip(i as int), name@) == single_of(pv, name@),
        decreases pairs.len() - i,
    {
        assert(pv.skip(i as int)[0] == pv[i as int]);
        assert(pv[i as int] == (pairs@[i as int].0@, pairs@[i as int].1@));
        if vec_eq(&pairs[i].0, &n) {
            return Some(pairs[i].1.clone());
        }
        assert(pv.skip(i as int).skip(1) =~= pv.skip(i + 1));
        i += 1;
    }
    None
}

/// The values of every occurrence of an option, in order.
fn multi_values(pairs: &Vec<(Vec<char>, Vec<char>)>, name: &str) -> (r: Vec<String>)
    ensures
        crate::model::strings_view(r@) == multi_of(pairs_view(pairs@), name@),
{
    let n = chars_of(name);
    let ghost pv = pairs_view(pairs@);
    let mut out: Vec<String> = Vec::new();
    let mut i: usize = 0;
    while i < pairs.len()
        invariant
            i <= pairs@.len(),
            n@ == name@,
            pv == pairs_view(pairs@),
            crate::model::strings_view(out@) == multi_of(pv.take(i as int), name@),
        decreases pairs.len() - i,
    {
        assert(pv.take(i + 1).drop_last() =~= pv.take(i as int));
        assert(pv.take(i + 1).last() == (pairs@[i as int].0@, pairs@[i as int].1@));
        if vec_eq(&pairs[i].0, &n) {
            let ghost prev = out@;
            out.push(string_of(&pairs[i].1));
            assert(crate::model::strings_view(out@) =~= crate::model::strings_view(prev).push(pairs@[i as int].1@));
        }
        i += 1;
    }
    assert(pv.take(pv.len() as int) =~= pv);
    out
}

/// Whether a flag was given.
fn flag_given(flags: &Vec<Vec<char>>, name: &str) -> (b: bool)
    ensures
        b == chars_view(flags@).contains(name@),
{
    vecs_contain(flags, &chars_of(name))
}

/// The value of decimal digits.
pub open spec fn digits_value(d: Seq<char>) -> nat
    decreases d.len(),
{
    if d.len() == 0 {
        0
    } else {
        digits_value(d.drop_last()) * 10 + ((d.last() as u32 - '0' as u32) as nat)
    }
}

/// Whether every character is a decimal digit.
pub open spec fn all_digits(d: Seq<char>) -> bool {
    forall|i: int| 0 <= i < d.len() ==> '0' <= #[trigger] d[i] && d[i] <= '9'
}

/// A count written in decimal, with an optional leading `+`, that fits in a
/// machine word.
pub open spec fn usize_of(v: Seq<char>) -> Option<usize> {
    let d = if v.len() > 0 && v[0] == '+' {
        v.skip(1)
    } else {
        v
    };
    if d.len() > 0 && all_digits(d) && digits_value(d) <= usize::MAX {
        Some(digits_value(d) as usize)
    } else {
        None
    }
}

/// More digits never give a smaller value.
proof fn lemma_digits_grow(d: Seq<char>, k: int)
    requires
        0 <= k <= d.len(),
        all_digits(d),
    ensures
        digits_value(d.take(k)) <= digits_value(d),
    decreases d.len() - k,
{
    if k < d.len() {
        lemma_digits_grow(d, k + 1);
        assert(d.take(k + 1).drop_last() =~= d.take(k));
        assert(d.take(k + 1).last() == d[k]);
        assert(digits_value(d.take(k)) <= digits_value(d.take(k)) * 10) by (nonlinear_arith);
    } else {
        assert(d.take(k) =~= d);
    }
}

/// Reads a count.
fn parse_usize(v: &Vec<char>) -> (r: Option<usize>)
    ensures
        r == usize_of(v@),
{
    let start: usize = if v.len() > 0 && v[0] == '+' { 1 } else { 0 };
    let ghost d = if v@.len() > 0 && v@[0] == '+' { v@.skip(1) } else { v@ };
    assert(d =~= v@.skip(start as int));
    if start >= v.len() {
        return None;
    }
    let mut acc: usize = 0;
    let mut i: usize = start;
    assert(d.take(0) =~= Seq::<char>::empty());
    while i < v.len()
        invariant
            start <= i <= v@.len(),
            d == v@.skip(start as int),
            d == (if v@.len() > 0 && v@[0] == '+' { v@.skip(1) } else { v@ }),
            acc == digits_value(d.take(i - start)),
            forall|j: int| 0 <= j < i - start ==> '0' <= #[trigger] d[j] && d[j] <= '9',
        decreases v.len() - i,
    {
        let c = v[i];
        assert(d[i - start] == c);
        if c < '0' || c > '9' {
            assert(!all_digits(d)) by {
                assert(!('0' <= d[i - start] && d[i - start] <= '9'));
            }
            return None;
        }
        let digit = (c as u32 - '0' as u32) as usize;
        assert(d.take(i - start + 1).drop_last() =~= d.take(i - start));
        assert(d.take(i - start + 1).last() == c);
        if acc > (usize::MAX - digit) / 10 {
            proof {
                assert(acc * 10 + digit > usize::MAX) by (nonlinear_arith)
                    requires
                        acc > (usize::MAX - digit) / 10,
                        digit <= 9,
                ;
                if all_digits(d) {
                    lemma_digits_grow(d, i - start + 1);
                    assert(digits_value(d) > usize::MAX);
                }
            }
            return None;
        }
        acc = acc * 10 + digit;
        i += 1;
    }
    assert(d.take(i - start) =~= d);
    Some(acc)
}

// ---------------------------------------------------------------------------
// The grammar
// ---------------------------------------------------------------------------

/// A `shell` command as parsed.
pub enum ShellCommandView {
    Detect,
    Install(Seq<char>),
    Uninstall(Seq<char>),
}

/// A command as parsed.
pub enum CommandView {
    Add {
        name: Seq<char>,
        executable: Seq<char>,
        args: Seq<Seq<char>>,
        shell: Seq<Seq<char>>,
        cwd: Option<Seq<char>>,
        environment: Seq<Seq<char>>,
        tags: Seq<Seq<char>>,
        no_pass_args: bool,
    },
    Remove { name: Seq<char>, yes: bool },
    Update { name: Seq<char> },
    Rename { old: Seq<char>, new: Seq<char> },
    Get { name: Seq<char> },
    Find { query: Seq<char>, fuzzy: bool, field: Option<Seq<char>>, limit: Option<usize>, tags: Seq<Seq<char>> },
    List { sort: Option<Seq<char>>, desc: bool, limit: Option<usize>, tags: Seq<Seq<char>> },
    Enable { name: Seq<char> },
    Disable { name: Seq<char> },
    Sync { dry_run: bool },
    Reload { print: bool },
    Doctor,
    Shell(ShellCommandView),
    Import { file: Seq<char> },
    Export { file: Seq<char> },
    Uninstall { purge_aliases: bool },
}

/// A command line as parsed.
pub struct CliView {
    pub config_dir: Option<Seq<char>>,
    pub format: OutputFormat,
    pub no_color: bool,
    pub verbose: bool,
    pub quiet: bool,
    pub command: CommandView,
}

/// The options before the command.
pub open spec fn global_schema() -> ArgSchema {
    ArgSchema {
        flags: seq!["no-color"@, "verbose"@, "quiet"@],
        singles: seq!["config-dir"@, "format"@],
        multis: Seq::empty(),
        positionals: 0,
        version: true,
    }
}

/// A schema of flags, options and positional arguments, without version.
pub open spec fn schema_of(
    flags: Seq<Seq<char>>,
    singles: Seq<Seq<char>>,
    multis: Seq<Seq<char>>,
    positionals: nat,
) -> ArgSchema {
    ArgSchema { flags, singles, multis, positionals, version: false }
}

/// The options of each command.
pub open spec fn command_schema(word: Seq<char>) -> Option<ArgSchema> {
    if word == "add"@ {
        Some(schema_of(seq!["no-pass-args"@], seq!["exec"@, "cwd"@], seq!["arg"@, "shell"@, "env"@, "tag"@], 1))
    } else if word == "remove"@ {
        Some(schema_of(seq!["yes"@], Seq::empty(), Seq::empty(), 1))
    } else if word == "update"@ || word == "get"@ || word == "enable"@ || word == "disable"@ || word == "import"@
        || word == "export"@ {
        Some(schema_of(Seq::empty(), Seq::empty(), Seq::empty(), 1))
    } else if word == "rename"@ {
        Some(schema_of(Seq::empty(), Seq::empty(), Seq::empty(), 2))
    } else if word == "find"@ {
        Some(schema_of(seq!["fuzzy"@], seq!["field"@, "limit"@], seq!["tag"@], 1))
    } else if word == "list"@ {
        Some(schema_of(seq!["desc"@], seq!["sort"@, "limit"@], seq!["tag"@], 0))
    } else if word == "sync"@ {
        Some(schema_of(seq!["dry-run"@], Seq::empty(), Seq::empty(), 0))
    } else if word == "reload"@ {
        Some(schema_of(seq!["print"@], Seq::empty(), Seq::empty(), 0))
    } else if word == "doctor"@ || word == "shell"@ {
        Some(schema_of(Seq::empty(), Seq::empty(), Seq::empty(), 0))
    } else if word == "uninstall"@ {
        Some(schema_of(seq!["purge-aliases"@], Seq::empty(), Seq::empty(), 0))
    } else {
        None
    }
}

/// The options of each `shell` command.
pub open spec fn shell_schema(word: Seq<char>) -> Option<ArgSchema> {
    if word == "detect"@ {
        Some(schema_of(Seq::empty(), Seq::empty(), Seq::empty(), 0))
    } else if word == "install"@ || word == "uninstall"@ {
        Some(schema_of(Seq::empty(), Seq::empty(), Seq::empty(), 1))
    } else {
        None
    }
}

/// A count option's value (scanning has already refused one that is not a
/// count).
pub open spec fn limit_of(s: Scan) -> Option<usize> {
    match single_of(s.singles, "limit"@) {
        None => None,
        Some(v) => usize_of(v),
    }
}

/// The command a word and its scanned arguments denote; positional
/// arguments and `--exec` for `add` are required.
pub open spec fn command_of(word: Seq<char>, s: Scan) -> Result<CommandView, (CliErrorKind, Seq<char>)> {
    let p = s.positionals;
    if word == "add"@ {
        if p.len() < 1 {
            Err((CliErrorKind::MissingArgument, "name"@))
        } else if single_of(s.singles, "exec"@) is None {
            Err((CliErrorKind::MissingArgument, "exec"@))
        } else {
            Ok(CommandView::Add {
                name: p[0],
                executable: single_of(s.singles, "exec"@)->0,
                args: multi_of(s.multis, "arg"@),
                shell: multi_of(s.multis, "shell"@),
                cwd: single_of(s.singles, "cwd"@),
                environment: multi_of(s.multis, "env"@),
                tags: multi_of(s.multis, "tag"@),
                no_pass_args: s.flags.contains("no-pass-args"@),
            })
        }
    } else if word == "rename"@ {
        if p.len() < 1 {
            Err((CliErrorKind::MissingArgument, "old"@))
        } else if p.len() < 2 {
            Err((CliErrorKind::MissingArgument, "new"@))
        } else {
            Ok(CommandView::Rename { old: p[0], new: p[1] })
        }
    } else if word == "find"@ {
        if p.len() < 1 {
            Err((CliErrorKind::MissingArgument, "query"@))
        } else {
            Ok(CommandView::Find {
                query: p[0],
                fuzzy: s.flags.contains("fuzzy"@),
                field: single_of(s.singles, "field"@),
                limit: limit_of(s),
                tags: multi_of(s.multis, "tag"@),
            })
        }
    } else if word == "list"@ {
        Ok(CommandView::List {
            sort: single_of(s.singles, "sort"@),
            desc: s.flags.contains("desc"@),
            limit: limit_of(s),
            tags: multi_of(s.multis, "tag"@),
        })
    } else if word == "import"@ || word == "export"@ {
        if p.len() < 1 {
            Err((CliErrorKind::MissingArgument, "file"@))
        } else if word == "import"@ {
            Ok(CommandView::Import { file: p[0] })
        } else {
            Ok(CommandView::Export { file: p[0] })
        }
    } else if word == "remove"@ || word == "update"@ || word == "get"@ || word == "enable"@ || word == "disable"@ {
        if p.len() < 1 {
            Err((CliErrorKind::MissingArgument, "name"@))
        } else if word == "remove"@ {
            Ok(CommandView::Remove { name: p[0], yes: s.flags.contains("yes"@) })
        } else if word == "update"@ {
            Ok(CommandView::Update { name: p[0] })
        } else if word == "get"@ {
            Ok(CommandView::Get { name: p[0] })
        } else if word == "enable"@ {
            Ok(CommandView::Enable { name: p[0] })
        } else {
            Ok(CommandView::Disable { name: p[0] })
        }
    } else if word == "sync"@ {
        Ok(CommandView::Sync { dry_run: s.flags.contains("dry-run"@) })
    } else if word == "reload"@ {
        Ok(CommandView::Reload { print: s.flags.contains("print"@) })
    } else if word == "uninstall"@ {
        Ok(CommandView::Uninstall { purge_aliases: s.flags.contains("purge-aliases"@) })
    } else {
        Ok(CommandView::Doctor)
    }
}

/// The `shell` command a word and its scanned arguments denote.
pub open spec fn shell_command_of(word: Seq<char>, s: Scan) -> Result<ShellCommandView, (CliErrorKind, Seq<char>)> {
    if word == "detect"@ {
        Ok(ShellCommandView::Detect)
    } else if s.positionals.len() < 1 {
        Err((CliErrorKind::MissingArgument, "shell"@))
    } else if word == "install"@ {
        Ok(ShellCommandView::Install(s.positionals[0]))
    } else {
        Ok(ShellCommandView::Uninstall(s.positionals[0]))
    }
}

/// The command part of a command line, from the position of its word
/// (`start` is where the options before it began). With nothing at all
/// given help is shown; `help` in place of a command shows help too.
pub open spec fn parse_command(tokens: Seq<Seq<char>>, start: int, k: int) -> Result<CommandView, (CliErrorKind, Seq<char>)> {
    if k < 0 || k >= tokens.len() {
        if k <= start {
            Err((CliErrorKind::DisplayHelp, "aliasmgr"@))
        } else {
            Err((CliErrorKind::MissingSubcommand, "aliasmgr"@))
        }
    } else {
        let word = tokens[k];
        if word == "help"@ {
            Err((CliErrorKind::DisplayHelp, word))
        } else {
            match command_schema(word) {
                None => Err((CliErrorKind::InvalidSubcommand, word)),
                Some(schema) => if word == "shell"@ {
                    match scan_from(tokens, k + 1, schema, true, false, empty_scan()) {
                        Err(e) => Err(e),
                        Ok((_, k2)) => if k2 < 0 || k2 >= tokens.len() || tokens[k2] == "help"@ {
                            Err((CliErrorKind::DisplayHelp, "shell"@))
                        } else {
                            match shell_schema(tokens[k2]) {
                                None => Err((CliErrorKind::InvalidSubcommand, tokens[k2])),
                                Some(sub) => match scan_from(tokens, k2 + 1, sub, false, false, empty_scan()) {
                                    Err(e) => Err(e),
                                    Ok((s2, _)) => match shell_command_of(tokens[k2], s2) {
                                        Err(e) => Err(e),
                                        Ok(c) => Ok(CommandView::Shell(c)),
                                    },
                                },
                            }
                        },
                    }
                } else {
                    match scan_from(tokens, k + 1, schema, false, false, empty_scan()) {
                        Err(e) => Err(e),
                        Ok((s, _)) => command_of(word, s),
                    }
                },
            }
        }
    }
}

/// A command line (the program name first): the options before the
/// command, then the command, then the check that `--verbose` and
/// `--quiet` are not both given.
pub open spec fn parse_spec(tokens: Seq<Seq<char>>) -> Result<CliView, (CliErrorKind, Seq<char>)> {
    match scan_from(tokens, 1, global_schema(), true, false, empty_scan()) {
        Err(e) => Err(e),
        Ok((g, k)) => match parse_command(tokens, 1, k) {
            Err(e) => Err(e),
            Ok(command) => if g.flags.contains("verbose"@) && g.flags.contains("quiet"@) {
                Err((CliErrorKind::ArgumentConflict, "quiet"@))
            } else {
                Ok(CliView {
                    config_dir: single_of(g.singles, "config-dir"@),
                    format: if single_of(g.singles, "format"@) == Some("json"@) {
                        OutputFormat::Json
                    } else {
                        OutputFormat::Table
                    },
                    no_color: g.flags.contains("no-color"@),
                    verbose: g.flags.contains("verbose"@),
                    quiet: g.flags.contains("quiet"@),
                    command,
                })
            },
        },
    }
}

// ---------------------------------------------------------------------------
// Reading a command line
// ---------------------------------------------------------------------------

/// The value of a `shell` command.
pub open spec fn shell_view(c: ShellCommand) -> ShellCommandView {
    match c {
        ShellCommand::Detect => ShellCommandView::Detect,
        ShellCommand::Install { shell } => ShellCommandView::Install(shell@),
        ShellCommand::Uninstall { shell } => ShellCommandView::Uninstall(shell@),
    }
}

/// The value of a command.
pub open spec fn command_view(c: Command) -> CommandView {
    match c {
        Command::Add(a) => CommandView::Add {
            name: a.name@,
            executable: a.executable@,
            args: strings_view(a.args@),
            shell: strings_view(a.shell@),
            cwd: opt_view(a.cwd),
            environment: strings_view(a.environment@),
            tags: strings_view(a.tags@),
            no_pass_args: a.no_pass_args,
        },
        Command::Remove { name, yes } => CommandView::Remove { name: name@, yes },
        Command::Update { name } => CommandView::Update { name: name@ },
        Command::Rename { old, new } => CommandView::Rename { old: old@, new: new@ },
        Command::Get { name } => CommandView::Get { name: name@ },
        Command::Find { query, fuzzy, field, limit, tags } => CommandView::Find {
            query: query@,
            fuzzy,
            field: opt_view(field),
            limit,
            tags: strings_view(tags@),
        },
        Command::List { sort, desc, limit, tags } => CommandView::List {
            sort: opt_view(sort),
            desc,
            limit,
            tags: strings_view(tags@),
        },
        Command::Enable { name } => CommandView::Enable { name: name@ },
        Command::Disable { name } => CommandView::Disable { name: name@ },
        Command::Sync { dry_run } => CommandView::Sync { dry_run },
        Command::Reload { print } => CommandView::Reload { print },
        Command::Doctor => CommandView::Doctor,
        Command::Shell { command } => CommandView::Shell(shell_view(command)),
        Command::Import { file } => CommandView::Import { file: file@ },
        Command::Export { file } => CommandView::Export { file: file@ },
        Command::Uninstall { purge_aliases } => CommandView::Uninstall { purge_aliases },
    }
}

/// The value of a parsed command line.
pub open spec fn cli_view(c: Cli) -> CliView {
    CliView {
        config_dir: opt_view(c.config_dir),
        format: c.format,
        no_color: c.no_color,
        verbose: c.verbose,
        quiet: c.quiet,
        command: command_view(c.command),
    }
}

/// The options before the command.
fn global_options() -> (s: Schema)
    ensures
        schema_view(s) == global_schema(),
{
    let s = Schema {
        flags: vec!["no-color", "verbose", "quiet"],
        singles: vec!["config-dir", "format"],
        multis: Vec::new(),
        positionals: 0,
        version: true,
    };
    assert(strs_view(s.flags@) =~= seq!["no-color"@, "verbose"@, "quiet"@]);
    assert(strs_view(s.singles@) =~= seq!["config-dir"@, "format"@]);
    assert(strs_view(s.multis@) =~= Seq::<Seq<char>>::empty());
    s
}

/// A schema without `--version`.
fn schema_with(flags: Vec<&'static str>, singles: Vec<&'static str>, multis: Vec<&'static str>, positionals: usize) -> (s: Schema)
    ensures
        schema_view(s) == schema_of(strs_view(flags@), strs_view(singles@), strs_view(multis@), positionals as nat),
{
    Schema { flags, singles, multis, positionals, version: false }
}

/// Whether a word is the given text.
fn is_word(word: &Vec<char>, text: &str) -> (b: bool)
    ensures
        b == (word@ == text@),
{
    vec_eq(word, &chars_of(text))
}

/// The options of a command.
fn command_options(word: &Vec<char>) -> (r: Option<Schema>)
    ensures
        match r {
            Some(s) => command_schema(word@) == Some(schema_view(s)),
            None => command_schema(word@) is None,
        },
{
    let none: Vec<&'static str> = Vec::new();
    assert(strs_view(none@) =~= Seq::<Seq<char>>::empty());
    if is_word(word, "add") {
        let f = vec!["no-pass-args"];
        let si = vec!["exec", "cwd"];
        let m = vec!["arg", "shell", "env", "tag"];
        assert(strs_view(f@) =~= seq!["no-pass-args"@]);
        assert(strs_view(si@) =~= seq!["exec"@, "cwd"@]);
        assert(strs_view(m@) =~= seq!["arg"@, "shell"@, "env"@, "tag"@]);
        Some(schema_with(f, si, m, 1))
    } else if is_word(word, "remove") {
        let f = vec!["yes"];
        assert(strs_view(f@) =~= seq!["yes"@]);
        Some(schema_with(f, Vec::new(), Vec::new(), 1))
    } else if is_word(word, "update") || is_word(word, "get") || is_word(word, "enable") || is_word(word, "disable")
        || is_word(word, "import") || is_word(word, "export") {
        Some(schema_with(Vec::new(), Vec::new(), Vec::new(), 1))
    } else if is_word(word, "rename") {
        Some(schema_with(Vec::new(), Vec::new(), Vec::new(), 2))
    } else if is_word(word, "find") {
        let f = vec!["fuzzy"];
        let si = vec!["field", "limit"];
        let m = vec!["tag"];
        assert(strs_view(f@) =~= seq!["fuzzy"@]);
        assert(strs_view(si@) =~= seq!["field"@, "limit"@]);
        assert(strs_view(m@) =~= seq!["tag"@]);
        Some(schema_with(f, si, m, 1))
    } else if is_word(word, "list") {
        let f = vec!["desc"];
        let si = vec!["sort", "limit"];
        let m = vec!["tag"];
        assert(strs_view(f@) =~= seq!["desc"@]);
        assert(strs_view(si@) =~= seq!["sort"@, "limit"@]);
        assert(strs_view(m@) =~= seq!["tag"@]);
        Some(schema_with(f, si, m, 0))
    } else if is_word(word, "sync") {
        let f = vec!["dry-run"];
        assert(strs_view(f@) =~= seq!["dry-run"@]);
        Some(schema_with(f, Vec::new(), Vec::new(), 0))
    } else if is_word(word, "reload") {
        let f = vec!["print"];
        assert(strs_view(f@) =~= seq!["print"@]);
        Some(schema_with(f, Vec::new(), Vec::new(), 0))
    } else if is_word(word, "doctor") || is_word(word, "shell") {
        Some(schema_with(Vec::new(), Vec::new(), Vec::new(), 0))
    } else if is_word(word, "uninstall") {
        let f = vec!["purge-aliases"];
        assert(strs_view(f@) =~= seq!["purge-aliases"@]);
        Some(schema_with(f, Vec::new(), Vec::new(), 0))
    } else {
        None
    }
}

/// The options of a `shell` command.
fn shell_options(word: &Vec<char>) -> (r: Option<Schema>)
    ensures
        match r {
            Some(s) => shell_schema(word@) == Some(schema_view(s)),
            None => shell_schema(word@) is None,
        },
{
    let none: Vec<&'static str> = Vec::new();
    assert(strs_view(none@) =~= Seq::<Seq<char>>::empty());
    if is_word(word, "detect") {
        Some(schema_with(Vec::new(), Vec::new(), Vec::new(), 0))
    } else if is_word(word, "install") || is_word(word, "uninstall") {
        Some(schema_with(Vec::new(), Vec::new(), Vec::new(), 1))
    } else {
        None
    }
}

/// A required argument that was not given.
fn missing(name: &str) -> (e: CliError)
    ensures
        e.kind == CliErrorKind::MissingArgument,
        e.argument@ == name@,
{
    CliError { kind: CliErrorKind::MissingArgument, argument: string_of(&chars_of(name)) }
}

/// An optional text as a string.
fn opt_string(o: Option<Vec<char>>) -> (r: Option<String>)
    ensures
        opt_view(r) == match o {
            Some(v) => Some(v@),
            None => None::<Seq<char>>,
        },
{
    match o {
        Some(v) => Some(string_of(&v)),
        None => None,
    }
}

/// The value of `--limit`, read as a count.
fn limit_value(scan: &ScanResult) -> (r: Option<usize>)
    ensures
        r == limit_of(scan_view(*scan)),
{
    match single_value(&scan.singles, "limit") {
        Some(v) => parse_usize(&v),
        None => None,
    }
}

/// The command a word (other than `shell`) and its scanned arguments denote.
fn build_command(word: &Vec<char>, scan: &ScanResult) -> (r: Result<Command, CliError>)
    ensures
        match r {
            Ok(c) => command_of(word@, scan_view(*scan)) == Ok::<CommandView, (CliErrorKind, Seq<char>)>(command_view(c)),
            Err(e) => command_of(word@, scan_view(*scan)) == Err::<CommandView, (CliErrorKind, Seq<char>)>((e.kind, e.argument@)),
        },
{
    let ghost sv = scan_view(*scan);
    let p = &scan.positionals;
    proof {
        if p@.len() > 0 {
            assert(sv.positionals[0] == p@[0]@);
        }
        if p@.len() > 1 {
            assert(sv.positionals[1] == p@[1]@);
        }
    }
    if is_word(word, "add") {
        if p.len() < 1 {
            return Err(missing("name"));
        }
        match single_value(&scan.singles, "exec") {
            None => Err(missing("exec")),
            Some(e) => Ok(Command::Add(AddArgs {
                name: string_of(&p[0]),
                executable: string_of(&e),
                args: multi_values(&scan.multis, "arg"),
                shell: multi_values(&scan.multis, "shell"),
                cwd: opt_string(single_value(&scan.singles, "cwd")),
                environment: multi_values(&scan.multis, "env"),
                tags: multi_values(&scan.multis, "tag"),
                no_pass_args: flag_given(&scan.flags, "no-pass-args"),
            })),
        }
    } else if is_word(word, "rename") {
        if p.len() < 1 {
            Err(missing("old"))
        } else if p.len() < 2 {
            Err(missing("new"))
        } else {
            Ok(Command::Rename { old: string_of(&p[0]), new: string_of(&p[1]) })
        }
    } else if is_word(word, "find") {
        if p.len() < 1 {
            Err(missing("query"))
        } else {
            Ok(Command::Find {
                query: string_of(&p[0]),
                fuzzy: flag_given(&scan.flags, "fuzzy"),
                field: opt_string(single_value(&scan.singles, "field")),
                limit: limit_value(scan),
                tags: multi_values(&scan.multis, "tag"),
            })
        }
    } else if is_word(word, "list") {
        Ok(Command::List {
            sort: opt_string(single_value(&scan.singles, "sort")),
            desc: flag_given(&scan.flags, "desc"),
            limit: limit_value(scan),
            tags: multi_values(&scan.multis, "tag"),
        })
    } else if is_word(word, "import") || is_word(word, "export") {
        if p.len() < 1 {
            Err(missing("file"))
        } else if is_word(word, "import") {
            Ok(Command::Import { file: string_of(&p[0]) })
        } else {
            Ok(Command::Export { file: string_of(&p[0]) })
        }
    } else if is_word(word, "remove") || is_word(word, "update") || is_word(word, "get") || is_word(word, "enable")
        || is_word(word, "disable") {
        if p.len() < 1 {
            Err(missing("name"))
        } else if is_word(word, "remove") {
            Ok(Command::Remove { name: string_of(&p[0]), yes: flag_given(&scan.flags, "yes") })
        } else if is_word(word, "update") {
            Ok(Command::Update { name: string_of(&p[0]) })
        } else if is_word(word, "get") {
            Ok(Command::Get { name: string_of(&p[0]) })
        } else if is_word(word, "enable") {
            Ok(Command::Enable { name: string_of(&p[0]) })
        } else {
            Ok(Command::Disable { name: string_of(&p[0]) })
        }
    } else if is_word(word, "sync") {
        Ok(Command::Sync { dry_run: flag_given(&scan.flags, "dry-run") })
    } else if is_word(word, "reload") {
        Ok(Command::Reload { print: flag_given(&scan.flags, "print") })
    } else if is_word(word, "uninstall") {
        Ok(Command::Uninstall { purge_aliases: flag_given(&scan.flags, "purge-aliases") })
    } else {
        Ok(Command::Doctor)
    }
}

/// The `shell` command a word and its scanned arguments denote.
fn build_shell_command(word: &Vec<char>, scan: &ScanResult) -> (r: Result<ShellCommand, CliError>)
    ensures
        match r {
            Ok(c) => shell_command_of(word@, scan_view(*scan)) == Ok::<ShellCommandView, (CliErrorKind, Seq<char>)>(shell_view(c)),
            Err(e) => shell_command_of(word@, scan_view(*scan)) == Err::<ShellCommandView, (CliErrorKind, Seq<char>)>((e.kind, e.argument@)),
        },
{
    let ghost sv = scan_view(*scan);
    let p = &scan.positionals;
    proof {
        if p@.len() > 0 {
            assert(sv.positionals[0] == p@[0]@);
        }
    }
    if is_word(word, "detect") {
        Ok(ShellCommand::Detect)
    } else if p.len() < 1 {
        Err(missing("shell"))
    } else if is_word(word, "install") {
        Ok(ShellCommand::Install { shell: string_of(&p[0]) })
    } else {
        Ok(ShellCommand::Uninstall { shell: string_of(&p[0]) })
    }
}

/// An error of the grammar with a fixed argument.
fn grammar_error(kind: CliErrorKind, arg: &str) -> (e: CliError)
    ensures
        e.kind == kind,
        e.argument@ == arg@,
{
    CliError { kind, argument: string_of(&chars_of(arg)) }
}

/// Reads the command part of a command line from the position of its word.
fn read_command(tokens: &Vec<Vec<char>>, k: usize) -> (r: Result<Command, CliError>)
    requires
        1 <= k <= tokens@.len(),
    ensures
        match r {
            Ok(c) => parse_command(chars_view(tokens@), 1, k as int) == Ok::<CommandView, (CliErrorKind, Seq<char>)>(command_view(c)),
            Err(e) => parse_command(chars_view(tokens@), 1, k as int) == Err::<CommandView, (CliErrorKind, Seq<char>)>((e.kind, e.argument@)),
        },
{
    let ghost tv = chars_view(tokens@);
    if k >= tokens.len() {
        if k <= 1 {
            return Err(grammar_error(CliErrorKind::DisplayHelp, "aliasmgr"));
        }
        return Err(grammar_error(CliErrorKind::MissingSubcommand, "aliasmgr"));
    }
    let word = &tokens[k];
    assert(tv[k as int] == word@);
    if is_word(word, "help") {
        return Err(cli_error(CliErrorKind::DisplayHelp, word));
    }
    match command_options(word) {
        None => Err(cli_error(CliErrorKind::InvalidSubcommand, word)),
        Some(schema) => {
            if is_word(word, "shell") {
                match scan_tokens(tokens, k + 1, &schema, true) {
                    Err(e) => Err(e),
                    Ok((_, k2)) => {
                        if k2 >= tokens.len() {
                            return Err(grammar_error(CliErrorKind::DisplayHelp, "shell"));
                        }
                        let sub_word = &tokens[k2];
                        assert(tv[k2 as int] == sub_word@);
                        if is_word(sub_word, "help") {
                            return Err(grammar_error(CliErrorKind::DisplayHelp, "shell"));
                        }
                        match shell_options(sub_word) {
                            None => Err(cli_error(CliErrorKind::InvalidSubcommand, sub_word)),
                            Some(sub) => match scan_tokens(tokens, k2 + 1, &sub, false) {
                                Err(e) => Err(e),
                                Ok((s2, _)) => match build_shell_command(sub_word, &s2) {
                                    Err(e) => Err(e),
                                    Ok(c) => Ok(Command::Shell { command: c }),
                                },
                            },
                        }
                    },
                }
            } else {
                match scan_tokens(tokens, k + 1, &schema, false) {
                    Err(e) => Err(e),
                    Ok((s, _)) => build_command(word, &s),
                }
            }
        },
    }
}

/// The texts of string slices of any lifetime.
pub open spec fn texts_of(v: Seq<&str>) -> Seq<Seq<char>> {
    v.map_values(|s: &str| s@)
}

impl Cli {
    /// Reads a command line, the program's name first: the options before
    /// the command, the command with its arguments, then the check that
    /// `--verbose` and `--quiet` are not both given. A request for help or
    /// for the version comes back as an error of those kinds.
    pub fn try_parse_from(args: &[&str]) -> (r: Result<Cli, CliError>)
        ensures
            match r {
                Ok(c) => parse_spec(texts_of(args@)) == Ok::<CliView, (CliErrorKind, Seq<char>)>(cli_view(c)),
                Err(e) => parse_spec(texts_of(args@)) == Err::<CliView, (CliErrorKind, Seq<char>)>((e.kind, e.argument@)),
            },
    {
        let mut tokens: Vec<Vec<char>> = Vec::new();
        let mut i: usize = 0;
        while i < args.len()
            invariant
                i <= args@.len(),
                chars_view(tokens@) == texts_of(args@.take(i as int)),
            decreases args.len() - i,
        {
            let ghost prev = tokens@;
            tokens.push(chars_of(args[i]));
            assert(chars_view(tokens@) =~= chars_view(prev).push(args@[i as int]@));
            assert(args@.take(i + 1) =~= args@.take(i as int).push(args@[i as int]));
            assert(texts_of(args@.take(i + 1)) =~= texts_of(args@.take(i as int)).push(args@[i as int]@));
            i += 1;
        }
        assert(args@.take(args@.len() as int) =~= args@);
        let ghost tv = chars_view(tokens@);
        if tokens.len() == 0 {
            return Err(grammar_error(CliErrorKind::DisplayHelp, "aliasmgr"));
        }
        let globals = global_options();
        match scan_tokens(&tokens, 1, &globals, true) {
            Err(e) => Err(e),
            Ok((g, k)) => match read_command(&tokens, k) {
                Err(e) => Err(e),
                Ok(command) => {
                    let verbose = flag_given(&g.flags, "verbose");
                    let quiet = flag_given(&g.flags, "quiet");
                    if verbose && quiet {
                        return Err(grammar_error(CliErrorKind::ArgumentConflict, "quiet"));
                    }
                    let format = match single_value(&g.singles, "format") {
                        Some(v) => if is_word(&v, "json") {
                            OutputFormat::Json
                        } else {
                            OutputFormat::Table
                        },
                        None => OutputFormat::Table,
                    };
                    Ok(Cli {
                        config_dir: opt_string(single_value(&g.singles, "config-dir")),
                        format,
                        no_color: flag_given(&g.flags, "no-color"),
                        verbose,
                        quiet,
                        command,
                    })
                },
            },
        }
    }
}

} // verus!
