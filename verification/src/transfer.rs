//! Import and export of aliases: the export file's shape and version, and
//! the rules an import applies to each alias (unsupported kinds, sensitive
//! environment variables, relative paths, name conflicts).
use vstd::prelude::*;
use crate::error::AliasError;
use crate::model::{AliasRecord, AliasView, Environment, PathMode, TargetType, strings_view};
use crate::text::{chars_of, contains_chars, contains_seq, nat_text, str_eq, string_of, usize_text};

verus! {

/// The version of the export format this program reads and writes.
pub const FORMAT_VERSION: u32 = 1;

/// An export file: its format version, when and by which version it was
/// written, and the aliases.
#[derive(Debug)]
pub struct ExportFile {
    pub format_version: u32,
    pub exported_at: String,
    pub exported_by_version: String,
    pub aliases: Vec<AliasRecord>,
}

/// What to do with an imported alias whose name is taken.
#[derive(Debug, Clone, Copy, PartialEq, Eq, Structural)]
pub enum ConflictStrategy {
    Skip,
    Overwrite,
    Rename,
    Ask,
}

/// What an import did: the names imported, skipped and not supported, the
/// warnings, and the records to store.
#[derive(Debug)]
pub struct ImportReport {
    pub imported: Vec<String>,
    pub skipped: Vec<String>,
    pub warnings: Vec<String>,
    pub unsupported: Vec<String>,
    pub accepted_records: Vec<AliasRecord>,
}

/// The value of an import report.
pub struct ReportView {
    pub imported: Seq<Seq<char>>,
    pub skipped: Seq<Seq<char>>,
    pub warnings: Seq<Seq<char>>,
    pub unsupported: Seq<Seq<char>>,
    pub accepted: Seq<AliasView>,
}

/// The value of an import report.
pub open spec fn report_view(r: ImportReport) -> ReportView {
    ReportView {
        imported: strings_view(r.imported@),
        skipped: strings_view(r.skipped@),
        warnings: strings_view(r.warnings@),
        unsupported: strings_view(r.unsupported@),
        accepted: r.accepted_records@.map_values(|a: AliasRecord| a@),
    }
}

impl ImportReport {
    /// The report without the records to store, as it is shown to users.
    pub fn into_public(self) -> (r: Self)
        ensures
            r.imported == self.imported,
            r.skipped == self.skipped,
            r.warnings == self.warnings,
            r.unsupported == self.unsupported,
            r.accepted_records@.len() == 0,
    {
        ImportReport {
            imported: self.imported,
            skipped: self.skipped,
            warnings: self.warnings,
            unsupported: self.unsupported,
            accepted_records: Vec::new(),
        }
    }
}

/// A new export file of the current format.
pub fn export_file(aliases: Vec<AliasRecord>, exported_at: String) -> (f: ExportFile)
    ensures
        f.format_version == FORMAT_VERSION,
        f.exported_at == exported_at,
        f.exported_by_version@ == "0.1.0"@,
        f.aliases == aliases,
{
    ExportFile {
        format_version: FORMAT_VERSION,
        exported_at,
        exported_by_version: String::from_str(crate::version()),
        aliases,
    }
}

/// The message for an export file of another format version.
pub open spec fn version_message(v: u32) -> Seq<char> {
    "unsupported format_version: "@ + nat_text(v as nat)
}

/// The aliases of an export file; a file of another format version is
/// refused.
pub fn accept_export_file(file: ExportFile) -> (r: Result<Vec<AliasRecord>, AliasError>)
    ensures
        file.format_version == FORMAT_VERSION ==> r == Ok::<Vec<AliasRecord>, AliasError>(file.aliases),
        file.format_version != FORMAT_VERSION ==> (r matches Err(AliasError::Config(m)) && m@ == version_message(
            file.format_version,
        )),
{
    if file.format_version != FORMAT_VERSION {
        let mut m = String::from_str("unsupported format_version: ");
        m.append(string_of(&usize_text(file.format_version as usize)).as_str());
        return Err(AliasError::Config(m));
    }
    Ok(file.aliases)
}

// ---------------------------------------------------------------------------
// Sensitive environment variables
// ---------------------------------------------------------------------------

/// ASCII uppercase of one character; other characters are unchanged.
pub open spec fn ascii_upper(c: char) -> char {
    if 'a' <= c && c <= 'z' {
        ((c as u8) - 32) as char
    } else {
        c
    }
}

/// ASCII uppercase of a text.
pub open spec fn ascii_upper_text(s: Seq<char>) -> Seq<char> {
    s.map_values(|c: char| ascii_upper(c))
}

/// A variable name that looks like it holds a secret: in ASCII uppercase it
/// contains `PASSWORD`, `TOKEN`, `SECRET`, `API_KEY` or `APIKEY`.
pub open spec fn sensitive_key(key: Seq<char>) -> bool {
    let u = ascii_upper_text(key);
    contains_seq(u, "PASSWORD"@) || contains_seq(u, "TOKEN"@) || contains_seq(u, "SECRET"@) || contains_seq(
        u,
        "API_KEY"@,
    ) || contains_seq(u, "APIKEY"@)
}

/// The variables that do not look like secrets, in order.
pub open spec fn filter_env(e: Seq<(Seq<char>, Seq<char>)>) -> Seq<(Seq<char>, Seq<char>)>
    decreases e.len(),
{
    if e.len() == 0 {
        Seq::empty()
    } else if sensitive_key(e.last().0) {
        filter_env(e.drop_last())
    } else {
        filter_env(e.drop_last()).push(e.last())
    }
}

/// The warning for an omitted variable.
pub open spec fn sensitive_warning(key: Seq<char>) -> Seq<char> {
    "sensitive environment variable omitted: "@ + key
}

/// A warning for each variable that looks like a secret, in order.
pub open spec fn sensitive_warnings(e: Seq<(Seq<char>, Seq<char>)>) -> Seq<Seq<char>>
    decreases e.len(),
{
    if e.len() == 0 {
        Seq::empty()
    } else if sensitive_key(e.last().0) {
        sensitive_warnings(e.drop_last()).push(sensitive_warning(e.last().0))
    } else {
        sensitive_warnings(e.drop_last())
    }
}

/// Whether a variable name looks like it holds a secret.
pub fn is_sensitive_key(key: &str) -> (b: bool)
    ensures
        b == sensitive_key(key@),
{
    let k = chars_of(key);
    let mut u: Vec<char> = Vec::new();
    let mut i: usize = 0;
    while i < k.len()
        invariant
            i <= k@.len(),
            k@ == key@,
            u@ =~= ascii_upper_text(k@.take(i as int)),
        decreases k.len() - i,
    {
        let c = k[i];
        let up = if 'a' <= c && c <= 'z' {
            ((c as u8) - 32) as char
        } else {
            c
        };
        u.push(up);
        assert(ascii_upper_text(k@.take(i + 1)) =~= ascii_upper_text(k@.take(i as int)).push(ascii_upper(c)));
        i += 1;
    }
    assert(k@.take(k@.len() as int) =~= k@);
    contains_chars(&u, &chars_of("PASSWORD")) || contains_chars(&u, &chars_of("TOKEN")) || contains_chars(
        &u,
        &chars_of("SECRET"),
    ) || contains_chars(&u, &chars_of("API_KEY")) || contains_chars(&u, &chars_of("APIKEY"))
}

proof fn lemma_filter_step(e: Seq<(Seq<char>, Seq<char>)>, k: int)
    requires
        0 <= k < e.len(),
    ensures
        filter_env(e.take(k + 1)) == if sensitive_key(e[k].0) {
            filter_env(e.take(k))
        } else {
            filter_env(e.take(k)).push(e[k])
        },
        sensitive_warnings(e.take(k + 1)) == if sensitive_key(e[k].0) {
            sensitive_warnings(e.take(k)).push(sensitive_warning(e[k].0))
        } else {
            sensitive_warnings(e.take(k))
        },
{
    assert(e.take(k + 1).drop_last() =~= e.take(k));
    assert(e.take(k + 1).last() == e[k]);
}

/// Removes the variables that look like secrets and adds a warning for
/// each, in name order.
pub fn filter_sensitive_environment(environment: &mut Environment, warnings: &mut Vec<String>)
    ensures
        final(environment)@ == filter_env(old(environment)@),
        strings_view(final(warnings)@) == strings_view(old(warnings)@) + sensitive_warnings(old(environment)@),
{
    let ghost orig = environment@;
    let ghost w0 = strings_view(warnings@);
    let mut i: usize = 0;
    let ghost mut k: int = 0;
    assert(orig.take(0) =~= Seq::<(Seq<char>, Seq<char>)>::empty());
    assert(orig.skip(0) =~= orig);
    while i < environment.len()
        invariant
            0 <= k <= orig.len(),
            environment@ == filter_env(orig.take(k)) + orig.skip(k),
            i == filter_env(orig.take(k)).len(),
            strings_view(warnings@) == w0 + sensitive_warnings(orig.take(k)),
        decreases environment@.len() - i,
    {
        proof {
            lemma_filter_step(orig, k);
        }
        assert(environment@[i as int] == orig[k]);
        let (key, _value) = environment.entry(i);
        if is_sensitive_key(key.as_str()) {
            let mut message = String::from_str("sensitive environment variable omitted: ");
            message.append(key.as_str());
            let ghost prev_w = warnings@;
            let ghost prev_e = environment@;
            environment.remove_at(i);
            warnings.push(message);
            assert(strings_view(warnings@) =~= strings_view(prev_w).push(sensitive_warning(orig[k].0)));
            assert(environment@ =~= filter_env(orig.take(k + 1)) + orig.skip(k + 1));
        } else {
            assert(filter_env(orig.take(k)) + orig.skip(k) =~= filter_env(orig.take(k + 1)) + orig.skip(k + 1));
            i += 1;
        }
        proof {
            k = k + 1;
        }
    }
    assert(k == orig.len());
    assert(orig.take(k) =~= orig);
    assert(environment@ =~= filter_env(orig));
}

// ---------------------------------------------------------------------------
// Importing
// ---------------------------------------------------------------------------

/// An empty report.
pub open spec fn empty_report() -> ReportView {
    ReportView {
        imported: Seq::empty(),
        skipped: Seq::empty(),
        warnings: Seq::empty(),
        unsupported: Seq::empty(),
        accepted: Seq::empty(),
    }
}

/// The warning for an alias with a relative path.
pub open spec fn relative_warning(name: Seq<char>) -> Seq<char> {
    "relative path requires a selected base directory: "@ + name
}

/// What an import does with one alias: advanced or raw-command aliases are
/// not supported; otherwise secret-looking variables are dropped with a
/// warning; an alias with a relative path is skipped with a warning; an
/// alias whose name is taken is skipped (skip, ask), renamed with
/// `_imported` (rename) or taken as it is (overwrite); the others are
/// imported.
pub open spec fn import_step(r: ReportView, v: AliasView, existing: Seq<Seq<char>>, strategy: ConflictStrategy) -> ReportView {
    if v.advanced_shell_mode || v.target_type == TargetType::RawShellCommand {
        ReportView { unsupported: r.unsupported.push(v.name), ..r }
    } else {
        let warnings = r.warnings + sensitive_warnings(v.environment);
        let clean = AliasView { environment: filter_env(v.environment), ..v };
        if v.path_mode == PathMode::RelativeToWorkingDirectory {
            ReportView { warnings: warnings.push(relative_warning(v.name)), skipped: r.skipped.push(v.name), ..r }
        } else if existing.contains(v.name) && (strategy == ConflictStrategy::Skip || strategy == ConflictStrategy::Ask) {
            ReportView { warnings, skipped: r.skipped.push(v.name), ..r }
        } else if existing.contains(v.name) && strategy == ConflictStrategy::Rename {
            let renamed = v.name + "_imported"@;
            ReportView {
                warnings,
                imported: r.imported.push(renamed),
                accepted: r.accepted.push(AliasView { name: renamed, ..clean }),
                ..r
            }
        } else {
            ReportView { warnings, imported: r.imported.push(v.name), accepted: r.accepted.push(clean), ..r }
        }
    }
}

/// What an import does with aliases, one after the other.
pub open spec fn import_spec(aliases: Seq<AliasView>, existing: Seq<Seq<char>>, strategy: ConflictStrategy) -> ReportView
    decreases aliases.len(),
{
    if aliases.len() == 0 {
        empty_report()
    } else {
        import_step(import_spec(aliases.drop_last(), existing, strategy), aliases.last(), existing, strategy)
    }
}

/// Whether a name is among names.
fn name_taken(existing: &[String], name: &str) -> (b: bool)
    ensures
        b == strings_view(existing@).contains(name@),
{
    let mut i: usize = 0;
    while i < existing.len()
        invariant
            i <= existing@.len(),
            forall|j: int| 0 <= j < i ==> strings_view(existing@)[j] != name@,
        decreases existing.len() - i,
    {
        assert(strings_view(existing@)[i as int] == existing@[i as int]@);
        if str_eq(existing[i].as_str(), name) {
            return true;
        }
        i += 1;
    }
    false
}

/// Imports aliases given the names already taken.
pub fn import_records(aliases: Vec<AliasRecord>, existing: &[String], strategy: ConflictStrategy) -> (r: Result<
    ImportReport,
    AliasError,
>)
    ensures
        r matches Ok(report) && report_view(report) == import_spec(
            aliases@.map_values(|a: AliasRecord| a@),
            strings_view(existing@),
            strategy,
        ),
{
    let ghost all = aliases@.map_values(|a: AliasRecord| a@);
    let ghost names = strings_view(existing@);
    let mut report = ImportReport {
        imported: Vec::new(),
        skipped: Vec::new(),
        warnings: Vec::new(),
        unsupported: Vec::new(),
        accepted_records: Vec::new(),
    };
    assert(report_view(report) =~= empty_report()) by {
        assert(strings_view(report.imported@) =~= Seq::<Seq<char>>::empty());
        assert(strings_view(report.skipped@) =~= Seq::<Seq<char>>::empty());
        assert(strings_view(report.warnings@) =~= Seq::<Seq<char>>::empty());
        assert(strings_view(report.unsupported@) =~= Seq::<Seq<char>>::empty());
        assert(report.accepted_records@.map_values(|a: AliasRecord| a@) =~= Seq::<AliasView>::empty());
    }
    assert(all.take(0) =~= Seq::<AliasView>::empty());
    let n = aliases.len();
    let mut rest = aliases;
    let mut i: usize = 0;
    while rest.len() > 0
        invariant
            i + rest@.len() == all.len(),
            all.len() == n,
            forall|j: int| 0 <= j < rest@.len() ==> #[trigger] rest@[j]@ == all[i + j],
            report_view(report) == import_spec(all.take(i as int), names, strategy),
            names == strings_view(existing@),
        decreases rest.len(),
    {
        let mut alias = rest.remove(0);
        let ghost v = alias@;
        assert(v == all[i as int]);
        assert(all.take(i + 1).drop_last() =~= all.take(i as int));
        assert(all.take(i + 1).last() == v);
        let ghost before = report_view(report);
        if alias.advanced_shell_mode || alias.target_type == TargetType::RawShellCommand {
            let ghost prev = report.unsupported@;
            report.unsupported.push(alias.name);
            assert(strings_view(report.unsupported@) =~= strings_view(prev).push(v.name));
            assert(report_view(report) =~= import_step(before, v, names, strategy));
        } else {
            filter_sensitive_environment(&mut alias.environment, &mut report.warnings);
            let ghost w = report.warnings@;
            if alias.path_mode == PathMode::RelativeToWorkingDirectory {
                let mut message = String::from_str("relative path requires a selected base directory: ");
                message.append(alias.name.as_str());
                report.warnings.push(message);
                let ghost prev = report.skipped@;
                report.skipped.push(alias.name);
                assert(strings_view(report.warnings@) =~= strings_view(w).push(relative_warning(v.name)));
                assert(strings_view(report.skipped@) =~= strings_view(prev).push(v.name));
                assert(report_view(report) =~= import_step(before, v, names, strategy));
            } else {
                let taken = name_taken(existing, alias.name.as_str());
                if taken && (strategy == ConflictStrategy::Skip || strategy == ConflictStrategy::Ask) {
                    let ghost prev = report.skipped@;
                    report.skipped.push(alias.name);
                    assert(strings_view(report.skipped@) =~= strings_view(prev).push(v.name));
                    assert(report_view(report) =~= import_step(before, v, names, strategy));
                } else {
                    if taken && strategy == ConflictStrategy::Rename {
                        let mut renamed = alias.name.clone();
                        renamed.append("_imported");
                        alias.name = renamed;
                    }
                    let ghost prev_i = report.imported@;
                    let ghost prev_a = report.accepted_records@;
                    report.imported.push(alias.name.clone());
                    let ghost a = alias@;
                    report.accepted_records.push(alias);
                    assert(strings_view(report.imported@) =~= strings_view(prev_i).push(a.name));
                    assert(report.accepted_records@.map_values(|x: AliasRecord| x@) =~= prev_a.map_values(
                        |x: AliasRecord| x@,
                    ).push(a));
                    assert(report_view(report) =~= import_step(before, v, names, strategy));
                }
            }
        }
        i += 1;
    }
    assert(all.take(all.len() as int) =~= all);
    Ok(report)
}

// ---------------------------------------------------------------------------
// Laws of importing
// ---------------------------------------------------------------------------

/// No variable that looks like a secret survives the filter.
pub proof fn law_filtered_environment_has_no_secret(e: Seq<(Seq<char>, Seq<char>)>)
    ensures
        forall|i: int| 0 <= i < filter_env(e).len() ==> !sensitive_key(#[trigger] filter_env(e)[i].0),
    decreases e.len(),
{
    if e.len() > 0 {
        let p = e.drop_last();
        law_filtered_environment_has_no_secret(p);
        if !sensitive_key(e.last().0) {
            assert forall|i: int| 0 <= i < filter_env(e).len() implies !sensitive_key(#[trigger] filter_env(e)[i].0) by {
                if i < filter_env(p).len() {
                    assert(filter_env(e)[i] == filter_env(p)[i]);
                }
            }
        }
    }
}

/// Every alias of an import is accounted for exactly once: imported,
/// skipped or unsupported; and exactly the imported ones are to be stored.
pub proof fn law_import_accounts_for_every_alias(aliases: Seq<AliasView>, existing: Seq<Seq<char>>, strategy: ConflictStrategy)
    ensures
        import_spec(aliases, existing, strategy).imported.len() + import_spec(aliases, existing, strategy).skipped.len()
            + import_spec(aliases, existing, strategy).unsupported.len() == aliases.len(),
        import_spec(aliases, existing, strategy).accepted.len() == import_spec(aliases, existing, strategy).imported.len(),
        forall|i: int|
            0 <= i < import_spec(aliases, existing, strategy).accepted.len() ==> #[trigger] import_spec(
                aliases,
                existing,
                strategy,
            ).accepted[i].name == import_spec(aliases, existing, strategy).imported[i],
    decreases aliases.len(),
{
    if aliases.len() > 0 {
        law_import_accounts_for_every_alias(aliases.drop_last(), existing, strategy);
    }
}

/// An import stores no supported-but-advanced alias and no variable that
/// looks like a secret.
pub proof fn law_imported_records_are_clean(aliases: Seq<AliasView>, existing: Seq<Seq<char>>, strategy: ConflictStrategy)
    ensures
        forall|i: int|
            0 <= i < import_spec(aliases, existing, strategy).accepted.len() ==> {
                let a = #[trigger] import_spec(aliases, existing, strategy).accepted[i];
                &&& !a.advanced_shell_mode
                &&& a.target_type != TargetType::RawShellCommand
                &&& a.path_mode != PathMode::RelativeToWorkingDirectory
                &&& forall|k: int| 0 <= k < a.environment.len() ==> !sensitive_key(#[trigger] a.environment[k].0)
            },
    decreases aliases.len(),
{
    if aliases.len() > 0 {
        let prev = aliases.drop_last();
        law_imported_records_are_clean(prev, existing, strategy);
        law_filtered_environment_has_no_secret(aliases.last().environment);
    }
}

/// With the skip or ask strategy an import never takes a name that is
/// already stored: no imported name and no record to store has one, and
/// every supported alias whose name is stored is reported as skipped.
pub proof fn law_skip_and_ask_keep_stored_names(aliases: Seq<AliasView>, existing: Seq<Seq<char>>, strategy: ConflictStrategy)
    requires
        strategy == ConflictStrategy::Skip || strategy == ConflictStrategy::Ask,
    ensures
        forall|i: int|
            0 <= i < import_spec(aliases, existing, strategy).accepted.len() ==> !existing.contains(
                #[trigger] import_spec(aliases, existing, strategy).accepted[i].name,
            ),
        forall|i: int|
            0 <= i < import_spec(aliases, existing, strategy).imported.len() ==> !existing.contains(
                #[trigger] import_spec(aliases, existing, strategy).imported[i],
            ),
        forall|j: int|
            0 <= j < aliases.len() && existing.contains(#[trigger] aliases[j].name) && !aliases[j].advanced_shell_mode
                && aliases[j].target_type != TargetType::RawShellCommand ==> import_spec(
                aliases,
                existing,
                strategy,
            ).skipped.contains(aliases[j].name),
    decreases aliases.len(),
{
    if aliases.len() > 0 {
        let prev = aliases.drop_last();
        law_skip_and_ask_keep_stored_names(prev, existing, strategy);
        let r = import_spec(prev, existing, strategy);
        let t = import_spec(aliases, existing, strategy);
        let v = aliases.last();
        assert(t == import_step(r, v, existing, strategy));
        assert forall|j: int|
            0 <= j < aliases.len() && existing.contains(#[trigger] aliases[j].name) && !aliases[j].advanced_shell_mode
                && aliases[j].target_type != TargetType::RawShellCommand implies t.skipped.contains(aliases[j].name) by {
            if j < prev.len() {
                assert(prev[j] == aliases[j]);
                assert(r.skipped.contains(aliases[j].name));
                let m = choose|m: int| 0 <= m < r.skipped.len() && r.skipped[m] == aliases[j].name;
                if t.skipped.len() > r.skipped.len() {
                    assert(t.skipped[m] == r.skipped[m]);
                } else {
                    assert(t.skipped == r.skipped);
                }
            } else {
                assert(aliases[j] == v);
                assert(t.skipped.last() == v.name);
                assert(t.skipped[t.skipped.len() - 1] == v.name);
            }
        }
        assert forall|i: int| 0 <= i < t.accepted.len() implies !existing.contains(#[trigger] t.accepted[i].name) by {
            if i < r.accepted.len() {
                assert(t.accepted[i] == r.accepted[i]);
            }
        }
        assert forall|i: int| 0 <= i < t.imported.len() implies !existing.contains(#[trigger] t.imported[i]) by {
            if i < r.imported.len() {
                assert(t.imported[i] == r.imported[i]);
            }
        }
    }
}

} // verus!
