//! What the command-line tool prints for aliases: one row per alias, and a
//! table of name, target and whether the alias is enabled.
use vstd::prelude::*;
use crate::cli::OutputFormat;
use crate::model::{
    AliasRecord, AliasView, Environment, copy_opt, copy_strings, opt_view, shell_kind_name, shell_kind_name_spec,
    strings_view, target_type_name, target_type_name_spec,
};

verus! {

/// One alias as it is printed.
#[derive(Debug)]
pub struct AliasRow {
    pub name: String,
    pub description: String,
    pub target: String,
    pub target_type: String,
    pub fixed_args: Vec<String>,
    pub pass_args: bool,
    pub working_directory: Option<String>,
    pub environment: Environment,
    pub shells: Vec<String>,
    pub enabled: bool,
    pub tags: Vec<String>,
    pub revision: i64,
}

/// The serialized names of shells.
pub open spec fn shell_names(s: Seq<crate::model::ShellKind>) -> Seq<Seq<char>> {
    s.map_values(|k: crate::model::ShellKind| shell_kind_name_spec(k))
}

/// A row holds an alias's fields, its target type and shells by their
/// serialized names.
pub open spec fn row_matches(r: AliasRow, v: AliasView) -> bool {
    &&& r.name@ == v.name
    &&& r.description@ == v.description
    &&& r.target@ == v.executable
    &&& r.target_type@ == target_type_name_spec(v.target_type)
    &&& strings_view(r.fixed_args@) == v.fixed_args
    &&& r.pass_args == v.pass_args
    &&& opt_view(r.working_directory) == v.working_directory
    &&& r.environment@ == v.environment
    &&& strings_view(r.shells@) == shell_names(v.shells)
    &&& r.enabled == v.enabled
    &&& strings_view(r.tags@) == v.tags
    &&& r.revision == v.revision
}

/// The row of an alias.
pub fn row(alias: &AliasRecord) -> (r: AliasRow)
    ensures
        row_matches(r, alias@),
{
    let mut shells: Vec<String> = Vec::new();
    let mut i: usize = 0;
    while i < alias.shells.len()
        invariant
            i <= alias.shells@.len(),
            strings_view(shells@) =~= shell_names(alias.shells@.take(i as int)),
        decreases alias.shells.len() - i,
    {
        let ghost prev = shells@;
        shells.push(String::from_str(shell_kind_name(alias.shells[i])));
        assert(strings_view(shells@) =~= strings_view(prev).push(shell_kind_name_spec(alias.shells@[i as int])));
        assert(shell_names(alias.shells@.take(i + 1)) =~= shell_names(alias.shells@.take(i as int)).push(
            shell_kind_name_spec(alias.shells@[i as int]),
        ));
        i += 1;
    }
    assert(alias.shells@.take(alias.shells@.len() as int) =~= alias.shells@);
    AliasRow {
        name: alias.name.clone(),
        description: alias.description.clone(),
        target: alias.executable.clone(),
        target_type: String::from_str(target_type_name(alias.target_type)),
        fixed_args: copy_strings(&alias.fixed_args),
        pass_args: alias.pass_args,
        working_directory: copy_opt(&alias.working_directory),
        environment: alias.environment.copy(),
        shells,
        enabled: alias.enabled,
        tags: copy_strings(&alias.tags),
        revision: alias.revision,
    }
}

/// The rows of aliases, in order.
pub fn rows(aliases: &[AliasRecord]) -> (r: Vec<AliasRow>)
    ensures
        r@.len() == aliases@.len(),
        forall|i: int| 0 <= i < aliases@.len() ==> row_matches(#[trigger] r@[i], aliases@[i]@),
{
    let mut r: Vec<AliasRow> = Vec::new();
    let mut i: usize = 0;
    while i < aliases.len()
        invariant
            i <= aliases@.len(),
            r@.len() == i,
            forall|j: int| 0 <= j < i ==> row_matches(#[trigger] r@[j], aliases@[j]@),
        decreases aliases.len() - i,
    {
        r.push(row(&aliases[i]));
        i += 1;
    }
    r
}

/// `true` or `false`.
pub open spec fn bool_word(b: bool) -> Seq<char> {
    if b {
        "true"@
    } else {
        "false"@
    }
}

/// The table lines of rows: name, target and enabled, separated by tabs.
pub open spec fn table_lines(rows: Seq<AliasRow>) -> Seq<char>
    decreases rows.len(),
{
    if rows.len() == 0 {
        Seq::empty()
    } else {
        let r = rows.last();
        table_lines(rows.drop_last()) + r.name@ + "\t"@ + r.target@ + "\t"@ + bool_word(r.enabled) + "\n"@
    }
}

/// The table of rows under its header line.
pub fn table(rows: &[AliasRow]) -> (t: String)
    ensures
        t@ == "NAME\tTARGET\tENABLED\n"@ + table_lines(rows@),
{
    let mut t = String::from_str("NAME\tTARGET\tENABLED\n");
    let ghost header = t@;
    let mut i: usize = 0;
    while i < rows.len()
        invariant
            i <= rows@.len(),
            header == "NAME\tTARGET\tENABLED\n"@,
            t@ == header + table_lines(rows@.take(i as int)),
        decreases rows.len() - i,
    {
        let r = &rows[i];
        assert(rows@.take(i + 1).drop_last() =~= rows@.take(i as int));
        assert(rows@.take(i + 1).last() == *r);
        t.append(r.name.as_str());
        t.append("\t");
        t.append(r.target.as_str());
        t.append("\t");
        t.append(if r.enabled { "true" } else { "false" });
        t.append("\n");
        assert(t@ =~= header + table_lines(rows@.take(i + 1)));
        i += 1;
    }
    assert(rows@.take(rows@.len() as int) =~= rows@);
    t
}

/// The table lines of aliases: name, target and enabled, separated by tabs.
pub open spec fn alias_lines(aliases: Seq<AliasView>) -> Seq<char>
    decreases aliases.len(),
{
    if aliases.len() == 0 {
        Seq::empty()
    } else {
        let a = aliases.last();
        alias_lines(aliases.drop_last()) + a.name + "\t"@ + a.executable + "\t"@ + bool_word(a.enabled) + "\n"@
    }
}

/// The values of alias records.
pub open spec fn alias_views(aliases: Seq<AliasRecord>) -> Seq<AliasView> {
    aliases.map_values(|a: AliasRecord| a@)
}

/// Rows that match aliases one by one print the aliases' table lines.
proof fn lemma_rows_print_aliases(r: Seq<AliasRow>, a: Seq<AliasView>)
    requires
        r.len() == a.len(),
        forall|i: int| 0 <= i < a.len() ==> row_matches(#[trigger] r[i], a[i]),
    ensures
        table_lines(r) == alias_lines(a),
    decreases r.len(),
{
    if r.len() > 0 {
        assert forall|i: int| 0 <= i < a.drop_last().len() implies row_matches(#[trigger] r.drop_last()[i], a.drop_last()[i]) by {
            assert(row_matches(r[i], a[i]));
        }
        lemma_rows_print_aliases(r.drop_last(), a.drop_last());
        assert(row_matches(r[r.len() - 1], a[a.len() - 1]));
    }
}

/// Aliases as the command-line tool prints them: the table of their rows,
/// or the JSON text of their rows (`json`, which serde writes for the rows'
/// serializable copy), or the serialization error when that failed.
pub fn alias_rows(aliases: &[AliasRecord], format: OutputFormat, json: &Result<String, String>) -> (t: String)
    ensures
        t@ == match format {
            OutputFormat::Table => "NAME\tTARGET\tENABLED\n"@ + alias_lines(alias_views(aliases@)),
            OutputFormat::Json => match json {
                Ok(text) => text@,
                Err(error) => "serialization error: "@ + error@,
            },
        },
{
    match format {
        OutputFormat::Table => {
            let r = rows(aliases);
            proof {
                let a = alias_views(aliases@);
                assert forall|i: int| 0 <= i < a.len() implies row_matches(#[trigger] r@[i], a[i]) by {
                    assert(row_matches(r@[i], aliases@[i]@));
                }
                lemma_rows_print_aliases(r@, a);
            }
            table(&r)
        },
        OutputFormat::Json => match json {
            Ok(text) => text.clone(),
            Err(error) => {
                let mut t = String::from_str("serialization error: ");
                t.append(error.as_str());
                t
            },
        },
    }
}

} // verus!
