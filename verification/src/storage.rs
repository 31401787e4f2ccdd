//! The alias store: the table of aliases with its constraints (one row per
//! id, one per exact name, no two PowerShell aliases whose names differ only
//! in case), checksums checked on every write and read, rows listed by name;
//! beside it the shell states, retired names and overridden definitions.
//!
//! The store lives in memory; the command-line tool keeps it in a SQLite
//! file.
use vstd::prelude::*;
use crate::error::AliasError;
use crate::migrations::CURRENT_VERSION;
use crate::validation::{validate_alias, validate_alias_spec};
use crate::model::{
    AliasRecord, AliasView, ManagedNameSet, ShellKind, ShellState, ShellStatus, copy_opt, has_powershell_shell,
    has_powershell_spec, opt_view, record_checksum, record_checksum_spec, strings_view,
};
use crate::text::{lemma_seq_lt_irreflexive, lemma_seq_lt_total, lemma_seq_lt_transitive, lowercase, seq_lt, str_eq, str_lt, to_lowercase};

verus! {

/// A retired alias name whose old definition a shell must still remove.
#[derive(Debug)]
pub struct RetiredName {
    pub name: String,
    pub shell: ShellKind,
    pub retired_at_revision: i64,
}

/// A definition of a name that an alias replaced.
#[derive(Debug)]
pub struct OverriddenDefinition {
    pub name: String,
    pub shell: ShellKind,
    pub original_definition: Option<String>,
    pub recoverable: bool,
}

/// The value of a shell state.
pub struct ShellStateView {
    pub shell: ShellKind,
    pub applied_revision: i64,
    pub file_checksum: Seq<char>,
    pub loader_installed: bool,
    pub status: ShellStatus,
    pub last_error: Option<Seq<char>>,
}

/// The value of a shell state.
pub open spec fn state_view(s: ShellState) -> ShellStateView {
    ShellStateView {
        shell: s.shell,
        applied_revision: s.applied_revision,
        file_checksum: s.file_checksum@,
        loader_installed: s.loader_installed,
        status: s.status,
        last_error: opt_view(s.last_error),
    }
}

/// The value of a retired name: the name, the shell, the revision.
pub open spec fn retired_view(r: RetiredName) -> (Seq<char>, ShellKind, i64) {
    (r.name@, r.shell, r.retired_at_revision)
}

/// The value of an overridden definition.
pub open spec fn override_view(o: OverriddenDefinition) -> (Seq<char>, ShellKind, Option<Seq<char>>, bool) {
    (o.name@, o.shell, opt_view(o.original_definition), o.recoverable)
}

/// The contents of the store.
pub struct DatabaseView {
    /// The alias rows, in name order.
    pub aliases: Seq<AliasView>,
    pub shell_states: Seq<ShellStateView>,
    pub retired: Seq<(Seq<char>, ShellKind, i64)>,
    pub overrides: Seq<(Seq<char>, ShellKind, Option<Seq<char>>, bool)>,
    pub schema_version: i64,
}

/// The alias store.
pub struct Database {
    aliases: Vec<AliasRecord>,
    shell_states: Vec<ShellState>,
    retired: Vec<RetiredName>,
    overrides: Vec<OverriddenDefinition>,
    schema_version: i64,
}

impl View for Database {
    type V = DatabaseView;

    closed spec fn view(&self) -> DatabaseView {
        DatabaseView {
            aliases: self.aliases@.map_values(|a: AliasRecord| a@),
            shell_states: self.shell_states@.map_values(|s: ShellState| state_view(s)),
            retired: self.retired@.map_values(|r: RetiredName| retired_view(r)),
            overrides: self.overrides@.map_values(|o: OverriddenDefinition| override_view(o)),
            schema_version: self.schema_version,
        }
    }
}

// ---------------------------------------------------------------------------
// The table and its constraints
// ---------------------------------------------------------------------------

/// Rows in strictly increasing name order, so no two share a name.
pub open spec fn names_sorted(s: Seq<AliasView>) -> bool {
    forall|i: int, j: int| 0 <= i < j < s.len() ==> seq_lt(#[trigger] s[i].name, #[trigger] s[j].name)
}

/// No two rows share an id.
pub open spec fn ids_unique(s: Seq<AliasView>) -> bool {
    forall|i: int, j: int| 0 <= i < j < s.len() ==> #[trigger] s[i].id != #[trigger] s[j].id
}

/// A well-formed alias table.
pub open spec fn table_wf(s: Seq<AliasView>) -> bool {
    names_sorted(s) && ids_unique(s)
}

/// Whether a row has the id.
pub open spec fn has_id(s: Seq<AliasView>, id: u128) -> bool {
    exists|i: int| 0 <= i < s.len() && #[trigger] s[i].id == id
}

/// Whether a row has the name.
pub open spec fn has_name(s: Seq<AliasView>, name: Seq<char>) -> bool {
    exists|i: int| 0 <= i < s.len() && #[trigger] s[i].name == name
}

/// The row with an id.
pub open spec fn row_with_id(s: Seq<AliasView>, id: u128) -> Option<AliasView> {
    if has_id(s, id) {
        Some(s[choose|i: int| 0 <= i < s.len() && #[trigger] s[i].id == id])
    } else {
        None
    }
}

/// The row with a name.
pub open spec fn row_with_name(s: Seq<AliasView>, name: Seq<char>) -> Option<AliasView> {
    if has_name(s, name) {
        Some(s[choose|i: int| 0 <= i < s.len() && #[trigger] s[i].name == name])
    } else {
        None
    }
}

/// A row as a read returns it: rows whose stored checksum is not the
/// checksum of their fields are refused.
pub open spec fn verified_row(row: Option<AliasView>) -> Result<Option<AliasView>, AliasError> {
    match row {
        None => Ok(None),
        Some(v) => if v.record_checksum == record_checksum_spec(v) {
            Ok(Some(v))
        } else {
            Err(AliasError::ChecksumMismatch)
        },
    }
}

/// The value of a read result.
pub open spec fn read_view(r: Result<Option<AliasRecord>, AliasError>) -> Result<Option<AliasView>, AliasError> {
    match r {
        Ok(Some(a)) => Ok(Some(a@)),
        Ok(None) => Ok(None),
        Err(e) => Err(e),
    }
}

/// Where a retired name goes among retired names: after every entry whose
/// revision is at most its own, before the others.
pub open spec fn retire_position(s: Seq<(Seq<char>, ShellKind, i64)>, revision: i64, p: int) -> bool {
    &&& 0 <= p <= s.len()
    &&& forall|k: int| 0 <= k < p ==> #[trigger] s[k].2 <= revision
    &&& forall|k: int| p <= k < s.len() ==> #[trigger] s[k].2 > revision
}

/// Retired names with one more entry at its place.
pub open spec fn retired_with(s: Seq<(Seq<char>, ShellKind, i64)>, e: (Seq<char>, ShellKind, i64)) -> Seq<
    (Seq<char>, ShellKind, i64),
> {
    s.insert(choose|p: int| retire_position(s, e.2, p), e)
}

/// Retired names with a name retired for each of some shells, in order.
pub open spec fn retired_with_all(
    s: Seq<(Seq<char>, ShellKind, i64)>,
    name: Seq<char>,
    shells: Seq<ShellKind>,
    revision: i64,
) -> Seq<(Seq<char>, ShellKind, i64)>
    decreases shells.len(),
{
    if shells.len() == 0 {
        s
    } else {
        retired_with(retired_with_all(s, name, shells.drop_last(), revision), (name, shells.last(), revision))
    }
}

/// There is one place for a retired name.
proof fn lemma_retire_position_unique(s: Seq<(Seq<char>, ShellKind, i64)>, revision: i64, p: int, q: int)
    requires
        retire_position(s, revision, p),
        retire_position(s, revision, q),
    ensures
        p == q,
{
    if p < q {
        assert(s[p].2 <= revision);
        assert(s[p].2 > revision);
    } else if q < p {
        assert(s[q].2 <= revision);
        assert(s[q].2 > revision);
    }
}

/// Whether a PowerShell alias other than `excluding` has the name up to
/// case.
pub open spec fn ps_case_conflict(s: Seq<AliasView>, name: Seq<char>, excluding: Option<u128>) -> bool {
    exists|i: int|
        0 <= i < s.len() && lowercase(#[trigger] s[i].name) == lowercase(name) && excluding != Some(s[i].id)
            && has_powershell_spec(s[i].shells)
}

/// A record as it is stored: with the checksum of its fields.
pub open spec fn stored_record(v: AliasView) -> AliasView {
    AliasView { record_checksum: record_checksum_spec(v), ..v }
}

/// A supplied checksum is accepted when it is empty or right.
pub open spec fn supplied_checksum_ok(v: AliasView) -> bool {
    v.record_checksum.len() == 0 || v.record_checksum == record_checksum_spec(v)
}

/// The message of a second row with the same id.
pub open spec fn id_conflict_message() -> Seq<char> {
    "UNIQUE constraint failed: aliases.id"@
}

/// Facts about every row of a well-formed table.
proof fn lemma_row_unique(s: Seq<AliasView>, i: int, j: int)
    requires
        table_wf(s),
        0 <= i < s.len(),
        0 <= j < s.len(),
        s[i].name == s[j].name || s[i].id == s[j].id,
    ensures
        i == j,
{
    if i < j {
        assert(seq_lt(s[i].name, s[j].name));
        lemma_seq_lt_irreflexive(s[i].name);
    } else if j < i {
        assert(seq_lt(s[j].name, s[i].name));
        lemma_seq_lt_irreflexive(s[j].name);
    }
}

/// An empty store at the current schema version.
pub open spec fn empty_view(v: DatabaseView) -> bool {
    &&& v.aliases.len() == 0
    &&& v.shell_states.len() == 0
    &&& v.retired.len() == 0
    &&& v.overrides.len() == 0
    &&& v.schema_version == CURRENT_VERSION
}

/// Retired names in order of the revision that retired them.
pub open spec fn retired_sorted(r: Seq<(Seq<char>, ShellKind, i64)>) -> bool {
    forall|i: int, j: int| 0 <= i < j < r.len() ==> #[trigger] r[i].2 <= #[trigger] r[j].2
}

/// Unique shells among shell states.
pub open spec fn states_unique(s: Seq<ShellStateView>) -> bool {
    forall|i: int, j: int| 0 <= i < j < s.len() ==> #[trigger] s[i].shell != #[trigger] s[j].shell
}

impl Database {
    /// The store's invariant: a well-formed alias table and one state per
    /// shell.
    pub open spec fn wf(&self) -> bool {
        table_wf(self@.aliases) && states_unique(self@.shell_states) && retired_sorted(self@.retired)
    }

    /// A new, empty store at the current schema version.
    pub fn open_in_memory() -> (r: Result<Self, AliasError>)
        ensures
            r matches Ok(db) && db.wf() && empty_view(db@),
    {
        let db = Database {
            aliases: Vec::new(),
            shell_states: Vec::new(),
            retired: Vec::new(),
            overrides: Vec::new(),
            schema_version: CURRENT_VERSION,
        };
        assert(db@.aliases =~= Seq::<AliasView>::empty());
        assert(db@.shell_states =~= Seq::<ShellStateView>::empty());
        assert(db@.retired =~= Seq::<(Seq<char>, ShellKind, i64)>::empty());
        Ok(db)
    }

    /// The schema version of the store.
    pub fn schema_version(&self) -> (r: Result<i64, AliasError>)
        ensures
            r == Ok::<i64, AliasError>(self@.schema_version),
    {
        Ok(self.schema_version)
    }

    /// The index of the row with an id.
    fn index_of_id(&self, id: u128) -> (r: Option<usize>)
        requires
            self.wf(),
        ensures
            match r {
                Some(i) => i < self@.aliases.len() && self@.aliases[i as int].id == id,
                None => !has_id(self@.aliases, id),
            },
            r matches Some(i) ==> row_with_id(self@.aliases, id) == Some(self@.aliases[i as int]),
    {
        let ghost s = self@.aliases;
        let mut i: usize = 0;
        while i < self.aliases.len()
            invariant
                i <= self.aliases@.len(),
                s == self@.aliases,
                table_wf(s),
                s.len() == self.aliases@.len(),
                forall|k: int| 0 <= k < i ==> #[trigger] s[k].id != id,
            decreases self.aliases.len() - i,
        {
            assert(s[i as int] == self.aliases@[i as int]@);
            if self.aliases[i].id == id {
                proof {
                    assert(s[i as int].id == id);
                    let j = choose|j: int| 0 <= j < s.len() && #[trigger] s[j].id == id;
                    lemma_row_unique(s, i as int, j);
                }
                return Some(i);
            }
            i += 1;
        }
        None
    }

    /// The index of the row with a name.
    fn index_of_name(&self, name: &str) -> (r: Option<usize>)
        requires
            self.wf(),
        ensures
            match r {
                Some(i) => i < self@.aliases.len() && self@.aliases[i as int].name == name@,
                None => !has_name(self@.aliases, name@),
            },
            r matches Some(i) ==> row_with_name(self@.aliases, name@) == Some(self@.aliases[i as int]),
    {
        let ghost s = self@.aliases;
        let mut i: usize = 0;
        while i < self.aliases.len()
            invariant
                i <= self.aliases@.len(),
                s == self@.aliases,
                table_wf(s),
                s.len() == self.aliases@.len(),
                forall|k: int| 0 <= k < i ==> #[trigger] s[k].name != name@,
            decreases self.aliases.len() - i,
        {
            assert(s[i as int] == self.aliases@[i as int]@);
            if str_eq(self.aliases[i].name.as_str(), name) {
                proof {
                    assert(s[i as int].name == name@);
                    let j = choose|j: int| 0 <= j < s.len() && #[trigger] s[j].name == name@;
                    lemma_row_unique(s, i as int, j);
                }
                return Some(i);
            }
            i += 1;
        }
        None
    }

    /// A copy of the row at an index, refused when its checksum is wrong.
    fn verify_checksum(&self, i: usize) -> (r: Result<AliasRecord, AliasError>)
        requires
            i < self@.aliases.len(),
        ensures
            match r {
                Ok(a) => a@ == self@.aliases[i as int] && verified_row(Some(a@)) == Ok::<
                    Option<AliasView>,
                    AliasError,
                >(Some(a@)),
                Err(e) => verified_row(Some(self@.aliases[i as int])) == Err::<Option<AliasView>, AliasError>(e),
            },
    {
        let row = &self.aliases[i];
        assert(row@ == self@.aliases[i as int]);
        let expected = record_checksum(row);
        if str_eq(row.record_checksum.as_str(), expected.as_str()) {
            Ok(row.copy())
        } else {
            Err(AliasError::ChecksumMismatch)
        }
    }

    /// The alias with an id; a row whose checksum is wrong is refused.
    pub fn get_alias(&self, id: u128) -> (r: Result<Option<AliasRecord>, AliasError>)
        requires
            self.wf(),
        ensures
            read_view(r) == verified_row(row_with_id(self@.aliases, id)),
    {
        match self.index_of_id(id) {
            None => Ok(None),
            Some(i) => match self.verify_checksum(i) {
                Ok(a) => Ok(Some(a)),
                Err(e) => Err(e),
            },
        }
    }

    /// The alias with a name; a row whose checksum is wrong is refused.
    pub fn get_alias_by_name(&self, name: &str) -> (r: Result<Option<AliasRecord>, AliasError>)
        requires
            self.wf(),
        ensures
            read_view(r) == verified_row(row_with_name(self@.aliases, name@)),
    {
        match self.index_of_name(name) {
            None => Ok(None),
            Some(i) => match self.verify_checksum(i) {
                Ok(a) => Ok(Some(a)),
                Err(e) => Err(e),
            },
        }
    }

    /// Every alias in name order; the first row whose checksum is wrong
    /// refuses the whole listing.
    pub fn list_aliases(&self) -> (r: Result<Vec<AliasRecord>, AliasError>)
        requires
            self.wf(),
        ensures
            match r {
                Ok(v) => v@.map_values(|a: AliasRecord| a@) == self@.aliases && forall|i: int|
                    0 <= i < self@.aliases.len() ==> #[trigger] verified_row(Some(self@.aliases[i]))
                        is Ok,
                Err(e) => e == AliasError::ChecksumMismatch && exists|i: int|
                    0 <= i < self@.aliases.len() && #[trigger] verified_row(Some(self@.aliases[i])) is Err,
            },
    {
        let ghost s = self@.aliases;
        let mut out: Vec<AliasRecord> = Vec::new();
        let mut i: usize = 0;
        while i < self.aliases.len()
            invariant
                i <= self.aliases@.len(),
                s == self@.aliases,
                s.len() == self.aliases@.len(),
                out@.map_values(|a: AliasRecord| a@) == s.take(i as int),
                forall|k: int| 0 <= k < i ==> #[trigger] verified_row(Some(s[k])) is Ok,
            decreases self.aliases.len() - i,
        {
            match self.verify_checksum(i) {
                Ok(a) => {
                    let ghost prev = out@;
                    out.push(a);
                    assert(out@.map_values(|a: AliasRecord| a@) =~= prev.map_values(|a: AliasRecord| a@).push(s[i as int]));
                    assert(s.take(i + 1) =~= s.take(i as int).push(s[i as int]));
                },
                Err(e) => {
                    return Err(e);
                },
            }
            i += 1;
        }
        assert(s.take(s.len() as int) =~= s);
        Ok(out)
    }

    /// Whether a PowerShell alias other than `excluding` has the name up to
    /// case.
    pub fn has_powershell_case_conflict(&self, name: &str, excluding: Option<u128>) -> (r: Result<bool, AliasError>)
        requires
            self.wf(),
        ensures
            r == Ok::<bool, AliasError>(ps_case_conflict(self@.aliases, name@, excluding)),
    {
        let ghost s = self@.aliases;
        let folded = to_lowercase(name);
        let mut i: usize = 0;
        while i < self.aliases.len()
            invariant
                i <= self.aliases@.len(),
                s == self@.aliases,
                s.len() == self.aliases@.len(),
                folded@ == lowercase(name@),
                forall|k: int|
                    0 <= k < i ==> !(lowercase(#[trigger] s[k].name) == lowercase(name@) && excluding != Some(s[k].id)
                        && has_powershell_spec(s[k].shells)),
            decreases self.aliases.len() - i,
        {
            let row = &self.aliases[i];
            assert(s[i as int] == row@);
            let row_folded = to_lowercase(row.name.as_str());
            let excluded = match excluding {
                Some(id) => id == row.id,
                None => false,
            };
            if str_eq(row_folded.as_str(), folded.as_str()) && !excluded && has_powershell_shell(row.shells.as_slice()) {
                assert(lowercase(s[i as int].name) == lowercase(name@) && excluding != Some(s[i as int].id)
                    && has_powershell_spec(s[i as int].shells));
                return Ok(true);
            }
            i += 1;
        }
        Ok(false)
    }
}

// ---------------------------------------------------------------------------
// Writes
// ---------------------------------------------------------------------------

/// Whether an insertion is accepted: no row has the name, no PowerShell
/// alias has it up to case when the new alias is for PowerShell, the
/// supplied checksum is empty or right, and no row has the id.
pub open spec fn insert_allowed(s: Seq<AliasView>, v: AliasView) -> bool {
    &&& !has_name(s, v.name)
    &&& !(has_powershell_spec(v.shells) && ps_case_conflict(s, v.name, None))
    &&& supplied_checksum_ok(v)
    &&& !has_id(s, v.id)
}

/// Whether a row other than the one with `id` has the name.
pub open spec fn other_has_name(s: Seq<AliasView>, name: Seq<char>, id: u128) -> bool {
    exists|i: int| 0 <= i < s.len() && #[trigger] s[i].name == name && s[i].id != id
}

/// Whether an update of an existing row is accepted: no other row has the
/// name, no other PowerShell alias has it up to case when the alias is for
/// PowerShell, and the supplied checksum is empty or right.
pub open spec fn update_allowed(s: Seq<AliasView>, v: AliasView) -> bool {
    &&& !other_has_name(s, v.name, v.id)
    &&& !(has_powershell_spec(v.shells) && ps_case_conflict(s, v.name, Some(v.id)))
    &&& supplied_checksum_ok(v)
}

/// A record as an update stores it: its fields but the creation time, which
/// the row keeps, and the checksum of the supplied record.
pub open spec fn updated_record(v: AliasView, old: AliasView) -> AliasView {
    AliasView { created_at: old.created_at, record_checksum: record_checksum_spec(v), ..v }
}

/// Inserting a row with a new id at its place by name keeps a table well
/// formed.
proof fn lemma_sorted_insert(s: Seq<AliasView>, p: int, v: AliasView)
    requires
        table_wf(s),
        0 <= p <= s.len(),
        !has_id(s, v.id),
        forall|k: int| 0 <= k < p ==> seq_lt(#[trigger] s[k].name, v.name),
        p < s.len() ==> seq_lt(v.name, s[p].name),
    ensures
        table_wf(s.insert(p, v)),
{
    let t = s.insert(p, v);
    assert forall|i: int, j: int| 0 <= i < j < t.len() implies seq_lt(#[trigger] t[i].name, #[trigger] t[j].name)
        && t[i].id != t[j].id by {
        if j < p {
            assert(t[i] == s[i] && t[j] == s[j]);
        } else if j == p {
            assert(t[i] == s[i] && t[j] == v);
            assert(s[i].id != v.id);
        } else if i == p {
            assert(t[j] == s[j - 1]);
            assert(s[j - 1].id != v.id);
            if j - 1 > p {
                assert(seq_lt(s[p].name, s[j - 1].name));
                lemma_seq_lt_transitive(v.name, s[p].name, s[j - 1].name);
            }
        } else if i < p {
            assert(t[i] == s[i] && t[j] == s[j - 1]);
        } else {
            assert(t[i] == s[i - 1] && t[j] == s[j - 1]);
        }
    }
}

/// Removing a row keeps a table well formed.
proof fn lemma_remove_keeps_wf(s: Seq<AliasView>, k: int)
    requires
        table_wf(s),
        0 <= k < s.len(),
    ensures
        table_wf(s.remove(k)),
        forall|i: int| 0 <= i < s.len() && i != k ==> s.remove(k).contains(#[trigger] s[i]),
{
    let t = s.remove(k);
    assert forall|i: int, j: int| 0 <= i < j < t.len() implies seq_lt(#[trigger] t[i].name, #[trigger] t[j].name)
        && t[i].id != t[j].id by {
        let i0 = if i < k { i } else { i + 1 };
        let j0 = if j < k { j } else { j + 1 };
        assert(t[i] == s[i0] && t[j] == s[j0]);
    }
    assert forall|i: int| 0 <= i < s.len() && i != k implies t.contains(#[trigger] s[i]) by {
        if i < k {
            assert(t[i] == s[i]);
        } else {
            assert(t[i - 1] == s[i]);
        }
    }
}

/// The checksum a write stores: the record's own, when the supplied one is
/// empty or equal to it.
fn checked_checksum(alias: &AliasRecord) -> (r: Result<String, AliasError>)
    ensures
        match r {
            Ok(c) => supplied_checksum_ok(alias@) && c@ == record_checksum_spec(alias@),
            Err(e) => !supplied_checksum_ok(alias@) && e == AliasError::ChecksumMismatch,
        },
{
    let checksum = record_checksum(alias);
    if alias.record_checksum.as_str().is_empty() || str_eq(alias.record_checksum.as_str(), checksum.as_str()) {
        Ok(checksum)
    } else {
        Err(AliasError::ChecksumMismatch)
    }
}

impl Database {
    /// Where a row with a new name goes to keep the rows in name order.
    fn name_position(&self, name: &str) -> (p: usize)
        requires
            self.wf(),
            !has_name(self@.aliases, name@),
        ensures
            p <= self@.aliases.len(),
            forall|k: int| 0 <= k < p ==> seq_lt(#[trigger] self@.aliases[k].name, name@),
            p < self@.aliases.len() ==> seq_lt(name@, self@.aliases[p as int].name),
    {
        let ghost s = self@.aliases;
        let mut p: usize = 0;
        while p < self.aliases.len()
            invariant
                p <= self.aliases@.len(),
                s == self@.aliases,
                s.len() == self.aliases@.len(),
                !has_name(s, name@),
                forall|k: int| 0 <= k < p ==> seq_lt(#[trigger] s[k].name, name@),
            ensures
                p <= s.len(),
                forall|k: int| 0 <= k < p ==> seq_lt(#[trigger] s[k].name, name@),
                p < s.len() ==> seq_lt(name@, s[p as int].name),
            decreases self.aliases.len() - p,
        {
            assert(s[p as int] == self.aliases@[p as int]@);
            if str_lt(name, self.aliases[p].name.as_str()) {
                break;
            }
            proof {
                lemma_seq_lt_total(s[p as int].name, name@);
                if s[p as int].name =~= name@ {
                    assert(has_name(s, name@));
                }
            }
            p += 1;
        }
        p
    }

    /// Puts a row with a new name and id at its place.
    fn put_row(&mut self, row: AliasRecord)
        requires
            old(self).wf(),
            !has_name(old(self)@.aliases, row@.name),
            !has_id(old(self)@.aliases, row@.id),
        ensures
            final(self).wf(),
            exists|p: int| 0 <= p <= old(self)@.aliases.len() && final(self)@.aliases == old(self)@.aliases.insert(p, row@),
            final(self)@.shell_states == old(self)@.shell_states,
            final(self)@.retired == old(self)@.retired,
            final(self)@.overrides == old(self)@.overrides,
            final(self)@.schema_version == old(self)@.schema_version,
    {
        let p = self.name_position(row.name.as_str());
        let ghost s = self@.aliases;
        let ghost v = row@;
        proof {
            lemma_sorted_insert(s, p as int, v);
        }
        self.aliases.insert(p, row);
        assert(self@.aliases =~= s.insert(p as int, v));
    }

    /// Adds an alias. A row with the same name is a conflict (or, when that
    /// row's checksum is wrong, a checksum error); a PowerShell alias whose
    /// name another PowerShell alias has up to case is a conflict; a wrong
    /// supplied checksum is refused; a second row with the same id violates
    /// the table's key. The row is stored with the record's checksum.
    pub fn insert_alias(&mut self, alias: &AliasRecord) -> (r: Result<(), AliasError>)
        requires
            old(self).wf(),
        ensures
            final(self).wf(),
            r is Ok <==> insert_allowed(old(self)@.aliases, alias@),
            has_name(old(self)@.aliases, alias@.name) ==> r == match verified_row(
                row_with_name(old(self)@.aliases, alias@.name),
            ) {
                Err(e) => Err::<(), AliasError>(e),
                Ok(_) => Err(AliasError::ExactNameConflict(alias.name)),
            },
            !has_name(old(self)@.aliases, alias@.name) && has_powershell_spec(alias@.shells) && ps_case_conflict(
                old(self)@.aliases,
                alias@.name,
                None,
            ) ==> r == Err::<(), AliasError>(AliasError::CaseFoldConflict(alias.name)),
            !has_name(old(self)@.aliases, alias@.name) && !(has_powershell_spec(alias@.shells) && ps_case_conflict(
                old(self)@.aliases,
                alias@.name,
                None,
            )) && !supplied_checksum_ok(alias@) ==> r == Err::<(), AliasError>(AliasError::ChecksumMismatch),
            r matches Err(AliasError::AliasConflict(m)) ==> m@ == id_conflict_message(),
            r is Ok ==> exists|p: int|
                0 <= p <= old(self)@.aliases.len() && final(self)@.aliases == old(self)@.aliases.insert(
                    p,
                    stored_record(alias@),
                ),
            r is Err ==> final(self)@ == old(self)@,
            final(self)@.shell_states == old(self)@.shell_states,
            final(self)@.retired == old(self)@.retired,
            final(self)@.overrides == old(self)@.overrides,
            final(self)@.schema_version == old(self)@.schema_version,
    {
        match self.get_alias_by_name(alias.name.as_str()) {
            Err(e) => {
                return Err(e);
            },
            Ok(Some(_)) => {
                return Err(AliasError::ExactNameConflict(alias.name.clone()));
            },
            Ok(None) => {},
        }
        if has_powershell_shell(alias.shells.as_slice()) {
            match self.has_powershell_case_conflict(alias.name.as_str(), None) {
                Ok(true) => {
                    return Err(AliasError::CaseFoldConflict(alias.name.clone()));
                },
                _ => {},
            }
        }
        let checksum = match checked_checksum(alias) {
            Ok(c) => c,
            Err(e) => {
                return Err(e);
            },
        };
        if self.index_of_id(alias.id).is_some() {
            return Err(AliasError::AliasConflict(String::from_str("UNIQUE constraint failed: aliases.id")));
        }
        let mut row = alias.copy();
        row.record_checksum = checksum;
        assert(row@ == stored_record(alias@));
        self.put_row(row);
        Ok(())
    }

    /// Replaces the row with the alias's id. Without such a row nothing
    /// changes and the result is `false`. Another PowerShell alias whose name
    /// equals the alias's up to case is a conflict when the alias is for
    /// PowerShell; another row with the same name is a conflict; a wrong
    /// supplied checksum is refused. The row keeps its creation time and is stored with the
    /// supplied record's checksum.
    pub fn update_alias(&mut self, alias: &AliasRecord) -> (r: Result<bool, AliasError>)
        requires
            old(self).wf(),
        ensures
            final(self).wf(),
            !has_id(old(self)@.aliases, alias@.id) ==> r == Ok::<bool, AliasError>(false),
            has_id(old(self)@.aliases, alias@.id) ==> (r is Ok <==> update_allowed(old(self)@.aliases, alias@)),
            has_id(old(self)@.aliases, alias@.id) && has_powershell_spec(alias@.shells) && ps_case_conflict(
                old(self)@.aliases,
                alias@.name,
                Some(alias@.id),
            ) ==> r == Err::<bool, AliasError>(AliasError::CaseFoldConflict(alias.name)),
            has_id(old(self)@.aliases, alias@.id) && !(has_powershell_spec(alias@.shells) && ps_case_conflict(
                old(self)@.aliases,
                alias@.name,
                Some(alias@.id),
            )) && other_has_name(old(self)@.aliases, alias@.name, alias@.id) ==> r == Err::<bool, AliasError>(
                AliasError::ExactNameConflict(alias.name),
            ),
            has_id(old(self)@.aliases, alias@.id) && !other_has_name(old(self)@.aliases, alias@.name, alias@.id)
                && !(has_powershell_spec(alias@.shells) && ps_case_conflict(
                old(self)@.aliases,
                alias@.name,
                Some(alias@.id),
            )) && !supplied_checksum_ok(alias@) ==> r == Err::<bool, AliasError>(AliasError::ChecksumMismatch),
            r is Ok ==> r == Ok::<bool, AliasError>(has_id(old(self)@.aliases, alias@.id)),
            r == Ok::<bool, AliasError>(true) ==> exists|k: int, p: int|
                0 <= k < old(self)@.aliases.len() && old(self)@.aliases[k].id == alias@.id && 0 <= p
                    < old(self)@.aliases.len() && final(self)@.aliases == old(self)@.aliases.remove(k).insert(
                    p,
                    updated_record(alias@, old(self)@.aliases[k]),
                ),
            r != Ok::<bool, AliasError>(true) ==> final(self)@ == old(self)@,
            final(self)@.shell_states == old(self)@.shell_states,
            final(self)@.retired == old(self)@.retired,
            final(self)@.overrides == old(self)@.overrides,
            final(self)@.schema_version == old(self)@.schema_version,
    {
        let ghost s = self@.aliases;
        let k = match self.index_of_id(alias.id) {
            None => {
                return Ok(false);
            },
            Some(k) => k,
        };
        if has_powershell_shell(alias.shells.as_slice()) {
            match self.has_powershell_case_conflict(alias.name.as_str(), Some(alias.id)) {
                Ok(true) => {
                    return Err(AliasError::CaseFoldConflict(alias.name.clone()));
                },
                _ => {},
            }
        }
        match self.index_of_name(alias.name.as_str()) {
            Some(j) => {
                if self.aliases[j].id != alias.id {
                    assert(s[j as int].id != alias.id);
                    return Err(AliasError::ExactNameConflict(alias.name.clone()));
                }
            },
            None => {},
        }
        assert(!other_has_name(s, alias@.name, alias@.id)) by {
            if other_has_name(s, alias@.name, alias@.id) {
                let i = choose|i: int| 0 <= i < s.len() && #[trigger] s[i].name == alias@.name && s[i].id != alias@.id;
                assert(has_name(s, alias@.name));
                let j = choose|j: int| 0 <= j < s.len() && #[trigger] s[j].name == alias@.name;
                lemma_row_unique(s, i, j);
            }
        }
        let checksum = match checked_checksum(alias) {
            Ok(c) => c,
            Err(e) => {
                return Err(e);
            },
        };
        let mut row = alias.copy();
        row.record_checksum = checksum;
        row.created_at = self.aliases[k].created_at;
        assert(row@ == updated_record(alias@, s[k as int]));
        proof {
            lemma_remove_keeps_wf(s, k as int);
            let t = s.remove(k as int);
            assert(!has_name(t, row@.name)) by {
                if has_name(t, row@.name) {
                    let i = choose|i: int| 0 <= i < t.len() && #[trigger] t[i].name == row@.name;
                    let i0 = if i < k { i } else { i + 1 };
                    assert(t[i] == s[i0]);
                    assert(s[i0].id == alias@.id);
                    lemma_row_unique(s, i0, k as int);
                }
            }
            assert(!has_id(t, row@.id)) by {
                if has_id(t, row@.id) {
                    let i = choose|i: int| 0 <= i < t.len() && #[trigger] t[i].id == row@.id;
                    let i0 = if i < k { i } else { i + 1 };
                    assert(t[i] == s[i0]);
                    lemma_row_unique(s, i0, k as int);
                }
            }
        }
        self.aliases.remove(k);
        assert(self@.aliases =~= s.remove(k as int));
        self.put_row(row);
        Ok(true)
    }

    /// Removes the alias with an id; `true` when there was one.
    pub fn delete_alias(&mut self, id: u128) -> (r: Result<bool, AliasError>)
        requires
            old(self).wf(),
        ensures
            final(self).wf(),
            r == Ok::<bool, AliasError>(has_id(old(self)@.aliases, id)),
            has_id(old(self)@.aliases, id) ==> exists|k: int|
                0 <= k < old(self)@.aliases.len() && old(self)@.aliases[k].id == id && final(self)@.aliases
                    == old(self)@.aliases.remove(k),
            !has_id(old(self)@.aliases, id) ==> final(self)@ == old(self)@,
            final(self)@.shell_states == old(self)@.shell_states,
            final(self)@.retired == old(self)@.retired,
            final(self)@.overrides == old(self)@.overrides,
            final(self)@.schema_version == old(self)@.schema_version,
    {
        let ghost s = self@.aliases;
        match self.index_of_id(id) {
            None => Ok(false),
            Some(k) => {
                proof {
                    lemma_remove_keeps_wf(s, k as int);
                }
                self.aliases.remove(k);
                assert(self@.aliases =~= s.remove(k as int));
                Ok(true)
            },
        }
    }
}

// ---------------------------------------------------------------------------
// Shell states, retired names, overridden definitions
// ---------------------------------------------------------------------------

/// Whether a state is recorded for a shell.
pub open spec fn has_state(s: Seq<ShellStateView>, shell: ShellKind) -> bool {
    exists|i: int| 0 <= i < s.len() && #[trigger] s[i].shell == shell
}

/// The names of enabled aliases for a shell, in table order.
pub open spec fn current_names(s: Seq<AliasView>, shell: ShellKind) -> Seq<Seq<char>>
    decreases s.len(),
{
    if s.len() == 0 {
        Seq::empty()
    } else {
        let rest = current_names(s.drop_last(), shell);
        if s.last().enabled && s.last().shells.contains(shell) {
            rest.push(s.last().name)
        } else {
            rest
        }
    }
}

/// The retired names of a shell, in order of retirement revision.
pub open spec fn retired_names_of(r: Seq<(Seq<char>, ShellKind, i64)>, shell: ShellKind) -> Seq<Seq<char>>
    decreases r.len(),
{
    if r.len() == 0 {
        Seq::empty()
    } else {
        let rest = retired_names_of(r.drop_last(), shell);
        if r.last().1 == shell {
            rest.push(r.last().0)
        } else {
            rest
        }
    }
}

impl Database {
    /// Records the state of a shell's generated file, replacing the state
    /// recorded for that shell before.
    pub fn upsert_shell_state(&mut self, state: &ShellState) -> (r: Result<(), AliasError>)
        requires
            old(self).wf(),
        ensures
            final(self).wf(),
            r is Ok,
            has_state(old(self)@.shell_states, state.shell) ==> exists|k: int|
                0 <= k < old(self)@.shell_states.len() && old(self)@.shell_states[k].shell == state.shell
                    && final(self)@.shell_states == old(self)@.shell_states.update(k, state_view(*state)),
            !has_state(old(self)@.shell_states, state.shell) ==> final(self)@.shell_states == old(
                self,
            )@.shell_states.push(state_view(*state)),
            final(self)@.aliases == old(self)@.aliases,
            final(self)@.retired == old(self)@.retired,
            final(self)@.overrides == old(self)@.overrides,
            final(self)@.schema_version == old(self)@.schema_version,
    {
        let ghost s = self@.shell_states;
        let copy = state.copy();
        assert(state_view(copy) == state_view(*state));
        let mut i: usize = 0;
        let mut found = false;
        while i < self.shell_states.len()
            invariant_except_break
                !found,
            invariant
                i <= self.shell_states@.len(),
                s == self@.shell_states,
                s.len() == self.shell_states@.len(),
                forall|k: int| 0 <= k < i ==> #[trigger] s[k].shell != state.shell,
            ensures
                i <= s.len(),
                found ==> i < s.len() && s[i as int].shell == state.shell,
                !found ==> forall|k: int| 0 <= k < s.len() ==> #[trigger] s[k].shell != state.shell,
            decreases self.shell_states.len() - i,
        {
            assert(s[i as int] == state_view(self.shell_states@[i as int]));
            if self.shell_states[i].shell == state.shell {
                found = true;
                break;
            }
            i += 1;
        }
        if found {
            self.shell_states.set(i, copy);
            assert(self@.shell_states =~= s.update(i as int, state_view(*state)));
            assert forall|a: int, b: int| 0 <= a < b < self@.shell_states.len() implies #[trigger] self@.shell_states[a].shell
                != #[trigger] self@.shell_states[b].shell by {
                assert(s[a].shell != s[b].shell);
            }
        } else {
            self.shell_states.push(copy);
            assert(self@.shell_states =~= s.push(state_view(*state)));
        }
        Ok(())
    }

    /// The recorded shell states.
    pub fn shell_states(&self) -> (v: Vec<ShellState>)
        ensures
            v@.map_values(|s: ShellState| state_view(s)) == self@.shell_states,
    {
        let mut out: Vec<ShellState> = Vec::new();
        let mut i: usize = 0;
        while i < self.shell_states.len()
            invariant
                i <= self.shell_states@.len(),
                out@.map_values(|s: ShellState| state_view(s)) =~= self@.shell_states.take(i as int),
            decreases self.shell_states.len() - i,
        {
            let c = self.shell_states[i].copy();
            assert(state_view(c) == state_view(self.shell_states@[i as int]));
            out.push(c);
            assert(self@.shell_states.take(i + 1) =~= self@.shell_states.take(i as int).push(state_view(c)));
            i += 1;
        }
        assert(self@.shell_states.take(self@.shell_states.len() as int) =~= self@.shell_states);
        out
    }

    /// Records that a name was retired from a shell at a revision; it goes
    /// after every name retired at the same or an earlier revision.
    pub fn retire_name(&mut self, name: &str, shell: &ShellKind, revision: i64) -> (r: Result<(), AliasError>)
        requires
            old(self).wf(),
        ensures
            final(self).wf(),
            r is Ok,
            exists|p: int|
                0 <= p <= old(self)@.retired.len() && final(self)@.retired == old(self)@.retired.insert(
                    p,
                    (name@, *shell, revision),
                ) && (forall|k: int| 0 <= k < p ==> #[trigger] old(self)@.retired[k].2 <= revision) && (forall|
                    k: int,
                | p <= k < old(self)@.retired.len() ==> #[trigger] old(self)@.retired[k].2 > revision),
            final(self)@.retired == retired_with(old(self)@.retired, (name@, *shell, revision)),
            final(self)@.retired == retired_with(old(self)@.retired, (name@, *shell, revision)),
            final(self)@.aliases == old(self)@.aliases,
            final(self)@.shell_states == old(self)@.shell_states,
            final(self)@.overrides == old(self)@.overrides,
            final(self)@.schema_version == old(self)@.schema_version,
    {
        let ghost s = self@.retired;
        let mut p: usize = 0;
        while p < self.retired.len()
            invariant
                p <= self.retired@.len(),
                s == self@.retired,
                s.len() == self.retired@.len(),
                retired_sorted(s),
                forall|k: int| 0 <= k < p ==> #[trigger] s[k].2 <= revision,
            ensures
                p <= s.len(),
                forall|k: int| 0 <= k < p ==> #[trigger] s[k].2 <= revision,
                forall|k: int| p <= k < s.len() ==> #[trigger] s[k].2 > revision,
            decreases self.retired.len() - p,
        {
            assert(s[p as int] == retired_view(self.retired@[p as int]));
            if self.retired[p].retired_at_revision > revision {
                assert forall|k: int| p <= k < s.len() implies #[trigger] s[k].2 > revision by {
                    if k > p {
                        assert(s[p as int].2 <= s[k].2);
                    }
                }
                break;
            }
            p += 1;
        }
        proof {
            assert(retire_position(s, revision, p as int));
            let c = choose|q: int| retire_position(s, revision, q);
            lemma_retire_position_unique(s, revision, p as int, c);
        }
        let entry = RetiredName { name: String::from_str(name), shell: *shell, retired_at_revision: revision };
        self.retired.insert(p, entry);
        assert(self@.retired =~= s.insert(p as int, (name@, *shell, revision)));
        assert forall|a: int, b: int| 0 <= a < b < self@.retired.len() implies #[trigger] self@.retired[a].2
            <= #[trigger] self@.retired[b].2 by {
            let t = self@.retired;
            if b < p {
                assert(t[a] == s[a] && t[b] == s[b]);
            } else if b == p {
                assert(t[a] == s[a]);
            } else if a == p {
                assert(t[b] == s[b - 1]);
            } else if a < p {
                assert(t[a] == s[a] && t[b] == s[b - 1]);
            } else {
                assert(t[a] == s[a - 1] && t[b] == s[b - 1]);
            }
        }
        Ok(())
    }

    /// The retired names, in order of retirement revision.
    pub fn retired_names(&self) -> (v: Vec<RetiredName>)
        ensures
            v@.map_values(|r: RetiredName| retired_view(r)) == self@.retired,
    {
        let mut out: Vec<RetiredName> = Vec::new();
        let mut i: usize = 0;
        while i < self.retired.len()
            invariant
                i <= self.retired@.len(),
                out@.map_values(|r: RetiredName| retired_view(r)) =~= self@.retired.take(i as int),
            decreases self.retired.len() - i,
        {
            let e = &self.retired[i];
            let c = RetiredName { name: e.name.clone(), shell: e.shell, retired_at_revision: e.retired_at_revision };
            out.push(c);
            assert(self@.retired.take(i + 1) =~= self@.retired.take(i as int).push(retired_view(c)));
            i += 1;
        }
        assert(self@.retired.take(self@.retired.len() as int) =~= self@.retired);
        out
    }

    /// The names a shell's generated file manages: the enabled aliases for
    /// that shell, in name order, and the names retired from it, in order
    /// of retirement.
    pub fn managed_name_set(&self, shell: &ShellKind) -> (r: Result<ManagedNameSet, AliasError>)
        ensures
            r matches Ok(set) && strings_view(set.current@) == current_names(self@.aliases, *shell) && strings_view(
                set.retired@,
            ) == retired_names_of(self@.retired, *shell),
    {
        let mut current: Vec<String> = Vec::new();
        let mut i: usize = 0;
        while i < self.aliases.len()
            invariant
                i <= self.aliases@.len(),
                strings_view(current@) == current_names(self@.aliases.take(i as int), *shell),
            decreases self.aliases.len() - i,
        {
            let a = &self.aliases[i];
            assert(self@.aliases.take(i + 1).drop_last() =~= self@.aliases.take(i as int));
            assert(self@.aliases.take(i + 1).last() == a@);
            if a.enabled && contains_shell(&a.shells, *shell) {
                let ghost prev = current@;
                current.push(a.name.clone());
                assert(strings_view(current@) =~= strings_view(prev).push(a.name@));
            }
            i += 1;
        }
        assert(self@.aliases.take(self@.aliases.len() as int) =~= self@.aliases);
        let mut retired: Vec<String> = Vec::new();
        let mut j: usize = 0;
        while j < self.retired.len()
            invariant
                j <= self.retired@.len(),
                strings_view(retired@) == retired_names_of(self@.retired.take(j as int), *shell),
            decreases self.retired.len() - j,
        {
            let e = &self.retired[j];
            assert(self@.retired.take(j + 1).drop_last() =~= self@.retired.take(j as int));
            assert(self@.retired.take(j + 1).last() == retired_view(*e));
            if e.shell == *shell {
                let ghost prev = retired@;
                retired.push(e.name.clone());
                assert(strings_view(retired@) =~= strings_view(prev).push(e.name@));
            }
            j += 1;
        }
        assert(self@.retired.take(self@.retired.len() as int) =~= self@.retired);
        Ok(ManagedNameSet { current, retired })
    }

    /// Forgets the names retired before a revision; the result is how many.
    pub fn prune_retired_names(&mut self, minimum_revision: i64) -> (r: Result<usize, AliasError>)
        requires
            old(self).wf(),
        ensures
            final(self).wf(),
            r matches Ok(n) && n <= old(self)@.retired.len() && final(self)@.retired == old(self)@.retired.skip(n as int)
                && (forall|k: int| 0 <= k < n ==> #[trigger] old(self)@.retired[k].2 < minimum_revision) && (forall|
                k: int,
            | n <= k < old(self)@.retired.len() ==> #[trigger] old(self)@.retired[k].2 >= minimum_revision),
            final(self)@.aliases == old(self)@.aliases,
            final(self)@.shell_states == old(self)@.shell_states,
            final(self)@.overrides == old(self)@.overrides,
            final(self)@.schema_version == old(self)@.schema_version,
    {
        let ghost s = self@.retired;
        let mut n: usize = 0;
        while n < self.retired.len()
            invariant
                n <= self.retired@.len(),
                s == self@.retired,
                s.len() == self.retired@.len(),
                retired_sorted(s),
                forall|k: int| 0 <= k < n ==> #[trigger] s[k].2 < minimum_revision,
            ensures
                n <= s.len(),
                forall|k: int| 0 <= k < n ==> #[trigger] s[k].2 < minimum_revision,
                forall|k: int| n <= k < s.len() ==> #[trigger] s[k].2 >= minimum_revision,
            decreases self.retired.len() - n,
        {
            assert(s[n as int] == retired_view(self.retired@[n as int]));
            if self.retired[n].retired_at_revision >= minimum_revision {
                assert forall|k: int| n <= k < s.len() implies #[trigger] s[k].2 >= minimum_revision by {
                    if k > n {
                        assert(s[n as int].2 <= s[k].2);
                    }
                }
                break;
            }
            n += 1;
        }
        let mut kept: Vec<RetiredName> = Vec::new();
        let mut i: usize = n;
        while i < self.retired.len()
            invariant
                n <= i <= self.retired@.len(),
                s == self@.retired,
                kept@.map_values(|r: RetiredName| retired_view(r)) =~= s.subrange(n as int, i as int),
            decreases self.retired.len() - i,
        {
            let e = &self.retired[i];
            let c = RetiredName { name: e.name.clone(), shell: e.shell, retired_at_revision: e.retired_at_revision };
            kept.push(c);
            assert(s.subrange(n as int, i + 1) =~= s.subrange(n as int, i as int).push(retired_view(c)));
            i += 1;
        }
        self.retired = kept;
        assert(self@.retired =~= s.skip(n as int));
        assert forall|a: int, b: int| 0 <= a < b < self@.retired.len() implies #[trigger] self@.retired[a].2
            <= #[trigger] self@.retired[b].2 by {
            assert(self@.retired[a] == s[a + n] && self@.retired[b] == s[b + n]);
        }
        Ok(n)
    }

    /// Records a definition of a name that an alias replaced.
    pub fn record_override(
        &mut self,
        name: &str,
        shell: &ShellKind,
        original_definition: Option<&str>,
        recoverable: bool,
    ) -> (r: Result<(), AliasError>)
        requires
            old(self).wf(),
        ensures
            final(self).wf(),
            r is Ok,
            final(self)@.overrides == old(self)@.overrides.push(
                (
                    name@,
                    *shell,
                    match original_definition {
                        Some(d) => Some(d@),
                        None => None,
                    },
                    recoverable,
                ),
            ),
            final(self)@.aliases == old(self)@.aliases,
            final(self)@.shell_states == old(self)@.shell_states,
            final(self)@.retired == old(self)@.retired,
            final(self)@.schema_version == old(self)@.schema_version,
    {
        let ghost s = self@.overrides;
        let original = match original_definition {
            Some(d) => Some(String::from_str(d)),
            None => None,
        };
        let entry = OverriddenDefinition { name: String::from_str(name), shell: *shell, original_definition: original, recoverable };
        self.overrides.push(entry);
        assert(self@.overrides =~= s.push(override_view(entry)));
        Ok(())
    }

    /// The recorded overridden definitions, oldest first.
    pub fn overridden_definitions(&self) -> (v: Vec<OverriddenDefinition>)
        ensures
            v@.map_values(|o: OverriddenDefinition| override_view(o)) == self@.overrides,
    {
        let mut out: Vec<OverriddenDefinition> = Vec::new();
        let mut i: usize = 0;
        while i < self.overrides.len()
            invariant
                i <= self.overrides@.len(),
                out@.map_values(|o: OverriddenDefinition| override_view(o)) =~= self@.overrides.take(i as int),
            decreases self.overrides.len() - i,
        {
            let e = &self.overrides[i];
            let c = OverriddenDefinition {
                name: e.name.clone(),
                shell: e.shell,
                original_definition: copy_opt(&e.original_definition),
                recoverable: e.recoverable,
            };
            out.push(c);
            assert(self@.overrides.take(i + 1) =~= self@.overrides.take(i as int).push(override_view(c)));
            i += 1;
        }
        assert(self@.overrides.take(self@.overrides.len() as int) =~= self@.overrides);
        out
    }

    /// Loads a stored row as it is, checksum included (reads check it).
    /// A second row with the same id or name violates the table's keys.
    pub fn restore_alias(&mut self, row: AliasRecord) -> (r: Result<(), AliasError>)
        requires
            old(self).wf(),
        ensures
            final(self).wf(),
            r is Ok <==> !has_id(old(self)@.aliases, row@.id) && !has_name(old(self)@.aliases, row@.name),
            r is Ok ==> exists|p: int|
                0 <= p <= old(self)@.aliases.len() && final(self)@.aliases == old(self)@.aliases.insert(p, row@),
            r matches Err(e) ==> e is AliasConflict,
            r is Err ==> final(self)@ == old(self)@,
            final(self)@.shell_states == old(self)@.shell_states,
            final(self)@.retired == old(self)@.retired,
            final(self)@.overrides == old(self)@.overrides,
            final(self)@.schema_version == old(self)@.schema_version,
    {
        if self.index_of_id(row.id).is_some() {
            return Err(AliasError::AliasConflict(String::from_str("UNIQUE constraint failed: aliases.id")));
        }
        if self.index_of_name(row.name.as_str()).is_some() {
            return Err(AliasError::AliasConflict(String::from_str("UNIQUE constraint failed: aliases.name")));
        }
        self.put_row(row);
        Ok(())
    }
}

/// Whether a list of shells holds a shell.
fn contains_shell(shells: &Vec<ShellKind>, shell: ShellKind) -> (b: bool)
    ensures
        b == shells@.contains(shell),
{
    let mut i: usize = 0;
    while i < shells.len()
        invariant
            i <= shells@.len(),
            forall|k: int| 0 <= k < i ==> shells@[k] != shell,
        decreases shells.len() - i,
    {
        if shells[i] == shell {
            return true;
        }
        i += 1;
    }
    false
}

// ---------------------------------------------------------------------------
// Laws of the alias table
// ---------------------------------------------------------------------------

/// The checksum of a record does not depend on its stored checksum.
pub proof fn lemma_checksum_ignores_stored(v: AliasView, c: Seq<char>)
    ensures
        record_checksum_spec(AliasView { record_checksum: c, ..v }) == record_checksum_spec(v),
{
    let w = AliasView { record_checksum: c, ..v };
    assert(crate::model::checksum_payload(w) == crate::model::checksum_payload(v));
}

/// The row of a well-formed table that has an id.
proof fn lemma_row_with_id_at(s: Seq<AliasView>, k: int)
    requires
        table_wf(s),
        0 <= k < s.len(),
    ensures
        row_with_id(s, s[k].id) == Some(s[k]),
        row_with_name(s, s[k].name) == Some(s[k]),
{
    assert(has_id(s, s[k].id));
    let i = choose|i: int| 0 <= i < s.len() && #[trigger] s[i].id == s[k].id;
    lemma_row_unique(s, i, k);
    assert(has_name(s, s[k].name));
    let j = choose|j: int| 0 <= j < s.len() && #[trigger] s[j].name == s[k].name;
    lemma_row_unique(s, j, k);
}

/// What is inserted is read back: after an accepted insertion the alias is
/// found by its id and by its name, as stored, and passes the checksum check.
pub proof fn law_inserted_alias_is_read_back(s: Seq<AliasView>, p: int, v: AliasView)
    requires
        table_wf(s),
        insert_allowed(s, v),
        0 <= p <= s.len(),
        table_wf(s.insert(p, stored_record(v))),
    ensures
        verified_row(row_with_id(s.insert(p, stored_record(v)), v.id)) == Ok::<Option<AliasView>, AliasError>(
            Some(stored_record(v)),
        ),
        verified_row(row_with_name(s.insert(p, stored_record(v)), v.name)) == Ok::<Option<AliasView>, AliasError>(
            Some(stored_record(v)),
        ),
{
    let t = s.insert(p, stored_record(v));
    assert(t[p] == stored_record(v));
    lemma_row_with_id_at(t, p);
    lemma_checksum_ignores_stored(v, record_checksum_spec(v));
}

/// A name is taken once: after an accepted insertion, inserting another
/// record with the same name is refused as a name conflict.
pub proof fn law_name_taken_after_insert(s: Seq<AliasView>, p: int, v: AliasView, w: AliasView)
    requires
        table_wf(s),
        insert_allowed(s, v),
        0 <= p <= s.len(),
        table_wf(s.insert(p, stored_record(v))),
        w.name == v.name,
    ensures
        !insert_allowed(s.insert(p, stored_record(v)), w),
        has_name(s.insert(p, stored_record(v)), w.name),
        verified_row(row_with_name(s.insert(p, stored_record(v)), w.name)) is Ok,
{
    law_inserted_alias_is_read_back(s, p, v);
    let t = s.insert(p, stored_record(v));
    assert(t[p].name == w.name);
}

/// What is deleted is gone: after a row is removed no row has its id.
pub proof fn law_deleted_alias_is_gone(s: Seq<AliasView>, k: int)
    requires
        table_wf(s),
        0 <= k < s.len(),
    ensures
        row_with_id(s.remove(k), s[k].id) is None,
        verified_row(row_with_id(s.remove(k), s[k].id)) == Ok::<Option<AliasView>, AliasError>(None),
{
    let t = s.remove(k);
    if has_id(t, s[k].id) {
        let i = choose|i: int| 0 <= i < t.len() && #[trigger] t[i].id == s[k].id;
        let i0 = if i < k { i } else { i + 1 };
        assert(t[i] == s[i0]);
        lemma_row_unique(s, i0, k);
    }
}

/// What is updated is read back: after an accepted update the row with the
/// id holds the new fields with its old creation time; it passes the
/// checksum check when the update kept the creation time.
pub proof fn law_updated_alias_is_read_back(s: Seq<AliasView>, k: int, p: int, v: AliasView)
    requires
        table_wf(s),
        0 <= k < s.len(),
        s[k].id == v.id,
        update_allowed(s, v),
        0 <= p <= s.len() - 1,
        table_wf(s.remove(k).insert(p, updated_record(v, s[k]))),
    ensures
        row_with_id(s.remove(k).insert(p, updated_record(v, s[k])), v.id) == Some(updated_record(v, s[k])),
        v.created_at == s[k].created_at ==> verified_row(row_with_id(s.remove(k).insert(p, updated_record(v, s[k])), v.id))
            == Ok::<Option<AliasView>, AliasError>(Some(updated_record(v, s[k]))),
{
    let t = s.remove(k).insert(p, updated_record(v, s[k]));
    assert(t[p] == updated_record(v, s[k]));
    lemma_row_with_id_at(t, p);
    if v.created_at == s[k].created_at {
        assert(updated_record(v, s[k]) == AliasView { record_checksum: record_checksum_spec(v), ..v });
        lemma_checksum_ignores_stored(v, record_checksum_spec(v));
    }
}

// ---------------------------------------------------------------------------
// Transactions
// ---------------------------------------------------------------------------

impl Database {
    /// A copy of the store.
    fn snapshot(&self) -> (c: Self)
        ensures
            c@ == self@,
    {
        let mut aliases: Vec<AliasRecord> = Vec::new();
        let mut i: usize = 0;
        while i < self.aliases.len()
            invariant
                i <= self.aliases@.len(),
                aliases@.map_values(|a: AliasRecord| a@) =~= self@.aliases.take(i as int),
            decreases self.aliases.len() - i,
        {
            aliases.push(self.aliases[i].copy());
            assert(self@.aliases.take(i + 1) =~= self@.aliases.take(i as int).push(self.aliases@[i as int]@));
            i += 1;
        }
        assert(self@.aliases.take(self@.aliases.len() as int) =~= self@.aliases);
        let c = Database {
            aliases,
            shell_states: self.shell_states(),
            retired: self.retired_names(),
            overrides: self.overridden_definitions(),
            schema_version: self.schema_version,
        };
        assert(c@.aliases =~= self@.aliases);
        c
    }

    /// Every row as it is stored, checksum unchecked, in name order (what is
    /// written back to the database file).
    pub fn stored_rows(&self) -> (v: Vec<AliasRecord>)
        ensures
            v@.map_values(|a: AliasRecord| a@) == self@.aliases,
    {
        self.snapshot().aliases
    }

    /// Runs an operation on the store as one transaction: when it fails the
    /// store is left as it was; when it succeeds its changes stay.
    pub fn transaction<T, F>(&mut self, operation: F) -> (r: Result<T, AliasError>)
        where
            F: FnOnce(Self) -> (Self, Result<T, AliasError>),
        requires
            old(self).wf(),
            call_requires(operation, (*old(self),)),
            forall|d: Self, out: (Self, Result<T, AliasError>)| call_ensures(operation, (d,), out) ==> out.0.wf(),
        ensures
            final(self).wf(),
            r is Err ==> final(self)@ == old(self)@,
            exists|out: (Self, Result<T, AliasError>)|
                call_ensures(operation, (*old(self),), out) && out.1 == r && (r is Ok ==> final(self)@ == out.0@),
    {
        let mut current = self.snapshot();
        std::mem::swap(self, &mut current);
        let (after, result) = operation(current);
        match result {
            Ok(v) => {
                *self = after;
                Ok(v)
            },
            Err(e) => Err(e),
        }
    }
}

// ---------------------------------------------------------------------------
// Commands on a named alias
// ---------------------------------------------------------------------------

/// The row a name finds has an id in the table.
proof fn lemma_named_row_has_id(s: Seq<AliasView>, name: Seq<char>)
    requires
        row_with_name(s, name) is Some,
    ensures
        has_id(s, row_with_name(s, name)->0.id),
        row_with_name(s, name)->0.name == name,
{
    let i = choose|i: int| 0 <= i < s.len() && #[trigger] s[i].name == name;
    assert(s[i].id == row_with_name(s, name)->0.id);
}

impl Database {
    /// Removes the alias with a name: its name is retired for each of its
    /// shells at its revision, then its row is deleted. A name that no row
    /// has gives `false`; a row whose checksum is wrong is refused.
    pub fn remove_by_name(&mut self, name: &str) -> (r: Result<bool, AliasError>)
        requires
            old(self).wf(),
        ensures
            final(self).wf(),
            match verified_row(row_with_name(old(self)@.aliases, name@)) {
                Err(e) => r == Err::<bool, AliasError>(e) && final(self)@ == old(self)@,
                Ok(None) => r == Ok::<bool, AliasError>(false) && final(self)@ == old(self)@,
                Ok(Some(a)) => {
                    &&& r == Ok::<bool, AliasError>(true)
                    &&& exists|k: int|
                        0 <= k < old(self)@.aliases.len() && old(self)@.aliases[k].id == a.id && final(self)@.aliases
                            == #[trigger] old(self)@.aliases.remove(k)
                    &&& final(self)@.retired == retired_with_all(old(self)@.retired, name@, a.shells, a.revision)
                    &&& final(self)@.shell_states == old(self)@.shell_states
                    &&& final(self)@.overrides == old(self)@.overrides
                    &&& final(self)@.schema_version == old(self)@.schema_version
                },
            },
    {
        let ghost before = self@;
        let alias = match self.get_alias_by_name(name) {
            Err(e) => return Err(e),
            Ok(None) => return Ok(false),
            Ok(Some(a)) => a,
        };
        let ghost shells = alias.shells@;
        let mut i: usize = 0;
        assert(shells.take(0) =~= Seq::<ShellKind>::empty());
        while i < alias.shells.len()
            invariant
                self.wf(),
                i <= alias.shells@.len(),
                shells == alias.shells@,
                self@.aliases == before.aliases,
                self@.shell_states == before.shell_states,
                self@.overrides == before.overrides,
                self@.schema_version == before.schema_version,
                self@.retired == retired_with_all(before.retired, name@, shells.take(i as int), alias.revision),
            decreases alias.shells.len() - i,
        {
            let _ = self.retire_name(name, &alias.shells[i], alias.revision);
            assert(shells.take(i + 1).drop_last() =~= shells.take(i as int));
            assert(shells.take(i + 1).last() == shells[i as int]);
            i += 1;
        }
        assert(shells.take(shells.len() as int) =~= shells);
        proof {
            lemma_named_row_has_id(before.aliases, name@);
        }
        self.delete_alias(alias.id)
    }
}

/// The message for a name that no alias has.
pub open spec fn not_found_message(name: Seq<char>) -> Seq<char> {
    "alias not found: "@ + name
}

/// What replacing a stored row with a record does to the rows, the record's
/// id being stored: it is refused with a case-fold conflict, then an exact
/// name conflict, then a wrong supplied checksum, and leaves the rows as
/// they were; otherwise the row is replaced, keeping its creation time.
pub open spec fn update_outcome(s: Seq<AliasView>, v: AliasView, r: Result<bool, AliasError>, t: Seq<AliasView>) -> bool {
    let case_fold = has_powershell_spec(v.shells) && ps_case_conflict(s, v.name, Some(v.id));
    &&& (r is Ok <==> update_allowed(s, v))
    &&& case_fold ==> (r matches Err(AliasError::CaseFoldConflict(n)) && n@ == v.name)
    &&& !case_fold && other_has_name(s, v.name, v.id) ==> (r matches Err(AliasError::ExactNameConflict(n)) && n@
        == v.name)
    &&& !case_fold && !other_has_name(s, v.name, v.id) && !supplied_checksum_ok(v) ==> r == Err::<bool, AliasError>(
        AliasError::ChecksumMismatch,
    )
    &&& r is Ok ==> (r == Ok::<bool, AliasError>(true) && exists|k: int, p: int|
        0 <= k < s.len() && s[k].id == v.id && 0 <= p < s.len() && t == #[trigger] s.remove(k).insert(
            p,
            updated_record(v, s[k]),
        ))
    &&& r is Err ==> t == s
}

impl Database {
    /// The alias with a name; a name that no alias has is a configuration
    /// error.
    fn named_alias(&self, name: &str) -> (r: Result<AliasRecord, AliasError>)
        requires
            self.wf(),
        ensures
            match verified_row(row_with_name(self@.aliases, name@)) {
                Err(e) => r == Err::<AliasRecord, AliasError>(e),
                Ok(None) => r matches Err(AliasError::Config(m)) && m@ == not_found_message(name@),
                Ok(Some(a)) => r matches Ok(x) && x@ == a,
            },
    {
        match self.get_alias_by_name(name) {
            Err(e) => Err(e),
            Ok(Some(a)) => Ok(a),
            Ok(None) => {
                let mut m = String::from_str("alias not found: ");
                m.append(name);
                Err(AliasError::Config(m))
            },
        }
    }

    /// Stores a changed record of a stored alias with its checksum.
    fn store_changed(&mut self, alias: AliasRecord) -> (r: Result<bool, AliasError>)
        requires
            old(self).wf(),
            has_id(old(self)@.aliases, alias@.id),
        ensures
            final(self).wf(),
            update_outcome(old(self)@.aliases, stored_record(alias@), r, final(self)@.aliases),
            final(self)@.shell_states == old(self)@.shell_states,
            final(self)@.retired == old(self)@.retired,
            final(self)@.overrides == old(self)@.overrides,
            final(self)@.schema_version == old(self)@.schema_version,
    {
        let ghost v = alias@;
        let mut alias = alias;
        alias.record_checksum = record_checksum(&alias);
        assert(alias@ == stored_record(v));
        proof {
            lemma_checksum_ignores_stored(v, record_checksum_spec(v));
        }
        self.update_alias(&alias)
    }

    /// Enables or disables the alias with a name and stores it.
    pub fn set_enabled(&mut self, name: &str, enabled: bool) -> (r: Result<bool, AliasError>)
        requires
            old(self).wf(),
        ensures
            final(self).wf(),
            final(self)@.shell_states == old(self)@.shell_states,
            final(self)@.retired == old(self)@.retired,
            final(self)@.overrides == old(self)@.overrides,
            final(self)@.schema_version == old(self)@.schema_version,
            match verified_row(row_with_name(old(self)@.aliases, name@)) {
                Err(e) => r == Err::<bool, AliasError>(e) && final(self)@ == old(self)@,
                Ok(None) => (r matches Err(AliasError::Config(m)) && m@ == not_found_message(name@)) && final(self)@
                    == old(self)@,
                Ok(Some(a)) => update_outcome(
                    old(self)@.aliases,
                    stored_record(AliasView { enabled, ..a }),
                    r,
                    final(self)@.aliases,
                ),
            },
    {
        let mut alias = match self.named_alias(name) {
            Ok(a) => a,
            Err(e) => return Err(e),
        };
        proof {
            lemma_named_row_has_id(self@.aliases, name@);
        }
        alias.enabled = enabled;
        self.store_changed(alias)
    }

    /// Points the alias with a name at another executable with other fixed
    /// arguments, validates it and stores it.
    pub fn update_target(&mut self, name: &str, executable: &str, fixed_args: Vec<String>) -> (r: Result<bool, AliasError>)
        requires
            old(self).wf(),
        ensures
            final(self).wf(),
            final(self)@.shell_states == old(self)@.shell_states,
            final(self)@.retired == old(self)@.retired,
            final(self)@.overrides == old(self)@.overrides,
            final(self)@.schema_version == old(self)@.schema_version,
            match verified_row(row_with_name(old(self)@.aliases, name@)) {
                Err(e) => r == Err::<bool, AliasError>(e) && final(self)@ == old(self)@,
                Ok(None) => (r matches Err(AliasError::Config(m)) && m@ == not_found_message(name@)) && final(self)@
                    == old(self)@,
                Ok(Some(a)) => {
                    let w = AliasView { executable: executable@, fixed_args: strings_view(fixed_args@), ..a };
                    &&& validate_alias_spec(w) matches Err(ve) ==> r == Err::<bool, AliasError>(ve) && final(self)@
                        == old(self)@
                    &&& validate_alias_spec(w) is Ok ==> update_outcome(
                        old(self)@.aliases,
                        stored_record(w),
                        r,
                        final(self)@.aliases,
                    )
                },
            },
    {
        let mut alias = match self.named_alias(name) {
            Ok(a) => a,
            Err(e) => return Err(e),
        };
        proof {
            lemma_named_row_has_id(self@.aliases, name@);
        }
        alias.executable = String::from_str(executable);
        alias.fixed_args = fixed_args;
        match validate_alias(&alias) {
            Err(e) => return Err(e),
            Ok(()) => {},
        }
        self.store_changed(alias)
    }

    /// Renames the alias with a name: the old name is retired for its first
    /// shell (Bash when it has none) at its revision, then the renamed alias
    /// is validated and stored. The retirement stays when the rest fails.
    pub fn rename_alias(&mut self, old_name: &str, new_name: &str) -> (r: Result<bool, AliasError>)
        requires
            old(self).wf(),
        ensures
            final(self).wf(),
            final(self)@.shell_states == old(self)@.shell_states,
            final(self)@.overrides == old(self)@.overrides,
            final(self)@.schema_version == old(self)@.schema_version,
            match verified_row(row_with_name(old(self)@.aliases, old_name@)) {
                Err(e) => r == Err::<bool, AliasError>(e) && final(self)@ == old(self)@,
                Ok(None) => (r matches Err(AliasError::Config(m)) && m@ == not_found_message(old_name@))
                    && final(self)@ == old(self)@,
                Ok(Some(a)) => {
                    let w = AliasView { name: new_name@, ..a };
                    let shell = if a.shells.len() > 0 {
                        a.shells[0]
                    } else {
                        ShellKind::Bash
                    };
                    &&& final(self)@.retired == retired_with(old(self)@.retired, (old_name@, shell, a.revision))
                    &&& validate_alias_spec(w) matches Err(ve) ==> r == Err::<bool, AliasError>(ve) && final(self)@.aliases
                        == old(self)@.aliases
                    &&& validate_alias_spec(w) is Ok ==> update_outcome(
                        old(self)@.aliases,
                        stored_record(w),
                        r,
                        final(self)@.aliases,
                    )
                },
            },
    {
        let mut alias = match self.named_alias(old_name) {
            Ok(a) => a,
            Err(e) => return Err(e),
        };
        proof {
            lemma_named_row_has_id(self@.aliases, old_name@);
        }
        let shell = if alias.shells.len() > 0 {
            alias.shells[0]
        } else {
            ShellKind::Bash
        };
        let _ = self.retire_name(old_name, &shell, alias.revision);
        alias.name = String::from_str(new_name);
        match validate_alias(&alias) {
            Err(e) => return Err(e),
            Ok(()) => {},
        }
        self.store_changed(alias)
    }
}

} // verus!
