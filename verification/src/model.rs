//! The alias model: alias records, shells, target kinds and the records that
//! describe the state of generated shell files.
use vstd::prelude::*;
use crate::text::{hex_digit, seq_lt, str_lt, chars_of, nat_text, int_text, u128_text, i64_text, i128_text, usize_text, string_of};
use crate::digest::{sha256_hex_spec, sha256_hex_string};
use crate::error::AliasError;

verus! {

/// What an alias runs.
#[derive(Debug, Clone, Copy, PartialEq, Eq, Structural)]
pub enum TargetType {
    NativeExecutable,
    PythonScript,
    PowerShellScript,
    Batch,
    ShellScript,
    JavaJar,
    Cmdlet,
    ChangeDirectory,
    RawShellCommand,
}

/// A command interpreter that aliases are generated for.
#[derive(Debug, Clone, Copy, PartialEq, Eq, Hash, PartialOrd, Ord, Structural)]
pub enum ShellKind {
    Bash,
    Zsh,
    PowerShell5,
    PowerShell7,
    Fish,
    PosixSh,
}

/// How a target path is to be read.
#[derive(Debug, Clone, Copy, PartialEq, Eq, Structural)]
pub enum PathMode {
    Absolute,
    RelativeToWorkingDirectory,
}

/// Where a target path came from.
#[derive(Debug, Clone, Copy, PartialEq, Eq, Structural)]
pub enum PathOrigin {
    GuiFilePicker,
    CliArgument,
    Import,
}

/// The state of a shell's generated file.
#[derive(Debug, Clone, Copy, PartialEq, Eq, Structural)]
pub enum ShellStatus {
    UpToDate,
    Stale,
    Failed,
    LoaderMissing,
    Unknown,
}

/// The serialized name of a target type (its `snake_case` serde name).
pub open spec fn target_type_name_spec(t: TargetType) -> Seq<char> {
    match t {
        TargetType::NativeExecutable => "native_executable"@,
        TargetType::PythonScript => "python_script"@,
        TargetType::PowerShellScript => "power_shell_script"@,
        TargetType::Batch => "batch"@,
        TargetType::ShellScript => "shell_script"@,
        TargetType::JavaJar => "java_jar"@,
        TargetType::Cmdlet => "cmdlet"@,
        TargetType::ChangeDirectory => "change_directory"@,
        TargetType::RawShellCommand => "raw_shell_command"@,
    }
}

/// The serialized name of a target type.
pub fn target_type_name(t: TargetType) -> (s: &'static str)
    ensures
        s@ == target_type_name_spec(t),
{
    match t {
        TargetType::NativeExecutable => "native_executable",
        TargetType::PythonScript => "python_script",
        TargetType::PowerShellScript => "power_shell_script",
        TargetType::Batch => "batch",
        TargetType::ShellScript => "shell_script",
        TargetType::JavaJar => "java_jar",
        TargetType::Cmdlet => "cmdlet",
        TargetType::ChangeDirectory => "change_directory",
        TargetType::RawShellCommand => "raw_shell_command",
    }
}

/// The serialized name of a shell (its `snake_case` serde name).
pub open spec fn shell_kind_name_spec(s: ShellKind) -> Seq<char> {
    match s {
        ShellKind::Bash => "bash"@,
        ShellKind::Zsh => "zsh"@,
        ShellKind::PowerShell5 => "power_shell5"@,
        ShellKind::PowerShell7 => "power_shell7"@,
        ShellKind::Fish => "fish"@,
        ShellKind::PosixSh => "posix_sh"@,
    }
}

/// The serialized name of a shell.
pub fn shell_kind_name(s: ShellKind) -> (n: &'static str)
    ensures
        n@ == shell_kind_name_spec(s),
{
    match s {
        ShellKind::Bash => "bash",
        ShellKind::Zsh => "zsh",
        ShellKind::PowerShell5 => "power_shell5",
        ShellKind::PowerShell7 => "power_shell7",
        ShellKind::Fish => "fish",
        ShellKind::PosixSh => "posix_sh",
    }
}

/// The serialized name of a path mode.
pub open spec fn path_mode_name_spec(m: PathMode) -> Seq<char> {
    match m {
        PathMode::Absolute => "absolute"@,
        PathMode::RelativeToWorkingDirectory => "relative_to_working_directory"@,
    }
}

/// The serialized name of a path origin.
pub open spec fn path_origin_name_spec(o: PathOrigin) -> Seq<char> {
    match o {
        PathOrigin::GuiFilePicker => "gui_file_picker"@,
        PathOrigin::CliArgument => "cli_argument"@,
        PathOrigin::Import => "import"@,
    }
}

/// The serialized name of a path mode.
pub fn path_mode_name(m: PathMode) -> (n: &'static str)
    ensures
        n@ == path_mode_name_spec(m),
{
    match m {
        PathMode::Absolute => "absolute",
        PathMode::RelativeToWorkingDirectory => "relative_to_working_directory",
    }
}

/// The serialized name of a path origin.
pub fn path_origin_name(o: PathOrigin) -> (n: &'static str)
    ensures
        n@ == path_origin_name_spec(o),
{
    match o {
        PathOrigin::GuiFilePicker => "gui_file_picker",
        PathOrigin::CliArgument => "cli_argument",
        PathOrigin::Import => "import",
    }
}

/// Whether a shell is one of the two PowerShell versions.
pub open spec fn is_powershell(s: ShellKind) -> bool {
    s == ShellKind::PowerShell5 || s == ShellKind::PowerShell7
}

/// Whether any of the shells is a PowerShell version.
pub open spec fn has_powershell_spec(shells: Seq<ShellKind>) -> bool {
    exists|i: int| 0 <= i < shells.len() && is_powershell(#[trigger] shells[i])
}

/// Whether any of the shells is a PowerShell version.
pub fn has_powershell_shell(shells: &[ShellKind]) -> (b: bool)
    ensures
        b == has_powershell_spec(shells@),
{
    let mut i: usize = 0;
    while i < shells.len()
        invariant
            i <= shells@.len(),
            forall|j: int| 0 <= j < i ==> !is_powershell(#[trigger] shells@[j]),
        decreases shells.len() - i,
    {
        if shells[i] == ShellKind::PowerShell5 || shells[i] == ShellKind::PowerShell7 {
            return true;
        }
        i += 1;
    }
    false
}

// ---------------------------------------------------------------------------
// Environment variables of an alias
// ---------------------------------------------------------------------------

/// Keys in strictly increasing order.
pub open spec fn keys_sorted(s: Seq<(Seq<char>, Seq<char>)>) -> bool {
    forall|i: int, j: int| 0 <= i < j < s.len() ==> seq_lt(#[trigger] s[i].0, #[trigger] s[j].0)
}

/// The environment variables an alias sets, ordered by name, each name once
/// (a sorted map from name to value).
#[derive(Debug, PartialEq, Eq)]
pub struct Environment {
    entries: Vec<(String, String)>,
}

impl View for Environment {
    type V = Seq<(Seq<char>, Seq<char>)>;

    closed spec fn view(&self) -> Seq<(Seq<char>, Seq<char>)> {
        entries_view(self.entries@)
    }
}

/// The names and values of stored entries.
pub open spec fn entries_view(entries: Seq<(String, String)>) -> Seq<(Seq<char>, Seq<char>)> {
    entries.map_values(|e: (String, String)| (e.0@, e.1@))
}

impl Environment {
    #[verifier::type_invariant]
    spec fn wf(self) -> bool {
        keys_sorted(self@)
    }

    /// An empty environment.
    pub fn new() -> (e: Self)
        ensures
            e@ == Seq::<(Seq<char>, Seq<char>)>::empty(),
    {
        let e = Environment { entries: Vec::new() };
        assert(e@ =~= Seq::<(Seq<char>, Seq<char>)>::empty());
        e
    }

    /// The number of variables.
    pub fn len(&self) -> (n: usize)
        ensures
            n == self@.len(),
    {
        self.entries.len()
    }

    /// Whether there is no variable.
    pub fn is_empty(&self) -> (b: bool)
        ensures
            b == (self@.len() == 0),
    {
        self.entries.len() == 0
    }

    /// The name and value at a position in name order.
    pub fn entry(&self, i: usize) -> (kv: (&String, &String))
        requires
            i < self@.len(),
        ensures
            kv.0@ == self@[i as int].0,
            kv.1@ == self@[i as int].1,
    {
        let e = &self.entries[i];
        (&e.0, &e.1)
    }

    /// The value of a variable.
    pub fn get(&self, key: &str) -> (v: Option<&String>)
        ensures
            match v {
                Some(v) => exists|i: int| 0 <= i < self@.len() && self@[i].0 == key@ && self@[i].1 == v@,
                None => forall|i: int| 0 <= i < self@.len() ==> self@[i].0 != key@,
            },
    {
        let mut i: usize = 0;
        let k = String::from_str(key);
        while i < self.entries.len()
            invariant
                i <= self@.len(),
                self@.len() == self.entries@.len(),
                k@ == key@,
                forall|j: int| 0 <= j < i ==> self@[j].0 != key@,
            decreases self.entries.len() - i,
        {
            if self.entries[i].0 == k {
                assert(self@[i as int].0 == self.entries@[i as int].0@);
                return Some(&self.entries[i].1);
            }
            assert(self@[i as int].0 == self.entries@[i as int].0@);
            i += 1;
        }
        None
    }

    /// Sets a variable, keeping the names in order: an existing name gets the
    /// new value in place, a new name is placed before the first greater name.
    pub fn insert(&mut self, key: String, value: String)
        ensures
            keys_sorted(final(self)@),
            (exists|i: int| 0 <= i < old(self)@.len() && old(self)@[i].0 == key@) ==> exists|i: int|
                0 <= i < old(self)@.len() && old(self)@[i].0 == key@ && final(self)@ == old(self)@.update(i, (key@, value@)),
            (forall|i: int| 0 <= i < old(self)@.len() ==> old(self)@[i].0 != key@) ==> exists|p: int|
                0 <= p <= old(self)@.len() && final(self)@ == old(self)@.insert(p, (key@, value@)),
    {
        proof {
            use_type_invariant(&*self);
        }
        let ghost before = self@;
        let ghost kk = key@;
        let ghost vv = value@;
        let mut i: usize = 0;
        while i < self.entries.len() && str_lt(self.entries[i].0.as_str(), key.as_str())
            invariant
                i <= self.entries@.len(),
                self@ == before,
                before == entries_view(self.entries@),
                keys_sorted(before),
                forall|j: int| 0 <= j < i ==> seq_lt(#[trigger] before[j].0, key@),
            decreases self.entries.len() - i,
        {
            i += 1;
        }
        let found = i < self.entries.len() && self.entries[i].0 == key;
        let mut entries = Vec::new();
        std::mem::swap(&mut entries, &mut self.entries);
        if found {
            proof {
                assert(before[i as int].0 == kk);
            }
            entries.set(i, (key, value));
            let ghost after = entries_view(entries@);
            assert(after =~= before.update(i as int, (kk, vv)));
            assert forall|a: int, b: int| 0 <= a < b < after.len() implies seq_lt(#[trigger] after[a].0, #[trigger] after[b].0) by {
                assert(seq_lt(before[a].0, before[b].0));
            }
            *self = Environment { entries };
        } else {
            proof {
                assert forall|j: int| 0 <= j < before.len() implies before[j].0 != kk by {
                    if j < i {
                        if before[j].0 == kk {
                            crate::text::lemma_seq_lt_irreflexive(kk);
                        }
                    } else if j > i {
                        crate::text::lemma_seq_lt_total(before[i as int].0, kk);
                        assert(seq_lt(before[i as int].0, before[j].0));
                        crate::text::lemma_seq_lt_transitive(kk, before[i as int].0, before[j].0);
                        if before[j].0 == kk {
                            crate::text::lemma_seq_lt_irreflexive(kk);
                        }
                    }
                }
                if i < before.len() {
                    crate::text::lemma_seq_lt_total(before[i as int].0, kk);
                    assert(seq_lt(kk, before[i as int].0));
                }
            }
            entries.insert(i, (key, value));
            let ghost after = entries_view(entries@);
            assert(after =~= before.insert(i as int, (kk, vv)));
            assert forall|a: int, b: int| 0 <= a < b < after.len() implies seq_lt(#[trigger] after[a].0, #[trigger] after[b].0) by {
                if b < i {
                    assert(seq_lt(before[a].0, before[b].0));
                } else if b == i {
                } else if a < i {
                    assert(seq_lt(before[a].0, kk));
                    if b - 1 > i {
                        assert(seq_lt(before[i as int].0, before[b - 1].0));
                        crate::text::lemma_seq_lt_transitive(kk, before[i as int].0, before[b - 1].0);
                    }
                    crate::text::lemma_seq_lt_transitive(before[a].0, kk, before[b - 1].0);
                } else if a == i {
                    if b - 1 > i {
                        assert(seq_lt(before[i as int].0, before[b - 1].0));
                        crate::text::lemma_seq_lt_transitive(kk, before[i as int].0, before[b - 1].0);
                    }
                } else {
                    assert(seq_lt(before[a - 1].0, before[b - 1].0));
                }
            }
            *self = Environment { entries };
        }
    }

    /// Removes the variable at a position in name order and returns it.
    pub fn remove_at(&mut self, i: usize) -> (kv: (String, String))
        requires
            i < old(self)@.len(),
        ensures
            final(self)@ == old(self)@.remove(i as int),
            kv.0@ == old(self)@[i as int].0,
            kv.1@ == old(self)@[i as int].1,
    {
        proof {
            use_type_invariant(&*self);
        }
        let ghost before = self@;
        let mut entries = Vec::new();
        std::mem::swap(&mut entries, &mut self.entries);
        let kv = entries.remove(i);
        let ghost after = entries_view(entries@);
        assert(after =~= before.remove(i as int));
        assert forall|a: int, b: int| 0 <= a < b < after.len() implies seq_lt(#[trigger] after[a].0, #[trigger] after[b].0) by {
            let a2 = if a < i { a } else { a + 1 };
            let b2 = if b < i { b } else { b + 1 };
            assert(seq_lt(before[a2].0, before[b2].0));
        }
        *self = Environment { entries };
        kv
    }

    /// A copy with the same entries.
    pub fn copy(&self) -> (e: Self)
        ensures
            e@ == self@,
    {
        proof {
            use_type_invariant(self);
        }
        let mut entries: Vec<(String, String)> = Vec::new();
        let mut i: usize = 0;
        while i < self.entries.len()
            invariant
                i <= self.entries@.len(),
                entries@.len() == i,
                forall|j: int| 0 <= j < i ==> #[trigger] entries@[j].0@ == self.entries@[j].0@ && entries@[j].1@ == self.entries@[j].1@,
            decreases self.entries.len() - i,
        {
            let k = self.entries[i].0.clone();
            let v = self.entries[i].1.clone();
            entries.push((k, v));
            i += 1;
        }
        assert(entries_view(entries@) =~= self@);
        Environment { entries }
    }
}


// ---------------------------------------------------------------------------
// Alias records
// ---------------------------------------------------------------------------

/// The text of each string in a list.
pub open spec fn strings_view(v: Seq<String>) -> Seq<Seq<char>> {
    v.map_values(|s: String| s@)
}

/// The text of an optional string.
pub open spec fn opt_view(o: Option<String>) -> Option<Seq<char>> {
    match o {
        Some(s) => Some(s@),
        None => None,
    }
}

/// The mathematical value of an alias record.
pub struct AliasView {
    pub id: u128,
    pub name: Seq<char>,
    pub description: Seq<char>,
    pub target_type: TargetType,
    pub executable: Seq<char>,
    pub fixed_args: Seq<Seq<char>>,
    pub pass_args: bool,
    pub working_directory: Option<Seq<char>>,
    pub environment: Seq<(Seq<char>, Seq<char>)>,
    pub shells: Seq<ShellKind>,
    pub enabled: bool,
    pub advanced_shell_mode: bool,
    pub tags: Seq<Seq<char>>,
    pub path_mode: PathMode,
    pub path_origin: PathOrigin,
    pub created_at: i128,
    pub updated_at: i128,
    pub record_checksum: Seq<char>,
    pub revision: i64,
}

/// One managed command alias.
///
/// `id` is the 128-bit value of the alias's UUID; `created_at` and
/// `updated_at` are nanoseconds since the Unix epoch, UTC.
#[derive(Debug, PartialEq, Eq)]
pub struct AliasRecord {
    pub id: u128,
    pub name: String,
    pub description: String,
    pub target_type: TargetType,
    pub executable: String,
    pub fixed_args: Vec<String>,
    pub pass_args: bool,
    pub working_directory: Option<String>,
    pub environment: Environment,
    pub shells: Vec<ShellKind>,
    pub enabled: bool,
    pub advanced_shell_mode: bool,
    pub tags: Vec<String>,
    pub path_mode: PathMode,
    pub path_origin: PathOrigin,
    pub created_at: i128,
    pub updated_at: i128,
    pub record_checksum: String,
    pub revision: i64,
}

impl View for AliasRecord {
    type V = AliasView;

    open spec fn view(&self) -> AliasView {
        AliasView {
            id: self.id,
            name: self.name@,
            description: self.description@,
            target_type: self.target_type,
            executable: self.executable@,
            fixed_args: strings_view(self.fixed_args@),
            pass_args: self.pass_args,
            working_directory: opt_view(self.working_directory),
            environment: self.environment@,
            shells: self.shells@,
            enabled: self.enabled,
            advanced_shell_mode: self.advanced_shell_mode,
            tags: strings_view(self.tags@),
            path_mode: self.path_mode,
            path_origin: self.path_origin,
            created_at: self.created_at,
            updated_at: self.updated_at,
            record_checksum: self.record_checksum@,
            revision: self.revision,
        }
    }
}

/// The four bits of a 128-bit value at hexadecimal position `i`, counted
/// from the most significant.
pub open spec fn nibble(id: u128, i: int) -> u8 {
    ((id >> ((124 - 4 * i) as u128)) & 15u128) as u8
}

/// Lowercase hexadecimal digits of positions `a` to `b` of a 128-bit value.
pub open spec fn hex_positions(id: u128, a: int, b: int) -> Seq<char> {
    Seq::new((b - a) as nat, |k: int| hex_digit(nibble(id, a + k)))
}

/// The hyphenated form of a UUID (what `uuid::Uuid` displays): 32
/// lowercase hexadecimal digits in groups of 8, 4, 4, 4 and 12.
pub open spec fn uuid_hyphenated(id: u128) -> Seq<char> {
    hex_positions(id, 0, 8) + seq!['-'] + hex_positions(id, 8, 12) + seq!['-'] + hex_positions(id, 12, 16) + seq![
        '-',
    ] + hex_positions(id, 16, 20) + seq!['-'] + hex_positions(id, 20, 32)
}

/// What `uuid::Uuid::parse_str` reads from a text: the 128-bit value, or
/// the message of its error.
pub uninterp spec fn uuid_parse(s: Seq<char>) -> Result<u128, Seq<char>>;

/// Calls `uuid::Uuid::from_u128` and displays the UUID: the hyphenated
/// lowercase form, as the crate documents.
#[verifier::external_body]
pub fn uuid_text(id: u128) -> (t: String)
    ensures
        t@ == uuid_hyphenated(id),
{
    uuid::Uuid::from_u128(id).to_string()
}

/// Calls `uuid::Uuid::parse_str`: the value read, or the message of its
/// error. The contract names the outcome; which texts it accepts (simple,
/// hyphenated, braced, URN, either case) is left unsaid.
#[verifier::external_body]
pub fn parse_uuid(s: &str) -> (r: Result<u128, String>)
    ensures
        match r {
            Ok(v) => uuid_parse(s@) == Ok::<u128, Seq<char>>(v),
            Err(m) => uuid_parse(s@) == Err::<u128, Seq<char>>(m@),
        },
{
    match uuid::Uuid::parse_str(s) {
        Ok(u) => Ok(u.as_u128()),
        Err(e) => Err(e.to_string()),
    }
}

/// What `chrono::DateTime::parse_from_rfc3339` reads from a text: the
/// time's whole seconds since the Unix epoch and its nanoseconds within the
/// second (`timestamp`, `timestamp_subsec_nanos`), or the message of its
/// error.
pub uninterp spec fn rfc3339_parts(t: Seq<char>) -> Result<(i64, u32), Seq<char>>;

/// A time given as whole seconds and nanoseconds, in nanoseconds since the
/// Unix epoch.
pub open spec fn nanos_of(secs: i64, nanos: u32) -> int {
    secs * 1_000_000_000 + nanos
}

/// What a text reads as, in nanoseconds since the Unix epoch (every time
/// that `chrono` reads is held), or the message of the reader's error.
pub open spec fn rfc3339_nanos(t: Seq<char>) -> Result<i128, Seq<char>> {
    match rfc3339_parts(t) {
        Ok((secs, nanos)) => Ok(nanos_of(secs, nanos) as i128),
        Err(m) => Err(m),
    }
}

/// The RFC 3339 text that `chrono` writes for a time given as whole seconds
/// and nanoseconds since the Unix epoch (`DateTime::<Utc>::from_timestamp`
/// and `to_rfc3339_opts` with automatic fractional seconds, `Z` for UTC when
/// `use_z` is set, `+00:00` otherwise), or nothing when `chrono` holds no
/// such time.
pub uninterp spec fn rfc3339_text(secs: i64, nanos: u32, use_z: bool) -> Option<Seq<char>>;

/// Calls `chrono::DateTime::parse_from_rfc3339` and takes the time's whole
/// seconds and nanoseconds (`timestamp`, `timestamp_subsec_nanos`), or the
/// error's message. The contract names the outcome; which texts chrono
/// accepts is left unsaid.
#[verifier::external_body]
fn rfc3339_parts_of(t: &str) -> (r: Result<(i64, u32), String>)
    ensures
        match r {
            Ok(p) => rfc3339_parts(t@) == Ok::<(i64, u32), Seq<char>>(p),
            Err(m) => rfc3339_parts(t@) == Err::<(i64, u32), Seq<char>>(m@),
        },
{
    match chrono::DateTime::parse_from_rfc3339(t) {
        Ok(time) => Ok((time.timestamp(), time.timestamp_subsec_nanos())),
        Err(e) => Err(e.to_string()),
    }
}

/// Reads an RFC 3339 time as nanoseconds since the Unix epoch, or gives the
/// reader's message.
pub fn parse_rfc3339(t: &str) -> (r: Result<i128, String>)
    ensures
        match r {
            Ok(n) => rfc3339_nanos(t@) == Ok::<i128, Seq<char>>(n),
            Err(m) => rfc3339_nanos(t@) == Err::<i128, Seq<char>>(m@),
        },
{
    match rfc3339_parts_of(t) {
        Ok((secs, nanos)) => {
            assert(i64::MIN * 1_000_000_000 <= secs * 1_000_000_000 <= i64::MAX * 1_000_000_000) by (nonlinear_arith)
                requires
                    i64::MIN <= secs <= i64::MAX,
            ;
            Ok((secs as i128) * 1_000_000_000 + (nanos as i128))
        },
        Err(m) => Err(m),
    }
}

/// Calls `chrono::DateTime::from_timestamp` and `to_rfc3339_opts` (with
/// automatic fractional seconds): the text, or nothing where `chrono`
/// refuses the time. The contract names the outcome; its shape is left
/// unsaid.
#[verifier::external_body]
fn rfc3339_text_of(secs: i64, nanos: u32, use_z: bool) -> (r: Option<String>)
    ensures
        match r {
            Some(s) => rfc3339_text(secs, nanos, use_z) == Some(s@),
            None => rfc3339_text(secs, nanos, use_z) is None,
        },
{
    match chrono::DateTime::from_timestamp(secs, nanos) {
        Some(time) => Some(time.to_rfc3339_opts(chrono::SecondsFormat::AutoSi, use_z)),
        None => None,
    }
}

/// The whole seconds of a time in nanoseconds (rounded down).
pub open spec fn time_secs(n: i128) -> int {
    n as int / 1_000_000_000
}

/// The nanoseconds within the second of a time in nanoseconds.
pub open spec fn time_subsec(n: i128) -> int {
    n as int % 1_000_000_000
}

/// The RFC 3339 text of a time in nanoseconds since the Unix epoch, with
/// `Z` for UTC when `use_z` is set; nothing for a time whose seconds an
/// `i64` does not hold or that `chrono` does not hold.
pub open spec fn time_text(n: i128, use_z: bool) -> Option<Seq<char>> {
    if i64::MIN <= time_secs(n) <= i64::MAX {
        rfc3339_text(time_secs(n) as i64, time_subsec(n) as u32, use_z)
    } else {
        None
    }
}

/// Writes a time in nanoseconds since the Unix epoch as RFC 3339 text.
pub fn format_rfc3339(n: i128, use_z: bool) -> (r: Option<String>)
    ensures
        match r {
            Some(s) => time_text(n, use_z) == Some(s@),
            None => time_text(n, use_z) is None,
        },
{
    let d: i128 = 1_000_000_000;
    let ghost di: int = 1_000_000_000;
    let (q, rem): (i128, i128) = if n >= 0 {
        proof {
            vstd::arithmetic::div_mod::lemma_fundamental_div_mod(n as int, di);
        }
        (n / d, n % d)
    } else {
        let m: i128 = -(n + 1);
        let mq = m / d;
        let mr = m % d;
        proof {
            vstd::arithmetic::div_mod::lemma_fundamental_div_mod(m as int, di);
            let mqi: int = mq as int;
            let mri: int = mr as int;
            assert(n as int == (-mqi - 1) * di + (di - 1 - mri)) by (nonlinear_arith)
                requires
                    m as int == di * mqi + mri,
                    n as int == -(m as int) - 1,
            ;
        }
        (-mq - 1, d - 1 - mr)
    };
    proof {
        assert(n as int == q as int * di + rem as int);
        assert(0 <= rem < d);
        vstd::arithmetic::div_mod::lemma_fundamental_div_mod_converse(n as int, di, q as int, rem as int);
    }
    if q < (i64::MIN as i128) || q > (i64::MAX as i128) {
        return None;
    }
    match rfc3339_text_of(q as i64, rem as u32, use_z) {
        Some(s) => Some(s),
        None => None,
    }
}

/// Calls `chrono::Utc::now` and returns the time's whole seconds and
/// nanoseconds since the Unix epoch. The value is the clock's, so nothing
/// is stated about it.
#[verifier::external_body]
fn now_parts() -> (i64, u32) {
    let now = chrono::Utc::now();
    (now.timestamp(), now.timestamp_subsec_nanos())
}

/// The current time in nanoseconds since the Unix epoch.
fn now_nanos() -> i128 {
    let (secs, nanos) = now_parts();
    assert(i64::MIN * 1_000_000_000 <= secs * 1_000_000_000 <= i64::MAX * 1_000_000_000) by (nonlinear_arith)
        requires
            i64::MIN <= secs <= i64::MAX,
    ;
    (secs as i128) * 1_000_000_000 + (nanos as i128)
}

/// The record whose fields are given, its id and times as stored text: the
/// id read as a UUID, the creation and update times read as RFC 3339 (in
/// that order); the first that does not read is a serialization error with
/// the reader's message.
pub fn record_from_fields(
    id: &str,
    name: String,
    description: String,
    target_type: TargetType,
    executable: String,
    fixed_args: Vec<String>,
    pass_args: bool,
    working_directory: Option<String>,
    environment: Environment,
    shells: Vec<ShellKind>,
    enabled: bool,
    advanced_shell_mode: bool,
    tags: Vec<String>,
    path_mode: PathMode,
    path_origin: PathOrigin,
    created_at: &str,
    updated_at: &str,
    record_checksum: String,
    revision: i64,
) -> (r: Result<AliasRecord, AliasError>)
    ensures
        uuid_parse(id@) matches Err(m) ==> (r matches Err(AliasError::Serialization(e)) && e@ == m),
        uuid_parse(id@) is Ok ==> (rfc3339_nanos(created_at@) matches Err(m) ==> (r matches Err(
            AliasError::Serialization(e),
        ) && e@ == m)),
        uuid_parse(id@) is Ok && rfc3339_nanos(created_at@) is Ok ==> (rfc3339_nanos(updated_at@) matches Err(m) ==> (
        r matches Err(AliasError::Serialization(e)) && e@ == m)),
        r is Ok <==> uuid_parse(id@) is Ok && rfc3339_nanos(created_at@) is Ok && rfc3339_nanos(updated_at@) is Ok,
        r matches Ok(a) ==> a@ == (AliasView {
            id: uuid_parse(id@)->Ok_0,
            name: name@,
            description: description@,
            target_type,
            executable: executable@,
            fixed_args: strings_view(fixed_args@),
            pass_args,
            working_directory: opt_view(working_directory),
            environment: environment@,
            shells: shells@,
            enabled,
            advanced_shell_mode,
            tags: strings_view(tags@),
            path_mode,
            path_origin,
            created_at: rfc3339_nanos(created_at@)->Ok_0,
            updated_at: rfc3339_nanos(updated_at@)->Ok_0,
            record_checksum: record_checksum@,
            revision,
        }),
{
    let id = match parse_uuid(id) {
        Ok(v) => v,
        Err(m) => return Err(AliasError::Serialization(m)),
    };
    let created = match parse_rfc3339(created_at) {
        Ok(v) => v,
        Err(m) => return Err(AliasError::Serialization(m)),
    };
    let updated = match parse_rfc3339(updated_at) {
        Ok(v) => v,
        Err(m) => return Err(AliasError::Serialization(m)),
    };
    Ok(AliasRecord {
        id,
        name,
        description,
        target_type,
        executable,
        fixed_args,
        pass_args,
        working_directory,
        environment,
        shells,
        enabled,
        advanced_shell_mode,
        tags,
        path_mode,
        path_origin,
        created_at: created,
        updated_at: updated,
        record_checksum,
        revision,
    })
}

/// Calls `uuid::Uuid::new_v4` and returns its 128-bit value. The value is
/// random, so nothing is stated about it.
#[verifier::external_body]
fn new_alias_id() -> u128 {
    uuid::Uuid::new_v4().as_u128()
}

/// A copy of a list of strings.
pub fn copy_strings(v: &Vec<String>) -> (r: Vec<String>)
    ensures
        strings_view(r@) == strings_view(v@),
{
    let mut r: Vec<String> = Vec::new();
    let mut i: usize = 0;
    while i < v.len()
        invariant
            i <= v@.len(),
            strings_view(r@) =~= strings_view(v@.take(i as int)),
        decreases v.len() - i,
    {
        r.push(v[i].clone());
        assert(strings_view(v@.take(i + 1)) =~= strings_view(v@.take(i as int)).push(v@[i as int]@));
        i += 1;
    }
    assert(v@.take(v@.len() as int) =~= v@);
    r
}

/// A copy of an optional string.
pub fn copy_opt(o: &Option<String>) -> (r: Option<String>)
    ensures
        opt_view(r) == opt_view(*o),
{
    match o {
        Some(s) => Some(s.clone()),
        None => None,
    }
}

/// A copy of a list of shells.
pub fn copy_shells(v: &Vec<ShellKind>) -> (r: Vec<ShellKind>)
    ensures
        r@ == v@,
{
    let mut r: Vec<ShellKind> = Vec::new();
    let mut i: usize = 0;
    while i < v.len()
        invariant
            i <= v@.len(),
            r@ =~= v@.take(i as int),
        decreases v.len() - i,
    {
        r.push(v[i]);
        i += 1;
    }
    assert(v@.take(v@.len() as int) =~= v@);
    r
}

impl AliasRecord {
    /// A copy of the record.
    pub fn copy(&self) -> (r: Self)
        ensures
            r@ == self@,
    {
        AliasRecord {
            id: self.id,
            name: self.name.clone(),
            description: self.description.clone(),
            target_type: self.target_type,
            executable: self.executable.clone(),
            fixed_args: copy_strings(&self.fixed_args),
            pass_args: self.pass_args,
            working_directory: copy_opt(&self.working_directory),
            environment: self.environment.copy(),
            shells: copy_shells(&self.shells),
            enabled: self.enabled,
            advanced_shell_mode: self.advanced_shell_mode,
            tags: copy_strings(&self.tags),
            path_mode: self.path_mode,
            path_origin: self.path_origin,
            created_at: self.created_at,
            updated_at: self.updated_at,
            record_checksum: self.record_checksum.clone(),
            revision: self.revision,
        }
    }
}

impl Default for AliasRecord {
    /// A new record with a fresh random id, the current time as its creation
    /// and update time, and empty or default values elsewhere.
    fn default() -> (r: Self)
        ensures
            r.name@ == Seq::<char>::empty(),
            r.description@ == Seq::<char>::empty(),
            r.target_type == TargetType::NativeExecutable,
            r.executable@ == Seq::<char>::empty(),
            r.fixed_args@.len() == 0,
            r.pass_args,
            r.working_directory is None,
            r.environment@.len() == 0,
            r.shells@ == seq![ShellKind::Bash],
            r.enabled,
            !r.advanced_shell_mode,
            r.tags@.len() == 0,
            r.path_mode == PathMode::Absolute,
            r.path_origin == PathOrigin::CliArgument,
            r.created_at == r.updated_at,
            r.record_checksum@ == Seq::<char>::empty(),
            r.revision == 1,
    {
        let now = now_nanos();
        let mut shells = Vec::new();
        shells.push(ShellKind::Bash);
        AliasRecord {
            id: new_alias_id(),
            name: String::new(),
            description: String::new(),
            target_type: TargetType::NativeExecutable,
            executable: String::new(),
            fixed_args: Vec::new(),
            pass_args: true,
            working_directory: None,
            environment: Environment::new(),
            shells,
            enabled: true,
            advanced_shell_mode: false,
            tags: Vec::new(),
            path_mode: PathMode::Absolute,
            path_origin: PathOrigin::CliArgument,
            created_at: now,
            updated_at: now,
            record_checksum: String::new(),
            revision: 1,
        }
    }
}


// ---------------------------------------------------------------------------
// Record checksums
// ---------------------------------------------------------------------------

/// A length-prefixed text field: its length in characters, `:`, the text.
pub open spec fn field_text(s: Seq<char>) -> Seq<char> {
    nat_text(s.len()) + seq![':'] + s
}

/// The fields of a list of texts, one after the other.
pub open spec fn fields_text(xs: Seq<Seq<char>>) -> Seq<char>
    decreases xs.len(),
{
    if xs.len() == 0 {
        Seq::empty()
    } else {
        fields_text(xs.drop_last()) + field_text(xs.last())
    }
}

/// A list of texts: its length, a newline, its fields.
pub open spec fn list_text(xs: Seq<Seq<char>>) -> Seq<char> {
    nat_text(xs.len()) + seq!['\n'] + fields_text(xs)
}

/// The name and value fields of environment entries, one after the other.
pub open spec fn pairs_text(e: Seq<(Seq<char>, Seq<char>)>) -> Seq<char>
    decreases e.len(),
{
    if e.len() == 0 {
        Seq::empty()
    } else {
        pairs_text(e.drop_last()) + field_text(e.last().0) + field_text(e.last().1)
    }
}

/// The name fields of shells, one after the other.
pub open spec fn shell_names_text(s: Seq<ShellKind>) -> Seq<char>
    decreases s.len(),
{
    if s.len() == 0 {
        Seq::empty()
    } else {
        shell_names_text(s.drop_last()) + field_text(shell_kind_name_spec(s.last()))
    }
}

/// `1` for true, `0` for false.
pub open spec fn bool_text(b: bool) -> Seq<char> {
    if b {
        seq!['1']
    } else {
        seq!['0']
    }
}

/// `-` for no text, `+` and the field for a text.
pub open spec fn opt_text(o: Option<Seq<char>>) -> Seq<char> {
    match o {
        Some(s) => seq!['+'] + field_text(s),
        None => seq!['-'],
    }
}

/// The leading part of the checksum text: the id, names, target, arguments.
pub open spec fn payload_head(v: AliasView) -> Seq<char> {
    "aliasmgr-record\n"@ + nat_text(v.id as nat) + seq!['\n'] + field_text(v.name) + field_text(v.description)
        + field_text(target_type_name_spec(v.target_type)) + field_text(v.executable) + list_text(v.fixed_args)
        + bool_text(v.pass_args) + opt_text(v.working_directory)
}

/// The environment part of the checksum text.
pub open spec fn payload_env(e: Seq<(Seq<char>, Seq<char>)>) -> Seq<char> {
    nat_text(e.len()) + seq!['\n'] + pairs_text(e)
}

/// The shells part of the checksum text.
pub open spec fn payload_shells(s: Seq<ShellKind>) -> Seq<char> {
    nat_text(s.len()) + seq!['\n'] + shell_names_text(s)
}

/// The trailing part of the checksum text: flags, tags, path kinds, times,
/// revision.
pub open spec fn payload_tail(v: AliasView) -> Seq<char> {
    bool_text(v.enabled) + bool_text(v.advanced_shell_mode) + list_text(v.tags)
        + field_text(path_mode_name_spec(v.path_mode)) + field_text(path_origin_name_spec(v.path_origin))
        + int_text(v.created_at as int) + seq!['\n'] + int_text(v.updated_at as int) + seq!['\n']
        + int_text(v.revision as int) + seq!['\n']
}

/// The canonical text of every field of a record but its checksum, which the
/// checksum is computed over.
pub open spec fn checksum_payload(v: AliasView) -> Seq<char> {
    payload_head(v) + payload_env(v.environment) + payload_shells(v.shells) + payload_tail(v)
}

/// The checksum of a record: the SHA-256 digest of its canonical text, in
/// lowercase hexadecimal.
pub open spec fn record_checksum_spec(v: AliasView) -> Seq<char> {
    sha256_hex_spec(checksum_payload(v))
}

/// Appends a length-prefixed field.
fn push_field(out: &mut Vec<char>, s: &str)
    ensures
        final(out)@ == old(out)@ + field_text(s@),
{
    let c = chars_of(s);
    let n = usize_text(c.len());
    out.extend_from_slice(&n);
    out.push(':');
    out.extend_from_slice(&c);
    assert(final(out)@ =~= old(out)@ + field_text(s@));
}

/// Appends a list of fields with its length.
fn push_list(out: &mut Vec<char>, xs: &Vec<String>)
    ensures
        final(out)@ == old(out)@ + list_text(strings_view(xs@)),
{
    let n = usize_text(xs.len());
    out.extend_from_slice(&n);
    out.push('\n');
    let ghost start = out@;
    let mut i: usize = 0;
    while i < xs.len()
        invariant
            i <= xs@.len(),
            out@ == start + fields_text(strings_view(xs@.take(i as int))),
        decreases xs.len() - i,
    {
        push_field(out, xs[i].as_str());
        assert(strings_view(xs@.take(i + 1)).drop_last() =~= strings_view(xs@.take(i as int)));
        i += 1;
    }
    assert(xs@.take(xs@.len() as int) =~= xs@);
    assert(out@ =~= old(out)@ + list_text(strings_view(xs@)));
}

/// Appends decimal text and a newline.
fn push_line(out: &mut Vec<char>, t: &Vec<char>)
    ensures
        final(out)@ == old(out)@ + t@ + seq!['\n'],
{
    out.extend_from_slice(t);
    out.push('\n');
    assert(final(out)@ =~= old(out)@ + t@ + seq!['\n']);
}

fn payload_head_text(alias: &AliasRecord) -> (t: Vec<char>)
    ensures
        t@ == payload_head(alias@),
{
    let mut out = chars_of("aliasmgr-record\n");
    push_line(&mut out, &u128_text(alias.id));
    push_field(&mut out, alias.name.as_str());
    push_field(&mut out, alias.description.as_str());
    push_field(&mut out, target_type_name(alias.target_type));
    push_field(&mut out, alias.executable.as_str());
    push_list(&mut out, &alias.fixed_args);
    out.push(if alias.pass_args { '1' } else { '0' });
    match &alias.working_directory {
        Some(d) => {
            out.push('+');
            push_field(&mut out, d.as_str());
        },
        None => {
            out.push('-');
        },
    }
    assert(out@ =~= payload_head(alias@));
    out
}

fn payload_env_text(env: &Environment) -> (t: Vec<char>)
    ensures
        t@ == payload_env(env@),
{
    let mut out: Vec<char> = Vec::new();
    push_line(&mut out, &usize_text(env.len()));
    let ghost env_start = out@;
    let mut i: usize = 0;
    while i < env.len()
        invariant
            i <= env@.len(),
            out@ == env_start + pairs_text(env@.take(i as int)),
        decreases env@.len() - i,
    {
        let (k, v) = env.entry(i);
        push_field(&mut out, k.as_str());
        push_field(&mut out, v.as_str());
        assert(env@.take(i + 1).drop_last() =~= env@.take(i as int));
        i += 1;
    }
    assert(env@.take(env@.len() as int) =~= env@);
    assert(out@ =~= payload_env(env@));
    out
}

fn payload_shells_text(shells: &Vec<ShellKind>) -> (t: Vec<char>)
    ensures
        t@ == payload_shells(shells@),
{
    let mut out: Vec<char> = Vec::new();
    push_line(&mut out, &usize_text(shells.len()));
    let ghost start = out@;
    let mut j: usize = 0;
    while j < shells.len()
        invariant
            j <= shells@.len(),
            out@ == start + shell_names_text(shells@.take(j as int)),
        decreases shells@.len() - j,
    {
        push_field(&mut out, shell_kind_name(shells[j]));
        assert(shells@.take(j + 1).drop_last() =~= shells@.take(j as int));
        j += 1;
    }
    assert(shells@.take(shells@.len() as int) =~= shells@);
    assert(out@ =~= payload_shells(shells@));
    out
}

fn payload_tail_text(alias: &AliasRecord) -> (t: Vec<char>)
    ensures
        t@ == payload_tail(alias@),
{
    let mut out: Vec<char> = Vec::new();
    out.push(if alias.enabled { '1' } else { '0' });
    out.push(if alias.advanced_shell_mode { '1' } else { '0' });
    push_list(&mut out, &alias.tags);
    push_field(&mut out, path_mode_name(alias.path_mode));
    push_field(&mut out, path_origin_name(alias.path_origin));
    push_line(&mut out, &i128_text(alias.created_at));
    push_line(&mut out, &i128_text(alias.updated_at));
    push_line(&mut out, &i64_text(alias.revision));
    assert(out@ =~= payload_tail(alias@));
    out
}

/// The canonical text a record's checksum is computed over.
pub fn checksum_payload_text(alias: &AliasRecord) -> (t: Vec<char>)
    ensures
        t@ == checksum_payload(alias@),
{
    let mut out = payload_head_text(alias);
    let e = payload_env_text(&alias.environment);
    let sh = payload_shells_text(&alias.shells);
    let tl = payload_tail_text(alias);
    out.extend_from_slice(&e);
    out.extend_from_slice(&sh);
    out.extend_from_slice(&tl);
    out
}

/// The checksum of a record (over every field but the checksum itself).
pub fn record_checksum(alias: &AliasRecord) -> (c: String)
    ensures
        c@ == record_checksum_spec(alias@),
        c@.len() == 64,
{
    let payload = checksum_payload_text(alias);
    let text = string_of(&payload);
    sha256_hex_string(text.as_str())
}

// ---------------------------------------------------------------------------
// Conflicts and shell state
// ---------------------------------------------------------------------------

/// A name that collides with something the shell already has.
#[derive(Debug, PartialEq, Eq)]
pub struct Conflict {
    pub name: String,
    pub reason: String,
}

/// The recorded state of one shell's generated file.
#[derive(Debug, PartialEq, Eq)]
pub struct ShellState {
    pub shell: ShellKind,
    pub applied_revision: i64,
    pub file_checksum: String,
    pub loader_installed: bool,
    pub status: ShellStatus,
    pub last_error: Option<String>,
}

impl ShellState {
    /// A copy of the state.
    pub fn copy(&self) -> (r: Self)
        ensures
            r.shell == self.shell,
            r.applied_revision == self.applied_revision,
            r.file_checksum@ == self.file_checksum@,
            r.loader_installed == self.loader_installed,
            r.status == self.status,
            opt_view(r.last_error) == opt_view(self.last_error),
    {
        ShellState {
            shell: self.shell,
            applied_revision: self.applied_revision,
            file_checksum: self.file_checksum.clone(),
            loader_installed: self.loader_installed,
            status: self.status,
            last_error: copy_opt(&self.last_error),
        }
    }
}

/// The alias names a generated file manages for one shell: the current ones
/// and the retired ones whose old definitions must be cleaned up.
#[derive(Debug, PartialEq, Eq)]
pub struct ManagedNameSet {
    pub current: Vec<String>,
    pub retired: Vec<String>,
}

/// The outcome of writing one shell's generated file.
#[derive(Debug, PartialEq, Eq)]
pub struct ShellSyncResult {
    pub shell: ShellKind,
    pub status: ShellStatus,
    pub error: Option<String>,
}

/// The outcome of writing the generated files of a revision.
#[derive(Debug, PartialEq, Eq)]
pub struct SyncReceipt {
    pub revision: i64,
    pub results: Vec<ShellSyncResult>,
}

} // verus!
