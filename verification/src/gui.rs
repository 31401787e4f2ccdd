//! What the desktop interface exchanges with the core: the startup status,
//! aliases as plain records, search requests, settings, and the reload line.
use vstd::prelude::*;
use crate::detection::DetectionResult;
use crate::model::{
    AliasRecord, AliasView, Environment, PathMode, PathOrigin, ShellKind, TargetType, copy_opt, copy_strings,
    parse_uuid, strings_view, target_type_name_spec, shell_kind_name_spec, uuid_hyphenated, uuid_parse, uuid_text,
};
use crate::search::{SearchField, SearchQuery, SortField, shell_debug_lower, shell_debug_name, target_type_debug_lower, target_type_debug_name};
use crate::text::str_eq;
use crate::validation::{validate_alias, validate_alias_spec};
use crate::error::{AliasError, error_message};
use crate::search::{is_search_order, limited_len, search_score};
use crate::service::{AliasService, all_rows_verified, counts_view, is_tag_count, tag_total};
use crate::storage::{
    has_id, insert_allowed, lemma_checksum_ignores_stored, stored_record, update_allowed, updated_record,
};

verus! {

/// The status shown when the interface starts.
#[derive(Debug)]
pub struct StartupStatus {
    pub version: String,
    pub detected_shell: Option<String>,
    pub detection_source: String,
    pub config_directory: String,
}

/// An alias as the interface shows and edits it.
#[derive(Debug)]
pub struct AliasDto {
    pub id: String,
    pub name: String,
    pub description: String,
    pub executable: String,
    pub target_type: String,
    pub fixed_args: Vec<String>,
    pub pass_args: bool,
    pub working_directory: Option<String>,
    pub environment: Environment,
    pub shells: Vec<String>,
    pub enabled: bool,
    pub tags: Vec<String>,
    pub revision: i64,
}

/// A search from the interface.
#[derive(Debug)]
pub struct SearchRequest {
    pub query: String,
    pub fuzzy: bool,
    pub limit: usize,
    pub tag_filter: Vec<String>,
}

/// One finding of the health check.
#[derive(Debug)]
pub struct DoctorFindingDto {
    pub shell: Option<String>,
    pub severity: String,
    pub code: String,
    pub message: String,
    pub action: Option<String>,
}

/// What an import would do.
#[derive(Debug)]
pub struct ImportPreviewDto {
    pub imported: Vec<String>,
    pub skipped: Vec<String>,
    pub warnings: Vec<String>,
    pub unsupported: Vec<String>,
}

/// The settings the interface shows.
#[derive(Debug)]
pub struct SettingsDto {
    pub config_directory: String,
    pub default_shell: String,
    pub backup_keep: usize,
    pub log_keep: usize,
    pub allow_relative_paths: bool,
}

/// The stable name of a shell in the interface.
pub open spec fn shell_kind_str(kind: ShellKind) -> Seq<char> {
    match kind {
        ShellKind::Bash => "bash"@,
        ShellKind::Zsh => "zsh"@,
        ShellKind::PowerShell5 => "powershell5"@,
        ShellKind::PowerShell7 => "powershell7"@,
        ShellKind::Fish => "fish"@,
        ShellKind::PosixSh => "posix_sh"@,
    }
}

/// The stable name of a shell in the interface.
pub fn shell_kind_to_str(kind: &ShellKind) -> (s: &'static str)
    ensures
        s@ == shell_kind_str(*kind),
{
    match kind {
        ShellKind::Bash => "bash",
        ShellKind::Zsh => "zsh",
        ShellKind::PowerShell5 => "powershell5",
        ShellKind::PowerShell7 => "powershell7",
        ShellKind::Fish => "fish",
        ShellKind::PosixSh => "posix_sh",
    }
}

/// The startup status from a detection and the configuration directory.
pub fn startup_status(detection: &DetectionResult, config_directory: String) -> (s: StartupStatus)
    ensures
        s.version@ == "0.1.0"@,
        s.detection_source@ == detection.source@,
        s.config_directory == config_directory,
        match detection.selected {
            Some(k) => s.detected_shell matches Some(n) && n@ == shell_kind_str(k),
            None => s.detected_shell is None,
        },
{
    let detected_shell = match &detection.selected {
        Some(k) => Some(String::from_str(shell_kind_to_str(k))),
        None => None,
    };
    StartupStatus {
        version: String::from_str(crate::version()),
        detected_shell,
        detection_source: detection.source.clone(),
        config_directory,
    }
}

/// The lowercase variant names of shells.
pub open spec fn shell_debug_names(s: Seq<ShellKind>) -> Seq<Seq<char>> {
    s.map_values(|k: ShellKind| shell_debug_lower(k))
}

/// An alias as a plain record: its id in hyphenated form, its target type
/// and shells by their lowercase variant names, the other fields as they
/// are.
pub fn alias_to_dto(alias: &AliasRecord) -> (d: AliasDto)
    ensures
        d.id@ == uuid_hyphenated(alias.id),
        d.name@ == alias.name@,
        d.description@ == alias.description@,
        d.executable@ == alias.executable@,
        d.target_type@ == target_type_debug_lower(alias.target_type),
        strings_view(d.fixed_args@) == alias@.fixed_args,
        d.pass_args == alias.pass_args,
        crate::model::opt_view(d.working_directory) == alias@.working_directory,
        d.environment@ == alias.environment@,
        strings_view(d.shells@) == shell_debug_names(alias.shells@),
        d.enabled == alias.enabled,
        strings_view(d.tags@) == alias@.tags,
        d.revision == alias.revision,
{
    let mut shells: Vec<String> = Vec::new();
    let mut i: usize = 0;
    while i < alias.shells.len()
        invariant
            i <= alias.shells@.len(),
            strings_view(shells@) =~= shell_debug_names(alias.shells@.take(i as int)),
        decreases alias.shells.len() - i,
    {
        let ghost prev = shells@;
        shells.push(String::from_str(shell_debug_name(alias.shells[i])));
        assert(strings_view(shells@) =~= strings_view(prev).push(shell_debug_lower(alias.shells@[i as int])));
        assert(shell_debug_names(alias.shells@.take(i + 1)) =~= shell_debug_names(alias.shells@.take(i as int)).push(
            shell_debug_lower(alias.shells@[i as int]),
        ));
        i += 1;
    }
    assert(alias.shells@.take(alias.shells@.len() as int) =~= alias.shells@);
    AliasDto {
        id: uuid_text(alias.id),
        name: alias.name.clone(),
        description: alias.description.clone(),
        executable: alias.executable.clone(),
        target_type: String::from_str(target_type_debug_name(alias.target_type)),
        fixed_args: copy_strings(&alias.fixed_args),
        pass_args: alias.pass_args,
        working_directory: copy_opt(&alias.working_directory),
        environment: alias.environment.copy(),
        shells,
        enabled: alias.enabled,
        tags: copy_strings(&alias.tags),
        revision: alias.revision,
    }
}

/// The search an interface request asks for: over all fields, by name.
pub open spec fn interface_query(request: SearchRequest) -> SearchQuery {
    SearchQuery {
        query: request.query,
        fuzzy: request.fuzzy,
        limit: request.limit,
        tag_filter: request.tag_filter,
        field: SearchField::All,
        sort: SortField::Name,
        descending: false,
    }
}

/// The search an interface request runs: over all fields, by name.
pub fn search_query_of(request: SearchRequest) -> (q: SearchQuery)
    ensures
        q == interface_query(request),
        q.query == request.query,
        q.fuzzy == request.fuzzy,
        q.limit == request.limit,
        q.tag_filter == request.tag_filter,
        q.field == SearchField::All,
        q.sort == SortField::Name,
        !q.descending,
{
    SearchQuery {
        query: request.query,
        fuzzy: request.fuzzy,
        limit: request.limit,
        tag_filter: request.tag_filter,
        field: SearchField::All,
        sort: SortField::Name,
        descending: false,
    }
}

/// The target type a serialized name stands for.
pub open spec fn target_type_from_name(n: Seq<char>) -> Option<TargetType> {
    if n == "native_executable"@ {
        Some(TargetType::NativeExecutable)
    } else if n == "python_script"@ {
        Some(TargetType::PythonScript)
    } else if n == "power_shell_script"@ {
        Some(TargetType::PowerShellScript)
    } else if n == "batch"@ {
        Some(TargetType::Batch)
    } else if n == "shell_script"@ {
        Some(TargetType::ShellScript)
    } else if n == "java_jar"@ {
        Some(TargetType::JavaJar)
    } else if n == "cmdlet"@ {
        Some(TargetType::Cmdlet)
    } else if n == "change_directory"@ {
        Some(TargetType::ChangeDirectory)
    } else if n == "raw_shell_command"@ {
        Some(TargetType::RawShellCommand)
    } else {
        None
    }
}

/// The shell a serialized name stands for.
pub open spec fn shell_from_name(n: Seq<char>) -> Option<ShellKind> {
    if n == "bash"@ {
        Some(ShellKind::Bash)
    } else if n == "zsh"@ {
        Some(ShellKind::Zsh)
    } else if n == "power_shell5"@ {
        Some(ShellKind::PowerShell5)
    } else if n == "power_shell7"@ {
        Some(ShellKind::PowerShell7)
    } else if n == "fish"@ {
        Some(ShellKind::Fish)
    } else if n == "posix_sh"@ {
        Some(ShellKind::PosixSh)
    } else {
        None
    }
}

/// The message for a name that is no variant of the target types.
pub open spec fn unknown_target_type(n: Seq<char>) -> Seq<char> {
    "unknown variant `"@ + n
        + "`, expected one of `native_executable`, `python_script`, `power_shell_script`, `batch`, `shell_script`, `java_jar`, `cmdlet`, `change_directory`, `raw_shell_command`"@
}

/// The message for a name that is no variant of the shells.
pub open spec fn unknown_shell(n: Seq<char>) -> Seq<char> {
    "unknown variant `"@ + n + "`, expected one of `bash`, `zsh`, `power_shell5`, `power_shell7`, `fish`, `posix_sh`"@
}

/// The target type a serialized name stands for, or the message for an
/// unknown name.
pub fn parse_target_type(n: &str) -> (r: Result<TargetType, String>)
    ensures
        match target_type_from_name(n@) {
            Some(t) => r == Ok::<TargetType, String>(t),
            None => r matches Err(m) && m@ == unknown_target_type(n@),
        },
{
    if str_eq(n, "native_executable") {
        Ok(TargetType::NativeExecutable)
    } else if str_eq(n, "python_script") {
        Ok(TargetType::PythonScript)
    } else if str_eq(n, "power_shell_script") {
        Ok(TargetType::PowerShellScript)
    } else if str_eq(n, "batch") {
        Ok(TargetType::Batch)
    } else if str_eq(n, "shell_script") {
        Ok(TargetType::ShellScript)
    } else if str_eq(n, "java_jar") {
        Ok(TargetType::JavaJar)
    } else if str_eq(n, "cmdlet") {
        Ok(TargetType::Cmdlet)
    } else if str_eq(n, "change_directory") {
        Ok(TargetType::ChangeDirectory)
    } else if str_eq(n, "raw_shell_command") {
        Ok(TargetType::RawShellCommand)
    } else {
        let mut m = String::from_str("unknown variant `");
        m.append(n);
        m.append(
            "`, expected one of `native_executable`, `python_script`, `power_shell_script`, `batch`, `shell_script`, `java_jar`, `cmdlet`, `change_directory`, `raw_shell_command`",
        );
        Err(m)
    }
}

/// The shell a serialized name stands for, or the message for an unknown
/// name.
pub fn parse_shell_kind(n: &str) -> (r: Result<ShellKind, String>)
    ensures
        match shell_from_name(n@) {
            Some(s) => r == Ok::<ShellKind, String>(s),
            None => r matches Err(m) && m@ == unknown_shell(n@),
        },
{
    if str_eq(n, "bash") {
        Ok(ShellKind::Bash)
    } else if str_eq(n, "zsh") {
        Ok(ShellKind::Zsh)
    } else if str_eq(n, "power_shell5") {
        Ok(ShellKind::PowerShell5)
    } else if str_eq(n, "power_shell7") {
        Ok(ShellKind::PowerShell7)
    } else if str_eq(n, "fish") {
        Ok(ShellKind::Fish)
    } else if str_eq(n, "posix_sh") {
        Ok(ShellKind::PosixSh)
    } else {
        let mut m = String::from_str("unknown variant `");
        m.append(n);
        m.append("`, expected one of `bash`, `zsh`, `power_shell5`, `power_shell7`, `fish`, `posix_sh`");
        Err(m)
    }
}

/// The shells named, in order, or the first unknown name.
pub open spec fn shells_from_names(names: Seq<Seq<char>>) -> Option<Seq<ShellKind>>
    decreases names.len(),
{
    if names.len() == 0 {
        Some(Seq::empty())
    } else {
        match shells_from_names(names.drop_last()) {
            None => None,
            Some(rest) => match shell_from_name(names.last()) {
                Some(s) => Some(rest.push(s)),
                None => None,
            },
        }
    }
}

/// The first name, in order, that is no shell.
pub open spec fn first_unknown_shell(names: Seq<Seq<char>>) -> Option<Seq<char>>
    decreases names.len(),
{
    if names.len() == 0 {
        None
    } else if shell_from_name(names[0]) is None {
        Some(names[0])
    } else {
        first_unknown_shell(names.skip(1))
    }
}

/// When every name before `i` is a shell and the name at `i` is not, it is
/// the first unknown name.
proof fn lemma_first_unknown_at(names: Seq<Seq<char>>, i: int)
    requires
        0 <= i < names.len(),
        forall|j: int| 0 <= j < i ==> #[trigger] shell_from_name(names[j]) is Some,
        shell_from_name(names[i]) is None,
    ensures
        first_unknown_shell(names) == Some(names[i]),
    decreases i,
{
    if i > 0 {
        let rest = names.skip(1);
        assert forall|j: int| 0 <= j < i - 1 implies #[trigger] shell_from_name(rest[j]) is Some by {
            assert(rest[j] == names[j + 1]);
        }
        lemma_first_unknown_at(rest, i - 1);
    }
}

/// When every name is a shell there is no unknown name.
proof fn lemma_no_unknown_shell(names: Seq<Seq<char>>)
    requires
        forall|j: int| 0 <= j < names.len() ==> #[trigger] shell_from_name(names[j]) is Some,
    ensures
        first_unknown_shell(names) is None,
    decreases names.len(),
{
    if names.len() > 0 {
        let rest = names.skip(1);
        assert(shell_from_name(names[0]) is Some);
        assert forall|j: int| 0 <= j < rest.len() implies #[trigger] shell_from_name(rest[j]) is Some by {
            assert(rest[j] == names[j + 1]);
        }
        lemma_no_unknown_shell(rest);
    }
}

/// Whether the record a plain record becomes holds its fields: the id read
/// from its text, the target type and shells read from their names, a
/// path picked in the interface.
pub open spec fn dto_fields_match(a: AliasView, d: AliasDto, id: u128, t: TargetType, shells: Seq<ShellKind>) -> bool {
    &&& a.id == id
    &&& a.name == d.name@
    &&& a.description == d.description@
    &&& a.executable == d.executable@
    &&& a.target_type == t
    &&& a.fixed_args == strings_view(d.fixed_args@)
    &&& a.pass_args == d.pass_args
    &&& a.working_directory == crate::model::opt_view(d.working_directory)
    &&& a.environment == d.environment@
    &&& a.shells == shells
    &&& a.enabled == d.enabled
    &&& a.tags == strings_view(d.tags@)
    &&& a.revision == d.revision
    &&& a.path_mode == PathMode::Absolute
    &&& a.path_origin == PathOrigin::GuiFilePicker
    &&& !a.advanced_shell_mode
    &&& a.record_checksum.len() == 0
    &&& a.created_at == a.updated_at
}

/// The record an interface alias becomes: the id must read as a UUID, the
/// target type and shells must be serialized names (the first bad one is
/// the error), and the record must be valid (its error's message is the
/// error).
pub fn dto_to_alias(dto: AliasDto) -> (r: Result<AliasRecord, String>)
    ensures
        uuid_parse(dto.id@) matches Err(m) ==> (r matches Err(e) && e@ == m),
        uuid_parse(dto.id@) is Ok && target_type_from_name(dto.target_type@) is None ==> (r matches Err(e)
            && e@ == unknown_target_type(dto.target_type@)),
        uuid_parse(dto.id@) is Ok && target_type_from_name(dto.target_type@) is Some && first_unknown_shell(
            strings_view(dto.shells@),
        ) is Some ==> (r matches Err(e) && e@ == unknown_shell(first_unknown_shell(strings_view(dto.shells@))->0)),
        r matches Ok(a) ==> uuid_parse(dto.id@) is Ok && target_type_from_name(dto.target_type@) is Some
            && shells_from_names(strings_view(dto.shells@)) is Some && dto_fields_match(
            a@,
            dto,
            uuid_parse(dto.id@)->Ok_0,
            target_type_from_name(dto.target_type@)->0,
            shells_from_names(strings_view(dto.shells@))->0,
        ) && validate_alias_spec(a@) is Ok,
        uuid_parse(dto.id@) is Ok && target_type_from_name(dto.target_type@) is Some && shells_from_names(
            strings_view(dto.shells@),
        ) is Some ==> (r is Ok <==> exists|a: AliasView|
            dto_fields_match(
                a,
                dto,
                uuid_parse(dto.id@)->Ok_0,
                target_type_from_name(dto.target_type@)->0,
                shells_from_names(strings_view(dto.shells@))->0,
            ) && validate_alias_spec(a) is Ok),
        uuid_parse(dto.id@) is Ok && target_type_from_name(dto.target_type@) is Some && shells_from_names(
            strings_view(dto.shells@),
        ) is Some ==> forall|a: AliasView|
            #[trigger] dto_fields_match(
                a,
                dto,
                uuid_parse(dto.id@)->Ok_0,
                target_type_from_name(dto.target_type@)->0,
                shells_from_names(strings_view(dto.shells@))->0,
            ) ==> (validate_alias_spec(a) matches Err(ve) ==> (r matches Err(e) && e@ == error_message(ve))),
{
    let ghost d = dto;
    let id = parse_uuid(dto.id.as_str())?;
    let target_type = parse_target_type(dto.target_type.as_str())?;
    let ghost names = strings_view(dto.shells@);
    let mut shells: Vec<ShellKind> = Vec::new();
    let mut i: usize = 0;
    while i < dto.shells.len()
        invariant
            i <= dto.shells@.len(),
            d == dto,
            uuid_parse(d.id@) == Ok::<u128, Seq<char>>(id),
            target_type_from_name(d.target_type@) == Some(target_type),
            names == strings_view(dto.shells@),
            shells_from_names(names.take(i as int)) == Some(shells@),
            forall|j: int| 0 <= j < i ==> #[trigger] shell_from_name(names[j]) is Some,
        decreases dto.shells.len() - i,
    {
        assert(names.take(i + 1).drop_last() =~= names.take(i as int));
        assert(names.take(i + 1).last() == dto.shells@[i as int]@);
        match parse_shell_kind(dto.shells[i].as_str()) {
            Ok(s) => shells.push(s),
            Err(m) => {
                proof {
                    lemma_shells_none_stays(names, i as int + 1);
                    lemma_first_unknown_at(names, i as int);
                }
                return Err(m);
            },
        }
        i += 1;
    }
    assert(names.take(names.len() as int) =~= names);
    proof {
        lemma_no_unknown_shell(names);
    }
    let mut alias = AliasRecord::default();
    alias.id = id;
    alias.name = dto.name;
    alias.description = dto.description;
    alias.executable = dto.executable;
    alias.fixed_args = dto.fixed_args;
    alias.pass_args = dto.pass_args;
    alias.working_directory = dto.working_directory;
    alias.environment = dto.environment;
    alias.enabled = dto.enabled;
    alias.tags = dto.tags;
    alias.revision = dto.revision;
    alias.target_type = target_type;
    alias.shells = shells;
    alias.path_mode = PathMode::Absolute;
    alias.path_origin = PathOrigin::GuiFilePicker;
    assert(dto_fields_match(alias@, d, id, target_type, shells@));
    match validate_alias(&alias) {
        Ok(()) => {
            proof {
                assert forall|a: AliasView| dto_fields_match(a, d, id, target_type, shells@) implies validate_alias_spec(
                    a,
                ) is Ok by {
                    assert(validate_alias_spec(a) == validate_alias_spec(alias@));
                }
            }
            assert(dto_fields_match(
                alias@,
                d,
                uuid_parse(d.id@)->Ok_0,
                target_type_from_name(d.target_type@)->0,
                shells_from_names(strings_view(d.shells@))->0,
            ));
            Ok(alias)
        },
        Err(e) => {
            proof {
                assert forall|a: AliasView| dto_fields_match(a, d, id, target_type, shells@) implies validate_alias_spec(
                    a,
                ) is Err by {
                    assert(validate_alias_spec(a) == validate_alias_spec(alias@));
                }
            }
            assert(e == validate_alias_spec(alias@)->Err_0);
            Err(e.message())
        },
    }
}

/// An unknown shell name stops the reading of all names after it.
proof fn lemma_shells_none_stays(names: Seq<Seq<char>>, k: int)
    requires
        0 <= k <= names.len(),
        shells_from_names(names.take(k)) is None,
    ensures
        shells_from_names(names) is None,
    decreases names.len() - k,
{
    if k < names.len() {
        assert(names.take(k + 1).drop_last() =~= names.take(k));
        lemma_shells_none_stays(names, k + 1);
    } else {
        assert(names.take(k) =~= names);
    }
}

/// The line that reloads a shell's generated file, relative to the
/// configuration directory.
pub open spec fn reload_command_spec(shell: Seq<char>) -> Seq<char> {
    if shell == "zsh"@ {
        "source generated/zsh.sh"@
    } else if shell == "powershell5"@ {
        ". generated/powershell5.ps1"@
    } else if shell == "powershell7"@ {
        ". generated/powershell7.ps1"@
    } else {
        ". generated/bash.sh"@
    }
}

/// The line that reloads a shell's generated file.
pub fn reload_command(shell: &str) -> (r: Result<String, String>)
    ensures
        r matches Ok(s) && s@ == reload_command_spec(shell@),
{
    let line = if str_eq(shell, "zsh") {
        "source generated/zsh.sh"
    } else if str_eq(shell, "powershell5") {
        ". generated/powershell5.ps1"
    } else if str_eq(shell, "powershell7") {
        ". generated/powershell7.ps1"
    } else {
        ". generated/bash.sh"
    };
    Ok(String::from_str(line))
}

/// The settings shown for a configuration directory: Bash, ten backups,
/// seven logs, no relative paths.
pub fn config_get(config_directory: String) -> (r: Result<SettingsDto, String>)
    ensures
        r matches Ok(s) && s.config_directory == config_directory && s.default_shell@ == "bash"@ && s.backup_keep
            == 10 && s.log_keep == 7 && !s.allow_relative_paths,
{
    Ok(SettingsDto {
        config_directory,
        default_shell: String::from_str("bash"),
        backup_keep: 10,
        log_keep: 7,
        allow_relative_paths: false,
    })
}

/// Saving settings hands them back as they were given.
pub fn config_save(settings: SettingsDto) -> (r: Result<SettingsDto, String>)
    ensures
        r == Ok::<SettingsDto, String>(settings),
{
    Ok(settings)
}

/// The health check's findings, which the interface does not gather yet:
/// none.
pub fn doctor_status() -> (r: Result<Vec<DoctorFindingDto>, String>)
    ensures
        r matches Ok(v) && v@.len() == 0,
{
    Ok(Vec::new())
}

/// The preview of a shell's generated file, which the interface does not
/// render yet: empty.
pub fn generated_preview(_shell: String) -> (r: Result<String, String>)
    ensures
        r matches Ok(s) && s@.len() == 0,
{
    Ok(String::new())
}

/// An import preview with nothing in it.
fn empty_preview() -> (p: ImportPreviewDto)
    ensures
        p.imported@.len() == 0 && p.skipped@.len() == 0 && p.warnings@.len() == 0 && p.unsupported@.len() == 0,
{
    ImportPreviewDto { imported: Vec::new(), skipped: Vec::new(), warnings: Vec::new(), unsupported: Vec::new() }
}

/// What importing a file would do, which the interface does not read yet:
/// nothing.
pub fn import_preview(_file: String) -> (r: Result<ImportPreviewDto, String>)
    ensures
        r matches Ok(p) && p.imported@.len() == 0 && p.skipped@.len() == 0 && p.warnings@.len() == 0
            && p.unsupported@.len() == 0,
{
    Ok(empty_preview())
}

/// Confirming an import reports what its preview reports.
pub fn import_confirm(file: String) -> (r: Result<ImportPreviewDto, String>)
    ensures
        r matches Ok(p) && p.imported@.len() == 0 && p.skipped@.len() == 0 && p.warnings@.len() == 0
            && p.unsupported@.len() == 0,
{
    import_preview(file)
}

/// What uninstalling would remove, as the interface words it: only that
/// referenced target files are protected.
pub fn uninstall_preview(_purge: bool) -> (r: Result<Vec<String>, String>)
    ensures
        r matches Ok(v) && v@.len() == 1 && v@[0]@ == "Referenced target files are protected"@,
{
    let mut v: Vec<String> = Vec::new();
    v.push(String::from_str("Referenced target files are protected"));
    Ok(v)
}

/// Uninstalling from the interface reports nothing.
pub fn uninstall_confirm(_purge: bool) -> (r: Result<Vec<String>, String>)
    ensures
        r matches Ok(v) && v@.len() == 0,
{
    Ok(Vec::new())
}

// ---------------------------------------------------------------------------
// Commands over the alias service
// ---------------------------------------------------------------------------

/// A plain record holds an alias: its id in hyphenated form, its target
/// type and shells by their lowercase variant names, the other fields as
/// they are.
pub open spec fn dto_matches(d: AliasDto, a: AliasView) -> bool {
    &&& d.id@ == uuid_hyphenated(a.id)
    &&& d.name@ == a.name
    &&& d.description@ == a.description
    &&& d.executable@ == a.executable
    &&& d.target_type@ == target_type_debug_lower(a.target_type)
    &&& strings_view(d.fixed_args@) == a.fixed_args
    &&& d.pass_args == a.pass_args
    &&& crate::model::opt_view(d.working_directory) == a.working_directory
    &&& d.environment@ == a.environment
    &&& strings_view(d.shells@) == shell_debug_names(a.shells)
    &&& d.enabled == a.enabled
    &&& strings_view(d.tags@) == a.tags
    &&& d.revision == a.revision
}

/// Plain records of aliases, one for each, in order.
fn dtos_of(aliases: &[AliasRecord]) -> (v: Vec<AliasDto>)
    ensures
        v@.len() == aliases@.len(),
        forall|i: int| 0 <= i < aliases@.len() ==> dto_matches(#[trigger] v@[i], aliases@[i]@),
{
    let mut v: Vec<AliasDto> = Vec::new();
    let mut i: usize = 0;
    while i < aliases.len()
        invariant
            i <= aliases@.len(),
            v@.len() == i,
            forall|j: int| 0 <= j < i ==> dto_matches(#[trigger] v@[j], aliases@[j]@),
        decreases aliases.len() - i,
    {
        v.push(alias_to_dto(&aliases[i]));
        i += 1;
    }
    v
}

/// Every alias as a plain record, in name order; a stored row whose
/// checksum is wrong refuses the listing with the error's message.
pub fn list_aliases(service: &AliasService) -> (r: Result<Vec<AliasDto>, String>)
    requires
        service.database.wf(),
    ensures
        match r {
            Ok(v) => all_rows_verified(service.database@.aliases) && v@.len() == service.database@.aliases.len()
                && forall|i: int| 0 <= i < v@.len() ==> dto_matches(#[trigger] v@[i], service.database@.aliases[i]),
            Err(m) => !all_rows_verified(service.database@.aliases) && m@ == error_message(AliasError::ChecksumMismatch),
        },
{
    match service.list() {
        Ok(aliases) => {
            let v = dtos_of(aliases.as_slice());
            proof {
                assert forall|i: int| 0 <= i < v@.len() implies dto_matches(#[trigger] v@[i], service.database@.aliases[i]) by {
                    assert(aliases@.map_values(|a: AliasRecord| a@)[i] == aliases@[i]@);
                }
            }
            Ok(v)
        },
        Err(e) => Err(e.message()),
    }
}

/// The aliases a request finds, as plain records, best first (see
/// [`search_query_of`] and the service's search).
pub fn search_aliases(service: &AliasService, request: SearchRequest) -> (r: Result<Vec<AliasDto>, String>)
    requires
        service.database.wf(),
    ensures
        match r {
            Ok(v) => all_rows_verified(service.database@.aliases) && exists|listing: Seq<AliasRecord>, order: Seq<usize>|
                #![trigger is_search_order(listing, interface_query(request), order)]
                {
                    &&& listing.map_values(|a: AliasRecord| a@) == service.database@.aliases
                    &&& is_search_order(listing, interface_query(request), order)
                    &&& v@.len() == limited_len(order.len(), request.limit)
                    &&& forall|k: int| 0 <= k < v@.len() ==> dto_matches(#[trigger] v@[k], listing[order[k] as int]@)
                },
            Err(m) => !all_rows_verified(service.database@.aliases) && m@ == error_message(AliasError::ChecksumMismatch),
        },
{
    let ghost req = request;
    let query = search_query_of(request);
    match service.search(&query) {
        Ok(results) => {
            let mut v: Vec<AliasDto> = Vec::new();
            let mut i: usize = 0;
            while i < results.len()
                invariant
                    i <= results@.len(),
                    v@.len() == i,
                    forall|j: int| 0 <= j < i ==> dto_matches(#[trigger] v@[j], results@[j].alias@),
                decreases results.len() - i,
            {
                v.push(alias_to_dto(&results[i].alias));
                i += 1;
            }
            proof {
                let (listing, order) = choose|listing: Seq<AliasRecord>, order: Seq<usize>|
                    {
                        &&& listing.map_values(|a: AliasRecord| a@) == service.database@.aliases
                        &&& is_search_order(listing, query, order)
                        &&& results@.len() == limited_len(order.len(), query.limit)
                        &&& forall|k: int|
                            0 <= k < results@.len() ==> (#[trigger] results@[k]).alias@ == listing[order[k] as int]@
                                && results@[k].score == search_score(listing[order[k] as int]@, query)
                    };
                assert forall|k: int| 0 <= k < v@.len() implies dto_matches(#[trigger] v@[k], listing[order[k] as int]@) by {
                    assert(dto_matches(v@[k], results@[k].alias@));
                    assert(results@[k].alias@ == listing[order[k] as int]@);
                }
            }
            Ok(v)
        },
        Err(e) => Err(e.message()),
    }
}

/// How often each tag occurs, in tag order.
pub fn tag_counts(service: &AliasService) -> (r: Result<Vec<(String, usize)>, String>)
    requires
        service.database.wf(),
        tag_total(service.database@.aliases) <= usize::MAX,
    ensures
        match r {
            Ok(counts) => all_rows_verified(service.database@.aliases) && is_tag_count(
                service.database@.aliases,
                counts_view(counts@),
            ),
            Err(m) => !all_rows_verified(service.database@.aliases) && m@ == error_message(AliasError::ChecksumMismatch),
        },
{
    match service.tag_counts() {
        Ok(counts) => Ok(counts),
        Err(e) => Err(e.message()),
    }
}

/// Whether a record is one that a plain record becomes: its id, target
/// type and shells read, its fields taken over, and the record valid.
pub open spec fn dto_record(a: AliasView, d: AliasDto) -> bool {
    &&& uuid_parse(d.id@) is Ok
    &&& target_type_from_name(d.target_type@) is Some
    &&& shells_from_names(strings_view(d.shells@)) is Some
    &&& dto_fields_match(
        a,
        d,
        uuid_parse(d.id@)->Ok_0,
        target_type_from_name(d.target_type@)->0,
        shells_from_names(strings_view(d.shells@))->0,
    )
    &&& validate_alias_spec(a) is Ok
}

/// Two records of one plain record may be stored alike: they agree on the
/// id, the name and the shells, and stored records carry a right checksum.
proof fn lemma_dto_records_store_alike(s: Seq<AliasView>, a: AliasView, b: AliasView, d: AliasDto)
    requires
        dto_record(a, d),
        dto_record(b, d),
    ensures
        insert_allowed(s, stored_record(a)) == insert_allowed(s, stored_record(b)),
        update_allowed(s, stored_record(a)) == update_allowed(s, stored_record(b)),
        a.id == b.id,
{
    lemma_checksum_ignores_stored(a, crate::model::record_checksum_spec(a));
    lemma_checksum_ignores_stored(b, crate::model::record_checksum_spec(b));
}

/// Stores a new alias from a plain record and returns it as stored; the
/// record's conversion errors and the store's refusals come back as their
/// messages, and nothing is stored then.
pub fn create_alias(service: &mut AliasService, alias: AliasDto) -> (r: Result<AliasDto, String>)
    requires
        old(service).database.wf(),
    ensures
        final(service).database.wf(),
        r is Err ==> final(service).database@ == old(service).database@,
        uuid_parse(alias.id@) matches Err(m) ==> (r matches Err(e) && e@ == m),
        uuid_parse(alias.id@) is Ok && target_type_from_name(alias.target_type@) is None ==> (r matches Err(e) && e@
            == unknown_target_type(alias.target_type@)),
        r is Ok <==> exists|a: AliasView| dto_record(a, alias) && insert_allowed(old(service).database@.aliases, #[trigger] stored_record(a)),
        r matches Ok(d) ==> exists|a: AliasView, p: int|
            dto_record(a, alias) && dto_matches(d, stored_record(a)) && 0 <= p <= old(service).database@.aliases.len()
                && final(service).database@.aliases == #[trigger] old(service).database@.aliases.insert(p, stored_record(a)),
{
    let ghost dto = alias;
    let ghost before = service.database@;
    let record = match dto_to_alias(alias) {
        Ok(a) => a,
        Err(m) => {
            proof {
                assert forall|a: AliasView| dto_record(a, dto) implies !insert_allowed(before.aliases, #[trigger] stored_record(a)) by {}
            }
            return Err(m);
        },
    };
    let ghost v = record@;
    assert(dto_record(v, dto));
    match service.create(record) {
        Ok(saved) => {
            let d = alias_to_dto(&saved);
            assert(dto_matches(d, stored_record(v)));
            Ok(d)
        },
        Err(e) => {
            proof {
                assert forall|a: AliasView| dto_record(a, dto) implies !insert_allowed(before.aliases, #[trigger] stored_record(a)) by {
                    lemma_dto_records_store_alike(before.aliases, a, v, dto);
                }
            }
            Err(e.message())
        },
    }
}

/// Replaces a stored alias from a plain record and returns it as stored;
/// an alias that is not stored, the record's conversion errors and the
/// store's refusals come back as their messages, and nothing changes then.
#[verifier::spinoff_prover]
#[verifier::rlimit(40)]
pub fn update_alias(service: &mut AliasService, alias: AliasDto) -> (r: Result<AliasDto, String>)
    requires
        old(service).database.wf(),
    ensures
        final(service).database.wf(),
        r is Err ==> final(service).database@ == old(service).database@,
        uuid_parse(alias.id@) matches Err(m) ==> (r matches Err(e) && e@ == m),
        uuid_parse(alias.id@) is Ok && target_type_from_name(alias.target_type@) is None ==> (r matches Err(e) && e@
            == unknown_target_type(alias.target_type@)),
        (exists|a: AliasView| #[trigger] dto_record(a, alias)) && !has_id(old(service).database@.aliases, uuid_parse(alias.id@)->Ok_0)
            ==> (r matches Err(e) && e@ == "configuration error: "@ + "alias not found"@),
        r is Ok <==> exists|a: AliasView|
            dto_record(a, alias) && has_id(old(service).database@.aliases, a.id) && update_allowed(
                old(service).database@.aliases,
                #[trigger] stored_record(a),
            ),
        r matches Ok(d) ==> exists|a: AliasView, k: int, p: int|
            dto_record(a, alias) && dto_matches(d, stored_record(a)) && 0 <= k < old(service).database@.aliases.len()
                && old(service).database@.aliases[k].id == a.id && 0 <= p < old(service).database@.aliases.len()
                && final(service).database@.aliases == #[trigger] old(service).database@.aliases.remove(k).insert(
                p,
                updated_record(stored_record(a), old(service).database@.aliases[k]),
            ),
{
    let ghost dto = alias;
    let ghost before = service.database@;
    let record = match dto_to_alias(alias) {
        Ok(a) => a,
        Err(m) => {
            proof {
                assert forall|a: AliasView| !#[trigger] dto_record(a, dto) by {
                    if dto_record(a, dto) {
                        assert(dto_fields_match(
                            a,
                            dto,
                            uuid_parse(dto.id@)->Ok_0,
                            target_type_from_name(dto.target_type@)->0,
                            shells_from_names(strings_view(dto.shells@))->0,
                        ) && validate_alias_spec(a) is Ok);
                    }
                }
            }
            return Err(m);
        },
    };
    let ghost v = record@;
    assert(dto_record(v, dto));
    assert(validate_alias_spec(v) is Ok);
    assert(v.id == uuid_parse(dto.id@)->Ok_0);
    match service.update(record) {
        Ok(saved) => {
            let d = alias_to_dto(&saved);
            proof {
                let after = service.database@;
                assert(saved@ == stored_record(v));
                assert(dto_matches(d, stored_record(v)));
                let (k, p) = choose|k: int, p: int|
                    0 <= k < before.aliases.len() && before.aliases[k].id == v.id && 0 <= p < before.aliases.len()
                        && after.aliases == #[trigger] before.aliases.remove(k).insert(
                        p,
                        updated_record(saved@, before.aliases[k]),
                    );
                assert(after.aliases == before.aliases.remove(k).insert(p, updated_record(stored_record(v), before.aliases[k])));
                assert(has_id(before.aliases, v.id));
                assert(update_allowed(before.aliases, stored_record(v)));
            }
            Ok(d)
        },
        Err(e) => {
            proof {
                if !has_id(before.aliases, v.id) {
                    assert(e matches AliasError::Config(m) && m@ == "alias not found"@);
                } else {
                    assert(!update_allowed(before.aliases, stored_record(v)));
                }
                assert forall|a: AliasView| dto_record(a, dto) && has_id(before.aliases, a.id) implies !update_allowed(
                    before.aliases,
                    #[trigger] stored_record(a),
                ) by {
                    lemma_dto_records_store_alike(before.aliases, a, v, dto);
                }
            }
            Err(e.message())
        },
    }
}

} // verus!
