//! What the shell renderers share: quoting, fingerprints, cleanup of retired
//! names, and the loader block that a shell profile sources the generated
//! file through.
use vstd::prelude::*;
use crate::digest::{sha256_hex, sha256_hex_spec};
use crate::error::AliasError;
use crate::model::{AliasRecord, AliasView, ManagedNameSet, TargetType, strings_view};
use crate::text::{lemma_replace_count, lemma_count_positive, lemma_first_occurrence_none, lemma_count_at_least_one, lemma_no_straddle_after, lemma_no_straddle_before, lemma_replace_absent, lemma_replace_concat, lemma_replace_keeps_absent, no_straddle, lemma_count_at_least_two, lemma_count_concat, lemma_count_zero, lemma_first_occurrence_is, lemma_last_occurrence_is, lemma_no_straddle_at_newline, all_white_space, chars_of, contains_seq, count_chars, count_matches, contains_chars, crlf, ends_with, ends_with_chars, find_seq, first_char_unique, first_occurrence, is_white_space, is_white_space_char, last_occurrence, lf, matches_at, no_newline, occurs_at, replace_all, replace_chars, rest_is_white_space, rfind_seq, string_of, string_result_view, starts_with, sub_chars};

verus! {

/// The line that opens the loader block in a shell profile.
pub const START_MARKER: &'static str = "# >>> Alias Manager >>>";

/// The line that closes the loader block in a shell profile.
pub const END_MARKER: &'static str = "# <<< Alias Manager <<<";

/// The text of the opening marker.
pub open spec fn start_marker() -> Seq<char> {
    "# >>> Alias Manager >>>"@
}

/// The text of the closing marker.
pub open spec fn end_marker() -> Seq<char> {
    "# <<< Alias Manager <<<"@
}

/// Facts about the two markers: neither holds a line break, each has a `#`
/// only at its start, and they differ.
pub proof fn lemma_marker_facts()
    ensures
        no_newline(start_marker()),
        no_newline(end_marker()),
        first_char_unique(start_marker()),
        first_char_unique(end_marker()),
        start_marker().len() == 23,
        end_marker().len() == 23,
        start_marker()[2] == '>',
        end_marker()[2] == '<',
{
    reveal_strlit("# >>> Alias Manager >>>");
    reveal_strlit("# <<< Alias Manager <<<");
}

fn start_marker_chars() -> (v: Vec<char>)
    ensures
        v@ == start_marker(),
{
    chars_of("# >>> Alias Manager >>>")
}

fn end_marker_chars() -> (v: Vec<char>)
    ensures
        v@ == end_marker(),
{
    chars_of("# <<< Alias Manager <<<")
}

fn lf_chars() -> (v: Vec<char>)
    ensures
        v@ == lf(),
{
    let mut v = Vec::new();
    v.push('\n');
    assert(v@ =~= lf());
    v
}

fn crlf_chars() -> (v: Vec<char>)
    ensures
        v@ == crlf(),
{
    let mut v = Vec::new();
    v.push('\r');
    v.push('\n');
    assert(v@ =~= crlf());
    v
}

// ---------------------------------------------------------------------------
// Quoting and fingerprints
// ---------------------------------------------------------------------------

/// A POSIX shell single-quoted literal: the text in single quotes, each
/// single quote written as `'\''`.
pub open spec fn quote_posix_spec(value: Seq<char>) -> Seq<char> {
    seq!['\''] + replace_all(value, seq!['\''], seq!['\'', '\\', '\'', '\'']) + seq!['\'']
}

/// Quotes a text as one POSIX shell word.
pub fn quote_posix(value: &str) -> (q: String)
    ensures
        q@ == quote_posix_spec(value@),
{
    let v = chars_of(value);
    let mut quote: Vec<char> = Vec::new();
    quote.push('\'');
    let mut escaped: Vec<char> = Vec::new();
    escaped.push('\'');
    escaped.push('\\');
    escaped.push('\'');
    escaped.push('\'');
    let body = replace_chars(&v, &quote, &escaped);
    let mut out: Vec<char> = Vec::new();
    out.push('\'');
    out.extend_from_slice(&body);
    out.push('\'');
    assert(quote@ =~= seq!['\'']);
    assert(escaped@ =~= seq!['\'', '\\', '\'', '\'']);
    assert(out@ =~= quote_posix_spec(value@));
    string_of(&out)
}

/// The fingerprint comment that marks a managed definition of a name: the
/// SHA-256 digest of the name.
pub open spec fn fingerprint_marker_spec(name: Seq<char>) -> Seq<char> {
    "# aliasmgr fingerprint:"@ + sha256_hex_spec(name)
}

/// The fingerprint comment of a name.
pub fn fingerprint_marker(name: &str) -> (m: String)
    ensures
        m@ == fingerprint_marker_spec(name@),
{
    let h = sha256_hex(name);
    let mut m = String::from_str("# aliasmgr fingerprint:");
    m.append(string_of(&h).as_str());
    m
}

/// A definition followed by the fingerprint of its name.
pub open spec fn managed_definition_spec(name: Seq<char>, definition: Seq<char>) -> Seq<char> {
    definition + seq![' '] + fingerprint_marker_spec(name)
}

/// A definition followed by the fingerprint of its name.
pub fn managed_definition(name: &str, definition: &str) -> (d: String)
    ensures
        d@ == managed_definition_spec(name@, definition@),
{
    let mut d = String::from_str(definition);
    d.append(" ");
    d.append(fingerprint_marker(name).as_str());
    proof {
        reveal_strlit(" ");
    }
    assert(d@ =~= managed_definition_spec(name@, definition@));
    d
}

/// Calls `std::path::Path::exists`. What is on disk decides the result, so
/// nothing is stated about it.
#[verifier::external_body]
pub fn _filesystem_exists(path: &str) -> bool {
    std::path::Path::new(path).exists()
}

// ---------------------------------------------------------------------------
// Managed names and their cleanup
// ---------------------------------------------------------------------------

/// All managed names: the current ones, then the retired ones.
pub fn managed_names(names: &ManagedNameSet) -> (all: Vec<String>)
    ensures
        strings_view(all@) == strings_view(names.current@) + strings_view(names.retired@),
{
    let mut all = crate::model::copy_strings(&names.current);
    let mut i: usize = 0;
    let ghost start = strings_view(all@);
    while i < names.retired.len()
        invariant
            i <= names.retired@.len(),
            start == strings_view(names.current@),
            strings_view(all@) =~= start + strings_view(names.retired@.take(i as int)),
        decreases names.retired.len() - i,
    {
        let ghost prev = all@;
        all.push(names.retired[i].clone());
        assert(strings_view(all@) =~= strings_view(prev).push(names.retired@[i as int]@));
        assert(strings_view(names.retired@.take(i + 1)) =~= strings_view(names.retired@.take(i as int)).push(
            names.retired@[i as int]@,
        ));
        i += 1;
    }
    assert(names.retired@.take(names.retired@.len() as int) =~= names.retired@);
    all
}

/// The cleanup lines for one name in a POSIX shell: its fingerprint, then
/// removal of an alias and of a function of that name.
pub open spec fn cleanup_entry(name: Seq<char>) -> Seq<char> {
    "# aliasmgr cleanup:"@ + fingerprint_marker_spec(name) + "\nunalias "@ + quote_posix_spec(name)
        + " 2>/dev/null\nunset -f "@ + quote_posix_spec(name) + " 2>/dev/null\n"@
}

/// The cleanup lines for each name, in order.
pub open spec fn cleanup_text(names: Seq<Seq<char>>) -> Seq<char>
    decreases names.len(),
{
    if names.len() == 0 {
        Seq::empty()
    } else {
        cleanup_text(names.drop_last()) + cleanup_entry(names.last())
    }
}

/// The cleanup lines for every managed name, current and retired.
pub fn render_cleanup(names: &ManagedNameSet) -> (out: String)
    ensures
        out@ == cleanup_text(strings_view(names.current@) + strings_view(names.retired@)),
{
    let all = managed_names(names);
    let mut out = String::new();
    let mut i: usize = 0;
    let ghost all_v = strings_view(all@);
    while i < all.len()
        invariant
            i <= all@.len(),
            all_v == strings_view(all@),
            out@ == cleanup_text(all_v.take(i as int)),
        decreases all.len() - i,
    {
        let name = all[i].as_str();
        out.append("# aliasmgr cleanup:");
        out.append(fingerprint_marker(name).as_str());
        out.append("\nunalias ");
        out.append(quote_posix(name).as_str());
        out.append(" 2>/dev/null\nunset -f ");
        out.append(quote_posix(name).as_str());
        out.append(" 2>/dev/null\n");
        assert(all_v.take(i + 1).drop_last() =~= all_v.take(i as int));
        assert(all_v.take(i + 1).last() == all@[i as int]@);
        i += 1;
    }
    assert(all_v.take(all_v.len() as int) =~= all_v);
    out
}

// ---------------------------------------------------------------------------
// Simple aliases
// ---------------------------------------------------------------------------

/// Characters that keep a target from being written as a bare shell alias.
pub open spec fn is_shell_special(c: char) -> bool {
    is_white_space(c) || c == '\'' || c == '"' || c == '$' || c == ';' || c == '&' || c == '|' || c == '<' || c
        == '>'
}

/// An alias that can be a plain shell alias: no fixed or passed arguments,
/// no working directory or environment, not a directory change, and a target
/// without white space or shell-special characters.
pub open spec fn is_simple_alias_spec(v: AliasView) -> bool {
    &&& v.fixed_args.len() == 0
    &&& !v.pass_args
    &&& v.working_directory is None
    &&& v.environment.len() == 0
    &&& v.target_type != TargetType::ChangeDirectory
    &&& forall|i: int| 0 <= i < v.executable.len() ==> !is_shell_special(#[trigger] v.executable[i])
}

/// Whether an alias can be a plain shell alias.
pub fn is_simple_alias(alias: &AliasRecord) -> (b: bool)
    ensures
        b == is_simple_alias_spec(alias@),
{
    if !(alias.fixed_args.len() == 0 && !alias.pass_args && alias.working_directory.is_none()
        && alias.environment.is_empty() && alias.target_type != TargetType::ChangeDirectory) {
        return false;
    }
    let c = chars_of(alias.executable.as_str());
    let mut i: usize = 0;
    while i < c.len()
        invariant
            c@ == alias.executable@,
            i <= c@.len(),
            forall|j: int| 0 <= j < i ==> !is_shell_special(#[trigger] c@[j]),
        decreases c.len() - i,
    {
        let ch = c[i];
        if is_white_space_char(ch) || ch == '\'' || ch == '"' || ch == '$' || ch == ';' || ch == '&' || ch == '|'
            || ch == '<' || ch == '>' {
            assert(is_shell_special(alias@.executable[i as int]));
            return false;
        }
        i += 1;
    }
    true
}

// ---------------------------------------------------------------------------
// The loader block
// ---------------------------------------------------------------------------

/// Where the loader block stands in a profile.
#[derive(Debug, Clone, Copy, PartialEq, Eq, Structural)]
pub enum LoaderPosition {
    Missing,
    AtEnd,
    NotAtEnd,
}

/// The loader block for a generated file: it sources the file if it is
/// readable.
pub open spec fn render_loader_spec(generated_path: Seq<char>) -> Seq<char> {
    start_marker() + "\n# managed block, do not edit by hand\n__aliasmgr_generated_file="@ + quote_posix_spec(
        generated_path,
    ) + "\n[ -r \"$__aliasmgr_generated_file\" ] && . \"$__aliasmgr_generated_file\"\nunset -v __aliasmgr_generated_file\n"@
        + end_marker() + lf()
}

/// The loader block for a generated file.
pub fn render_loader(generated_path: &str) -> (l: String)
    ensures
        l@ == render_loader_spec(generated_path@),
{
    let mut l = String::from_str(START_MARKER);
    l.append("\n# managed block, do not edit by hand\n__aliasmgr_generated_file=");
    l.append(quote_posix(generated_path).as_str());
    l.append("\n[ -r \"$__aliasmgr_generated_file\" ] && . \"$__aliasmgr_generated_file\"\nunset -v __aliasmgr_generated_file\n");
    l.append(END_MARKER);
    l.append("\n");
    proof {
        reveal_strlit("\n");
    }
    assert(l@ =~= render_loader_spec(generated_path@));
    l
}

/// The line break a profile uses: CRLF if it has one, LF otherwise.
pub open spec fn profile_newline(content: Seq<char>) -> Seq<char> {
    if contains_seq(content, crlf()) {
        crlf()
    } else {
        lf()
    }
}

/// A loader block with its line breaks made `nl`.
pub open spec fn normalize_newlines(loader: Seq<char>, nl: Seq<char>) -> Seq<char> {
    replace_all(replace_all(loader, crlf(), lf()), lf(), nl)
}

/// What goes between a profile and an appended block: nothing if the profile
/// is empty or ends with a line feed, its line break otherwise.
pub open spec fn loader_separator(content: Seq<char>) -> Seq<char> {
    if content.len() == 0 || ends_with(content, lf()) {
        Seq::empty()
    } else {
        profile_newline(content)
    }
}

/// The outcome of installing a loader block into a profile: a profile with
/// more than one of either marker, or with one marker but not the other, is
/// refused; a profile that has the block is kept as it is; otherwise the
/// block, in the profile's line breaks, is appended.
pub open spec fn install_loader_spec(content: Seq<char>, loader: Seq<char>) -> Result<Seq<char>, AliasError> {
    if count_matches(content, start_marker()) > 1 || count_matches(content, end_marker()) > 1 {
        Err(AliasError::UnsafePath)
    } else if contains_seq(content, start_marker()) != contains_seq(content, end_marker()) {
        Err(AliasError::UnsafePath)
    } else if contains_seq(content, start_marker()) {
        Ok(content)
    } else {
        Ok(content + loader_separator(content) + normalize_newlines(loader, profile_newline(content)))
    }
}

/// Installs a loader block into a profile's content.
pub fn install_loader(content: &str, loader: &str) -> (r: Result<String, AliasError>)
    ensures
        string_result_view(r) == install_loader_spec(content@, loader@),
{
    proof {
        lemma_marker_facts();
    }
    let c = chars_of(content);
    let start = start_marker_chars();
    let end = end_marker_chars();
    if count_chars(&c, &start) > 1 || count_chars(&c, &end) > 1 {
        return Err(AliasError::UnsafePath);
    }
    let has_start = contains_chars(&c, &start);
    let has_end = contains_chars(&c, &end);
    if has_start != has_end {
        return Err(AliasError::UnsafePath);
    }
    if has_start {
        return Ok(String::from_str(content));
    }
    let crlf_v = crlf_chars();
    let lf_v = lf_chars();
    let nl = if contains_chars(&c, &crlf_v) { crlf_chars() } else { lf_chars() };
    let l = chars_of(loader);
    let unified = replace_chars(&l, &crlf_v, &lf_v);
    let block = replace_chars(&unified, &lf_v, &nl);
    let mut out: Vec<char> = Vec::new();
    out.extend_from_slice(&c);
    if !(c.len() == 0 || ends_with_chars(&c, &lf_v)) {
        out.extend_from_slice(&nl);
    }
    out.extend_from_slice(&block);
    assert(out@ =~= content@ + loader_separator(content@) + normalize_newlines(loader@, profile_newline(content@)));
    Ok(string_of(&out))
}

/// The outcome of removing a loader block: a profile with neither marker is
/// kept as it is; with both, the text from the first opening marker to the
/// end of the first closing marker, and one line break after it, is cut out;
/// with only one of them, the profile is refused.
pub open spec fn remove_loader_spec(content: Seq<char>) -> Result<Seq<char>, AliasError> {
    match (first_occurrence(content, start_marker()), first_occurrence(content, end_marker())) {
        (None, None) => Ok(content),
        (Some(s), Some(e0)) => {
            let e = e0 + end_marker().len();
            let cut = if occurs_at(content, crlf(), e) {
                e + 2
            } else if occurs_at(content, lf(), e) {
                e + 1
            } else {
                e
            };
            Ok(content.take(s) + content.skip(cut))
        },
        _ => Err(AliasError::UnsafePath),
    }
}

/// Removes the loader block from a profile's content.
pub fn remove_loader(content: &str) -> (r: Result<String, AliasError>)
    ensures
        string_result_view(r) == remove_loader_spec(content@),
{
    let c = chars_of(content);
    let start = start_marker_chars();
    let end = end_marker_chars();
    let s = find_seq(&c, &start);
    let e = find_seq(&c, &end);
    if s.is_none() && e.is_none() {
        return Ok(String::from_str(content));
    }
    if s.is_none() || e.is_none() {
        return Err(AliasError::UnsafePath);
    }
    let s = s.unwrap();
    let e0 = e.unwrap();
    assert(occurs_at(c@, end@, e0 as int));
    assert(e0 + end@.len() <= c@.len());
    assert(end@.len() == end.len() && c@.len() == c.len());
    let e = e0 + end.len();
    let crlf_v = crlf_chars();
    let lf_v = lf_chars();
    let cut = if matches_at(&c, &crlf_v, e) {
        assert(occurs_at(c@, crlf_v@, e as int));
        assert(crlf_v@.len() == 2);
        assert(e + 2 <= c.len());
        e + 2
    } else if matches_at(&c, &lf_v, e) {
        assert(lf_v@.len() == 1);
        assert(e + 1 <= c.len());
        e + 1
    } else {
        e
    };
    let mut out = sub_chars(&c, 0, s);
    let rest = sub_chars(&c, cut, c.len());
    out.extend_from_slice(&rest);
    assert(out@ =~= content@.take(s as int) + content@.skip(cut as int));
    Ok(string_of(&out))
}

/// Where the loader block stands: a profile with more than one of either
/// marker, or unequal numbers of them, is refused; without markers the block
/// is missing; otherwise it is at the end if only white space follows the
/// last closing marker.
pub open spec fn loader_position_spec(content: Seq<char>) -> Result<LoaderPosition, AliasError> {
    let starts = count_matches(content, start_marker());
    let ends = count_matches(content, end_marker());
    if starts > 1 || ends > 1 || starts != ends {
        Err(AliasError::UnsafePath)
    } else if starts == 0 {
        Ok(LoaderPosition::Missing)
    } else {
        match last_occurrence(content, end_marker()) {
            Some(i) => if all_white_space(content.skip(i + end_marker().len())) {
                Ok(LoaderPosition::AtEnd)
            } else {
                Ok(LoaderPosition::NotAtEnd)
            },
            None => Err(AliasError::UnsafePath),
        }
    }
}

/// Where the loader block stands in a profile.
pub fn loader_position(content: &str) -> (r: Result<LoaderPosition, AliasError>)
    ensures
        r == loader_position_spec(content@),
{
    proof {
        lemma_marker_facts();
    }
    let c = chars_of(content);
    let start = start_marker_chars();
    let end = end_marker_chars();
    let starts = count_chars(&c, &start);
    let ends = count_chars(&c, &end);
    if starts > 1 || ends > 1 || starts != ends {
        return Err(AliasError::UnsafePath);
    }
    if starts == 0 {
        return Ok(LoaderPosition::Missing);
    }
    match rfind_seq(&c, &end) {
        Some(i) => {
            assert(occurs_at(c@, end@, i as int));
            assert(i + end@.len() <= c@.len());
            assert(i + end.len() <= c.len());
            let end_index = i + end.len();
            if rest_is_white_space(&c, end_index) {
                Ok(LoaderPosition::AtEnd)
            } else {
                Ok(LoaderPosition::NotAtEnd)
            }
        },
        None => Err(AliasError::UnsafePath),
    }
}


// ---------------------------------------------------------------------------
// Laws of the loader block
// ---------------------------------------------------------------------------

/// A block in line breaks `nl` that begins with the opening marker, ends with
/// the closing marker and `nl`, and holds each marker exactly once.
pub open spec fn block_well_formed(block: Seq<char>, nl: Seq<char>) -> bool {
    &&& starts_with(block, start_marker())
    &&& ends_with(block, end_marker() + nl)
    &&& count_matches(block, start_marker()) == 1
    &&& count_matches(block, end_marker()) == 1
}

/// A loader block that is well formed in either kind of line break.
pub open spec fn loader_well_formed(loader: Seq<char>) -> bool {
    &&& block_well_formed(normalize_newlines(loader, lf()), lf())
    &&& block_well_formed(normalize_newlines(loader, crlf()), crlf())
}

/// What appending a well-formed block to a profile without markers gives:
/// each marker once, the opening one where the block begins, the closing one
/// right before the final line break.
proof fn lemma_appended_block(content: Seq<char>, loader: Seq<char>)
    requires
        loader_well_formed(loader),
        !contains_seq(content, start_marker()),
        !contains_seq(content, end_marker()),
    ensures
        ({
            let nl = profile_newline(content);
            let a = content + loader_separator(content);
            let out = a + normalize_newlines(loader, nl);
            &&& count_matches(out, start_marker()) == 1
            &&& count_matches(out, end_marker()) == 1
            &&& occurs_at(out, start_marker(), a.len() as int)
            &&& occurs_at(out, end_marker(), out.len() - end_marker().len() - nl.len())
            &&& out.skip(out.len() - nl.len()) == nl
            &&& nl == lf() || nl == crlf()
            &&& out.len() >= a.len() + end_marker().len() + nl.len()
        }),
{
    lemma_marker_facts();
    let nl = profile_newline(content);
    let sep = loader_separator(content);
    let a = content + sep;
    let n = normalize_newlines(loader, nl);
    let out = a + n;
    assert(block_well_formed(n, nl));
    lemma_count_zero(content, start_marker());
    lemma_count_zero(content, end_marker());
    assert(count_matches(sep, start_marker()) == 0);
    assert(count_matches(sep, end_marker()) == 0);
    if sep.len() == 0 {
        assert(a =~= content);
    } else {
        assert(sep[0] == '\n' || sep[0] == '\r');
        lemma_no_straddle_at_newline(content, sep, start_marker());
        lemma_no_straddle_at_newline(content, sep, end_marker());
        lemma_count_concat(content, sep, start_marker());
        lemma_count_concat(content, sep, end_marker());
    }
    assert(a.len() == 0 || a.last() == '\n') by {
        if sep.len() == 0 && content.len() > 0 {
            assert(ends_with(content, lf()));
            assert(content.skip(content.len() - 1)[0] == content.last());
        }
    }
    lemma_no_straddle_at_newline(a, n, start_marker());
    lemma_no_straddle_at_newline(a, n, end_marker());
    lemma_count_concat(a, n, start_marker());
    lemma_count_concat(a, n, end_marker());
    let m = start_marker().len() as int;
    assert(out.subrange(a.len() as int, a.len() + m) =~= n.take(m));
    let tail = end_marker() + nl;
    let k = n.len() - tail.len();
    assert(n.skip(k) =~= tail);
    assert(out.subrange(a.len() + k, a.len() + k + end_marker().len()) =~= tail.take(end_marker().len() as int));
    assert(out.skip(out.len() - nl.len()) =~= n.skip(n.len() - nl.len()));
    assert(n.skip(n.len() - nl.len()) =~= tail.skip(end_marker().len() as int));
}

/// Changing line breaks keeps the number of occurrences of a text without
/// line breaks.
proof fn lemma_normalize_count(x: Seq<char>, nl: Seq<char>, m: Seq<char>)
    requires
        nl == lf() || nl == crlf(),
        m.len() > 0,
        no_newline(m),
    ensures
        count_matches(normalize_newlines(x, nl), m) == count_matches(x, m),
{
    assert forall|k: int| 0 <= k < crlf().len() implies !m.contains(#[trigger] crlf()[k]) by {
        if m.contains(crlf()[k]) {
            let j = choose|j: int| 0 <= j < m.len() && m[j] == crlf()[k];
        }
    }
    assert forall|k: int| 0 <= k < lf().len() implies !m.contains(#[trigger] lf()[k]) by {
        if m.contains(lf()[k]) {
            let j = choose|j: int| 0 <= j < m.len() && m[j] == lf()[k];
        }
    }
    assert forall|k: int| 0 <= k < nl.len() implies !m.contains(#[trigger] nl[k]) by {
        if m.contains(nl[k]) {
            let j = choose|j: int| 0 <= j < m.len() && m[j] == nl[k];
        }
    }
    lemma_replace_count(x, crlf(), lf(), m);
    lemma_replace_count(replace_all(x, crlf(), lf()), lf(), nl, m);
}

/// Installing a loader block twice is installing it once: whenever the
/// first installation succeeds, a second one with a block that holds each
/// marker once keeps the profile as it is.
pub proof fn law_install_loader_idempotent(content: Seq<char>, loader: Seq<char>)
    requires
        count_matches(loader, start_marker()) == 1,
        count_matches(loader, end_marker()) == 1,
        install_loader_spec(content, loader) is Ok,
    ensures
        install_loader_spec(install_loader_spec(content, loader)->Ok_0, loader) == install_loader_spec(content, loader),
{
    if !contains_seq(content, start_marker()) {
        lemma_marker_facts();
        let st = start_marker();
        let en = end_marker();
        let nl = profile_newline(content);
        let sep = loader_separator(content);
        let a = content + sep;
        let n = normalize_newlines(loader, nl);
        let out = a + n;
        lemma_normalize_count(loader, nl, st);
        lemma_normalize_count(loader, nl, en);
        lemma_count_zero(content, st);
        lemma_count_zero(content, en);
        assert(count_matches(sep, st) == 0 && count_matches(sep, en) == 0);
        if sep.len() == 0 {
            assert(a =~= content);
        } else {
            assert(sep[0] == '\n' || sep[0] == '\r');
            lemma_no_straddle_at_newline(content, sep, st);
            lemma_no_straddle_at_newline(content, sep, en);
            lemma_count_concat(content, sep, st);
            lemma_count_concat(content, sep, en);
        }
        assert(a.len() == 0 || a.last() == '\n') by {
            if sep.len() == 0 && content.len() > 0 {
                assert(ends_with(content, lf()));
                assert(content.skip(content.len() - 1)[0] == content.last());
            }
        }
        lemma_no_straddle_at_newline(a, n, st);
        lemma_no_straddle_at_newline(a, n, en);
        lemma_count_concat(a, n, st);
        lemma_count_concat(a, n, en);
        lemma_count_positive(out, st);
        lemma_count_positive(out, en);
    }
}

/// In an installed profile the only closing marker is the one at the given
/// index.
proof fn lemma_unique_occurrence(s: Seq<char>, p: Seq<char>, k: int)
    requires
        first_char_unique(p),
        count_matches(s, p) == 1,
        occurs_at(s, p, k),
    ensures
        forall|j: int| j != k ==> !occurs_at(s, p, j),
{
    assert forall|j: int| j != k implies !occurs_at(s, p, j) by {
        if occurs_at(s, p, j) {
            if j < k {
                lemma_count_at_least_two(s, p, j, k);
            } else {
                lemma_count_at_least_two(s, p, k, j);
            }
        }
    }
}

/// A profile without markers that gets a well-formed loader block has the
/// block at its end.
pub proof fn law_installed_loader_is_at_end(content: Seq<char>, loader: Seq<char>)
    requires
        loader_well_formed(loader),
        !contains_seq(content, start_marker()),
        !contains_seq(content, end_marker()),
    ensures
        install_loader_spec(content, loader) is Ok,
        loader_position_spec(install_loader_spec(content, loader)->Ok_0) == Ok::<LoaderPosition, AliasError>(
            LoaderPosition::AtEnd,
        ),
{
    lemma_marker_facts();
    lemma_count_zero(content, start_marker());
    lemma_count_zero(content, end_marker());
    lemma_appended_block(content, loader);
    let nl = profile_newline(content);
    let a = content + loader_separator(content);
    let out = a + normalize_newlines(loader, nl);
    let k = out.len() - end_marker().len() - nl.len();
    lemma_unique_occurrence(out, end_marker(), k);
    lemma_last_occurrence_is(out, end_marker(), k, out.len() as int);
    assert(out.skip(k + end_marker().len()) == nl);
    assert(all_white_space(nl)) by {
        if nl == crlf() {
            assert(nl[0] == '\r' && nl[1] == '\n');
        } else {
            assert(nl[0] == '\n');
        }
    }
}

/// Removing the loader block undoes installing it: a profile without markers
/// gets back its text and the line break put before the block.
pub proof fn law_remove_loader_undoes_install(content: Seq<char>, loader: Seq<char>)
    requires
        loader_well_formed(loader),
        !contains_seq(content, start_marker()),
        !contains_seq(content, end_marker()),
    ensures
        install_loader_spec(content, loader) is Ok,
        remove_loader_spec(install_loader_spec(content, loader)->Ok_0) == Ok::<Seq<char>, AliasError>(
            content + loader_separator(content),
        ),
{
    lemma_marker_facts();
    lemma_count_zero(content, start_marker());
    lemma_count_zero(content, end_marker());
    lemma_appended_block(content, loader);
    let nl = profile_newline(content);
    let a = content + loader_separator(content);
    let out = a + normalize_newlines(loader, nl);
    let k = out.len() - end_marker().len() - nl.len();
    lemma_unique_occurrence(out, start_marker(), a.len() as int);
    lemma_unique_occurrence(out, end_marker(), k);
    lemma_first_occurrence_is(out, start_marker(), a.len() as int, 0);
    lemma_first_occurrence_is(out, end_marker(), k, 0);
    let e = k + end_marker().len();
    if nl == crlf() {
        assert(out.subrange(e, e + 2) =~= out.skip(e));
        assert(occurs_at(out, crlf(), e));
    } else {
        assert(out.skip(e) == lf());
        assert(out[e] == '\n');
        assert(!occurs_at(out, crlf(), e)) by {
            if occurs_at(out, crlf(), e) {
                assert(out.subrange(e, e + 2)[0] == out[e]);
            }
        }
        assert(out.subrange(e, e + 1) =~= out.skip(e));
        assert(occurs_at(out, lf(), e));
    }
    assert(out.take(a.len() as int) + out.skip(out.len() as int) =~= a);
}

// ---------------------------------------------------------------------------
// The rendered loader block is well formed
// ---------------------------------------------------------------------------

/// Line breaks are made `nl` piece by piece across a boundary that no CRLF
/// straddles.
proof fn lemma_normalize_concat(x: Seq<char>, y: Seq<char>, nl: Seq<char>)
    requires
        no_straddle(x, y, crlf()),
    ensures
        normalize_newlines(x + y, nl) == normalize_newlines(x, nl) + normalize_newlines(y, nl),
{
    lemma_replace_concat(x, y, crlf(), lf());
    let a = replace_all(x, crlf(), lf());
    let b = replace_all(y, crlf(), lf());
    assert(no_straddle(a, b, lf()));
    lemma_replace_concat(a, b, lf(), nl);
}

/// A text without line breaks keeps its line breaks as they are.
proof fn lemma_normalize_plain(x: Seq<char>, nl: Seq<char>)
    requires
        no_newline(x),
    ensures
        normalize_newlines(x, nl) == x,
{
    assert(!contains_seq(x, crlf())) by {
        if contains_seq(x, crlf()) {
            let i = choose|i: int| occurs_at(x, crlf(), i);
            assert(x.subrange(i, i + 2)[0] == x[i]);
        }
    }
    assert(!contains_seq(x, lf())) by {
        if contains_seq(x, lf()) {
            let i = choose|i: int| occurs_at(x, lf(), i);
            assert(x.subrange(i, i + 1)[0] == x[i]);
        }
    }
    lemma_replace_absent(x, crlf(), lf());
    lemma_replace_absent(x, lf(), nl);
}

/// Changing line breaks brings in no text without line breaks that was not
/// there.
proof fn lemma_normalize_keeps_absent(x: Seq<char>, nl: Seq<char>, m: Seq<char>)
    requires
        nl == lf() || nl == crlf(),
        m.len() > 0,
        no_newline(m),
        !contains_seq(x, m),
    ensures
        !contains_seq(normalize_newlines(x, nl), m),
{
    assert forall|k: int| 0 <= k < m.len() implies !lf().contains(#[trigger] m[k]) by {
        if lf().contains(m[k]) {
            let j = choose|j: int| 0 <= j < lf().len() && lf()[j] == m[k];
        }
    }
    lemma_replace_keeps_absent(x, crlf(), lf(), m);
    assert forall|k: int| 0 <= k < m.len() implies !nl.contains(#[trigger] m[k]) by {
        if nl.contains(m[k]) {
            let j = choose|j: int| 0 <= j < nl.len() && nl[j] == m[k];
        }
    }
    lemma_replace_keeps_absent(replace_all(x, crlf(), lf()), lf(), nl, m);
}

/// The loader block's text between the opening marker and the quoted path.
pub open spec fn loader_head() -> Seq<char> {
    "\n# managed block, do not edit by hand\n__aliasmgr_generated_file="@
}

/// The loader block's text between the quoted path and the last line break
/// before the closing marker.
pub open spec fn loader_tail() -> Seq<char> {
    "\n[ -r \"$__aliasmgr_generated_file\" ] && . \"$__aliasmgr_generated_file\"\nunset -v __aliasmgr_generated_file"@
}

/// What a piece of the loader block's fixed text is like: it begins with a
/// line feed, has no carriage return, holds neither marker and ends with
/// something other than a line break.
pub open spec fn plain_piece(x: Seq<char>) -> bool {
    &&& x.len() > 0
    &&& x[0] == '\n'
    &&& forall|k: int| 0 <= k < x.len() ==> #[trigger] x[k] != '\r'
    &&& !contains_seq(x, start_marker())
    &&& !contains_seq(x, end_marker())
    &&& x.last() != '\n' && x.last() != '\r'
}

/// The marker texts hold no quote, backslash or line break, and neither
/// holds the other.
proof fn lemma_marker_chars()
    ensures
        forall|k: int| 0 <= k < start_marker().len() ==> #[trigger] start_marker()[k] != '\'' && start_marker()[k] != '\\',
        forall|k: int| 0 <= k < end_marker().len() ==> #[trigger] end_marker()[k] != '\'' && end_marker()[k] != '\\',
        !contains_seq(start_marker(), end_marker()),
        !contains_seq(end_marker(), start_marker()),
        start_marker()[0] == '#',
        end_marker()[0] == '#',
        start_marker().last() == '>',
        end_marker().last() == '<',
{
    lemma_marker_facts();
    reveal_strlit("# >>> Alias Manager >>>");
    reveal_strlit("# <<< Alias Manager <<<");
    assert forall|i: int| !occurs_at(start_marker(), end_marker(), i) by {
        if occurs_at(start_marker(), end_marker(), i) {
            assert(i == 0);
            assert(start_marker().subrange(0, 23)[2] == start_marker()[2]);
        }
    }
    assert forall|i: int| !occurs_at(end_marker(), start_marker(), i) by {
        if occurs_at(end_marker(), start_marker(), i) {
            assert(i == 0);
            assert(end_marker().subrange(0, 23)[2] == end_marker()[2]);
        }
    }
}

/// The two pieces of fixed text are plain.
proof fn lemma_loader_pieces_plain()
    ensures
        plain_piece(loader_head()),
        plain_piece(loader_tail()),
{
    lemma_marker_facts();
    reveal_strlit("# >>> Alias Manager >>>");
    reveal_strlit("# <<< Alias Manager <<<");
    reveal_strlit("\n# managed block, do not edit by hand\n__aliasmgr_generated_file=");
    reveal_strlit("\n[ -r \"$__aliasmgr_generated_file\" ] && . \"$__aliasmgr_generated_file\"\nunset -v __aliasmgr_generated_file");
    let h = loader_head();
    let t = loader_tail();
    assert forall|i: int| !occurs_at(h, start_marker(), i) && !occurs_at(h, end_marker(), i) by {
        if occurs_at(h, start_marker(), i) {
            assert(h.subrange(i, i + 23)[0] == h[i]);
            assert(h.subrange(i, i + 23)[2] == h[i + 2]);
        }
        if occurs_at(h, end_marker(), i) {
            assert(h.subrange(i, i + 23)[0] == h[i]);
            assert(h.subrange(i, i + 23)[2] == h[i + 2]);
        }
    }
    assert forall|i: int| !occurs_at(t, start_marker(), i) && !occurs_at(t, end_marker(), i) by {
        if occurs_at(t, start_marker(), i) {
            assert(t.subrange(i, i + 23)[0] == t[i]);
        }
        if occurs_at(t, end_marker(), i) {
            assert(t.subrange(i, i + 23)[0] == t[i]);
        }
    }
}

/// A quoted path holds a marker only where the path does.
proof fn lemma_quoted_path_has_no_marker(path: Seq<char>, m: Seq<char>, nl: Seq<char>)
    requires
        m == start_marker() || m == end_marker(),
        nl == lf() || nl == crlf(),
        !contains_seq(path, m),
    ensures
        !contains_seq(normalize_newlines(quote_posix_spec(path), nl), m),
        quote_posix_spec(path)[0] == '\'',
        quote_posix_spec(path).last() == '\'',
        normalize_newlines(quote_posix_spec(path), nl).len() > 0,
        normalize_newlines(quote_posix_spec(path), nl)[0] == '\'',
{
    lemma_marker_facts();
    lemma_marker_chars();
    let esc = seq!['\'', '\\', '\'', '\''];
    let body = replace_all(path, seq!['\''], esc);
    assert forall|k: int| 0 <= k < m.len() implies !esc.contains(#[trigger] m[k]) by {
        if esc.contains(m[k]) {
            let j = choose|j: int| 0 <= j < esc.len() && esc[j] == m[k];
        }
    }
    lemma_replace_keeps_absent(path, seq!['\''], esc, m);
    let q1 = seq!['\''];
    let q = quote_posix_spec(path);
    assert(q =~= (q1 + body) + q1);
    assert(!m.contains('\'')) by {
        if m.contains('\'') {
            let j = choose|j: int| 0 <= j < m.len() && m[j] == '\'';
        }
    }
    lemma_no_straddle_after(q1, body, m);
    lemma_count_zero(body, m);
    lemma_count_concat(q1, body, m);
    lemma_no_straddle_before(q1 + body, q1, m);
    lemma_count_concat(q1 + body, q1, m);
    assert(count_matches(q1, m) == 0);
    assert(count_matches(q, m) == 0);
    if contains_seq(q, m) {
        let i = choose|i: int| occurs_at(q, m, i);
        lemma_count_at_least_one(q, m, i);
    }
    lemma_normalize_keeps_absent(q, nl, m);
    // The first character is a quote, which no replacement touches.
    let n1 = replace_all(q, crlf(), lf());
    assert(!(q.take(2) =~= crlf())) by {
        if q.take(2) =~= crlf() {
            assert(q.take(2)[0] == q[0]);
        }
    }
    assert(n1 =~= seq![q[0]] + replace_all(q.skip(1), crlf(), lf()));
    assert(!(n1.take(1) =~= lf())) by {
        if n1.take(1) =~= lf() {
            assert(n1.take(1)[0] == n1[0]);
        }
    }
    assert(replace_all(n1, lf(), nl) =~= seq![n1[0]] + replace_all(n1.skip(1), lf(), nl));
}

/// A plain piece with its line breaks made `nl` begins with `nl`'s first
/// character and holds neither marker.
proof fn lemma_plain_piece_normalized(x: Seq<char>, nl: Seq<char>)
    requires
        plain_piece(x),
        nl == lf() || nl == crlf(),
    ensures
        normalize_newlines(x, nl).len() > 0,
        normalize_newlines(x, nl)[0] == nl[0],
        !contains_seq(normalize_newlines(x, nl), start_marker()),
        !contains_seq(normalize_newlines(x, nl), end_marker()),
{
    lemma_marker_facts();
    assert(!contains_seq(x, crlf())) by {
        if contains_seq(x, crlf()) {
            let i = choose|i: int| occurs_at(x, crlf(), i);
            assert(x.subrange(i, i + 2)[0] == x[i]);
        }
    }
    lemma_replace_absent(x, crlf(), lf());
    assert(x.take(1) =~= lf());
    assert(replace_all(x, lf(), nl) =~= nl + replace_all(x.skip(1), lf(), nl));
    lemma_normalize_keeps_absent(x, nl, start_marker());
    lemma_normalize_keeps_absent(x, nl, end_marker());
}

/// A text holds itself once.
proof fn lemma_count_self(p: Seq<char>)
    requires
        p.len() > 0,
    ensures
        count_matches(p, p) == 1,
{
    assert(p.take(p.len() as int) =~= p);
    let rest = p.skip(p.len() as int);
    assert(rest =~= Seq::<char>::empty());
    assert(count_matches(rest, p) == 0);
}

/// The rendered loader block, with its line breaks made `nl`, is a
/// well-formed block for a path that holds neither marker.
proof fn lemma_rendered_block(path: Seq<char>, nl: Seq<char>)
    requires
        nl == lf() || nl == crlf(),
        !contains_seq(path, start_marker()),
        !contains_seq(path, end_marker()),
    ensures
        block_well_formed(normalize_newlines(render_loader_spec(path), nl), nl),
{
    lemma_marker_facts();
    lemma_marker_chars();
    lemma_loader_pieces_plain();
    reveal_strlit("\n# managed block, do not edit by hand\n__aliasmgr_generated_file=");
    reveal_strlit("\n[ -r \"$__aliasmgr_generated_file\" ] && . \"$__aliasmgr_generated_file\"\nunset -v __aliasmgr_generated_file");
    reveal_strlit("\n[ -r \"$__aliasmgr_generated_file\" ] && . \"$__aliasmgr_generated_file\"\nunset -v __aliasmgr_generated_file\n");
    let st = start_marker();
    let en = end_marker();
    let h = loader_head();
    let t = loader_tail();
    let q = quote_posix_spec(path);
    let l1 = st + h;
    let l2 = l1 + q;
    let l3 = l2 + t;
    let l4 = l3 + lf();
    let l5 = l4 + en;
    let l6 = l5 + lf();
    assert(render_loader_spec(path) =~= l6);
    lemma_quoted_path_has_no_marker(path, st, nl);
    lemma_quoted_path_has_no_marker(path, en, nl);
    // No CRLF straddles a boundary of the pieces.
    let cr = crlf();
    assert(!cr.contains('>') && !cr.contains('\'') && !cr.contains('e') && !cr.contains('#') && !cr.contains('<')) by {
        assert forall|c: char| #[trigger] cr.contains(c) implies c == '\r' || c == '\n' by {
            let j = choose|j: int| 0 <= j < cr.len() && cr[j] == c;
        }
    }
    assert(t.last() == 'e');
    lemma_no_straddle_after(st, h, cr);
    lemma_no_straddle_before(l1, q, cr);
    lemma_no_straddle_after(l2, t, cr);
    lemma_no_straddle_after(l3, lf(), cr);
    lemma_no_straddle_before(l4, en, cr);
    lemma_no_straddle_after(l5, lf(), cr);
    lemma_normalize_concat(st, h, nl);
    lemma_normalize_concat(l1, q, nl);
    lemma_normalize_concat(l2, t, nl);
    lemma_normalize_concat(l3, lf(), nl);
    lemma_normalize_concat(l4, en, nl);
    lemma_normalize_concat(l5, lf(), nl);
    lemma_normalize_plain(st, nl);
    lemma_normalize_plain(en, nl);
    // A lone line feed becomes `nl`.
    lemma_replace_absent(lf(), crlf(), lf());
    assert(replace_all(lf(), lf(), nl) =~= nl + replace_all(lf().skip(1), lf(), nl));
    assert(normalize_newlines(lf(), nl) == nl);
    lemma_plain_piece_normalized(h, nl);
    lemma_plain_piece_normalized(t, nl);
    let nh = normalize_newlines(h, nl);
    let nq = normalize_newlines(q, nl);
    let nt = normalize_newlines(t, nl);
    let n1 = st + nh;
    let n2 = n1 + nq;
    let n3 = n2 + nt;
    let n4 = n3 + nl;
    let n5 = n4 + en;
    let n6 = n5 + nl;
    assert(normalize_newlines(render_loader_spec(path), nl) == n6);
    // Counting the markers piece by piece.
    assert(nl[0] == '\n' || nl[0] == '\r');
    assert(nl.last() == '\n');
    assert(n4.last() == '\n');
    assert(!st.contains('\'') && !en.contains('\'')) by {
        if st.contains('\'') {
            let j = choose|j: int| 0 <= j < st.len() && st[j] == '\'';
        }
        if en.contains('\'') {
            let j = choose|j: int| 0 <= j < en.len() && en[j] == '\'';
        }
    }
    lemma_count_self(st);
    lemma_count_self(en);
    lemma_count_zero(st, en);
    lemma_count_zero(en, st);
    assert(count_matches(nl, st) == 0 && count_matches(nl, en) == 0);
    lemma_count_zero(nh, st);
    lemma_count_zero(nh, en);
    lemma_count_zero(nq, st);
    lemma_count_zero(nq, en);
    lemma_count_zero(nt, st);
    lemma_count_zero(nt, en);
    lemma_no_straddle_at_newline(st, nh, st);
    lemma_no_straddle_at_newline(st, nh, en);
    lemma_no_straddle_before(n1, nq, st);
    lemma_no_straddle_before(n1, nq, en);
    lemma_no_straddle_at_newline(n2, nt, st);
    lemma_no_straddle_at_newline(n2, nt, en);
    lemma_no_straddle_at_newline(n3, nl, st);
    lemma_no_straddle_at_newline(n3, nl, en);
    lemma_no_straddle_at_newline(n4, en, st);
    lemma_no_straddle_at_newline(n4, en, en);
    lemma_no_straddle_at_newline(n5, nl, st);
    lemma_no_straddle_at_newline(n5, nl, en);
    lemma_count_concat(st, nh, st);
    lemma_count_concat(st, nh, en);
    lemma_count_concat(n1, nq, st);
    lemma_count_concat(n1, nq, en);
    lemma_count_concat(n2, nt, st);
    lemma_count_concat(n2, nt, en);
    lemma_count_concat(n3, nl, st);
    lemma_count_concat(n3, nl, en);
    lemma_count_concat(n4, en, st);
    lemma_count_concat(n4, en, en);
    lemma_count_concat(n5, nl, st);
    lemma_count_concat(n5, nl, en);
    // Where the block begins and ends.
    assert(n6.take(23) =~= st);
    let tail = en + nl;
    assert(n6.skip(n6.len() - tail.len()) =~= tail);
}

/// The loader block that `render_loader` writes is well formed, in either
/// kind of line break, for a path that holds neither marker.
pub proof fn lemma_render_loader_well_formed(path: Seq<char>)
    requires
        !contains_seq(path, start_marker()),
        !contains_seq(path, end_marker()),
    ensures
        loader_well_formed(render_loader_spec(path)),
{
    lemma_rendered_block(path, lf());
    lemma_rendered_block(path, crlf());
}

/// Installing the block that `render_loader` writes twice is installing it
/// once, for a path that holds neither marker.
pub proof fn law_rendered_loader_install_idempotent(content: Seq<char>, path: Seq<char>)
    requires
        !contains_seq(path, start_marker()),
        !contains_seq(path, end_marker()),
        install_loader_spec(content, render_loader_spec(path)) is Ok,
    ensures
        install_loader_spec(install_loader_spec(content, render_loader_spec(path))->Ok_0, render_loader_spec(path))
            == install_loader_spec(content, render_loader_spec(path)),
{
    lemma_marker_facts();
    lemma_rendered_block(path, lf());
    lemma_normalize_count(render_loader_spec(path), lf(), start_marker());
    lemma_normalize_count(render_loader_spec(path), lf(), end_marker());
    law_install_loader_idempotent(content, render_loader_spec(path));
}

/// Removing the block that `render_loader` writes undoes installing it into
/// a profile without markers (which gets back its text and the line break
/// put before the block, none when it is empty or ends with a line feed),
/// and removing from a profile without markers keeps it as it is.
pub proof fn law_rendered_loader_remove_undoes_install(content: Seq<char>, path: Seq<char>)
    requires
        !contains_seq(path, start_marker()),
        !contains_seq(path, end_marker()),
        !contains_seq(content, start_marker()),
        !contains_seq(content, end_marker()),
    ensures
        remove_loader_spec(content) == Ok::<Seq<char>, AliasError>(content),
        install_loader_spec(content, render_loader_spec(path)) is Ok,
        remove_loader_spec(install_loader_spec(content, render_loader_spec(path))->Ok_0) == Ok::<Seq<char>, AliasError>(
            content + loader_separator(content),
        ),
        content.len() == 0 || ends_with(content, lf()) ==> remove_loader_spec(
            install_loader_spec(content, render_loader_spec(path))->Ok_0,
        ) == Ok::<Seq<char>, AliasError>(content),
{
    lemma_first_occurrence_none(content, start_marker(), 0);
    lemma_first_occurrence_none(content, end_marker(), 0);
    lemma_render_loader_well_formed(path);
    law_remove_loader_undoes_install(content, render_loader_spec(path));
    if content.len() == 0 || ends_with(content, lf()) {
        assert(content + loader_separator(content) =~= content);
    }
}

} // verus!
