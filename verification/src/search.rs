//! Searching aliases: a weighted score per alias, a tag filter, a stable
//! ranking by score, name and recency, and a result limit.
use vstd::prelude::*;
use crate::model::{AliasRecord, AliasView, ShellKind, TargetType, strings_view};
use crate::text::{
    chars_of, contains_chars, contains_seq, eq_ignore_ascii_case, eq_ignore_ascii_case_str, lemma_seq_lt_irreflexive,
    lemma_seq_lt_transitive, lowercase, seq_lt, starts_with, starts_with_chars, str_eq, str_lt, to_lowercase,
};

verus! {

/// Score of a name equal to the query.
pub const EXACT_WEIGHT: i32 = 1000;

/// Score of a name that begins with the query.
pub const PREFIX_WEIGHT: i32 = 800;

/// Score of a name that contains the query.
pub const SUBSTRING_WEIGHT: i32 = 600;

/// Score of a name that holds the query's characters in order.
pub const FUZZY_WEIGHT: i32 = 400;

/// Score of another field equal to the query.
pub const TAG_WEIGHT: i32 = 350;

/// Score of another field that contains the query.
pub const FIELD_WEIGHT: i32 = 200;

/// Score reserved for near matches by edit distance.
pub const EDIT_DISTANCE_WEIGHT: i32 = 100;

/// The field a search looks at.
#[derive(Debug, Clone, Copy, PartialEq, Eq, Structural)]
pub enum SearchField {
    All,
    Name,
    Target,
    Description,
    Tags,
    Shells,
    TargetType,
}

/// The order a listing asks for.
#[derive(Debug, Clone, Copy, PartialEq, Eq, Structural)]
pub enum SortField {
    Name,
    UpdatedAt,
    CreatedAt,
    TargetType,
    Enabled,
}

/// What to search for: the text, whether characters may match apart, the
/// field, the most results to return (0 for no limit), a listing order, and
/// tags that every result must carry.
#[derive(Debug)]
pub struct SearchQuery {
    pub query: String,
    pub fuzzy: bool,
    pub field: SearchField,
    pub limit: usize,
    pub sort: SortField,
    pub descending: bool,
    pub tag_filter: Vec<String>,
}

impl Default for SearchQuery {
    /// An empty query over all fields, at most 50 results, by name.
    fn default() -> (q: Self)
        ensures
            q.query@ == Seq::<char>::empty(),
            !q.fuzzy,
            q.field == SearchField::All,
            q.limit == 50,
            q.sort == SortField::Name,
            !q.descending,
            q.tag_filter@.len() == 0,
    {
        SearchQuery {
            query: String::new(),
            fuzzy: false,
            field: SearchField::All,
            limit: 50,
            sort: SortField::Name,
            descending: false,
            tag_filter: Vec::new(),
        }
    }
}

/// One search hit: the alias and its score.
#[derive(Debug)]
pub struct SearchResult {
    pub alias: AliasRecord,
    pub score: i32,
}

// ---------------------------------------------------------------------------
// Scoring
// ---------------------------------------------------------------------------

/// Whether the characters of `q` occur in `v` in order, not necessarily
/// next to each other.
pub open spec fn is_subseq(q: Seq<char>, v: Seq<char>) -> bool
    decreases v.len(),
{
    if q.len() == 0 {
        true
    } else if v.len() == 0 {
        false
    } else if q[0] == v[0] {
        is_subseq(q.skip(1), v.skip(1))
    } else {
        is_subseq(q, v.skip(1))
    }
}

/// Whether the characters of `query` occur in `value` in order.
pub fn is_subsequence(query: &str, value: &str) -> (b: bool)
    ensures
        b == is_subseq(query@, value@),
{
    let q = chars_of(query);
    let v = chars_of(value);
    let mut i: usize = 0;
    let mut j: usize = 0;
    assert(q@.skip(0) =~= q@);
    assert(v@.skip(0) =~= v@);
    while i < q.len() && j < v.len()
        invariant
            i <= q@.len(),
            j <= v@.len(),
            is_subseq(q@.skip(i as int), v@.skip(j as int)) == is_subseq(query@, value@),
            q@ == query@,
            v@ == value@,
        decreases v.len() - j,
    {
        assert(q@.skip(i as int)[0] == q@[i as int]);
        assert(v@.skip(j as int)[0] == v@[j as int]);
        assert(v@.skip(j as int).skip(1) =~= v@.skip(j + 1));
        if q[i] == v[j] {
            assert(q@.skip(i as int).skip(1) =~= q@.skip(i + 1));
            i += 1;
        }
        j += 1;
    }
    i == q.len()
}

/// The score of a lowercased name against a lowercased query.
pub open spec fn name_score_spec(name: Seq<char>, q: Seq<char>, fuzzy: bool) -> i32 {
    if name == q {
        EXACT_WEIGHT
    } else if starts_with(name, q) {
        PREFIX_WEIGHT
    } else if contains_seq(name, q) {
        SUBSTRING_WEIGHT
    } else if fuzzy && is_subseq(q, name) {
        FUZZY_WEIGHT
    } else {
        0
    }
}

/// The score of a lowercased name against a lowercased query.
pub fn name_score(name: &str, query: &str, fuzzy: bool) -> (s: i32)
    ensures
        s == name_score_spec(name@, query@, fuzzy),
{
    if str_eq(name, query) {
        return EXACT_WEIGHT;
    }
    let n = chars_of(name);
    let q = chars_of(query);
    if starts_with_chars(&n, &q) {
        PREFIX_WEIGHT
    } else if contains_chars(&n, &q) {
        SUBSTRING_WEIGHT
    } else if fuzzy && is_subsequence(query, name) {
        FUZZY_WEIGHT
    } else {
        0
    }
}

/// The score of one lowercased field value against a lowercased query.
pub open spec fn value_score_spec(value: Seq<char>, q: Seq<char>) -> i32 {
    if value == q {
        TAG_WEIGHT
    } else if contains_seq(value, q) {
        FIELD_WEIGHT
    } else {
        0
    }
}

/// The best score among field values, 0 without values.
pub open spec fn best_value_score(values: Seq<Seq<char>>, q: Seq<char>) -> i32
    decreases values.len(),
{
    if values.len() == 0 {
        0
    } else {
        let rest = best_value_score(values.drop_last(), q);
        let last = value_score_spec(values.last(), q);
        if last > rest {
            last
        } else {
            rest
        }
    }
}

/// The best score among lowercased field values.
pub fn field_score(values: &Vec<String>, query: &str) -> (s: i32)
    ensures
        s == best_value_score(strings_view(values@), query@),
{
    let ghost vs = strings_view(values@);
    let q = chars_of(query);
    let mut best: i32 = 0;
    let mut i: usize = 0;
    while i < values.len()
        invariant
            i <= values@.len(),
            vs == strings_view(values@),
            q@ == query@,
            best == best_value_score(vs.take(i as int), query@),
        decreases values.len() - i,
    {
        assert(vs.take(i + 1).drop_last() =~= vs.take(i as int));
        assert(vs.take(i + 1).last() == values@[i as int]@);
        let value = values[i].as_str();
        let s = if str_eq(value, query) {
            TAG_WEIGHT
        } else if contains_chars(&chars_of(value), &q) {
            FIELD_WEIGHT
        } else {
            0
        };
        if s > best {
            best = s;
        }
        i += 1;
    }
    assert(vs.take(vs.len() as int) =~= vs);
    best
}

/// The lowercase name of a shell as its variant is written.
pub open spec fn shell_debug_lower(s: ShellKind) -> Seq<char> {
    match s {
        ShellKind::Bash => "bash"@,
        ShellKind::Zsh => "zsh"@,
        ShellKind::PowerShell5 => "powershell5"@,
        ShellKind::PowerShell7 => "powershell7"@,
        ShellKind::Fish => "fish"@,
        ShellKind::PosixSh => "posixsh"@,
    }
}

/// The lowercase name of a shell as its variant is written.
pub fn shell_debug_name(s: ShellKind) -> (n: &'static str)
    ensures
        n@ == shell_debug_lower(s),
{
    match s {
        ShellKind::Bash => "bash",
        ShellKind::Zsh => "zsh",
        ShellKind::PowerShell5 => "powershell5",
        ShellKind::PowerShell7 => "powershell7",
        ShellKind::Fish => "fish",
        ShellKind::PosixSh => "posixsh",
    }
}

/// The lowercase name of a target type as its variant is written.
pub open spec fn target_type_debug_lower(t: TargetType) -> Seq<char> {
    match t {
        TargetType::NativeExecutable => "nativeexecutable"@,
        TargetType::PythonScript => "pythonscript"@,
        TargetType::PowerShellScript => "powershellscript"@,
        TargetType::Batch => "batch"@,
        TargetType::ShellScript => "shellscript"@,
        TargetType::JavaJar => "javajar"@,
        TargetType::Cmdlet => "cmdlet"@,
        TargetType::ChangeDirectory => "changedirectory"@,
        TargetType::RawShellCommand => "rawshellcommand"@,
    }
}

/// The lowercase name of a target type as its variant is written.
pub fn target_type_debug_name(t: TargetType) -> (n: &'static str)
    ensures
        n@ == target_type_debug_lower(t),
{
    match t {
        TargetType::NativeExecutable => "nativeexecutable",
        TargetType::PythonScript => "pythonscript",
        TargetType::PowerShellScript => "powershellscript",
        TargetType::Batch => "batch",
        TargetType::ShellScript => "shellscript",
        TargetType::JavaJar => "javajar",
        TargetType::Cmdlet => "cmdlet",
        TargetType::ChangeDirectory => "changedirectory",
        TargetType::RawShellCommand => "rawshellcommand",
    }
}

/// Each text lowercased.
pub open spec fn lower_all(xs: Seq<Seq<char>>) -> Seq<Seq<char>> {
    xs.map_values(|t: Seq<char>| lowercase(t))
}

/// The lowercase name of each shell.
pub open spec fn shell_names_lower(s: Seq<ShellKind>) -> Seq<Seq<char>> {
    s.map_values(|k: ShellKind| shell_debug_lower(k))
}

/// The lowercased values of the field a search looks at besides the name.
pub open spec fn field_values(v: AliasView, field: SearchField) -> Seq<Seq<char>> {
    match field {
        SearchField::Target | SearchField::All => seq![lowercase(v.executable)],
        SearchField::Description => seq![lowercase(v.description)],
        SearchField::Tags => lower_all(v.tags),
        SearchField::Shells => shell_names_lower(v.shells),
        SearchField::TargetType => seq![target_type_debug_lower(v.target_type)],
        SearchField::Name => Seq::empty(),
    }
}

/// The score of an alias for a query: 0 for an empty query; the name score
/// for a name search, or for an all-field search whose name matches;
/// otherwise the best score of the field's values.
pub open spec fn score_field_spec(v: AliasView, query: Seq<char>, field: SearchField, fuzzy: bool) -> i32 {
    let q = lowercase(query);
    if q.len() == 0 {
        0
    } else {
        let ns = name_score_spec(lowercase(v.name), q, fuzzy);
        if field == SearchField::Name || (field == SearchField::All && ns > 0) {
            ns
        } else {
            best_value_score(field_values(v, field), q)
        }
    }
}

/// The lowercased values of a field.
fn lowered_field_values(alias: &AliasRecord, field: SearchField) -> (values: Vec<String>)
    ensures
        strings_view(values@) == field_values(alias@, field),
{
    let mut values: Vec<String> = Vec::new();
    match field {
        SearchField::Target | SearchField::All => {
            values.push(to_lowercase(alias.executable.as_str()));
        },
        SearchField::Description => {
            values.push(to_lowercase(alias.description.as_str()));
        },
        SearchField::Tags => {
            let mut i: usize = 0;
            while i < alias.tags.len()
                invariant
                    i <= alias.tags@.len(),
                    strings_view(values@) =~= lower_all(strings_view(alias.tags@.take(i as int))),
                decreases alias.tags.len() - i,
            {
                let ghost prev = values@;
                values.push(to_lowercase(alias.tags[i].as_str()));
                assert(strings_view(values@) =~= strings_view(prev).push(lowercase(alias.tags@[i as int]@)));
                assert(strings_view(alias.tags@.take(i + 1)) =~= strings_view(alias.tags@.take(i as int)).push(
                    alias.tags@[i as int]@,
                ));
                assert(lower_all(strings_view(alias.tags@.take(i + 1))) =~= lower_all(
                    strings_view(alias.tags@.take(i as int)),
                ).push(lowercase(alias.tags@[i as int]@)));
                i += 1;
            }
            assert(alias.tags@.take(alias.tags@.len() as int) =~= alias.tags@);
        },
        SearchField::Shells => {
            let mut i: usize = 0;
            while i < alias.shells.len()
                invariant
                    i <= alias.shells@.len(),
                    strings_view(values@) =~= shell_names_lower(alias.shells@.take(i as int)),
                decreases alias.shells.len() - i,
            {
                let ghost prev = values@;
                values.push(String::from_str(shell_debug_name(alias.shells[i])));
                assert(strings_view(values@) =~= strings_view(prev).push(shell_debug_lower(alias.shells@[i as int])));
                assert(shell_names_lower(alias.shells@.take(i + 1)) =~= shell_names_lower(
                    alias.shells@.take(i as int),
                ).push(shell_debug_lower(alias.shells@[i as int])));
                i += 1;
            }
            assert(alias.shells@.take(alias.shells@.len() as int) =~= alias.shells@);
        },
        SearchField::TargetType => {
            values.push(String::from_str(target_type_debug_name(alias.target_type)));
        },
        SearchField::Name => {},
    }
    assert(strings_view(values@) =~= field_values(alias@, field));
    values
}

/// The score of an alias for a query in a field.
pub fn score_field(alias: &AliasRecord, query: &str, field: SearchField, fuzzy: bool) -> (s: i32)
    ensures
        s == score_field_spec(alias@, query@, field, fuzzy),
{
    let q = to_lowercase(query);
    if q.as_str().is_empty() {
        return 0;
    }
    let name = to_lowercase(alias.name.as_str());
    let ns = name_score(name.as_str(), q.as_str(), fuzzy);
    if field == SearchField::Name || (field == SearchField::All && ns > 0) {
        return ns;
    }
    let values = lowered_field_values(alias, field);
    field_score(&values, q.as_str())
}

/// The score of an alias for a query over all fields, without fuzzy
/// matching.
pub fn score(alias: &AliasRecord, query: &str) -> (s: i32)
    ensures
        s == score_field_spec(alias@, query@, SearchField::All, false),
{
    score_field(alias, query, SearchField::All, false)
}

// ---------------------------------------------------------------------------
// Filtering and ranking
// ---------------------------------------------------------------------------

/// Whether a wanted tag is among the tags, up to ASCII case.
pub open spec fn has_tag_spec(tags: Seq<Seq<char>>, wanted: Seq<char>) -> bool {
    exists|j: int| 0 <= j < tags.len() && eq_ignore_ascii_case(tags[j], wanted)
}

/// Whether every wanted tag is among the tags, up to ASCII case.
pub open spec fn tags_match_spec(tags: Seq<Seq<char>>, wanted: Seq<Seq<char>>) -> bool {
    forall|i: int| 0 <= i < wanted.len() ==> has_tag_spec(tags, #[trigger] wanted[i])
}

/// Whether one of the tags equals a wanted tag up to ASCII case.
fn has_tag(tags: &Vec<String>, wanted: &str) -> (b: bool)
    ensures
        b == has_tag_spec(strings_view(tags@), wanted@),
{
    let mut j: usize = 0;
    while j < tags.len()
        invariant
            j <= tags@.len(),
            forall|k: int| 0 <= k < j ==> !eq_ignore_ascii_case(#[trigger] tags@[k]@, wanted@),
        decreases tags.len() - j,
    {
        if eq_ignore_ascii_case_str(tags[j].as_str(), wanted) {
            assert(strings_view(tags@)[j as int] == tags@[j as int]@);
            return true;
        }
        j += 1;
    }
    assert forall|k: int| 0 <= k < strings_view(tags@).len() implies !eq_ignore_ascii_case(
        strings_view(tags@)[k],
        wanted@,
    ) by {
        assert(strings_view(tags@)[k] == tags@[k]@);
    }
    false
}

/// Whether an alias carries every wanted tag, up to ASCII case.
pub fn tags_match(tags: &Vec<String>, wanted: &Vec<String>) -> (b: bool)
    ensures
        b == tags_match_spec(strings_view(tags@), strings_view(wanted@)),
{
    let ghost tv = strings_view(tags@);
    let ghost wv = strings_view(wanted@);
    let mut i: usize = 0;
    while i < wanted.len()
        invariant
            i <= wanted@.len(),
            tv == strings_view(tags@),
            wv == strings_view(wanted@),
            forall|k: int| 0 <= k < i ==> has_tag_spec(tv, #[trigger] wv[k]),
        decreases wanted.len() - i,
    {
        assert(wv[i as int] == wanted@[i as int]@);
        if !has_tag(tags, wanted[i].as_str()) {
            return false;
        }
        i += 1;
    }
    true
}

/// The score of an alias under a query.
pub open spec fn search_score(v: AliasView, q: SearchQuery) -> i32 {
    score_field_spec(v, q.query@, q.field, q.fuzzy)
}

/// Whether a search keeps an alias: it carries every wanted tag, and the
/// query is empty or the alias scores above zero.
pub open spec fn is_kept(v: AliasView, q: SearchQuery) -> bool {
    tags_match_spec(v.tags, strings_view(q.tag_filter@)) && (q.query@.len() == 0 || search_score(v, q) > 0)
}

/// Ranking keys: a higher score first, then the name in string order, then
/// the more recently updated.
pub open spec fn key_before(sa: int, na: Seq<char>, ua: int, sb: int, nb: Seq<char>, ub: int) -> bool {
    sa > sb || (sa == sb && (seq_lt(na, nb) || (na == nb && ua > ub)))
}

/// Whether one alias ranks strictly before another under a query.
pub open spec fn ranks_before(a: AliasView, b: AliasView, q: SearchQuery) -> bool {
    key_before(
        search_score(a, q) as int,
        a.name,
        a.updated_at as int,
        search_score(b, q) as int,
        b.name,
        b.updated_at as int,
    )
}

/// Whether two aliases have the same ranking key under a query.
pub open spec fn same_rank(a: AliasView, b: AliasView, q: SearchQuery) -> bool {
    search_score(a, q) == search_score(b, q) && a.name == b.name && a.updated_at == b.updated_at
}

/// The ranked order of a search: every kept alias exactly once, by index;
/// no alias ranks before one listed earlier; aliases of the same rank keep
/// their input order.
pub open spec fn is_search_order(aliases: Seq<AliasRecord>, q: SearchQuery, order: Seq<usize>) -> bool {
    &&& forall|k: int| 0 <= k < order.len() ==> #[trigger] order[k] < aliases.len() && is_kept(aliases[order[k] as int]@, q)
    &&& forall|j: int| 0 <= j < aliases.len() && is_kept(#[trigger] aliases[j]@, q) ==> order.contains(j as usize)
    &&& order.no_duplicates()
    &&& forall|k: int, l: int|
        #![trigger order[k], order[l]]
        0 <= k < l < order.len() ==> !ranks_before(aliases[order[l] as int]@, aliases[order[k] as int]@, q)
    &&& forall|k: int, l: int|
        #![trigger order[k], order[l]]
        0 <= k < l < order.len() && same_rank(aliases[order[k] as int]@, aliases[order[l] as int]@, q) ==> order[k]
            < order[l]
}

/// The number of results a limit lets through: all of them for a limit of 0.
pub open spec fn limited_len(n: nat, limit: usize) -> nat {
    if limit > 0 && limit < n {
        limit as nat
    } else {
        n
    }
}

/// The ranking key order is irreflexive.
proof fn lemma_key_irreflexive(s: int, n: Seq<char>, u: int)
    ensures
        !key_before(s, n, u, s, n, u),
{
    lemma_seq_lt_irreflexive(n);
}

/// The ranking key order is transitive.
proof fn lemma_key_transitive(sa: int, na: Seq<char>, ua: int, sb: int, nb: Seq<char>, ub: int, sc: int, nc: Seq<char>, uc: int)
    requires
        key_before(sa, na, ua, sb, nb, ub),
        key_before(sb, nb, ub, sc, nc, uc),
    ensures
        key_before(sa, na, ua, sc, nc, uc),
{
    if sa == sb && sb == sc {
        if seq_lt(na, nb) && seq_lt(nb, nc) {
            lemma_seq_lt_transitive(na, nb, nc);
        }
    }
}

/// Inserting a later index where the scan for its place stopped keeps a
/// ranked order ranked and stable.
proof fn lemma_insert_keeps_order(aliases: Seq<AliasRecord>, q: SearchQuery, old: Seq<usize>, p: int, i: usize)
    requires
        0 <= p <= old.len(),
        i < aliases.len(),
        forall|k: int| 0 <= k < old.len() ==> #[trigger] old[k] < i,
        forall|k: int, l: int|
            #![trigger old[k], old[l]]
            0 <= k < l < old.len() ==> !ranks_before(aliases[old[l] as int]@, aliases[old[k] as int]@, q),
        forall|k: int, l: int|
            #![trigger old[k], old[l]]
            0 <= k < l < old.len() && same_rank(aliases[old[k] as int]@, aliases[old[l] as int]@, q) ==> old[k]
                < old[l],
        forall|k: int| 0 <= k < p ==> !ranks_before(aliases[i as int]@, #[trigger] aliases[old[k] as int]@, q),
        p < old.len() ==> ranks_before(aliases[i as int]@, aliases[old[p] as int]@, q),
    ensures
        ({
            let new = old.insert(p, i);
            &&& forall|k: int, l: int|
                #![trigger new[k], new[l]]
                0 <= k < l < new.len() ==> !ranks_before(aliases[new[l] as int]@, aliases[new[k] as int]@, q)
            &&& forall|k: int, l: int|
                #![trigger new[k], new[l]]
                0 <= k < l < new.len() && same_rank(aliases[new[k] as int]@, aliases[new[l] as int]@, q) ==> new[k]
                    < new[l]
        }),
{
    let new = old.insert(p, i);
    let a = aliases[i as int]@;
    assert forall|k: int, l: int| #![trigger new[k], new[l]] 0 <= k < l < new.len() implies !ranks_before(
        aliases[new[l] as int]@,
        aliases[new[k] as int]@,
        q,
    ) && (same_rank(aliases[new[k] as int]@, aliases[new[l] as int]@, q) ==> new[k] < new[l]) by {
        if l < p {
            assert(new[k] == old[k] && new[l] == old[l]);
        } else if l == p {
            assert(new[l] == i && new[k] == old[k]);
            assert(!ranks_before(a, aliases[old[k] as int]@, q));
            assert(old[k] < i);
        } else if k == p {
            assert(new[k] == i && new[l] == old[l - 1]);
            let b = aliases[old[p] as int]@;
            let c = aliases[old[l - 1] as int]@;
            assert(ranks_before(a, b, q));
            if l - 1 > p {
                assert(!ranks_before(c, b, q));
            }
            if ranks_before(c, a, q) {
                lemma_key_transitive(
                    search_score(c, q) as int, c.name, c.updated_at as int,
                    search_score(a, q) as int, a.name, a.updated_at as int,
                    search_score(b, q) as int, b.name, b.updated_at as int,
                );
                if l - 1 == p {
                    lemma_key_irreflexive(search_score(b, q) as int, b.name, b.updated_at as int);
                }
            }
            if same_rank(a, c, q) {
                if l - 1 == p {
                    lemma_key_irreflexive(search_score(b, q) as int, b.name, b.updated_at as int);
                }
            }
        } else if k < p {
            assert(new[k] == old[k] && new[l] == old[l - 1]);
        } else {
            assert(new[k] == old[k - 1] && new[l] == old[l - 1]);
        }
    }
}

/// Whether one ranking key comes strictly before another.
fn before(sa: i32, a: &AliasRecord, sb: i32, b: &AliasRecord) -> (r: bool)
    ensures
        r == key_before(sa as int, a.name@, a.updated_at as int, sb as int, b.name@, b.updated_at as int),
{
    if sa != sb {
        return sa > sb;
    }
    if str_eq(a.name.as_str(), b.name.as_str()) {
        proof {
            lemma_seq_lt_irreflexive(a.name@);
        }
        return a.updated_at > b.updated_at;
    }
    str_lt(a.name.as_str(), b.name.as_str())
}

/// What holds of a ranked order after the first `i` aliases: the kept ones
/// among them, each once, ranked and stable, with their scores.
#[verifier::opaque]
pub open spec fn order_inv(aliases: Seq<AliasRecord>, q: SearchQuery, order: Seq<usize>, scores: Seq<i32>, i: int) -> bool {
    &&& 0 <= i <= aliases.len()
    &&& scores.len() == order.len()
    &&& forall|k: int| 0 <= k < order.len() ==> #[trigger] order[k] < i && is_kept(aliases[order[k] as int]@, q)
    &&& forall|k: int| 0 <= k < order.len() ==> #[trigger] scores[k] == search_score(aliases[order[k] as int]@, q)
    &&& forall|j: int| 0 <= j < i && is_kept(#[trigger] aliases[j]@, q) ==> order.contains(j as usize)
    &&& order.no_duplicates()
    &&& forall|k: int, l: int|
        #![trigger order[k], order[l]]
        0 <= k < l < order.len() ==> !ranks_before(aliases[order[l] as int]@, aliases[order[k] as int]@, q)
    &&& forall|k: int, l: int|
        #![trigger order[k], order[l]]
        0 <= k < l < order.len() && same_rank(aliases[order[k] as int]@, aliases[order[l] as int]@, q) ==> order[k]
            < order[l]
}

/// An alias that is not kept leaves the ranked order as it is.
proof fn lemma_skip_step(aliases: Seq<AliasRecord>, q: SearchQuery, order: Seq<usize>, scores: Seq<i32>, i: int)
    requires
        order_inv(aliases, q, order, scores, i),
        i < aliases.len(),
        !is_kept(aliases[i]@, q),
    ensures
        order_inv(aliases, q, order, scores, i + 1),
{
    reveal(order_inv);
}

/// Inserting a later index keeps every index of a ranked order bounded,
/// kept and paired with its score.
proof fn lemma_insert_members(
    aliases: Seq<AliasRecord>,
    q: SearchQuery,
    order: Seq<usize>,
    scores: Seq<i32>,
    p: int,
    i: usize,
    s: i32,
)
    requires
        scores.len() == order.len(),
        0 <= p <= order.len(),
        i < aliases.len(),
        is_kept(aliases[i as int]@, q),
        s == search_score(aliases[i as int]@, q),
        forall|k: int| 0 <= k < order.len() ==> #[trigger] order[k] < i && is_kept(aliases[order[k] as int]@, q),
        forall|k: int| 0 <= k < order.len() ==> #[trigger] scores[k] == search_score(aliases[order[k] as int]@, q),
    ensures
        ({
            let new = order.insert(p, i);
            let new_scores = scores.insert(p, s);
            &&& forall|k: int| 0 <= k < new.len() ==> #[trigger] new[k] < i + 1 && is_kept(aliases[new[k] as int]@, q)
            &&& forall|k: int| 0 <= k < new.len() ==> #[trigger] new_scores[k] == search_score(aliases[new[k] as int]@, q)
        }),
{
    let new = order.insert(p, i);
    let new_scores = scores.insert(p, s);
    assert forall|k: int| 0 <= k < new.len() implies #[trigger] new[k] < i + 1 && is_kept(
        aliases[new[k] as int]@,
        q,
    ) && new_scores[k] == search_score(aliases[new[k] as int]@, q) by {
        if k < p {
            assert(new[k] == order[k] && new_scores[k] == scores[k]);
        } else if k > p {
            assert(new[k] == order[k - 1] && new_scores[k] == scores[k - 1]);
        }
    }
    assert forall|k: int| 0 <= k < new.len() implies #[trigger] new_scores[k] == search_score(
        aliases[new[k] as int]@,
        q,
    ) by {
        assert(new[k] < i + 1);
    }
}

/// Inserting an index keeps every index that was listed.
proof fn lemma_insert_contains(order: Seq<usize>, p: int, i: usize, j: usize)
    requires
        0 <= p <= order.len(),
        j == i || order.contains(j),
    ensures
        order.insert(p, i).contains(j),
{
    let new = order.insert(p, i);
    if j == i {
        assert(new[p] == i);
    } else {
        let k = choose|k: int| 0 <= k < order.len() && order[k] == j;
        if k < p {
            assert(new[k] == j);
        } else {
            assert(new[k + 1] == j);
        }
    }
}

/// Inserting an index above all listed ones keeps the indices distinct.
proof fn lemma_insert_no_duplicates(order: Seq<usize>, p: int, i: usize)
    requires
        0 <= p <= order.len(),
        order.no_duplicates(),
        forall|k: int| 0 <= k < order.len() ==> #[trigger] order[k] < i,
    ensures
        order.insert(p, i).no_duplicates(),
{
    let new = order.insert(p, i);
    assert forall|k: int, l: int| 0 <= k < new.len() && 0 <= l < new.len() && k != l implies new[k] != new[l] by {
        if k != p && l != p {
            let k0 = if k < p { k } else { k - 1 };
            let l0 = if l < p { l } else { l - 1 };
            assert(new[k] == order[k0] && new[l] == order[l0]);
        } else if k == p {
            let l0 = if l < p { l } else { l - 1 };
            assert(new[l] == order[l0]);
        } else {
            let k0 = if k < p { k } else { k - 1 };
            assert(new[k] == order[k0]);
        }
    }
}

/// A kept alias inserted where the scan for its place stopped extends the
/// ranked order.
proof fn lemma_insert_step(
    aliases: Seq<AliasRecord>,
    q: SearchQuery,
    order: Seq<usize>,
    scores: Seq<i32>,
    p: int,
    i: usize,
    s: i32,
)
    requires
        order_inv(aliases, q, order, scores, i as int),
        i < aliases.len(),
        is_kept(aliases[i as int]@, q),
        s == search_score(aliases[i as int]@, q),
        0 <= p <= order.len(),
        forall|k: int| 0 <= k < p ==> !ranks_before(aliases[i as int]@, #[trigger] aliases[order[k] as int]@, q),
        p < order.len() ==> ranks_before(aliases[i as int]@, aliases[order[p] as int]@, q),
    ensures
        order_inv(aliases, q, order.insert(p, i), scores.insert(p, s), i + 1),
{
    reveal(order_inv);
    lemma_insert_keeps_order(aliases, q, order, p, i);
    lemma_insert_members(aliases, q, order, scores, p, i, s);
    lemma_insert_no_duplicates(order, p, i);
    let new = order.insert(p, i);
    assert forall|j: int| 0 <= j < i + 1 && is_kept(#[trigger] aliases[j]@, q) implies new.contains(j as usize) by {
        lemma_insert_contains(order, p, i, j as usize);
    }
}

/// The position at which a kept alias enters the ranked order: after every
/// alias that it does not rank before.
fn insertion_point(aliases: &[AliasRecord], query: &SearchQuery, order: &Vec<usize>, scores: &Vec<i32>, i: usize, s: i32) -> (p: usize)
    requires
        order_inv(aliases@, *query, order@, scores@, i as int),
        i < aliases@.len(),
        s == search_score(aliases@[i as int]@, *query),
    ensures
        p <= order@.len(),
        scores@.len() == order@.len(),
        forall|k: int| 0 <= k < p ==> !ranks_before(aliases@[i as int]@, #[trigger] aliases@[order@[k] as int]@, *query),
        p < order@.len() ==> ranks_before(aliases@[i as int]@, aliases@[order@[p as int] as int]@, *query),
{
    proof {
        reveal(order_inv);
    }
    let alias = &aliases[i];
    let mut p: usize = 0;
    while p < order.len()
        invariant
            p <= order@.len(),
            scores@.len() == order@.len(),
            i < aliases@.len(),
            alias@ == aliases@[i as int]@,
            s == search_score(aliases@[i as int]@, *query),
            forall|k: int| 0 <= k < order@.len() ==> #[trigger] order@[k] < i,
            forall|k: int| 0 <= k < order@.len() ==> #[trigger] scores@[k] == search_score(aliases@[order@[k] as int]@, *query),
            forall|k: int| 0 <= k < p ==> !ranks_before(aliases@[i as int]@, #[trigger] aliases@[order@[k] as int]@, *query),
        ensures
            p <= order@.len(),
            forall|k: int| 0 <= k < p ==> !ranks_before(aliases@[i as int]@, #[trigger] aliases@[order@[k] as int]@, *query),
            p < order@.len() ==> ranks_before(aliases@[i as int]@, aliases@[order@[p as int] as int]@, *query),
        decreases order.len() - p,
    {
        let j = order[p];
        assert(j < i);
        let other = &aliases[j];
        assert(scores@[p as int] == search_score(other@, *query));
        if before(s, alias, scores[p], other) {
            break;
        }
        p += 1;
    }
    p
}

/// The kept aliases in ranked order, by index, with their scores.
fn ranked_order(aliases: &[AliasRecord], query: &SearchQuery) -> (r: (Vec<usize>, Vec<i32>))
    ensures
        is_search_order(aliases@, *query, r.0@),
        r.1@.len() == r.0@.len(),
        forall|k: int| 0 <= k < r.0@.len() ==> #[trigger] r.1@[k] == search_score(aliases@[r.0@[k] as int]@, *query),
{
    let mut order: Vec<usize> = Vec::new();
    let mut scores: Vec<i32> = Vec::new();
    let mut i: usize = 0;
    proof {
        reveal(order_inv);
    }
    while i < aliases.len()
        invariant
            i <= aliases@.len(),
            order_inv(aliases@, *query, order@, scores@, i as int),
        decreases aliases.len() - i,
    {
        let alias = &aliases[i];
        let matches = tags_match(&alias.tags, &query.tag_filter);
        let s = score_field(alias, query.query.as_str(), query.field, query.fuzzy);
        if matches && (query.query.as_str().is_empty() || s > 0) {
            let p = insertion_point(aliases, query, &order, &scores, i, s);
            proof {
                lemma_insert_step(aliases@, *query, order@, scores@, p as int, i, s);
            }
            order.insert(p, i);
            scores.insert(p, s);
        } else {
            proof {
                lemma_skip_step(aliases@, *query, order@, scores@, i as int);
            }
        }
        i += 1;
    }
    proof {
        reveal(order_inv);
    }
    (order, scores)
}

/// The aliases that carry every wanted tag and match the query (all of them
/// for an empty query), ranked by score, name and recency, stable among equal
/// ranks, at most `limit` of them when the limit is above zero.
pub fn search(aliases: &[AliasRecord], query: &SearchQuery) -> (results: Vec<SearchResult>)
    ensures
        exists|order: Seq<usize>|
            {
                &&& is_search_order(aliases@, *query, order)
                &&& results@.len() == limited_len(order.len(), query.limit)
                &&& forall|k: int|
                    0 <= k < results@.len() ==> (#[trigger] results@[k]).alias@ == aliases@[order[k] as int]@
                        && results@[k].score == search_score(aliases@[order[k] as int]@, *query)
            },
{
    let (order, scores) = ranked_order(aliases, query);
    let n = if query.limit > 0 && query.limit < order.len() {
        query.limit
    } else {
        order.len()
    };
    let mut results: Vec<SearchResult> = Vec::new();
    let mut k: usize = 0;
    while k < n
        invariant
            k <= n,
            n <= order@.len(),
            scores@.len() == order@.len(),
            is_search_order(aliases@, *query, order@),
            forall|m: int| 0 <= m < order@.len() ==> #[trigger] scores@[m] == search_score(aliases@[order@[m] as int]@, *query),
            results@.len() == k,
            forall|m: int|
                0 <= m < k ==> (#[trigger] results@[m]).alias@ == aliases@[order@[m] as int]@ && results@[m].score
                    == search_score(aliases@[order@[m] as int]@, *query),
        decreases n - k,
    {
        assert(order@[k as int] < aliases@.len());
        results.push(SearchResult { alias: aliases[order[k]].copy(), score: scores[k] });
        k += 1;
    }
    results
}

// ---------------------------------------------------------------------------
// Laws of scoring
// ---------------------------------------------------------------------------

/// A text contains itself and every text it begins with.
proof fn lemma_prefix_contained(name: Seq<char>, q: Seq<char>)
    requires
        starts_with(name, q),
    ensures
        contains_seq(name, q),
{
    assert(name.subrange(0, q.len() as int) =~= name.take(q.len() as int));
    assert(crate::text::occurs_at(name, q, 0));
}

/// Without fuzzy matching a name scores only when it contains the query as
/// one piece, and never with the fuzzy weight; a name that contains the
/// query scores at least the substring weight, fuzzy or not; with fuzzy
/// matching a name that holds the query's characters in order scores.
pub proof fn law_name_score_matches(name: Seq<char>, q: Seq<char>, fuzzy: bool)
    ensures
        name_score_spec(name, q, false) > 0 ==> contains_seq(name, q),
        name_score_spec(name, q, false) != FUZZY_WEIGHT,
        contains_seq(name, q) ==> name_score_spec(name, q, fuzzy) >= SUBSTRING_WEIGHT,
        fuzzy && is_subseq(q, name) ==> name_score_spec(name, q, fuzzy) >= FUZZY_WEIGHT,
        name_score_spec(name, q, fuzzy) == EXACT_WEIGHT <==> name == q,
{
    if name == q {
        assert(starts_with(name, q)) by {
            assert(name.take(q.len() as int) =~= q);
        }
    }
    if starts_with(name, q) {
        lemma_prefix_contained(name, q);
    }
}

/// A field scores only through a value that contains the query.
proof fn lemma_best_value_contains(values: Seq<Seq<char>>, q: Seq<char>)
    ensures
        best_value_score(values, q) > 0 ==> exists|j: int| 0 <= j < values.len() && contains_seq(#[trigger] values[j], q),
        best_value_score(values, q) == 0 || best_value_score(values, q) == FIELD_WEIGHT || best_value_score(values, q)
            == TAG_WEIGHT,
    decreases values.len(),
{
    if values.len() > 0 {
        let rest = values.drop_last();
        lemma_best_value_contains(rest, q);
        if best_value_score(values, q) > 0 {
            let last = values.last();
            if value_score_spec(last, q) > best_value_score(rest, q) {
                if last == q {
                    assert(last.take(q.len() as int) =~= q);
                    lemma_prefix_contained(last, q);
                }
                assert(values[values.len() - 1] == last);
            } else {
                let j = choose|j: int| 0 <= j < rest.len() && contains_seq(#[trigger] rest[j], q);
                assert(values[j] == rest[j]);
            }
        }
    }
}

/// Without fuzzy matching an alias scores only when its lowercased name or
/// one of the searched field's lowercased values contains the lowercased
/// query as one piece, and never with the fuzzy weight.
pub proof fn law_plain_score_needs_substring(v: AliasView, query: Seq<char>, field: SearchField)
    ensures
        score_field_spec(v, query, field, false) > 0 ==> contains_seq(lowercase(v.name), lowercase(query)) || exists|
            j: int,
        |
            0 <= j < field_values(v, field).len() && contains_seq(#[trigger] field_values(v, field)[j], lowercase(query)),
        score_field_spec(v, query, field, false) != FUZZY_WEIGHT,
{
    let q = lowercase(query);
    law_name_score_matches(lowercase(v.name), q, false);
    lemma_best_value_contains(field_values(v, field), q);
}

/// Every result of a search without fuzzy matching for a non-empty query
/// contains the lowercased query as one piece, in its lowercased name or in
/// one of the searched field's lowercased values.
pub proof fn law_plain_search_finds_substrings(aliases: Seq<AliasRecord>, q: SearchQuery, order: Seq<usize>, k: int)
    requires
        is_search_order(aliases, q, order),
        !q.fuzzy,
        q.query@.len() > 0,
        0 <= k < order.len(),
    ensures
        ({
            let v = aliases[order[k] as int]@;
            let lq = lowercase(q.query@);
            &&& contains_seq(lowercase(v.name), lq) || exists|j: int|
                0 <= j < field_values(v, q.field).len() && contains_seq(#[trigger] field_values(v, q.field)[j], lq)
            &&& search_score(v, q) != FUZZY_WEIGHT
        }),
{
    let v = aliases[order[k] as int]@;
    assert(is_kept(v, q));
    law_plain_score_needs_substring(v, q.query@, q.field);
}

} // verus!
