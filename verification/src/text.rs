//! Character-sequence utilities used by the renderers, validators and search.
//!
//! Text is handled as sequences of Unicode scalar values (`char`), which is
//! what `str` and `String` view as.
use vstd::prelude::*;

verus! {

// ---------------------------------------------------------------------------
// Specifications
// ---------------------------------------------------------------------------

/// `p` occurs in `s` starting at index `i`.
pub open spec fn occurs_at(s: Seq<char>, p: Seq<char>, i: int) -> bool {
    0 <= i && i + p.len() <= s.len() && s.subrange(i, i + p.len()) =~= p
}

/// `p` occurs somewhere in `s`.
pub open spec fn contains_seq(s: Seq<char>, p: Seq<char>) -> bool {
    exists|i: int| occurs_at(s, p, i)
}

/// `s` begins with `p`.
pub open spec fn starts_with(s: Seq<char>, p: Seq<char>) -> bool {
    p.len() <= s.len() && s.take(p.len() as int) =~= p
}

/// `s` ends with `p`.
pub open spec fn ends_with(s: Seq<char>, p: Seq<char>) -> bool {
    p.len() <= s.len() && s.skip(s.len() - p.len()) =~= p
}

/// The number of non-overlapping occurrences of `p` in `s`, found from left
/// to right (what `str::matches(p).count()` counts for a non-empty `p`).
pub open spec fn count_matches(s: Seq<char>, p: Seq<char>) -> nat
    decreases s.len(),
{
    if p.len() == 0 || s.len() < p.len() {
        0
    } else if s.take(p.len() as int) =~= p {
        1 + count_matches(s.skip(p.len() as int), p)
    } else {
        count_matches(s.skip(1), p)
    }
}

/// `s` with every non-overlapping occurrence of `p`, found from left to
/// right, replaced by `r` (what `str::replace(p, r)` gives for a non-empty `p`).
pub open spec fn replace_all(s: Seq<char>, p: Seq<char>, r: Seq<char>) -> Seq<char>
    decreases s.len(),
{
    if p.len() == 0 || s.len() == 0 {
        s
    } else if s.len() >= p.len() && s.take(p.len() as int) =~= p {
        r + replace_all(s.skip(p.len() as int), p, r)
    } else {
        seq![s[0]] + replace_all(s.skip(1), p, r)
    }
}

/// The Unicode `White_Space` property, which `char::is_whitespace` and
/// `str::trim` test.
pub open spec fn is_white_space(c: char) -> bool {
    ||| ('\u{9}' <= c && c <= '\u{d}')
    ||| c == ' '
    ||| c == '\u{85}'
    ||| c == '\u{a0}'
    ||| c == '\u{1680}'
    ||| ('\u{2000}' <= c && c <= '\u{200a}')
    ||| c == '\u{2028}'
    ||| c == '\u{2029}'
    ||| c == '\u{202f}'
    ||| c == '\u{205f}'
    ||| c == '\u{3000}'
}

/// Every character of `s` is white space: `s.trim()` is empty.
pub open spec fn all_white_space(s: Seq<char>) -> bool {
    forall|i: int| 0 <= i < s.len() ==> is_white_space(#[trigger] s[i])
}

/// ASCII lowercase of one character; other characters are unchanged.
pub open spec fn ascii_lower(c: char) -> char {
    if 'A' <= c && c <= 'Z' {
        ((c as u8) + 32) as char
    } else {
        c
    }
}

/// Equality up to ASCII case (`str::eq_ignore_ascii_case`).
pub open spec fn eq_ignore_ascii_case(a: Seq<char>, b: Seq<char>) -> bool {
    a.len() == b.len() && forall|i: int| 0 <= i < a.len() ==> ascii_lower(#[trigger] a[i]) == ascii_lower(b[i])
}

/// The Unicode lowercase mapping that `str::to_lowercase` applies.
pub uninterp spec fn lowercase(s: Seq<char>) -> Seq<char>;

/// The lowercase hexadecimal digit for a value below 16.
pub open spec fn hex_digit(v: u8) -> char {
    if v < 10 {
        (('0' as u8) + v) as char
    } else {
        (('a' as u8) + v - 10) as char
    }
}

/// Lowercase hexadecimal text of a byte string, two digits per byte.
pub open spec fn hex_lower(bytes: Seq<u8>) -> Seq<char>
    decreases bytes.len(),
{
    if bytes.len() == 0 {
        Seq::empty()
    } else {
        hex_lower(bytes.drop_last()) + seq![hex_digit(bytes.last() / 16), hex_digit(bytes.last() % 16)]
    }
}

// ---------------------------------------------------------------------------
// Lemmas
// ---------------------------------------------------------------------------

/// Skipping twice is skipping once by the sum.
pub proof fn lemma_skip_skip(s: Seq<char>, a: int, b: int)
    requires
        0 <= a,
        0 <= b,
        a + b <= s.len(),
    ensures
        s.skip(a).skip(b) =~= s.skip(a + b),
{
}

/// No occurrence found means no occurrence is counted.
pub proof fn lemma_count_zero(s: Seq<char>, p: Seq<char>)
    requires
        p.len() > 0,
        !contains_seq(s, p),
    ensures
        count_matches(s, p) == 0,
    decreases s.len(),
{
    if s.len() >= p.len() {
        if s.take(p.len() as int) =~= p {
            assert(occurs_at(s, p, 0));
        }
        assert forall|i: int| !occurs_at(s.skip(1), p, i) by {
            if occurs_at(s.skip(1), p, i) {
                assert(s.subrange(i + 1, i + 1 + p.len()) =~= s.skip(1).subrange(i, i + p.len()));
                assert(occurs_at(s, p, i + 1));
            }
        }
        lemma_count_zero(s.skip(1), p);
    }
}

/// A counted occurrence is an occurrence.
pub proof fn lemma_count_positive(s: Seq<char>, p: Seq<char>)
    requires
        p.len() > 0,
        count_matches(s, p) > 0,
    ensures
        contains_seq(s, p),
    decreases s.len(),
{
    if s.take(p.len() as int) =~= p {
        assert(occurs_at(s, p, 0));
    } else {
        lemma_count_positive(s.skip(1), p);
        let i = choose|i: int| occurs_at(s.skip(1), p, i);
        assert(s.subrange(i + 1, i + 1 + p.len()) =~= s.skip(1).subrange(i, i + p.len()));
        assert(occurs_at(s, p, i + 1));
    }
}

/// The first index at which `p` occurs in `s`, searching from `i` on.
pub open spec fn first_occurrence_from(s: Seq<char>, p: Seq<char>, i: int) -> Option<int>
    decreases s.len() + 1 - i,
{
    if i < 0 || i > s.len() {
        None
    } else if occurs_at(s, p, i) {
        Some(i)
    } else {
        first_occurrence_from(s, p, i + 1)
    }
}

/// The first index at which `p` occurs in `s` (what `str::find` returns).
pub open spec fn first_occurrence(s: Seq<char>, p: Seq<char>) -> Option<int> {
    first_occurrence_from(s, p, 0)
}

/// The last index at or below `i` at which `p` occurs in `s`.
pub open spec fn last_occurrence_below(s: Seq<char>, p: Seq<char>, i: int) -> Option<int>
    decreases i + 1,
{
    if i < 0 {
        None
    } else if occurs_at(s, p, i) {
        Some(i)
    } else {
        last_occurrence_below(s, p, i - 1)
    }
}

/// The last index at which `p` occurs in `s` (what `str::rfind` returns).
pub open spec fn last_occurrence(s: Seq<char>, p: Seq<char>) -> Option<int> {
    last_occurrence_below(s, p, s.len() as int)
}

/// The first occurrence is the least index with an occurrence.
pub proof fn lemma_first_occurrence_is(s: Seq<char>, p: Seq<char>, k: int, i: int)
    requires
        0 <= i <= k,
        occurs_at(s, p, k),
        forall|j: int| 0 <= j < k ==> !occurs_at(s, p, j),
    ensures
        first_occurrence_from(s, p, i) == Some(k),
    decreases k - i,
{
    if i < k {
        lemma_first_occurrence_is(s, p, k, i + 1);
    }
}

/// Without an occurrence there is no first occurrence.
pub proof fn lemma_first_occurrence_none(s: Seq<char>, p: Seq<char>, i: int)
    requires
        0 <= i,
        !contains_seq(s, p),
    ensures
        first_occurrence_from(s, p, i) is None,
    decreases s.len() + 1 - i,
{
    if i <= s.len() {
        assert(!occurs_at(s, p, i));
        lemma_first_occurrence_none(s, p, i + 1);
    }
}

/// The last occurrence is the greatest index with an occurrence.
pub proof fn lemma_last_occurrence_is(s: Seq<char>, p: Seq<char>, k: int, i: int)
    requires
        0 <= k <= i,
        occurs_at(s, p, k),
        forall|j: int| k < j ==> !occurs_at(s, p, j),
    ensures
        last_occurrence_below(s, p, i) == Some(k),
    decreases i - k,
{
    if i > k {
        lemma_last_occurrence_is(s, p, k, i - 1);
    }
}

/// Without an occurrence there is no last occurrence.
pub proof fn lemma_last_occurrence_none(s: Seq<char>, p: Seq<char>, i: int)
    requires
        !contains_seq(s, p),
    ensures
        last_occurrence_below(s, p, i) is None,
    decreases i + 1,
{
    if i >= 0 {
        assert(!occurs_at(s, p, i));
        lemma_last_occurrence_none(s, p, i - 1);
    }
}

/// A pattern whose first character does not occur again in it: two of its
/// occurrences never overlap.
pub open spec fn first_char_unique(p: Seq<char>) -> bool {
    p.len() > 0 && forall|k: int| 0 < k < p.len() ==> #[trigger] p[k] != p[0]
}

/// Occurrences of such a pattern are at least its length apart.
pub proof fn lemma_occurrences_apart(s: Seq<char>, p: Seq<char>, i: int, j: int)
    requires
        first_char_unique(p),
        occurs_at(s, p, i),
        occurs_at(s, p, j),
        i < j,
    ensures
        j >= i + p.len(),
{
    if j < i + p.len() {
        assert(s.subrange(i, i + p.len())[j - i] == s[j]);
        assert(s.subrange(j, j + p.len())[0] == s[j]);
    }
}

/// An occurrence is counted.
pub proof fn lemma_count_at_least_one(s: Seq<char>, p: Seq<char>, i: int)
    requires
        p.len() > 0,
        occurs_at(s, p, i),
    ensures
        count_matches(s, p) >= 1,
    decreases s.len(),
{
    if !(s.take(p.len() as int) =~= p) {
        if i == 0 {
            assert(s.take(p.len() as int) =~= s.subrange(0, p.len() as int));
        }
        assert(s.skip(1).subrange(i - 1, i - 1 + p.len()) =~= s.subrange(i, i + p.len()));
        lemma_count_at_least_one(s.skip(1), p, i - 1);
    }
}

/// Two occurrences of a pattern whose first character is unique are both
/// counted.
pub proof fn lemma_count_at_least_two(s: Seq<char>, p: Seq<char>, i: int, j: int)
    requires
        first_char_unique(p),
        occurs_at(s, p, i),
        occurs_at(s, p, j),
        i < j,
    ensures
        count_matches(s, p) >= 2,
    decreases s.len(),
{
    lemma_occurrences_apart(s, p, i, j);
    let n = p.len() as int;
    if s.take(n) =~= p {
        let t = s.skip(n);
        if i == 0 {
            assert(t.subrange(j - n, j - n + n) =~= s.subrange(j, j + n));
            lemma_count_at_least_one(t, p, j - n);
        } else {
            assert(occurs_at(s, p, 0)) by {
                assert(s.take(n) =~= s.subrange(0, n));
            }
            lemma_occurrences_apart(s, p, 0, i);
            assert(t.subrange(i - n, i - n + n) =~= s.subrange(i, i + n));
            lemma_count_at_least_one(t, p, i - n);
        }
    } else {
        if i == 0 {
            assert(s.take(n) =~= s.subrange(0, n));
        }
        let t = s.skip(1);
        assert(t.subrange(i - 1, i - 1 + n) =~= s.subrange(i, i + n));
        assert(t.subrange(j - 1, j - 1 + n) =~= s.subrange(j, j + n));
        lemma_count_at_least_two(t, p, i - 1, j - 1);
    }
}

/// No occurrence of `p` in `a + b` starts in `a` and ends in `b`.
pub open spec fn no_straddle(a: Seq<char>, b: Seq<char>, p: Seq<char>) -> bool {
    forall|i: int| a.len() - p.len() < i < a.len() ==> !occurs_at(a + b, p, i)
}

/// Counting is additive over a concatenation that no occurrence straddles.
pub proof fn lemma_count_concat(a: Seq<char>, b: Seq<char>, p: Seq<char>)
    requires
        p.len() > 0,
        no_straddle(a, b, p),
    ensures
        count_matches(a + b, p) == count_matches(a, p) + count_matches(b, p),
    decreases a.len(),
{
    let n = p.len() as int;
    let ab = a + b;
    if a.len() == 0 {
        assert(ab =~= b);
    } else if ab.len() < n {
    } else if ab.take(n) =~= p {
        if a.len() < n {
            assert(ab.take(n) =~= ab.subrange(0, n));
            assert(occurs_at(ab, p, 0));
        } else {
            assert(a.take(n) =~= ab.take(n));
            assert(ab.skip(n) =~= a.skip(n) + b);
            assert forall|i: int| a.skip(n).len() - n < i < a.skip(n).len() implies !occurs_at(a.skip(n) + b, p, i) by {
                if occurs_at(a.skip(n) + b, p, i) {
                    assert(ab.subrange(i + n, i + n + n) =~= (a.skip(n) + b).subrange(i, i + n));
                    assert(occurs_at(ab, p, i + n));
                }
            }
            lemma_count_concat(a.skip(n), b, p);
        }
    } else {
        assert(ab.skip(1) =~= a.skip(1) + b);
        if a.len() >= n {
            assert(a.take(n) =~= ab.take(n));
        }
        assert forall|i: int| a.skip(1).len() - n < i < a.skip(1).len() implies !occurs_at(a.skip(1) + b, p, i) by {
            if occurs_at(a.skip(1) + b, p, i) {
                assert(ab.subrange(i + 1, i + 1 + n) =~= (a.skip(1) + b).subrange(i, i + n));
                assert(occurs_at(ab, p, i + 1));
            }
        }
        lemma_count_concat(a.skip(1), b, p);
    }
}

// ---------------------------------------------------------------------------
// Conversions
// ---------------------------------------------------------------------------

/// The texts of character vectors.
pub open spec fn chars_view(v: Seq<Vec<char>>) -> Seq<Seq<char>> {
    v.map_values(|c: Vec<char>| c@)
}

/// The characters of a string slice.
pub(crate) fn chars_of(s: &str) -> (v: Vec<char>)
    ensures
        v@ == s@,
{
    broadcast use vstd::string::axiom_spec_iter;
    let mut v: Vec<char> = Vec::new();
    for c in it: s.chars()
        invariant
            it.seq() == s@,
            v@ == it.seq().take(it.index() as int),
    {
        v.push(c);
    }
    v
}

/// A string made of the given characters.
#[verifier::external_body]
pub(crate) fn string_of(v: &[char]) -> (s: String)
    ensures
        s@ == v@,
{
    v.iter().collect()
}

/// Whether every character is ASCII.
pub open spec fn ascii_text(s: Seq<char>) -> bool {
    forall|i: int| 0 <= i < s.len() ==> (#[trigger] s[i] as u32) < 128
}

/// ASCII lowercase of a text.
pub open spec fn ascii_lower_text(s: Seq<char>) -> Seq<char> {
    s.map_values(|c: char| ascii_lower(c))
}

/// Calls `str::to_lowercase`: the Unicode lowercase form of a string, named
/// `lowercase`. On ASCII text the Unicode lowercase mapping is the ASCII one
/// (`A`–`Z` become `a`–`z`, every other character stays), which the
/// contract states; nothing more is said of other text.
#[verifier::external_body]
pub(crate) fn to_lowercase(s: &str) -> (res: String)
    ensures
        res@ == lowercase(s@),
        ascii_text(s@) ==> res@ == ascii_lower_text(s@),
{
    s.to_lowercase()
}

// ---------------------------------------------------------------------------
// Searching
// ---------------------------------------------------------------------------

/// Whether `p` occurs in `s` at index `i`.
pub fn matches_at(s: &[char], p: &[char], i: usize) -> (b: bool)
    ensures
        b == occurs_at(s@, p@, i as int),
{
    if i > s.len() || s.len() - i < p.len() {
        return false;
    }
    let mut k: usize = 0;
    while k < p.len()
        invariant
            i + p.len() <= s.len(),
            k <= p@.len(),
            forall|j: int| 0 <= j < k ==> s@[i + j] == p@[j],
        decreases p.len() - k,
    {
        if s[i + k] != p[k] {
            assert(s@.subrange(i as int, i + p@.len())[k as int] != p@[k as int]);
            return false;
        }
        k += 1;
    }
    assert(s@.subrange(i as int, i + p@.len()) =~= p@);
    true
}

/// The first index at which `p` occurs in `s` (`str::find`).
pub fn find_seq(s: &[char], p: &[char]) -> (r: Option<usize>)
    ensures
        match r {
            Some(i) => first_occurrence(s@, p@) == Some(i as int),
            None => first_occurrence(s@, p@) is None,
        },
        match r {
            Some(i) => occurs_at(s@, p@, i as int) && forall|j: int| 0 <= j < i ==> !occurs_at(s@, p@, j),
            None => !contains_seq(s@, p@),
        },
{
    let mut i: usize = 0;
    while i < s.len()
        invariant
            i <= s.len(),
            forall|j: int| 0 <= j < i ==> !occurs_at(s@, p@, j),
        decreases s.len() - i,
    {
        if matches_at(s, p, i) {
            proof {
                lemma_first_occurrence_is(s@, p@, i as int, 0);
            }
            return Some(i);
        }
        i += 1;
    }
    if matches_at(s, p, s.len()) {
        proof {
            lemma_first_occurrence_is(s@, p@, s@.len() as int, 0);
        }
        return Some(s.len());
    }
    assert forall|j: int| !occurs_at(s@, p@, j) by {
        if occurs_at(s@, p@, j) {
            assert(j <= s@.len());
        }
    }
    proof {
        lemma_first_occurrence_none(s@, p@, 0);
    }
    None
}

/// The last index at which `p` occurs in `s` (`str::rfind`).
pub fn rfind_seq(s: &[char], p: &[char]) -> (r: Option<usize>)
    ensures
        match r {
            Some(i) => last_occurrence(s@, p@) == Some(i as int),
            None => last_occurrence(s@, p@) is None,
        },
        match r {
            Some(i) => occurs_at(s@, p@, i as int) && forall|j: int| i < j ==> !occurs_at(s@, p@, j),
            None => !contains_seq(s@, p@),
        },
{
    if matches_at(s, p, s.len()) {
        proof {
            assert forall|j: int| s@.len() < j implies !occurs_at(s@, p@, j) by {}
            lemma_last_occurrence_is(s@, p@, s@.len() as int, s@.len() as int);
        }
        return Some(s.len());
    }
    let mut i: usize = s.len();
    while i > 0
        invariant
            i <= s.len(),
            forall|j: int| i <= j ==> !occurs_at(s@, p@, j),
        decreases i,
    {
        if matches_at(s, p, i - 1) {
            proof {
                lemma_last_occurrence_is(s@, p@, i - 1, s@.len() as int);
            }
            return Some(i - 1);
        }
        i -= 1;
    }
    proof {
        lemma_last_occurrence_none(s@, p@, s@.len() as int);
    }
    None
}

/// Whether `p` occurs in `s` (`str::contains`).
pub fn contains_chars(s: &[char], p: &[char]) -> (b: bool)
    ensures
        b == contains_seq(s@, p@),
{
    find_seq(s, p).is_some()
}

/// Whether `s` begins with `p`.
pub fn starts_with_chars(s: &[char], p: &[char]) -> (b: bool)
    ensures
        b == starts_with(s@, p@),
{
    let b = matches_at(s, p, 0);
    proof {
        if b {
            assert(s@.take(p@.len() as int) =~= s@.subrange(0, p@.len() as int));
        } else if p@.len() <= s@.len() {
            assert(s@.take(p@.len() as int) =~= s@.subrange(0, p@.len() as int));
        }
    }
    b
}

/// Whether `s` ends with `p`.
pub fn ends_with_chars(s: &[char], p: &[char]) -> (b: bool)
    ensures
        b == ends_with(s@, p@),
{
    if p.len() > s.len() {
        return false;
    }
    let b = matches_at(s, p, s.len() - p.len());
    assert(s@.skip(s@.len() - p@.len()) =~= s@.subrange(s@.len() - p@.len(), s@.len() as int));
    b
}

/// The number of non-overlapping occurrences of `p` in `s`
/// (`str::matches(p).count()`).
pub fn count_chars(s: &[char], p: &[char]) -> (n: usize)
    requires
        p@.len() > 0,
    ensures
        n == count_matches(s@, p@),
{
    let mut i: usize = 0;
    let mut n: usize = 0;
    assert(s@.skip(0) =~= s@);
    while i < s.len()
        invariant
            p@.len() > 0,
            i <= s@.len(),
            n <= i,
            n + count_matches(s@.skip(i as int), p@) == count_matches(s@, p@),
        decreases s.len() - i,
    {
        let ghost rest = s@.skip(i as int);
        if s.len() - i < p.len() {
            assert(count_matches(rest, p@) == 0);
            assert(s@.skip(s@.len() as int) =~= Seq::<char>::empty());
            i = s.len();
        } else if matches_at(s, p, i) {
            assert(rest.take(p@.len() as int) =~= s@.subrange(i as int, i + p@.len()));
            proof {
                lemma_skip_skip(s@, i as int, p@.len() as int);
            }
            n += 1;
            i += p.len();
        } else {
            assert(rest.take(p@.len() as int) =~= s@.subrange(i as int, i + p@.len()));
            proof {
                lemma_skip_skip(s@, i as int, 1);
            }
            i += 1;
        }
    }
    assert(s@.skip(i as int) =~= Seq::<char>::empty());
    n
}

// ---------------------------------------------------------------------------
// Building
// ---------------------------------------------------------------------------

/// `s` with every non-overlapping occurrence of `p` replaced by `r`
/// (`str::replace`).
pub fn replace_chars(s: &[char], p: &[char], r: &[char]) -> (out: Vec<char>)
    requires
        p@.len() > 0,
    ensures
        out@ == replace_all(s@, p@, r@),
{
    let mut out: Vec<char> = Vec::new();
    let mut i: usize = 0;
    assert(s@.skip(0) =~= s@);
    assert(out@ + replace_all(s@, p@, r@) =~= replace_all(s@, p@, r@));
    while i < s.len()
        invariant
            p@.len() > 0,
            i <= s@.len(),
            out@ + replace_all(s@.skip(i as int), p@, r@) == replace_all(s@, p@, r@),
        decreases s.len() - i,
    {
        let ghost rest = s@.skip(i as int);
        let ghost before = out@;
        if matches_at(s, p, i) {
            assert(rest.take(p@.len() as int) =~= s@.subrange(i as int, i + p@.len()));
            proof {
                lemma_skip_skip(s@, i as int, p@.len() as int);
            }
            out.extend_from_slice(r);
            assert(out@ + replace_all(s@.skip(i + p@.len()), p@, r@) =~= before + replace_all(rest, p@, r@));
            i += p.len();
        } else {
            proof {
                if rest.len() >= p@.len() {
                    assert(rest.take(p@.len() as int) =~= s@.subrange(i as int, i + p@.len()));
                }
                lemma_skip_skip(s@, i as int, 1);
            }
            out.push(s[i]);
            assert(out@ + replace_all(s@.skip(i + 1), p@, r@) =~= before + replace_all(rest, p@, r@));
            i += 1;
        }
    }
    assert(s@.skip(i as int) =~= Seq::<char>::empty());
    assert(out@ + Seq::<char>::empty() =~= out@);
    out
}

/// The characters of `s` from `from` up to (not including) `to`.
pub fn sub_chars(s: &[char], from: usize, to: usize) -> (out: Vec<char>)
    requires
        from <= to <= s@.len(),
    ensures
        out@ == s@.subrange(from as int, to as int),
{
    let mut out: Vec<char> = Vec::new();
    let mut i = from;
    while i < to
        invariant
            from <= i <= to <= s@.len(),
            out@ =~= s@.subrange(from as int, i as int),
        decreases to - i,
    {
        out.push(s[i]);
        i += 1;
    }
    out
}

// ---------------------------------------------------------------------------
// Character classes
// ---------------------------------------------------------------------------

/// Whether a character has the Unicode `White_Space` property
/// (`char::is_whitespace`).
pub fn is_white_space_char(c: char) -> (b: bool)
    ensures
        b == is_white_space(c),
{
    ('\u{9}' <= c && c <= '\u{d}') || c == ' ' || c == '\u{85}' || c == '\u{a0}' || c == '\u{1680}'
        || ('\u{2000}' <= c && c <= '\u{200a}') || c == '\u{2028}' || c == '\u{2029}' || c
        == '\u{202f}' || c == '\u{205f}' || c == '\u{3000}'
}

/// Whether the characters of `s` from `from` on are all white space
/// (`s[from..].trim().is_empty()`).
pub fn rest_is_white_space(s: &[char], from: usize) -> (b: bool)
    requires
        from <= s@.len(),
    ensures
        b == all_white_space(s@.skip(from as int)),
{
    let mut i = from;
    while i < s.len()
        invariant
            from <= i <= s@.len(),
            forall|j: int| from <= j < i ==> is_white_space(#[trigger] s@[j]),
        decreases s.len() - i,
    {
        if !is_white_space_char(s[i]) {
            assert(s@.skip(from as int)[i - from] == s@[i as int]);
            return false;
        }
        i += 1;
    }
    assert forall|k: int| 0 <= k < s@.skip(from as int).len() implies is_white_space(#[trigger] s@.skip(from as int)[k]) by {
        assert(s@.skip(from as int)[k] == s@[from + k]);
    }
    true
}

/// Whether the whole string is white space (`s.trim().is_empty()`).
pub fn is_blank(s: &str) -> (b: bool)
    ensures
        b == all_white_space(s@),
{
    let v = chars_of(s);
    assert(v@.skip(0) =~= v@);
    rest_is_white_space(&v, 0)
}

/// ASCII lowercase of one character.
pub fn ascii_lower_char(c: char) -> (l: char)
    ensures
        l == ascii_lower(c),
{
    if 'A' <= c && c <= 'Z' {
        ((c as u8) + 32) as char
    } else {
        c
    }
}

/// Equality of two strings up to ASCII case (`str::eq_ignore_ascii_case`).
pub fn eq_ignore_ascii_case_str(a: &str, b: &str) -> (r: bool)
    ensures
        r == eq_ignore_ascii_case(a@, b@),
{
    let x = chars_of(a);
    let y = chars_of(b);
    if x.len() != y.len() {
        return false;
    }
    let mut i: usize = 0;
    while i < x.len()
        invariant
            x@.len() == y@.len(),
            i <= x@.len(),
            x@ == a@,
            y@ == b@,
            forall|j: int| 0 <= j < i ==> ascii_lower(#[trigger] x@[j]) == ascii_lower(y@[j]),
        decreases x.len() - i,
    {
        if ascii_lower_char(x[i]) != ascii_lower_char(y[i]) {
            return false;
        }
        i += 1;
    }
    true
}


// ---------------------------------------------------------------------------
// Ordering
// ---------------------------------------------------------------------------

/// Lexicographic order of character sequences by code point, which is the
/// order of `String` (UTF-8 byte order agrees with code point order).
pub open spec fn seq_lt(a: Seq<char>, b: Seq<char>) -> bool
    decreases a.len(),
{
    if a.len() == 0 {
        b.len() > 0
    } else if b.len() == 0 {
        false
    } else if a[0] != b[0] {
        a[0] < b[0]
    } else {
        seq_lt(a.skip(1), b.skip(1))
    }
}

/// The order is irreflexive.
pub proof fn lemma_seq_lt_irreflexive(a: Seq<char>)
    ensures
        !seq_lt(a, a),
    decreases a.len(),
{
    if a.len() > 0 {
        lemma_seq_lt_irreflexive(a.skip(1));
    }
}

/// The order is transitive.
pub proof fn lemma_seq_lt_transitive(a: Seq<char>, b: Seq<char>, c: Seq<char>)
    requires
        seq_lt(a, b),
        seq_lt(b, c),
    ensures
        seq_lt(a, c),
    decreases a.len(),
{
    if a.len() > 0 && b.len() > 0 && c.len() > 0 {
        if a[0] == b[0] && b[0] == c[0] {
            lemma_seq_lt_transitive(a.skip(1), b.skip(1), c.skip(1));
        }
    }
}

/// The order is total.
pub proof fn lemma_seq_lt_total(a: Seq<char>, b: Seq<char>)
    ensures
        seq_lt(a, b) || seq_lt(b, a) || a =~= b,
    decreases a.len(),
{
    if a.len() > 0 && b.len() > 0 {
        if a[0] == b[0] {
            lemma_seq_lt_total(a.skip(1), b.skip(1));
            if a.skip(1) =~= b.skip(1) {
                assert(a =~= seq![a[0]] + a.skip(1));
                assert(b =~= seq![b[0]] + b.skip(1));
            }
        }
    }
}

/// Whether `a` sorts strictly before `b` (`a < b` on strings).
pub fn str_lt(a: &str, b: &str) -> (r: bool)
    ensures
        r == seq_lt(a@, b@),
{
    let x = chars_of(a);
    let y = chars_of(b);
    let mut i: usize = 0;
    assert(x@.skip(0) =~= x@);
    assert(y@.skip(0) =~= y@);
    while i < x.len() && i < y.len()
        invariant
            i <= x@.len(),
            i <= y@.len(),
            seq_lt(x@.skip(i as int), y@.skip(i as int)) == seq_lt(a@, b@),
            x@ == a@,
            y@ == b@,
        decreases x.len() - i,
    {
        if x[i] != y[i] {
            return x[i] < y[i];
        }
        assert(x@.skip(i as int).skip(1) =~= x@.skip(i + 1));
        assert(y@.skip(i as int).skip(1) =~= y@.skip(i + 1));
        i += 1;
    }
    i == x.len() && i < y.len()
}

// ---------------------------------------------------------------------------
// Numbers as text
// ---------------------------------------------------------------------------

/// The decimal digit of a value below 10.
pub open spec fn decimal_digit(d: nat) -> char {
    (48u8 + (d as u8)) as char
}

/// Decimal text of a natural number, without leading zeros.
pub open spec fn nat_text(n: nat) -> Seq<char>
    decreases n,
{
    if n < 10 {
        seq![decimal_digit(n)]
    } else {
        nat_text(n / 10) + seq![decimal_digit(n % 10)]
    }
}

/// Decimal text of an integer, with a leading `-` when negative (what
/// `format!("{}", i)` prints).
pub open spec fn int_text(i: int) -> Seq<char> {
    if i < 0 {
        seq!['-'] + nat_text((-i) as nat)
    } else {
        nat_text(i as nat)
    }
}

/// Decimal text of an unsigned number.
pub fn u128_text(n: u128) -> (t: Vec<char>)
    ensures
        t@ == nat_text(n as nat),
    decreases n,
{
    let d = (n % 10) as u8;
    let c = (48u8 + d) as char;
    if n < 10 {
        let mut t = Vec::new();
        t.push(c);
        t
    } else {
        let mut t = u128_text(n / 10);
        t.push(c);
        t
    }
}

/// Decimal text of a signed number.
pub fn i64_text(i: i64) -> (t: Vec<char>)
    ensures
        t@ == int_text(i as int),
{
    if i < 0 {
        let m = (0i128 - (i as i128)) as u128;
        let digits = u128_text(m);
        let mut t = Vec::new();
        t.push('-');
        t.extend_from_slice(&digits);
        assert(t@ =~= seq!['-'] + digits@);
        t
    } else {
        u128_text(i as u128)
    }
}

/// Decimal text of a wide signed number.
pub fn i128_text(i: i128) -> (t: Vec<char>)
    ensures
        t@ == int_text(i as int),
{
    if i < 0 {
        let m: u128 = if i == i128::MIN {
            (i128::MAX as u128) + 1
        } else {
            (0i128 - i) as u128
        };
        let digits = u128_text(m);
        let mut t = Vec::new();
        t.push('-');
        t.extend_from_slice(&digits);
        assert(t@ =~= seq!['-'] + digits@);
        t
    } else {
        u128_text(i as u128)
    }
}

/// Decimal text of an unsigned size.
pub fn usize_text(n: usize) -> (t: Vec<char>)
    ensures
        t@ == nat_text(n as nat),
{
    u128_text(n as u128)
}


/// Whether two string slices hold the same text.
pub fn str_eq(a: &str, b: &str) -> (r: bool)
    ensures
        r == (a@ == b@),
{
    String::from_str(a) == String::from_str(b)
}


/// The text of a string result.
pub open spec fn string_result_view<E>(r: Result<String, E>) -> Result<Seq<char>, E> {
    match r {
        Ok(s) => Ok(s@),
        Err(e) => Err(e),
    }
}

/// The line feed.
pub open spec fn lf() -> Seq<char> {
    seq!['\n']
}

/// Carriage return and line feed.
pub open spec fn crlf() -> Seq<char> {
    seq!['\r', '\n']
}

/// No line-break character occurs in `p`.
pub open spec fn no_newline(p: Seq<char>) -> bool {
    forall|i: int| 0 <= i < p.len() ==> #[trigger] p[i] != '\n' && p[i] != '\r'
}

/// A pattern without line breaks cannot straddle a boundary that has a line
/// break right before or right after it.
pub proof fn lemma_no_straddle_at_newline(a: Seq<char>, b: Seq<char>, p: Seq<char>)
    requires
        no_newline(p),
        a.len() == 0 || a.last() == '\n' || (b.len() > 0 && (b[0] == '\n' || b[0] == '\r')),
    ensures
        no_straddle(a, b, p),
{
    assert forall|i: int| a.len() - p.len() < i < a.len() implies !occurs_at(a + b, p, i) by {
        if occurs_at(a + b, p, i) {
            let w = (a + b).subrange(i, i + p.len());
            if a.len() > 0 && a.last() == '\n' {
                assert(w[a.len() - 1 - i] == (a + b)[a.len() - 1]);
                assert(p[a.len() - 1 - i] == '\n');
            } else if a.len() > 0 {
                assert(w[a.len() - i] == (a + b)[a.len() as int]);
                assert(p[a.len() - i] == b[0]);
            }
        }
    }
}

/// An occurrence that straddles a boundary holds the first character after
/// it, so a pattern without that character straddles nothing.
pub proof fn lemma_no_straddle_before(a: Seq<char>, b: Seq<char>, p: Seq<char>)
    requires
        b.len() > 0,
        !p.contains(b[0]),
    ensures
        no_straddle(a, b, p),
{
    assert forall|i: int| a.len() - p.len() < i < a.len() implies !occurs_at(a + b, p, i) by {
        if occurs_at(a + b, p, i) {
            let w = (a + b).subrange(i, i + p.len());
            assert(w[a.len() - i] == (a + b)[a.len() as int]);
            assert(p[a.len() - i] == b[0]);
        }
    }
}

/// An occurrence that straddles a boundary holds the last character before
/// it, so a pattern without that character straddles nothing.
pub proof fn lemma_no_straddle_after(a: Seq<char>, b: Seq<char>, p: Seq<char>)
    requires
        a.len() > 0,
        !p.contains(a.last()),
    ensures
        no_straddle(a, b, p),
{
    assert forall|i: int| a.len() - p.len() < i < a.len() implies !occurs_at(a + b, p, i) by {
        if occurs_at(a + b, p, i) {
            let w = (a + b).subrange(i, i + p.len());
            assert(w[a.len() - 1 - i] == (a + b)[a.len() - 1]);
            assert(p[a.len() - 1 - i] == a.last());
        }
    }
}

/// Replacing is done piece by piece across a boundary that no occurrence
/// straddles.
pub proof fn lemma_replace_concat(x: Seq<char>, y: Seq<char>, p: Seq<char>, r: Seq<char>)
    requires
        p.len() > 0,
        no_straddle(x, y, p),
    ensures
        replace_all(x + y, p, r) == replace_all(x, p, r) + replace_all(y, p, r),
    decreases x.len(),
{
    let n = p.len() as int;
    let xy = x + y;
    if x.len() == 0 {
        assert(xy =~= y);
        assert(replace_all(x, p, r) =~= Seq::<char>::empty());
        assert(Seq::<char>::empty() + replace_all(y, p, r) =~= replace_all(y, p, r));
    } else if xy.len() >= n && xy.take(n) =~= p {
        if x.len() < n {
            assert(xy.take(n) =~= xy.subrange(0, n));
            assert(occurs_at(xy, p, 0));
        }
        assert(x.take(n) =~= xy.take(n));
        assert(xy.skip(n) =~= x.skip(n) + y);
        assert forall|i: int| x.skip(n).len() - n < i < x.skip(n).len() implies !occurs_at(x.skip(n) + y, p, i) by {
            if occurs_at(x.skip(n) + y, p, i) {
                assert(xy.subrange(i + n, i + n + n) =~= (x.skip(n) + y).subrange(i, i + n));
                assert(occurs_at(xy, p, i + n));
            }
        }
        lemma_replace_concat(x.skip(n), y, p, r);
        assert(replace_all(xy, p, r) =~= r + replace_all(xy.skip(n), p, r));
        assert(replace_all(x, p, r) =~= r + replace_all(x.skip(n), p, r));
        assert(r + (replace_all(x.skip(n), p, r) + replace_all(y, p, r)) =~= (r + replace_all(x.skip(n), p, r))
            + replace_all(y, p, r));
    } else {
        assert(xy.skip(1) =~= x.skip(1) + y);
        if x.len() >= n {
            assert(x.take(n) =~= xy.take(n));
        }
        assert(xy[0] == x[0]);
        assert forall|i: int| x.skip(1).len() - n < i < x.skip(1).len() implies !occurs_at(x.skip(1) + y, p, i) by {
            if occurs_at(x.skip(1) + y, p, i) {
                assert(xy.subrange(i + 1, i + 1 + n) =~= (x.skip(1) + y).subrange(i, i + n));
                assert(occurs_at(xy, p, i + 1));
            }
        }
        lemma_replace_concat(x.skip(1), y, p, r);
        assert(replace_all(xy, p, r) =~= seq![x[0]] + replace_all(xy.skip(1), p, r));
        assert(replace_all(x, p, r) =~= seq![x[0]] + replace_all(x.skip(1), p, r));
        assert(seq![x[0]] + (replace_all(x.skip(1), p, r) + replace_all(y, p, r)) =~= (seq![x[0]] + replace_all(
            x.skip(1),
            p,
            r,
        )) + replace_all(y, p, r));
    }
}

/// Replacing a pattern that does not occur changes nothing.
pub proof fn lemma_replace_absent(s: Seq<char>, p: Seq<char>, r: Seq<char>)
    requires
        p.len() > 0,
        !contains_seq(s, p),
    ensures
        replace_all(s, p, r) == s,
    decreases s.len(),
{
    if s.len() > 0 {
        if s.len() >= p.len() && s.take(p.len() as int) =~= p {
            assert(s.subrange(0, p.len() as int) =~= s.take(p.len() as int));
            assert(occurs_at(s, p, 0));
        }
        assert forall|i: int| !occurs_at(s.skip(1), p, i) by {
            if occurs_at(s.skip(1), p, i) {
                assert(s.subrange(i + 1, i + 1 + p.len()) =~= s.skip(1).subrange(i, i + p.len()));
                assert(occurs_at(s, p, i + 1));
            }
        }
        lemma_replace_absent(s.skip(1), p, r);
        assert(seq![s[0]] + s.skip(1) =~= s);
    }
}

/// A prefix of a replaced text without characters of the replacement is a
/// prefix of the text itself.
proof fn lemma_replace_prefix(s: Seq<char>, p: Seq<char>, r: Seq<char>, k: int)
    requires
        p.len() > 0,
        r.len() > 0,
        0 <= k <= replace_all(s, p, r).len(),
        forall|j: int| 0 <= j < k ==> !r.contains(#[trigger] replace_all(s, p, r)[j]),
    ensures
        k <= s.len(),
        replace_all(s, p, r).take(k) == s.take(k),
    decreases s.len(),
{
    let t = replace_all(s, p, r);
    if k > 0 && s.len() > 0 {
        if s.len() >= p.len() && s.take(p.len() as int) =~= p {
            assert(t =~= r + replace_all(s.skip(p.len() as int), p, r));
            assert(t[0] == r[0]);
            assert(!r.contains(t[0]));
        } else {
            let rest = replace_all(s.skip(1), p, r);
            assert(t =~= seq![s[0]] + rest);
            assert forall|j: int| 0 <= j < k - 1 implies !r.contains(#[trigger] rest[j]) by {
                assert(t[j + 1] == rest[j]);
            }
            lemma_replace_prefix(s.skip(1), p, r, k - 1);
            assert(t.take(k) =~= seq![s[0]] + rest.take(k - 1));
            assert(s.take(k) =~= seq![s[0]] + s.skip(1).take(k - 1));
        }
    } else if k > 0 {
        assert(t =~= s);
    } else {
        assert(t.take(0) =~= s.take(0));
    }
}

/// Replacing keeps out a text none of whose characters the replacement
/// holds, when the text did not occur before.
pub proof fn lemma_replace_keeps_absent(s: Seq<char>, p: Seq<char>, r: Seq<char>, m: Seq<char>)
    requires
        p.len() > 0,
        r.len() > 0,
        m.len() > 0,
        !contains_seq(s, m),
        forall|k: int| 0 <= k < m.len() ==> !r.contains(#[trigger] m[k]),
    ensures
        !contains_seq(replace_all(s, p, r), m),
    decreases s.len(),
{
    let t = replace_all(s, p, r);
    if s.len() == 0 {
        assert(t =~= s);
    } else {
        assert forall|i: int| !occurs_at(t, m, i) by {
            if occurs_at(t, m, i) {
                let w = t.subrange(i, i + m.len());
                if s.len() >= p.len() && s.take(p.len() as int) =~= p {
                    let n = p.len() as int;
                    let rest = replace_all(s.skip(n), p, r);
                    assert(t =~= r + rest);
                    if i < r.len() {
                        assert(w[0] == t[i]);
                        assert(t[i] == r[i]);
                        assert(r.contains(m[0]));
                    } else {
                        assert forall|q: int| !occurs_at(s.skip(n), m, q) by {
                            if occurs_at(s.skip(n), m, q) {
                                assert(s.subrange(q + n, q + n + m.len()) =~= s.skip(n).subrange(q, q + m.len()));
                                assert(occurs_at(s, m, q + n));
                            }
                        }
                        lemma_replace_keeps_absent(s.skip(n), p, r, m);
                        assert(rest.subrange(i - r.len(), i - r.len() + m.len()) =~= w);
                        assert(occurs_at(rest, m, i - r.len()));
                    }
                } else {
                    let rest = replace_all(s.skip(1), p, r);
                    assert(t =~= seq![s[0]] + rest);
                    if i > 0 {
                        assert forall|q: int| !occurs_at(s.skip(1), m, q) by {
                            if occurs_at(s.skip(1), m, q) {
                                assert(s.subrange(q + 1, q + 1 + m.len()) =~= s.skip(1).subrange(q, q + m.len()));
                                assert(occurs_at(s, m, q + 1));
                            }
                        }
                        lemma_replace_keeps_absent(s.skip(1), p, r, m);
                        assert(rest.subrange(i - 1, i - 1 + m.len()) =~= w);
                        assert(occurs_at(rest, m, i - 1));
                    } else {
                        assert forall|j: int| 0 <= j < m.len() implies !r.contains(#[trigger] t[j]) by {
                            assert(w[j] == t[j]);
                            assert(m[j] == t[j]);
                        }
                        lemma_replace_prefix(s, p, r, m.len() as int);
                        assert(t.take(m.len() as int) =~= w);
                        assert(s.subrange(0, m.len() as int) =~= s.take(m.len() as int));
                        assert(occurs_at(s, m, 0));
                    }
                }
            }
        }
    }
}

/// Characters that the pattern does not hold, put in front, add no
/// occurrence.
pub proof fn lemma_count_after_foreign(c: Seq<char>, x: Seq<char>, m: Seq<char>)
    requires
        m.len() > 0,
        forall|k: int| 0 <= k < c.len() ==> !m.contains(#[trigger] c[k]),
    ensures
        count_matches(c + x, m) == count_matches(x, m),
    decreases c.len(),
{
    if c.len() > 0 {
        let cx = c + x;
        assert(!m.contains(c[0]));
        if cx.len() >= m.len() && cx.take(m.len() as int) =~= m {
            assert(cx.take(m.len() as int)[0] == cx[0]);
            assert(m.contains(m[0]));
        }
        assert(cx.skip(1) =~= c.skip(1) + x);
        assert forall|k: int| 0 <= k < c.skip(1).len() implies !m.contains(#[trigger] c.skip(1)[k]) by {
            assert(c.skip(1)[k] == c[k + 1]);
        }
        lemma_count_after_foreign(c.skip(1), x, m);
        if cx.len() < m.len() {
            assert(x.len() < m.len());
        }
    } else {
        assert(c + x =~= x);
    }
}

/// Replacing a pattern by a text, neither of which holds a character of
/// `m`, keeps the number of occurrences of `m`.
pub proof fn lemma_replace_count(s: Seq<char>, p: Seq<char>, r: Seq<char>, m: Seq<char>)
    requires
        p.len() > 0,
        r.len() > 0,
        m.len() > 0,
        forall|k: int| 0 <= k < p.len() ==> !m.contains(#[trigger] p[k]),
        forall|k: int| 0 <= k < r.len() ==> !m.contains(#[trigger] r[k]),
    ensures
        count_matches(replace_all(s, p, r), m) == count_matches(s, m),
    decreases s.len(),
{
    let t = replace_all(s, p, r);
    let n = m.len() as int;
    assert forall|k: int| 0 <= k < m.len() implies !r.contains(#[trigger] m[k]) by {
        if r.contains(m[k]) {
            let j = choose|j: int| 0 <= j < r.len() && r[j] == m[k];
            assert(m.contains(r[j]));
        }
    }
    if s.len() == 0 {
        assert(t =~= s);
    } else if s.len() >= n && s.take(n) =~= m {
        let rest = s.skip(n);
        assert(s =~= m + rest);
        assert(!p.contains(m.last())) by {
            if p.contains(m.last()) {
                let j = choose|j: int| 0 <= j < p.len() && p[j] == m.last();
                assert(m.contains(p[j]));
            }
        }
        lemma_no_straddle_after(m, rest, p);
        lemma_replace_concat(m, rest, p, r);
        assert(!contains_seq(m, p)) by {
            if contains_seq(m, p) {
                let i = choose|i: int| occurs_at(m, p, i);
                assert(m.subrange(i, i + p.len())[0] == m[i]);
                assert(m.contains(p[0]));
            }
        }
        lemma_replace_absent(m, p, r);
        lemma_replace_count(rest, p, r, m);
        let tr = replace_all(rest, p, r);
        assert(t == m + tr);
        assert((m + tr).take(n) =~= m);
        assert((m + tr).skip(n) =~= tr);
    } else if s.len() >= p.len() && s.take(p.len() as int) =~= p {
        let k = p.len() as int;
        let rest = s.skip(k);
        assert(t =~= r + replace_all(rest, p, r));
        lemma_count_after_foreign(r, replace_all(rest, p, r), m);
        assert(s =~= p + rest);
        lemma_count_after_foreign(p, rest, m);
        lemma_replace_count(rest, p, r, m);
    } else {
        let r1 = replace_all(s.skip(1), p, r);
        assert(t =~= seq![s[0]] + r1);
        if t.len() >= n && t.take(n) =~= m {
            assert forall|j: int| 0 <= j < n implies !r.contains(#[trigger] t[j]) by {
                assert(t.take(n)[j] == t[j]);
            }
            lemma_replace_prefix(s, p, r, n);
        }
        assert(t.skip(1) =~= r1);
        lemma_replace_count(s.skip(1), p, r, m);
        if t.len() < n {
            assert(r1.len() < n);
        }
        if s.len() < n {
            assert(s.skip(1).len() < n);
        }
    }
}

} // verus!
