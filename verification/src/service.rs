//! The alias service: the operations the user interfaces call, on top of
//! the store, validation and search.
use vstd::prelude::*;
use crate::error::AliasError;
use crate::model::{AliasRecord, AliasView, record_checksum, record_checksum_spec, strings_view};
use crate::search::{SearchQuery, SearchResult, is_search_order, limited_len, search, search_score};
use crate::storage::{
    Database, has_id, insert_allowed, stored_record, update_allowed, updated_record, verified_row,
};
use crate::text::{lemma_seq_lt_irreflexive, lemma_seq_lt_total, lemma_seq_lt_transitive, seq_lt, str_eq, str_lt};
use crate::validation::{validate_alias, validate_alias_spec};

verus! {

/// The alias service over a store.
pub struct AliasService {
    pub database: Database,
}

/// How often a tag occurs in a list of tags.
pub open spec fn count_in(tags: Seq<Seq<char>>, t: Seq<char>) -> nat
    decreases tags.len(),
{
    if tags.len() == 0 {
        0
    } else {
        count_in(tags.drop_last(), t) + if tags.last() == t {
            1nat
        } else {
            0nat
        }
    }
}

/// How often a tag occurs over all aliases.
pub open spec fn tag_occurrences(s: Seq<AliasView>, t: Seq<char>) -> nat
    decreases s.len(),
{
    if s.len() == 0 {
        0
    } else {
        tag_occurrences(s.drop_last(), t) + count_in(s.last().tags, t)
    }
}

/// The number of tags over all aliases.
pub open spec fn tag_total(s: Seq<AliasView>) -> nat
    decreases s.len(),
{
    if s.len() == 0 {
        0
    } else {
        tag_total(s.drop_last()) + s.last().tags.len()
    }
}

/// Tag counts: strictly in tag order, each the number of occurrences of its
/// tag, every tag that occurs listed and only tags that occur.
pub open spec fn is_tag_count(s: Seq<AliasView>, counts: Seq<(Seq<char>, usize)>) -> bool {
    &&& forall|i: int, j: int| 0 <= i < j < counts.len() ==> seq_lt(#[trigger] counts[i].0, #[trigger] counts[j].0)
    &&& forall|i: int| 0 <= i < counts.len() ==> #[trigger] counts[i].1 == tag_occurrences(s, counts[i].0)
    &&& forall|i: int| 0 <= i < counts.len() ==> #[trigger] counts[i].1 > 0
    &&& forall|t: Seq<char>| tag_occurrences(s, t) > 0 ==> exists|i: int| 0 <= i < counts.len() && #[trigger] counts[i].0 == t
}

/// The value of a list of tag counts.
pub open spec fn counts_view(v: Seq<(String, usize)>) -> Seq<(Seq<char>, usize)> {
    v.map_values(|e: (String, usize)| (e.0@, e.1))
}

proof fn lemma_count_in_take(tags: Seq<Seq<char>>, j: int, t: Seq<char>)
    requires
        0 <= j < tags.len(),
    ensures
        count_in(tags.take(j + 1), t) == count_in(tags.take(j), t) + if tags[j] == t {
            1nat
        } else {
            0nat
        },
{
    assert(tags.take(j + 1).drop_last() =~= tags.take(j));
}

proof fn lemma_count_in_le(tags: Seq<Seq<char>>, t: Seq<char>)
    ensures
        count_in(tags, t) <= tags.len(),
    decreases tags.len(),
{
    if tags.len() > 0 {
        lemma_count_in_le(tags.drop_last(), t);
    }
}

proof fn lemma_occurrences_le_total(s: Seq<AliasView>, t: Seq<char>)
    ensures
        tag_occurrences(s, t) <= tag_total(s),
    decreases s.len(),
{
    if s.len() > 0 {
        lemma_occurrences_le_total(s.drop_last(), t);
        lemma_count_in_le(s.last().tags, t);
    }
}

proof fn lemma_total_prefix(s: Seq<AliasView>, i: int)
    requires
        0 <= i <= s.len(),
    ensures
        tag_total(s.take(i)) <= tag_total(s),
    decreases s.len() - i,
{
    if i < s.len() {
        lemma_total_prefix(s, i + 1);
        assert(s.take(i + 1).drop_last() =~= s.take(i));
        assert(s.take(i + 1).last() == s[i]);
    } else {
        assert(s.take(i) =~= s);
    }
}

/// The counts after `i` aliases and `j` tags of the next one.
pub open spec fn partial_occurrences(s: Seq<AliasView>, i: int, j: int, t: Seq<char>) -> nat {
    tag_occurrences(s.take(i), t) + count_in(s[i].tags.take(j), t)
}

/// Counts every tag over all aliases.
fn count_tags(aliases: &Vec<AliasRecord>) -> (counts: Vec<(String, usize)>)
    requires
        tag_total(aliases@.map_values(|a: AliasRecord| a@)) <= usize::MAX,
    ensures
        is_tag_count(aliases@.map_values(|a: AliasRecord| a@), counts_view(counts@)),
{
    let ghost s = aliases@.map_values(|a: AliasRecord| a@);
    let mut counts: Vec<(String, usize)> = Vec::new();
    let mut i: usize = 0;
    while i < aliases.len()
        invariant
            i <= aliases@.len(),
            s == aliases@.map_values(|a: AliasRecord| a@),
            tag_total(s) <= usize::MAX,
            forall|a: int, b: int|
                0 <= a < b < counts@.len() ==> seq_lt(#[trigger] counts_view(counts@)[a].0, #[trigger] counts_view(counts@)[b].0),
            forall|a: int| 0 <= a < counts@.len() ==> #[trigger] counts_view(counts@)[a].1 == tag_occurrences(s.take(i as int), counts_view(counts@)[a].0),
            forall|a: int| 0 <= a < counts@.len() ==> #[trigger] counts_view(counts@)[a].1 > 0,
            forall|t: Seq<char>|
                tag_occurrences(s.take(i as int), t) > 0 ==> exists|a: int| 0 <= a < counts@.len() && #[trigger] counts_view(counts@)[a].0 == t,
        decreases aliases.len() - i,
    {
        let alias = &aliases[i];
        assert(s[i as int] == alias@);
        let mut j: usize = 0;
        proof {
            assert(s[i as int].tags.take(0) =~= Seq::<Seq<char>>::empty());
        }
        while j < alias.tags.len()
            invariant
                i < aliases@.len(),
                j <= alias.tags@.len(),
                s == aliases@.map_values(|a: AliasRecord| a@),
                s[i as int] == alias@,
                tag_total(s) <= usize::MAX,
                forall|a: int, b: int|
                    0 <= a < b < counts@.len() ==> seq_lt(#[trigger] counts_view(counts@)[a].0, #[trigger] counts_view(counts@)[b].0),
                forall|a: int| 0 <= a < counts@.len() ==> #[trigger] counts_view(counts@)[a].1 == partial_occurrences(s, i as int, j as int, counts_view(counts@)[a].0),
                forall|a: int| 0 <= a < counts@.len() ==> #[trigger] counts_view(counts@)[a].1 > 0,
                forall|t: Seq<char>|
                    partial_occurrences(s, i as int, j as int, t) > 0 ==> exists|a: int| 0 <= a < counts@.len() && #[trigger] counts_view(counts@)[a].0 == t,
            decreases alias.tags.len() - j,
        {
            let tag = alias.tags[j].as_str();
            let ghost tv = tag@;
            assert(s[i as int].tags[j as int] == tv);
            proof {
                assert forall|t: Seq<char>| #![auto] partial_occurrences(s, i as int, j + 1, t) == partial_occurrences(s, i as int, j as int, t) + if tv == t { 1nat } else { 0nat } by {
                    lemma_count_in_take(s[i as int].tags, j as int, t);
                }
            }
            let mut p: usize = 0;
            let mut found = false;
            while p < counts.len()
                invariant_except_break
                    !found,
                invariant
                    p <= counts@.len(),
                    tv == tag@,
                    forall|a: int| 0 <= a < p ==> seq_lt(#[trigger] counts_view(counts@)[a].0, tv),
                ensures
                    p <= counts@.len(),
                    forall|a: int| 0 <= a < p ==> seq_lt(#[trigger] counts_view(counts@)[a].0, tv),
                    found ==> p < counts@.len() && counts_view(counts@)[p as int].0 == tv,
                    !found && p < counts@.len() ==> seq_lt(tv, counts_view(counts@)[p as int].0),
                decreases counts.len() - p,
            {
                assert(counts_view(counts@)[p as int].0 == counts@[p as int].0@);
                if str_eq(counts[p].0.as_str(), tag) {
                    found = true;
                    break;
                }
                if str_lt(tag, counts[p].0.as_str()) {
                    break;
                }
                proof {
                    lemma_seq_lt_total(counts_view(counts@)[p as int].0, tv);
                }
                p += 1;
            }
            let ghost old_counts = counts_view(counts@);
            if found {
                proof {
                    lemma_occurrences_le_total(s.take(i as int), tv);
                    lemma_total_prefix(s, i as int);
                    lemma_count_in_le(s[i as int].tags.take(j as int), tv);
                    assert(s.take(i + 1).drop_last() =~= s.take(i as int));
                    assert(tag_total(s.take(i + 1)) == tag_total(s.take(i as int)) + s[i as int].tags.len());
                    lemma_total_prefix(s, i + 1);
                }
                let n = counts[p].1;
                assert(counts_view(counts@)[p as int] == (counts@[p as int].0@, counts@[p as int].1));
                assert(counts_view(counts@)[p as int].1 == partial_occurrences(
                    s,
                    i as int,
                    j as int,
                    counts_view(counts@)[p as int].0,
                ));
                assert(n == partial_occurrences(s, i as int, j as int, tv));
                let name = counts[p].0.clone();
                counts.set(p, (name, n + 1));
                assert(counts_view(counts@) =~= old_counts.update(p as int, (tv, (n + 1) as usize)));
                proof {
                    let nc = counts_view(counts@);
                    lemma_seq_lt_irreflexive(tv);
                    assert forall|a: int| 0 <= a < nc.len() implies #[trigger] nc[a].1 == partial_occurrences(
                        s,
                        i as int,
                        j + 1,
                        nc[a].0,
                    ) by {
                        if a != p {
                            assert(nc[a] == old_counts[a]);
                            if a < p {
                                assert(seq_lt(old_counts[a].0, old_counts[p as int].0));
                            } else {
                                assert(seq_lt(old_counts[p as int].0, old_counts[a].0));
                            }
                            assert(old_counts[a].1 == partial_occurrences(s, i as int, j as int, old_counts[a].0));
                        } else {
                            assert(nc[a] == (tv, (n + 1) as usize));
                        }
                    }
                }
            } else {
                proof {
                    assert forall|a: int| 0 <= a < old_counts.len() implies old_counts[a].0 != tv by {
                        if a < p {
                            lemma_seq_lt_irreflexive(tv);
                        } else {
                            if a > p {
                                assert(seq_lt(old_counts[p as int].0, old_counts[a].0));
                                lemma_seq_lt_transitive(tv, old_counts[p as int].0, old_counts[a].0);
                            }
                            lemma_seq_lt_irreflexive(tv);
                        }
                    }
                    if partial_occurrences(s, i as int, j as int, tv) > 0 {
                        let a = choose|a: int| 0 <= a < old_counts.len() && #[trigger] old_counts[a].0 == tv;
                        assert(old_counts[a].0 != tv);
                    }
                    assert(partial_occurrences(s, i as int, j as int, tv) == 0);
                }
                counts.insert(p, (String::from_str(tag), 1));
                assert(counts_view(counts@) =~= old_counts.insert(p as int, (tv, 1usize)));
                assert(forall|a: int| 0 <= a < p ==> counts_view(counts@)[a] == old_counts[a]);
                assert(forall|a: int| p < a < counts_view(counts@).len() ==> counts_view(counts@)[a] == old_counts[a - 1]);
                assert(counts_view(counts@)[p as int] == (tv, 1usize));
                proof {
                    let nc = counts_view(counts@);
                    assert forall|a: int, b: int| 0 <= a < b < nc.len() implies seq_lt(#[trigger] nc[a].0, #[trigger] nc[b].0) by {
                        if b < p {
                            assert(nc[a] == old_counts[a] && nc[b] == old_counts[b]);
                        } else if b == p {
                            assert(nc[a] == old_counts[a]);
                        } else if a == p {
                            assert(nc[b] == old_counts[b - 1]);
                            if b - 1 > p {
                                lemma_seq_lt_transitive(tv, old_counts[p as int].0, old_counts[b - 1].0);
                            }
                        } else if a < p {
                            assert(nc[a] == old_counts[a] && nc[b] == old_counts[b - 1]);
                        } else {
                            assert(nc[a] == old_counts[a - 1] && nc[b] == old_counts[b - 1]);
                        }
                    }
                    assert forall|a: int| 0 <= a < nc.len() implies #[trigger] nc[a].1 == partial_occurrences(
                        s,
                        i as int,
                        j + 1,
                        nc[a].0,
                    ) by {
                        if a < p {
                            assert(nc[a] == old_counts[a]);
                            assert(old_counts[a].1 == partial_occurrences(s, i as int, j as int, old_counts[a].0));
                        } else if a > p {
                            assert(nc[a] == old_counts[a - 1]);
                            assert(old_counts[a - 1].1 == partial_occurrences(s, i as int, j as int, old_counts[a - 1].0));
                        }
                    }
                }
            }
            proof {
                let nc = counts_view(counts@);
                assert forall|t: Seq<char>| #[trigger] partial_occurrences(s, i as int, j + 1, t) > 0 implies exists|a: int| 0 <= a < nc.len() && #[trigger] nc[a].0 == t by {
                    if t == tv {
                        assert(nc[p as int].0 == t);
                    } else {
                        assert(partial_occurrences(s, i as int, j as int, t) > 0);
                        let a = choose|a: int| 0 <= a < old_counts.len() && #[trigger] old_counts[a].0 == t;
                        if found {
                            assert(nc[a].0 == t);
                        } else if a < p {
                            assert(nc[a] == old_counts[a]);
                        } else {
                            assert(nc[a + 1].0 == t);
                        }
                    }
                }
            }
            j += 1;
        }
        proof {
            assert(s[i as int].tags.take(j as int) =~= s[i as int].tags);
            assert(s.take(i + 1).drop_last() =~= s.take(i as int));
            assert(s.take(i + 1).last() == s[i as int]);
            assert forall|t: Seq<char>| #[trigger] tag_occurrences(s.take(i + 1), t) == partial_occurrences(s, i as int, j as int, t) by {}
        }
        i += 1;
    }
    proof {
        assert(s.take(s.len() as int) =~= s);
    }
    counts
}

/// Whether every stored row's checksum is the checksum of its fields.
pub open spec fn all_rows_verified(rows: Seq<AliasView>) -> bool {
    forall|i: int| 0 <= i < rows.len() ==> #[trigger] verified_row(Some(rows[i])) is Ok
}

impl AliasService {
    /// A service over a store.
    pub fn new(database: Database) -> (s: Self)
        ensures
            s.database == database,
    {
        AliasService { database }
    }

    /// Every alias, in name order.
    pub fn list(&self) -> (r: Result<Vec<AliasRecord>, AliasError>)
        requires
            self.database.wf(),
        ensures
            match r {
                Ok(v) => v@.map_values(|a: AliasRecord| a@) == self.database@.aliases && all_rows_verified(
                    self.database@.aliases,
                ),
                Err(e) => e == AliasError::ChecksumMismatch && exists|i: int|
                    0 <= i < self.database@.aliases.len() && #[trigger] verified_row(Some(self.database@.aliases[i]))
                        is Err,
            },
    {
        self.database.list_aliases()
    }

    /// Searches every alias.
    pub fn search(&self, query: &SearchQuery) -> (r: Result<Vec<SearchResult>, AliasError>)
        requires
            self.database.wf(),
        ensures
            match r {
                Ok(results) => exists|listing: Seq<AliasRecord>, order: Seq<usize>|
                    {
                        &&& listing.map_values(|a: AliasRecord| a@) == self.database@.aliases
                        &&& is_search_order(listing, *query, order)
                        &&& results@.len() == limited_len(order.len(), query.limit)
                        &&& forall|k: int|
                            0 <= k < results@.len() ==> (#[trigger] results@[k]).alias@ == listing[order[k] as int]@
                                && results@[k].score == search_score(listing[order[k] as int]@, *query)
                    } && all_rows_verified(self.database@.aliases),
                Err(e) => e == AliasError::ChecksumMismatch && !all_rows_verified(self.database@.aliases),
            },
    {
        let aliases = self.database.list_aliases()?;
        let results = search(aliases.as_slice(), query);
        Ok(results)
    }

    /// How often each tag occurs over all aliases, in tag order.
    pub fn tag_counts(&self) -> (r: Result<Vec<(String, usize)>, AliasError>)
        requires
            self.database.wf(),
            tag_total(self.database@.aliases) <= usize::MAX,
        ensures
            match r {
                Ok(counts) => is_tag_count(self.database@.aliases, counts_view(counts@)) && all_rows_verified(
                    self.database@.aliases,
                ),
                Err(e) => e == AliasError::ChecksumMismatch && !all_rows_verified(self.database@.aliases),
            },
    {
        let aliases = self.database.list_aliases()?;
        Ok(count_tags(&aliases))
    }

    /// Validates an alias, stores it with its checksum and returns it as
    /// stored.
    pub fn create(&mut self, alias: AliasRecord) -> (r: Result<AliasRecord, AliasError>)
        requires
            old(self).database.wf(),
        ensures
            final(self).database.wf(),
            validate_alias_spec(alias@) is Err ==> r == Err::<AliasRecord, AliasError>(validate_alias_spec(alias@)->Err_0)
                && final(self).database@ == old(self).database@,
            validate_alias_spec(alias@) is Ok ==> (r is Ok <==> insert_allowed(
                old(self).database@.aliases,
                stored_record(alias@),
            )),
            r matches Ok(saved) ==> saved@ == stored_record(alias@) && exists|p: int|
                0 <= p <= old(self).database@.aliases.len() && final(self).database@.aliases == old(
                    self,
                ).database@.aliases.insert(p, saved@),
            r is Err ==> final(self).database@ == old(self).database@,
    {
        validate_alias(&alias)?;
        let mut alias = alias;
        let ghost v = alias@;
        alias.record_checksum = record_checksum(&alias);
        assert(alias@ == stored_record(v));
        proof {
            crate::storage::lemma_checksum_ignores_stored(v, record_checksum_spec(v));
        }
        self.database.insert_alias(&alias)?;
        Ok(alias)
    }

    /// Validates an alias and replaces the stored alias with its id; an
    /// alias that is not stored is a configuration error.
    pub fn update(&mut self, alias: AliasRecord) -> (r: Result<AliasRecord, AliasError>)
        requires
            old(self).database.wf(),
        ensures
            final(self).database.wf(),
            validate_alias_spec(alias@) is Err ==> r == Err::<AliasRecord, AliasError>(validate_alias_spec(alias@)->Err_0)
                && final(self).database@ == old(self).database@,
            validate_alias_spec(alias@) is Ok && !has_id(old(self).database@.aliases, alias@.id) ==> (r matches Err(
                AliasError::Config(m),
            ) && m@ == "alias not found"@),
            validate_alias_spec(alias@) is Ok && has_id(old(self).database@.aliases, alias@.id) ==> (r is Ok <==> update_allowed(
                old(self).database@.aliases,
                stored_record(alias@),
            )),
            r matches Ok(saved) ==> saved@ == stored_record(alias@) && exists|k: int, p: int|
                0 <= k < old(self).database@.aliases.len() && old(self).database@.aliases[k].id == alias@.id && 0 <= p
                    < old(self).database@.aliases.len() && final(self).database@.aliases == old(
                    self,
                ).database@.aliases.remove(k).insert(p, updated_record(saved@, old(self).database@.aliases[k])),
            r is Err ==> final(self).database@ == old(self).database@,
    {
        validate_alias(&alias)?;
        let mut alias = alias;
        let ghost v = alias@;
        alias.record_checksum = record_checksum(&alias);
        assert(alias@ == stored_record(v));
        proof {
            crate::storage::lemma_checksum_ignores_stored(v, record_checksum_spec(v));
        }
        let updated = self.database.update_alias(&alias)?;
        if !updated {
            return Err(AliasError::Config(String::from_str("alias not found")));
        }
        Ok(alias)
    }
}

} // verus!
