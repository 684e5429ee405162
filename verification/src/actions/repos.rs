//! The incremental repository cache: merging a persisted snapshot with a
//! fresh fetch, deduplicating by full name, filtering out ineligible
//! records, sorting, and deciding when a cached snapshot is fresh enough
//! to skip a fetch.

use vstd::prelude::*;
use vstd::string::*;
use vstd::relations::sorted_by;
use vstd::seq_lib::*;
use vstd::multiset::Multiset;
use crate::alfred::models::AuthorIcon;
use crate::alfred::models::IconView;
use crate::alfred::models::Item;
use crate::alfred::models::ItemView;
use crate::alfred::models::Items;
use crate::alfred::models::Modifier;
use crate::alfred::models::ModifierView;
use crate::alfred::models::Modifiers;
use crate::alfred::models::ModifiersView;
use crate::alfred::models::VarValue;
use crate::alfred::models::VarView;
use crate::alfred::models::icon_path_spec;
use crate::alfred::models::vars_view;
use crate::alfred::join_sep;
use crate::alfred::join_with;
use crate::alfred::tokenize;
use crate::alfred::tokenize_spec;

verus! {

/// A repository record as the remote data source reports it.
#[derive(Debug)]
pub struct RepositoryRecord {
    pub full_name: Option<String>,
    pub name: String,
    pub owner: Option<String>,
    pub html_url: Option<String>,
    pub description: Option<String>,
    pub archived: Option<bool>,
}

/// The mathematical content of a repository record.
#[verifier::ext_equal]
pub ghost struct RecordView {
    pub full_name: Option<Seq<char>>,
    pub name: Seq<char>,
    pub owner: Option<Seq<char>>,
    pub html_url: Option<Seq<char>>,
    pub description: Option<Seq<char>>,
    pub archived: Option<bool>,
}

impl View for RepositoryRecord {
    type V = RecordView;

    open spec fn view(&self) -> RecordView {
        RecordView {
            full_name: self.full_name.deep_view(),
            name: self.name@,
            owner: self.owner.deep_view(),
            html_url: self.html_url.deep_view(),
            description: self.description.deep_view(),
            archived: self.archived,
        }
    }
}

impl DeepView for RepositoryRecord {
    type V = RecordView;

    open spec fn deep_view(&self) -> RecordView {
        self.view()
    }
}

impl Clone for RepositoryRecord {
    /// A clone carries exactly the same content.
    fn clone(&self) -> (r: Self)
        ensures
            r@ == self@,
    {
        RepositoryRecord {
            full_name: clone_opt_string(&self.full_name),
            name: self.name.clone(),
            owner: clone_opt_string(&self.owner),
            html_url: clone_opt_string(&self.html_url),
            description: clone_opt_string(&self.description),
            archived: match self.archived {
                Some(b) => Some(b),
                None => None,
            },
        }
    }
}

fn clone_opt_string(s: &Option<String>) -> (r: Option<String>)
    ensures
        r.deep_view() == s.deep_view(),
{
    match s {
        Some(x) => Some(x.clone()),
        None => None,
    }
}

/// A record may enter the final list only with a non-empty full name and an
/// explicit `archived == false` flag.
pub open spec fn eligible(r: RecordView) -> bool {
    &&& r.full_name is Some
    &&& r.full_name->0.len() > 0
    &&& r.archived == Some(false)
}

/// Whether some record in `s` carries the full name `n`.
pub open spec fn contains_name(s: Seq<RecordView>, n: Option<Seq<char>>) -> bool {
    exists|i: int| 0 <= i < s.len() && s[i].full_name == n
}

/// First-seen-wins deduplication by full name: of several records sharing a
/// full name, the earliest in the sequence is kept, with its original fields.
/// A record already present in an old snapshot is therefore not refreshed by
/// a newer copy arriving later in the sequence; only genuinely new full names
/// gain entries.
pub open spec fn dedup_by_full_name(s: Seq<RecordView>) -> Seq<RecordView>
    decreases s.len(),
{
    if s.len() == 0 {
        Seq::empty()
    } else {
        let prefix = dedup_by_full_name(s.drop_last());
        if contains_name(prefix, s.last().full_name) {
            prefix
        } else {
            prefix.push(s.last())
        }
    }
}

/// The subsequence of eligible records, in order.
pub open spec fn eligible_only(s: Seq<RecordView>) -> Seq<RecordView> {
    s.filter(|r: RecordView| eligible(r))
}

/// No two records share a full name.
pub open spec fn distinct_full_names(s: Seq<RecordView>) -> bool {
    forall|i: int, j: int|
        0 <= i < j < s.len() ==> s[i].full_name != s[j].full_name
}

/// Lexicographic order on character sequences by code point, the order the
/// launcher displays entries in.
pub open spec fn lex_le(a: Seq<char>, b: Seq<char>) -> bool
    decreases a.len(),
{
    if a.len() == 0 {
        true
    } else if b.len() == 0 {
        false
    } else if (a[0] as u32) < (b[0] as u32) {
        true
    } else if (a[0] as u32) == (b[0] as u32) {
        lex_le(a.drop_first(), b.drop_first())
    } else {
        false
    }
}

/// The full name a record is sorted under; a record without one sorts as the
/// empty name (such records never reach the sorted list).
pub open spec fn sort_name(r: RecordView) -> Seq<char> {
    match r.full_name {
        Some(n) => n,
        None => Seq::empty(),
    }
}

/// Order on records: by full name, lexicographically.
pub open spec fn name_le(a: RecordView, b: RecordView) -> bool {
    lex_le(sort_name(a), sort_name(b))
}

/// Ascending by full name — the display order the launcher relies on.
pub open spec fn sorted_by_name(s: Seq<RecordView>) -> bool {
    forall|i: int, j: int| 0 <= i < j < s.len() ==> name_le(#[trigger] s[i], #[trigger] s[j])
}

// ---------------------------------------------------------------------------
// Lexicographic order: reflexive, total, transitive, antisymmetric.
// ---------------------------------------------------------------------------

pub proof fn lemma_lex_le_refl(a: Seq<char>)
    ensures
        lex_le(a, a),
    decreases a.len(),
{
    if a.len() > 0 {
        lemma_lex_le_refl(a.drop_first());
    }
}

pub proof fn lemma_lex_le_total(a: Seq<char>, b: Seq<char>)
    ensures
        lex_le(a, b) || lex_le(b, a),
    decreases a.len(),
{
    if a.len() > 0 && b.len() > 0 && (a[0] as u32) == (b[0] as u32) {
        lemma_lex_le_total(a.drop_first(), b.drop_first());
    }
}

pub proof fn lemma_lex_le_trans(a: Seq<char>, b: Seq<char>, c: Seq<char>)
    requires
        lex_le(a, b),
        lex_le(b, c),
    ensures
        lex_le(a, c),
    decreases a.len(),
{
    if a.len() > 0 && b.len() > 0 && c.len() > 0 && (a[0] as u32) == (b[0] as u32) && (b[0] as u32)
        == (c[0] as u32) {
        lemma_lex_le_trans(a.drop_first(), b.drop_first(), c.drop_first());
    }
}

pub proof fn lemma_lex_le_antisym(a: Seq<char>, b: Seq<char>)
    requires
        lex_le(a, b),
        lex_le(b, a),
    ensures
        a == b,
    decreases a.len(),
{
    if a.len() == 0 {
        assert(b.len() == 0);
        assert(a =~= b);
    } else {
        assert(b.len() > 0);
        assert((a[0] as u32) == (b[0] as u32));
        assert(a[0] == b[0]) by {
            lemma_char_injective(a[0], b[0]);
        }
        lemma_lex_le_antisym(a.drop_first(), b.drop_first());
        assert(a =~= seq![a[0]] + a.drop_first());
        assert(b =~= seq![b[0]] + b.drop_first());
    }
}

/// Two characters with the same code point are the same character.
proof fn lemma_char_injective(a: char, b: char)
    requires
        (a as u32) == (b as u32),
    ensures
        a == b,
{
}

// ---------------------------------------------------------------------------
// Executable pipeline: dedup, filter, sort.
// ---------------------------------------------------------------------------

/// Whether two optional full names are the same.
fn opt_name_eq(a: &Option<String>, b: &Option<String>) -> (r: bool)
    ensures
        r == (a.deep_view() == b.deep_view()),
{
    match (a, b) {
        (None, None) => true,
        (Some(x), Some(y)) => x.eq(y),
        _ => false,
    }
}

/// Whether some record in `v` carries the full name `n`.
fn holds_name(v: &Vec<RepositoryRecord>, n: &Option<String>) -> (r: bool)
    ensures
        r == contains_name(v.deep_view(), n.deep_view()),
{
    let mut i: usize = 0;
    while i < v.len()
        invariant
            0 <= i <= v.len(),
            forall|k: int| 0 <= k < i ==> v.deep_view()[k].full_name != n.deep_view(),
        decreases v.len() - i,
    {
        if opt_name_eq(&v[i].full_name, n) {
            assert(v.deep_view()[i as int].full_name == n.deep_view());
            return true;
        }
        i += 1;
    }
    false
}

/// Keeps, of several records sharing a full name, the first.
fn dedup_records(all: Vec<RepositoryRecord>) -> (r: Vec<RepositoryRecord>)
    ensures
        r.deep_view() == dedup_by_full_name(all.deep_view()),
{
    let mut out: Vec<RepositoryRecord> = Vec::new();
    let mut i: usize = 0;
    proof {
        assert(out.deep_view() =~= dedup_by_full_name(all.deep_view().take(0)));
    }
    while i < all.len()
        invariant
            0 <= i <= all.len(),
            out.deep_view() == dedup_by_full_name(all.deep_view().take(i as int)),
        decreases all.len() - i,
    {
        let ghost prefix = all.deep_view().take(i as int);
        proof {
            assert(all.deep_view().take(i + 1).drop_last() =~= prefix);
            assert(all.deep_view().take(i + 1).last() == all.deep_view()[i as int]);
        }
        if !holds_name(&out, &all[i].full_name) {
            let rec = all[i].clone();
            out.push(rec);
        }
        i += 1;
    }
    proof {
        assert(all.deep_view().take(all.deep_view().len() as int) =~= all.deep_view());
    }
    out
}

/// Whether this record is eligible for the final list.
pub fn is_eligible(r: &RepositoryRecord) -> (b: bool)
    ensures
        b == eligible(r@),
{
    let name_ok = match &r.full_name {
        Some(n) => !n.as_str().is_empty(),
        None => false,
    };
    let archived_ok = match r.archived {
        Some(a) => !a,
        None => false,
    };
    name_ok && archived_ok
}

/// Keeps the eligible records, in order.
fn filter_eligible(v: Vec<RepositoryRecord>) -> (r: Vec<RepositoryRecord>)
    ensures
        r.deep_view() == eligible_only(v.deep_view()),
{
    let mut out: Vec<RepositoryRecord> = Vec::new();
    let mut i: usize = 0;
    proof {
        reveal(Seq::filter);
        assert(out.deep_view() =~= eligible_only(v.deep_view().take(0)));
    }
    while i < v.len()
        invariant
            0 <= i <= v.len(),
            out.deep_view() == eligible_only(v.deep_view().take(i as int)),
        decreases v.len() - i,
    {
        proof {
            reveal(Seq::filter);
            assert(v.deep_view().take(i + 1).drop_last() =~= v.deep_view().take(i as int));
            assert(v.deep_view().take(i + 1).last() == v.deep_view()[i as int]);
        }
        if is_eligible(&v[i]) {
            let rec = v[i].clone();
            out.push(rec);
        }
        i += 1;
    }
    proof {
        assert(v.deep_view().take(v.deep_view().len() as int) =~= v.deep_view());
    }
    out
}

/// Lexicographic comparison of two strings by code point.
pub fn str_lex_le(a: &str, b: &str) -> (r: bool)
    ensures
        r == lex_le(a@, b@),
{
    let an = a.unicode_len();
    let bn = b.unicode_len();
    let mut i: usize = 0;
    proof {
        assert(a@.skip(0) =~= a@);
        assert(b@.skip(0) =~= b@);
    }
    loop
        invariant_except_break
            0 <= i <= an,
            i <= bn,
            an == a@.len(),
            bn == b@.len(),
            lex_le(a@, b@) == lex_le(a@.skip(i as int), b@.skip(i as int)),
        ensures
            lex_le(a@, b@),
        decreases an - i,
    {
        if i == an {
            proof {
                assert(a@.skip(i as int).len() == 0);
            }
            break;
        }
        if i == bn {
            proof {
                assert(b@.skip(i as int).len() == 0);
                assert(a@.skip(i as int).len() > 0);
            }
            return false;
        }
        let ca = a.get_char(i) as u32;
        let cb = b.get_char(i) as u32;
        proof {
            assert(a@.skip(i as int)[0] == a@[i as int]);
            assert(b@.skip(i as int)[0] == b@[i as int]);
            assert(a@.skip(i as int).drop_first() =~= a@.skip(i + 1));
            assert(b@.skip(i as int).drop_first() =~= b@.skip(i + 1));
        }
        if ca < cb {
            return true;
        }
        if ca > cb {
            return false;
        }
        i += 1;
    }
    true
}

/// Order on records used for sorting: by full name.
fn record_le(a: &RepositoryRecord, b: &RepositoryRecord) -> (r: bool)
    ensures
        r == name_le(a@, b@),
{
    let empty = "";
    let an: &str = match &a.full_name {
        Some(n) => n.as_str(),
        None => empty,
    };
    let bn: &str = match &b.full_name {
        Some(n) => n.as_str(),
        None => empty,
    };
    proof {
        reveal_strlit("");
        assert(empty@ =~= Seq::<char>::empty());
        assert(an@ == sort_name(a@));
        assert(bn@ == sort_name(b@));
    }
    str_lex_le(an, bn)
}

/// Insertion sort by full name.
fn sort_records(v: Vec<RepositoryRecord>) -> (out: Vec<RepositoryRecord>)
    ensures
        sorted_by_name(out.deep_view()),
        out.deep_view().to_multiset() == v.deep_view().to_multiset(),
{
    broadcast use vstd::seq_lib::group_to_multiset_ensures;

    let ghost leq = |a: RecordView, b: RecordView| name_le(a, b);
    let mut rest = v;
    let mut out: Vec<RepositoryRecord> = Vec::new();
    proof {
        assert(out.deep_view() =~= Seq::<RecordView>::empty());
        assert(out.deep_view().to_multiset().add(rest.deep_view().to_multiset()) =~= v.deep_view()
            .to_multiset());
    }
    while rest.len() > 0
        invariant
            sorted_by(out.deep_view(), leq),
            out.deep_view().to_multiset().add(rest.deep_view().to_multiset()) == v.deep_view()
                .to_multiset(),
            leq == (|a: RecordView, b: RecordView| name_le(a, b)),
        decreases rest.len(),
    {
        let ghost old_rest = rest.deep_view();
        let ghost old_out = out.deep_view();
        let x = rest.remove(0);
        proof {
            broadcast use vstd::multiset::group_multiset_axioms;

            assert(rest.deep_view() =~= old_rest.remove(0));
            to_multiset_remove(old_rest, 0);
            to_multiset_contains(old_rest, old_rest[0]);
            assert(old_rest.contains(old_rest[0]));
            assert(old_rest.to_multiset().count(old_rest[0]) > 0);
            assert(rest.deep_view().to_multiset().insert(x@) =~= old_rest.to_multiset());
        }
        let mut j: usize = 0;
        loop
            invariant
                0 <= j <= out.len(),
                forall|k: int| 0 <= k < j ==> leq(out.deep_view()[k], x@),
                leq == (|a: RecordView, b: RecordView| name_le(a, b)),
            ensures
                0 <= j <= out.len(),
                forall|k: int| 0 <= k < j ==> leq(out.deep_view()[k], x@),
                j < out.len() ==> !leq(out.deep_view()[j as int], x@),
            decreases out.len() - j,
        {
            if j == out.len() {
                break;
            }
            if !record_le(&out[j], &x) {
                break;
            }
            j += 1;
        }
        proof {
            if j < out.deep_view().len() {
                assert(!leq(out.deep_view()[j as int], x@));
                lemma_lex_le_total(sort_name(out.deep_view()[j as int]), sort_name(x@));
                assert(leq(x@, out.deep_view()[j as int]));
            }
        }
        out.insert(j, x);
        proof {
            let new_out = out.deep_view();
            assert(new_out =~= old_out.insert(j as int, x@));
            assert forall|p: int, q: int| 0 <= p < q < new_out.len() implies leq(
                new_out[p],
                new_out[q],
            ) by {
                let xj = j as int;
                if p < xj && q == xj {
                } else if p == xj && q > xj {
                    assert(leq(x@, old_out[xj]));
                    assert(lex_le(sort_name(x@), sort_name(old_out[xj])));
                    if q - 1 > xj {
                        assert(leq(old_out[xj], old_out[q - 1]));
                        assert(lex_le(sort_name(old_out[xj]), sort_name(old_out[q - 1])));
                        lemma_lex_le_trans(
                            sort_name(x@),
                            sort_name(old_out[xj]),
                            sort_name(old_out[q - 1]),
                        );
                    }
                    assert(leq(new_out[p], new_out[q]));
                } else if p < xj && q > xj {
                    assert(leq(old_out[p], old_out[q - 1]));
                } else if p > xj && q > xj {
                    assert(leq(old_out[p - 1], old_out[q - 1]));
                }
            }
            broadcast use vstd::multiset::group_multiset_axioms;

            to_multiset_insert(old_out, j as int, x@);
            assert(new_out.to_multiset() == old_out.to_multiset().insert(x@));
            assert(new_out.to_multiset().add(rest.deep_view().to_multiset()) =~= v.deep_view()
                .to_multiset());
        }
    }
    proof {
        assert(rest.deep_view() =~= Seq::<RecordView>::empty());
        assert(out.deep_view().to_multiset().add(Multiset::<RecordView>::empty()) =~= out.deep_view()
            .to_multiset());
        assert forall|i: int, j: int| 0 <= i < j < out.deep_view().len() implies name_le(
            #[trigger] out.deep_view()[i],
            #[trigger] out.deep_view()[j],
        ) by {
            assert(leq(out.deep_view()[i], out.deep_view()[j]));
        }
    }
    out
}

/// What the combined result list holds: owned records first, then starred,
/// deduplicated by full name with the first occurrence winning (so an owned
/// record shadows a starred one with the same full name), then restricted to
/// eligible records.
pub open spec fn combined_records(owned: Seq<RecordView>, starred: Seq<RecordView>) -> Seq<
    RecordView,
> {
    eligible_only(dedup_by_full_name(owned + starred))
}

/// Merges the owned and the starred repository lists into the final list:
/// concatenated owned-then-starred, deduplicated by full name (first seen
/// wins, so owned beats starred), filtered to eligible records, and sorted
/// ascending by full name. Together with the distinctness of full names the
/// three conditions determine the result list uniquely
/// (`lemma_sorted_distinct_names_unique`).
pub fn combine(owned: Vec<RepositoryRecord>, starred: Vec<RepositoryRecord>) -> (r: Vec<
    RepositoryRecord,
>)
    ensures
        sorted_by_name(r.deep_view()),
        distinct_full_names(r.deep_view()),
        r.deep_view().to_multiset() == combined_records(
            owned.deep_view(),
            starred.deep_view(),
        ).to_multiset(),
        forall|i: int| 0 <= i < r.deep_view().len() ==> eligible(#[trigger] r.deep_view()[i]),
{
    let ghost owned_view = owned.deep_view();
    let ghost starred_view = starred.deep_view();
    let mut all = owned;
    let mut starred = starred;
    all.append(&mut starred);
    proof {
        assert(all.deep_view() =~= owned_view + starred_view);
    }
    let deduped = dedup_records(all);
    let filtered = filter_eligible(deduped);
    let ghost filtered_view = filtered.deep_view();
    let sorted = sort_records(filtered);
    proof {
        broadcast use vstd::seq_lib::group_to_multiset_ensures;

        let ghost dedup_view = dedup_by_full_name(owned_view + starred_view);
        lemma_dedup_distinct(owned_view + starred_view);
        lemma_filter_distinct(dedup_view);
        lemma_eligible_only_props(dedup_view);
        lemma_multiset_distinct_names(filtered_view, sorted.deep_view());
        assert forall|i: int| 0 <= i < sorted.deep_view().len() implies eligible(
            #[trigger] sorted.deep_view()[i],
        ) by {
            let x = sorted.deep_view()[i];
            assert(sorted.deep_view().contains(x));
            assert(filtered_view.to_multiset().count(x) > 0);
            assert(filtered_view.contains(x));
            let k = filtered_view.lemma_contains_to_index(x);
        }
    }
    sorted
}

/// How long a starred-repositories snapshot stays fresh, in seconds.
pub const STARRED_TTL_SECS: i64 = 3600;

/// How long the combined result snapshot stays fresh, in seconds.
pub const COMBINED_TTL_SECS: u64 = 86400;

/// How the owned repositories are to be fetched.
#[derive(Debug, PartialEq, Eq, Structural, Clone, Copy)]
pub enum OwnedFetchPlan {
    /// A snapshot exists: fetch only what changed since its watermark and
    /// merge; the watermark is the snapshot's modification time, as seconds
    /// since the epoch.
    Incremental { watermark: i64 },
    /// No usable snapshot, or the caller forces a bypass: fetch everything.
    Full,
}

/// Decides the owned-repositories fetch. `snapshot` carries the watermark of
/// a readable snapshot, or nothing when the snapshot is missing or unreadable
/// (an unreadable snapshot counts as a cache miss, never as an error).
pub fn plan_owned_fetch(snapshot: Option<i64>, force_bypass_cache: bool) -> (p: OwnedFetchPlan)
    ensures
        match snapshot {
            Some(watermark) => p == if force_bypass_cache {
                OwnedFetchPlan::Full
            } else {
                OwnedFetchPlan::Incremental { watermark }
            },
            None => p == OwnedFetchPlan::Full,
        },
{
    match snapshot {
        Some(watermark) => {
            if force_bypass_cache {
                OwnedFetchPlan::Full
            } else {
                OwnedFetchPlan::Incremental { watermark }
            }
        },
        None => OwnedFetchPlan::Full,
    }
}

/// Merges an old owned-repositories snapshot with an incremental fetch:
/// old records first, then the newly fetched ones, restricted to eligible
/// records and deduplicated by full name with the first copy winning. A
/// record already in the snapshot therefore keeps its snapshot fields even
/// when the fetch returned a newer copy; only new full names gain entries.
pub fn merge_owned(old_records: Vec<RepositoryRecord>, new_records: Vec<RepositoryRecord>) -> (r:
    Vec<RepositoryRecord>)
    ensures
        r.deep_view() == dedup_by_full_name(
            eligible_only(old_records.deep_view() + new_records.deep_view()),
        ),
{
    let ghost old_view = old_records.deep_view();
    let ghost new_view = new_records.deep_view();
    let mut all = old_records;
    let mut tail = new_records;
    all.append(&mut tail);
    proof {
        assert(all.deep_view() =~= old_view + new_view);
    }
    let kept = filter_eligible(all);
    dedup_records(kept)
}

/// A starred-repositories snapshot is fresh while younger than the TTL:
/// strictly less than `ttl_secs` seconds between its watermark and now. A
/// snapshot exactly `ttl_secs` old is stale and triggers a fetch. A forced
/// bypass never uses the snapshot.
pub fn starred_cache_is_fresh(
    now_secs: i64,
    watermark_secs: i64,
    ttl_secs: i64,
    force_bypass_cache: bool,
) -> (fresh: bool)
    requires
        i64::MIN <= now_secs - watermark_secs <= i64::MAX,
    ensures
        fresh == (!force_bypass_cache && now_secs - watermark_secs < ttl_secs),
{
    !force_bypass_cache && now_secs - watermark_secs < ttl_secs
}

/// The combined result snapshot is fresh while its age is strictly below
/// `COMBINED_TTL_SECS`; a forced bypass never uses it.
pub fn combined_cache_is_fresh(age_secs: u64, force_bypass_cache: bool) -> (fresh: bool)
    ensures
        fresh == (!force_bypass_cache && age_secs < COMBINED_TTL_SECS),
{
    !force_bypass_cache && age_secs < 86400
}

// ---------------------------------------------------------------------------
// Result synthesis: from repository records to launcher entries.
// ---------------------------------------------------------------------------

/// A record can become an entry only with a full name, a canonical URL and
/// an owner login; one missing any of these is silently dropped.
pub open spec fn has_required(r: RecordView) -> bool {
    &&& r.full_name is Some
    &&& r.html_url is Some
    &&& r.owner is Some
}

/// The entry a record becomes: title and search tokens from the full name,
/// identifier and launch argument from the canonical URL, subtitle from the
/// description, an owner-keyed icon, the record's coordinates as variables,
/// a wiki link under the alt modifier and a switch to the pull-request view
/// under the cmd modifier.
pub open spec fn item_of(r: RecordView, cache_dir: Seq<char>) -> ItemView {
    let full_name = r.full_name->0;
    let html_url = r.html_url->0;
    let owner = r.owner->0;
    ItemView {
        title: full_name,
        subtitle: r.description,
        uid: Some(html_url),
        arg: html_url,
        html_url: None,
        matches: Some(join_sep(tokenize_spec(full_name), ' ')),
        icon: Some(IconView { path: icon_path_spec(cache_dir, owner) }),
        variables: Some(
            seq![
                ("full_name"@, VarView::Str(full_name)),
                ("html_url"@, VarView::Str(html_url)),
                ("name"@, VarView::Str(r.name)),
                ("owner"@, VarView::Str(owner)),
            ],
        ),
        mods: Some(
            ModifiersView {
                alt: Some(
                    ModifierView {
                        arg: Some(html_url + "/wiki"@),
                        subtitle: Some("View GitHub Wiki"@),
                        variables: None,
                    },
                ),
                cmd: Some(
                    ModifierView {
                        arg: None,
                        subtitle: Some("View Pull Requests"@),
                        variables: Some(
                            seq![
                                ("action"@, VarView::Str("pulls"@)),
                                ("full_name"@, VarView::Str(full_name)),
                                ("html_url"@, VarView::Str(html_url)),
                            ],
                        ),
                    },
                ),
                ctrl: None,
                fun: None,
                shift: None,
            },
        ),
    }
}

/// The entries a record list synthesizes to: one per record that carries all
/// required fields, in order.
pub open spec fn synth_spec(s: Seq<RecordView>, cache_dir: Seq<char>) -> Seq<ItemView> {
    s.filter(|r: RecordView| has_required(r)).map_values(|r: RecordView| item_of(r, cache_dir))
}

/// Synthesis treats each record independently: the last record contributes
/// its entry exactly when it carries the required fields.
proof fn lemma_synth_step(s: Seq<RecordView>, cache_dir: Seq<char>)
    requires
        s.len() > 0,
    ensures
        synth_spec(s, cache_dir) == (if has_required(s.last()) {
            synth_spec(s.drop_last(), cache_dir).push(item_of(s.last(), cache_dir))
        } else {
            synth_spec(s.drop_last(), cache_dir)
        }),
{
    reveal(Seq::filter);
    let t = s.drop_last();
    if has_required(s.last()) {
        assert(synth_spec(s, cache_dir) =~= synth_spec(t, cache_dir).push(
            item_of(s.last(), cache_dir),
        ));
    } else {
        assert(synth_spec(s, cache_dir) =~= synth_spec(t, cache_dir));
    }
}

/// Builds the launcher entry for one record, or nothing when the record
/// misses a required field.
pub fn repository_to_item(r: &RepositoryRecord, cache_dir: &str) -> (out: Option<Item>)
    ensures
        out.deep_view() == (if has_required(r@) {
            Some(item_of(r@, cache_dir@))
        } else {
            None::<ItemView>
        }),
{
    let full_name = match &r.full_name {
        Some(s) => s.clone(),
        None => {
            return None;
        },
    };
    let html_url = match &r.html_url {
        Some(s) => s.clone(),
        None => {
            return None;
        },
    };
    let owner = match &r.owner {
        Some(s) => s.clone(),
        None => {
            return None;
        },
    };
    let tokens = tokenize(full_name.as_str());
    let matches = join_with(&tokens, ' ');
    let icon = AuthorIcon::from_str(owner.as_str()).into_icon(cache_dir);
    let mut wiki = html_url.clone();
    wiki.append("/wiki");

    let mut vars: Vec<(String, VarValue)> = Vec::new();
    vars.push((String::from_str("full_name"), VarValue::Str(full_name.clone())));
    vars.push((String::from_str("html_url"), VarValue::Str(html_url.clone())));
    vars.push((String::from_str("name"), VarValue::Str(r.name.clone())));
    vars.push((String::from_str("owner"), VarValue::Str(owner.clone())));
    proof {
        assert(vars_view(vars@) =~~= seq![
            ("full_name"@, VarView::Str(r@.full_name->0)),
            ("html_url"@, VarView::Str(r@.html_url->0)),
            ("name"@, VarView::Str(r@.name)),
            ("owner"@, VarView::Str(r@.owner->0)),
        ]);
    }

    let mut cmd_vars: Vec<(String, VarValue)> = Vec::new();
    cmd_vars.push((String::from_str("action"), VarValue::Str(String::from_str("pulls"))));
    cmd_vars.push((String::from_str("full_name"), VarValue::Str(full_name.clone())));
    cmd_vars.push((String::from_str("html_url"), VarValue::Str(html_url.clone())));
    proof {
        assert(vars_view(cmd_vars@) =~~= seq![
            ("action"@, VarView::Str("pulls"@)),
            ("full_name"@, VarView::Str(r@.full_name->0)),
            ("html_url"@, VarView::Str(r@.html_url->0)),
        ]);
    }

    let mods = Modifiers {
        alt: Some(
            Modifier {
                arg: Some(wiki),
                subtitle: Some(String::from_str("View GitHub Wiki")),
                variables: None,
            },
        ),
        cmd: Some(
            Modifier {
                arg: None,
                subtitle: Some(String::from_str("View Pull Requests")),
                variables: Some(cmd_vars),
            },
        ),
        ctrl: None,
        fun: None,
        shift: None,
    };

    let item = Item {
        title: full_name,
        subtitle: clone_opt_string(&r.description),
        uid: Some(html_url.clone()),
        arg: html_url,
        html_url: None,
        matches: Some(matches),
        icon: Some(icon),
        variables: Some(vars),
        mods: Some(mods),
    };
    proof {
        assert(item@ =~~= item_of(r@, cache_dir@));
    }
    Some(item)
}

/// Synthesizes the launcher's result list from a record list: one entry per
/// record carrying all required fields, in the records' order; records
/// missing a field are dropped silently, never an error.
pub fn synthesize(records: &Vec<RepositoryRecord>, cache_dir: &str) -> (out: Items)
    ensures
        out@ == synth_spec(records.deep_view(), cache_dir@),
{
    let mut items: Vec<Item> = Vec::new();
    let mut i: usize = 0;
    proof {
        reveal(Seq::filter);
        assert(items.deep_view() =~= synth_spec(records.deep_view().take(0), cache_dir@));
    }
    while i < records.len()
        invariant
            0 <= i <= records.len(),
            items.deep_view() == synth_spec(records.deep_view().take(i as int), cache_dir@),
        decreases records.len() - i,
    {
        let ghost prefix = records.deep_view().take(i as int);
        proof {
            assert(records.deep_view().take(i + 1).drop_last() =~= prefix);
            assert(records.deep_view().take(i + 1).last() == records.deep_view()[i as int]);
            lemma_synth_step(records.deep_view().take(i + 1), cache_dir@);
        }
        match repository_to_item(&records[i], cache_dir) {
            Some(item) => {
                items.push(item);
            },
            None => {},
        }
        proof {
            assert(items.deep_view() =~= synth_spec(records.deep_view().take(i + 1), cache_dir@));
        }
        i += 1;
    }
    proof {
        assert(records.deep_view().take(records.deep_view().len() as int) =~= records.deep_view());
    }
    Items { items }
}

// ---------------------------------------------------------------------------
// Properties of the pipeline's pieces.
// ---------------------------------------------------------------------------

/// `eligible_only` keeps exactly the eligible records: every kept record is
/// eligible, every eligible record of the input is kept, and nothing else is.
pub proof fn lemma_eligible_only_props(s: Seq<RecordView>)
    ensures
        forall|i: int|
            0 <= i < eligible_only(s).len() ==> eligible(#[trigger] eligible_only(s)[i]),
        forall|r: RecordView| s.contains(r) && eligible(r) ==> eligible_only(s).contains(r),
        forall|r: RecordView| #[trigger] eligible_only(s).contains(r) ==> s.contains(r),
    decreases s.len(),
{
    reveal(Seq::filter);
    if s.len() == 0 {
    } else {
        let t = s.drop_last();
        lemma_eligible_only_props(t);
        assert forall|r: RecordView| s.contains(r) && eligible(r) implies eligible_only(
            s,
        ).contains(r) by {
            let i = choose|i: int| 0 <= i < s.len() && s[i] == r;
            if i < s.len() - 1 {
                assert(t[i] == r);
                assert(eligible_only(t).contains(r));
                let k = eligible_only(t).lemma_contains_to_index(r);
                if eligible(s.last()) {
                    assert(eligible_only(s)[k] == r);
                } else {
                    assert(eligible_only(s)[k] == r);
                }
            } else {
                assert(s.last() == r);
                assert(eligible_only(s).last() == r);
            }
        }
        assert forall|r: RecordView| #[trigger] eligible_only(s).contains(r) implies s.contains(
            r,
        ) by {
            let k = choose|k: int| 0 <= k < eligible_only(s).len() && eligible_only(s)[k] == r;
            if k < eligible_only(t).len() {
                assert(eligible_only(t)[k] == r);
                assert(eligible_only(t).contains(r));
                assert(t.contains(r));
                let i = t.lemma_contains_to_index(r);
                assert(s[i] == r);
            } else {
                assert(r == s.last());
                assert(s[s.len() - 1] == r);
            }
        }
    }
}

/// Filtering keeps full names distinct.
pub proof fn lemma_filter_distinct(s: Seq<RecordView>)
    requires
        distinct_full_names(s),
    ensures
        distinct_full_names(eligible_only(s)),
{
    lemma_eligible_only_props(s);
    let f = eligible_only(s);
    assert forall|i: int, j: int| 0 <= i < j < f.len() implies f[i].full_name
        != f[j].full_name by {
        assert(f.contains(f[i]));
        assert(f.contains(f[j]));
        assert(s.contains(f[i]));
        assert(s.contains(f[j]));
        let p = s.lemma_contains_to_index(f[i]);
        if f[i] == f[j] {
            lemma_count_at_least_two(f, i, j);
            lemma_filter_le_multiset(s);
            assert(f.to_multiset().count(f[i]) <= s.to_multiset().count(f[i]));
            let (p2, q2) = lemma_two_indices_from_count(s, f[i]);
            if p2 < q2 {
                assert(s[p2].full_name != s[q2].full_name);
            } else {
                assert(s[q2].full_name != s[p2].full_name);
            }
        } else {
            let q = s.lemma_contains_to_index(f[j]);
            assert(p != q);
            if p < q {
                assert(s[p].full_name != s[q].full_name);
            } else {
                assert(s[q].full_name != s[p].full_name);
            }
        }
    }
}

/// A sequence with two positions holding `x` counts `x` at least twice.
proof fn lemma_count_at_least_two(s: Seq<RecordView>, i: int, j: int)
    requires
        0 <= i < j < s.len(),
        s[i] == s[j],
    ensures
        s.to_multiset().count(s[i]) >= 2,
{
    broadcast use vstd::seq_lib::group_to_multiset_ensures;
    broadcast use vstd::multiset::group_multiset_axioms;

    let x = s[i];
    let t = s.remove(i);
    assert(t[j - 1] == x);
    assert(t.contains(x));
    assert(t.to_multiset().count(x) > 0);
    assert(t.to_multiset() == s.to_multiset().remove(x));
}

/// A record counted at least twice sits at two distinct positions.
proof fn lemma_two_indices_from_count(s: Seq<RecordView>, x: RecordView) -> (r: (int, int))
    requires
        s.to_multiset().count(x) >= 2,
    ensures
        0 <= r.0 < s.len(),
        0 <= r.1 < s.len(),
        r.0 != r.1,
        s[r.0] == x,
        s[r.1] == x,
{
    broadcast use vstd::seq_lib::group_to_multiset_ensures;
    broadcast use vstd::multiset::group_multiset_axioms;

    assert(s.contains(x));
    let p = s.lemma_contains_to_index(x);
    let t = s.remove(p);
    assert(t.to_multiset() == s.to_multiset().remove(x));
    assert(t.to_multiset().count(x) >= 1);
    assert(t.contains(x));
    let q = t.lemma_contains_to_index(x);
    if q < p {
        assert(s[q] == x);
        (p, q)
    } else {
        assert(s[q + 1] == x);
        (p, q + 1)
    }
}

/// Every record counts no more often in the filtered sequence than in the
/// original.
proof fn lemma_filter_le_multiset(s: Seq<RecordView>)
    ensures
        forall|x: RecordView|
            eligible_only(s).to_multiset().count(x) <= #[trigger] s.to_multiset().count(x),
    decreases s.len(),
{
    broadcast use vstd::seq_lib::group_to_multiset_ensures;
    broadcast use vstd::multiset::group_multiset_axioms;

    reveal(Seq::filter);
    if s.len() > 0 {
        let t = s.drop_last();
        lemma_filter_le_multiset(t);
        assert(t.push(s.last()) =~= s);
        assert(s.to_multiset() == t.to_multiset().insert(s.last()));
        if eligible(s.last()) {
            assert(eligible_only(s) == eligible_only(t).push(s.last()));
            assert(eligible_only(s).to_multiset() == eligible_only(t).to_multiset().insert(
                s.last(),
            ));
        }
    }
}

/// Deduplication leaves no two records with the same full name, and keeps
/// exactly the full names of the input.
pub proof fn lemma_dedup_distinct(s: Seq<RecordView>)
    ensures
        distinct_full_names(dedup_by_full_name(s)),
        forall|n: Option<Seq<char>>|
            #[trigger] contains_name(dedup_by_full_name(s), n) <==> contains_name(s, n),
    decreases s.len(),
{
    if s.len() > 0 {
        let t = s.drop_last();
        lemma_dedup_distinct(t);
        let d = dedup_by_full_name(t);
        let out = dedup_by_full_name(s);
        assert forall|n: Option<Seq<char>>| #[trigger]
            contains_name(out, n) implies contains_name(s, n) by {
            let i = choose|i: int| 0 <= i < out.len() && out[i].full_name == n;
            if i < d.len() {
                assert(contains_name(d, n));
                assert(contains_name(t, n));
                let k = choose|k: int| 0 <= k < t.len() && t[k].full_name == n;
                assert(s[k].full_name == n);
            } else {
                assert(out[i] == s.last());
                assert(s[s.len() - 1].full_name == n);
            }
        }
        assert forall|n: Option<Seq<char>>|
            contains_name(s, n) implies #[trigger] contains_name(out, n) by {
            let i = choose|i: int| 0 <= i < s.len() && s[i].full_name == n;
            if i < s.len() - 1 {
                assert(t[i].full_name == n);
                assert(contains_name(t, n));
                assert(contains_name(d, n));
                let k = choose|k: int| 0 <= k < d.len() && d[k].full_name == n;
                assert(out[k].full_name == n);
            } else {
                let n2 = s.last().full_name;
                if contains_name(d, n2) {
                    assert(out == d);
                    assert(contains_name(out, n));
                } else {
                    assert(out[out.len() - 1].full_name == n);
                }
            }
        }
        if !contains_name(d, s.last().full_name) {
            assert forall|i: int, j: int| 0 <= i < j < out.len() implies out[i].full_name
                != out[j].full_name by {
                if j < d.len() {
                } else {
                    assert(out[j] == s.last());
                    assert(out[i] == d[i]);
                    assert(contains_name(d, d[i].full_name));
                }
            }
        }
    }
}

/// A record survives deduplication exactly when it is the first record of
/// its full name in the input.
pub proof fn lemma_dedup_elements(s: Seq<RecordView>)
    ensures
        forall|r: RecordView| #[trigger]
            dedup_by_full_name(s).contains(r) <==> exists|i: int|
                0 <= i < s.len() && s[i] == r && (forall|k: int|
                    0 <= k < i ==> s[k].full_name != r.full_name),
    decreases s.len(),
{
    if s.len() > 0 {
        let t = s.drop_last();
        lemma_dedup_elements(t);
        lemma_dedup_distinct(t);
        let d = dedup_by_full_name(t);
        let out = dedup_by_full_name(s);
        assert forall|r: RecordView| #[trigger] out.contains(r) implies exists|i: int|
            0 <= i < s.len() && s[i] == r && (forall|k: int|
                0 <= k < i ==> s[k].full_name != r.full_name) by {
            let p = out.lemma_contains_to_index(r);
            if p < d.len() {
                assert(d[p] == r);
                assert(d.contains(r));
                let i = choose|i: int|
                    0 <= i < t.len() && t[i] == r && (forall|k: int|
                        0 <= k < i ==> t[k].full_name != r.full_name);
                assert(s[i] == r);
                assert forall|k: int| 0 <= k < i implies s[k].full_name != r.full_name by {
                    assert(t[k].full_name != r.full_name);
                }
            } else {
                assert(r == s.last());
                assert(!contains_name(d, r.full_name));
                assert(!contains_name(t, r.full_name));
                let i = s.len() - 1;
                assert forall|k: int| 0 <= k < i implies s[k].full_name != r.full_name by {
                    assert(t[k] == s[k]);
                    assert(0 <= k < t.len() && t[k].full_name == r.full_name ==> contains_name(
                        t,
                        r.full_name,
                    ));
                }
                assert(s[i] == r);
            }
        }
        assert forall|r: RecordView|
            exists|i: int|
                0 <= i < s.len() && s[i] == r && (forall|k: int|
                    0 <= k < i ==> s[k].full_name != r.full_name) implies #[trigger] out.contains(
            r,
        ) by {
            let i = choose|i: int|
                0 <= i < s.len() && s[i] == r && (forall|k: int|
                    0 <= k < i ==> s[k].full_name != r.full_name);
            if i < s.len() - 1 {
                assert(t[i] == r && (forall|k: int| 0 <= k < i ==> t[k].full_name != r.full_name));
                assert(d.contains(r));
                let p = d.lemma_contains_to_index(r);
                assert(out[p] == r);
            } else {
                assert(r == s.last());
                assert forall|k: int| 0 <= k < t.len() implies t[k].full_name
                    != r.full_name by {
                    assert(s[k] == t[k]);
                }
                assert(!contains_name(t, r.full_name));
                assert(!contains_name(d, r.full_name));
                assert(out == d.push(r));
                assert(out[out.len() - 1] == r);
            }
        }
    }
}

/// Deduplication leaves a list whose full names are already distinct alone.
pub proof fn lemma_dedup_identity(s: Seq<RecordView>)
    requires
        distinct_full_names(s),
    ensures
        dedup_by_full_name(s) == s,
    decreases s.len(),
{
    if s.len() > 0 {
        let t = s.drop_last();
        lemma_dedup_identity(t);
        assert(!contains_name(t, s.last().full_name)) by {
            if contains_name(t, s.last().full_name) {
                let i = choose|i: int| 0 <= i < t.len() && t[i].full_name == s.last().full_name;
                assert(s[i].full_name == s[s.len() - 1].full_name);
            }
        }
        assert(dedup_by_full_name(s) =~= s) by {
            assert(t.push(s.last()) =~= s);
        }
    }
}

/// The position of the first record with full name `n`.
pub open spec fn first_index_with_name(s: Seq<RecordView>, n: Option<Seq<char>>) -> int
    decreases s.len(),
{
    if s.len() == 0 {
        0
    } else if s[0].full_name == n {
        0
    } else {
        1 + first_index_with_name(s.drop_first(), n)
    }
}

/// The first record with full name `n`.
pub open spec fn first_with_name(s: Seq<RecordView>, n: Option<Seq<char>>) -> RecordView {
    s[first_index_with_name(s, n)]
}

/// When a record with full name `n` exists, `first_index_with_name` is the
/// least position holding one.
pub proof fn lemma_first_index_with_name(s: Seq<RecordView>, n: Option<Seq<char>>)
    requires
        contains_name(s, n),
    ensures
        0 <= first_index_with_name(s, n) < s.len(),
        s[first_index_with_name(s, n)].full_name == n,
        forall|k: int| 0 <= k < first_index_with_name(s, n) ==> s[k].full_name != n,
    decreases s.len(),
{
    if s[0].full_name == n {
    } else {
        let t = s.drop_first();
        assert(contains_name(t, n)) by {
            let i = choose|i: int| 0 <= i < s.len() && s[i].full_name == n;
            assert(t[i - 1].full_name == n);
        }
        lemma_first_index_with_name(t, n);
        let ft = first_index_with_name(t, n);
        assert forall|k: int| 0 <= k < 1 + ft implies s[k].full_name != n by {
            if k >= 1 {
                assert(t[k - 1].full_name != n);
            }
        }
    }
}

/// Two lists sorted by full name, with pairwise distinct full names, every
/// record carrying one, and the same records overall, are the same list.
pub proof fn lemma_sorted_distinct_names_unique(x: Seq<RecordView>, y: Seq<RecordView>)
    requires
        sorted_by_name(x),
        sorted_by_name(y),
        distinct_full_names(x),
        forall|i: int| 0 <= i < x.len() ==> (#[trigger] x[i]).full_name is Some,
        x.to_multiset() == y.to_multiset(),
    ensures
        x == y,
    decreases x.len(),
{
    broadcast use vstd::seq_lib::group_to_multiset_ensures;
    broadcast use vstd::multiset::group_multiset_axioms;

    if x.len() == 0 {
        assert(y.to_multiset().len() == 0);
        assert(x =~= y);
    } else {
        assert(x.to_multiset().len() == x.len());
        assert(y.to_multiset().len() == y.len());
        assert(y.len() == x.len());
        assert(x.contains(x[0]));
        assert(x.to_multiset().count(x[0]) > 0);
        assert(y.to_multiset().count(x[0]) > 0);
        assert(y.contains(x[0]));
        let i = y.lemma_contains_to_index(x[0]);
        assert(y.contains(y[0]));
        assert(x.to_multiset().count(y[0]) > 0);
        assert(x.contains(y[0]));
        let k = x.lemma_contains_to_index(y[0]);
        if i > 0 {
            assert(name_le(y[0], y[i]));
        } else {
            lemma_lex_le_refl(sort_name(y[0]));
        }
        assert(name_le(y[0], x[0]) || y[0] == x[0]);
        if k > 0 {
            assert(name_le(x[0], x[k]));
        } else {
            lemma_lex_le_refl(sort_name(x[0]));
        }
        assert(name_le(x[0], y[0]) || x[0] == y[0]);
        if x[0] != y[0] {
            lemma_lex_le_refl(sort_name(x[0]));
            lemma_lex_le_antisym(sort_name(x[0]), sort_name(y[0]));
            assert(sort_name(x[0]) == sort_name(y[0]));
            assert(x[k] == y[0]);
            assert(x[k].full_name is Some);
            assert(x[0].full_name == y[0].full_name);
            assert(k != 0);
            assert(x[0].full_name != x[k].full_name);
            assert(false);
        }
        assert(x[0] == y[0]);
        let xt = x.drop_first();
        let yt = y.drop_first();
        assert(x.remove(0) =~= xt);
        assert(y.remove(0) =~= yt);
        to_multiset_remove(x, 0);
        to_multiset_remove(y, 0);
        assert(xt.to_multiset() == yt.to_multiset());
        assert forall|p: int, q: int| 0 <= p < q < xt.len() implies name_le(
            #[trigger] xt[p],
            #[trigger] xt[q],
        ) && xt[p].full_name != xt[q].full_name by {
            assert(xt[p] == x[p + 1]);
            assert(xt[q] == x[q + 1]);
            assert(name_le(x[p + 1], x[q + 1]));
        }
        assert forall|p: int, q: int| 0 <= p < q < yt.len() implies name_le(
            #[trigger] yt[p],
            #[trigger] yt[q],
        ) by {
            assert(yt[p] == y[p + 1]);
            assert(yt[q] == y[q + 1]);
            assert(name_le(y[p + 1], y[q + 1]));
        }
        assert forall|p: int| 0 <= p < xt.len() implies (#[trigger] xt[p]).full_name is Some by {
            assert(xt[p] == x[p + 1]);
        }
        lemma_sorted_distinct_names_unique(xt, yt);
        assert(x =~= seq![x[0]] + xt);
        assert(y =~= seq![y[0]] + yt);
    }
}

/// Dedup idempotence across the two sources: when the owned and the starred
/// list both carry a record with full name `fname`, and the first owned copy
/// is eligible, the combined output holds exactly one entry under that full
/// name — the first copy from the owned list, never the starred one.
pub proof fn lemma_owned_wins(
    owned: Seq<RecordView>,
    starred: Seq<RecordView>,
    out: Seq<RecordView>,
    fname: Seq<char>,
)
    requires
        out.to_multiset() == combined_records(owned, starred).to_multiset(),
        contains_name(owned, Some(fname)),
        contains_name(starred, Some(fname)),
        eligible(first_with_name(owned, Some(fname))),
    ensures
        exists|i: int| 0 <= i < out.len() && out[i] == first_with_name(owned, Some(fname)),
        forall|i: int, j: int|
            0 <= i < out.len() && 0 <= j < out.len() && out[i].full_name == Some(fname)
                && out[j].full_name == Some(fname) ==> i == j,
{
    broadcast use vstd::seq_lib::group_to_multiset_ensures;
    broadcast use vstd::multiset::group_multiset_axioms;

    let s = owned + starred;
    let n = Some(fname);
    lemma_first_index_with_name(owned, n);
    let fi = first_index_with_name(owned, n);
    let w = first_with_name(owned, n);
    assert(s[fi] == owned[fi]);
    // w is also the first record named `fname` in the concatenation.
    assert forall|k: int| 0 <= k < fi implies s[k].full_name != n by {
        assert(s[k] == owned[k]);
    }
    // w survives deduplication.
    lemma_dedup_elements(s);
    let d = dedup_by_full_name(s);
    assert(0 <= fi < s.len() && s[fi] == w && (forall|k: int|
        0 <= k < fi ==> s[k].full_name != w.full_name));
    assert(d.contains(w));
    // w is eligible, so it survives the filter.
    lemma_eligible_only_props(d);
    assert(eligible_only(d).contains(w));
    // membership carries over to the output through the multiset.
    assert(eligible_only(d).to_multiset().count(w) > 0);
    assert(out.to_multiset().count(w) > 0);
    assert(out.contains(w));
    let i = out.lemma_contains_to_index(w);
    assert(0 <= i < out.len() && out[i] == w);
    // at most one entry under this name: output names are distinct.
    lemma_dedup_distinct(s);
    lemma_filter_distinct(d);
    lemma_multiset_distinct_names(eligible_only(d), out);
    assert forall|p: int, q: int|
        0 <= p < out.len() && 0 <= q < out.len() && out[p].full_name == Some(fname)
            && out[q].full_name == Some(fname) implies p == q by {
        if p < q {
            assert(out[p].full_name != out[q].full_name);
        } else if q < p {
            assert(out[q].full_name != out[p].full_name);
        }
    }
}

/// Filter correctness: every entry of the combined output is an eligible
/// record taken from one of the two sources. An archived record, or one
/// without a full name, never appears, whichever source produced it.
pub proof fn lemma_filter_correct(
    owned: Seq<RecordView>,
    starred: Seq<RecordView>,
    out: Seq<RecordView>,
    i: int,
)
    requires
        out.to_multiset() == combined_records(owned, starred).to_multiset(),
        0 <= i < out.len(),
    ensures
        eligible(out[i]),
        exists|k: int|
            0 <= k < (owned + starred).len() && (owned + starred)[k] == out[i],
{
    broadcast use vstd::seq_lib::group_to_multiset_ensures;
    broadcast use vstd::multiset::group_multiset_axioms;

    let s = owned + starred;
    let d = dedup_by_full_name(s);
    let x = out[i];
    assert(out.contains(x));
    assert(out.to_multiset().count(x) > 0);
    assert(eligible_only(d).to_multiset().count(x) > 0);
    assert(eligible_only(d).contains(x));
    lemma_eligible_only_props(d);
    let p = eligible_only(d).lemma_contains_to_index(x);
    assert(eligible(eligible_only(d)[p]));
    assert(d.contains(x));
    lemma_dedup_elements(s);
    let k = choose|k: int|
        0 <= k < s.len() && s[k] == x && (forall|m: int|
            0 <= m < k ==> s[m].full_name != x.full_name);
    assert(0 <= k < s.len() && s[k] == x);
}

/// Sort determinism: the combined output is a function of the set of input
/// records alone. Feeding the pipeline any reshuffling of the same records —
/// all full names distinct — yields the identical sorted list.
pub proof fn lemma_combine_deterministic(
    owned1: Seq<RecordView>,
    starred1: Seq<RecordView>,
    out1: Seq<RecordView>,
    owned2: Seq<RecordView>,
    starred2: Seq<RecordView>,
    out2: Seq<RecordView>,
)
    requires
        (owned1 + starred1).to_multiset() == (owned2 + starred2).to_multiset(),
        distinct_full_names(owned1 + starred1),
        sorted_by_name(out1),
        sorted_by_name(out2),
        out1.to_multiset() == combined_records(owned1, starred1).to_multiset(),
        out2.to_multiset() == combined_records(owned2, starred2).to_multiset(),
    ensures
        out1 == out2,
{
    broadcast use vstd::seq_lib::group_to_multiset_ensures;
    broadcast use vstd::multiset::group_multiset_axioms;

    let s1 = owned1 + starred1;
    let s2 = owned2 + starred2;
    lemma_multiset_distinct_names(s1, s2);
    lemma_dedup_identity(s1);
    lemma_dedup_identity(s2);
    lemma_eligible_only_props(s1);
    lemma_eligible_only_props(s2);
    let e1 = eligible_only(s1);
    let e2 = eligible_only(s2);
    // same membership on both sides
    assert forall|x: RecordView| #[trigger] e1.contains(x) implies e2.contains(x) by {
        let p = e1.lemma_contains_to_index(x);
        assert(eligible(e1[p]));
        assert(s1.contains(x));
        assert(s1.to_multiset().count(x) > 0);
        assert(s2.to_multiset().count(x) > 0);
        assert(s2.contains(x));
    }
    assert forall|x: RecordView| #[trigger] e2.contains(x) implies e1.contains(x) by {
        let p = e2.lemma_contains_to_index(x);
        assert(eligible(e2[p]));
        assert(s2.contains(x));
        assert(s2.to_multiset().count(x) > 0);
        assert(s1.to_multiset().count(x) > 0);
        assert(s1.contains(x));
    }
    // no duplicates on either side, so membership fixes the multisets
    lemma_filter_distinct(s1);
    lemma_filter_distinct(s2);
    assert(e1.no_duplicates()) by {
        assert forall|p: int, q: int|
            0 <= p < e1.len() && 0 <= q < e1.len() && p != q implies e1[p] != e1[q] by {
            if p < q {
                assert(e1[p].full_name != e1[q].full_name);
            } else {
                assert(e1[q].full_name != e1[p].full_name);
            }
        }
    }
    assert(e2.no_duplicates()) by {
        assert forall|p: int, q: int|
            0 <= p < e2.len() && 0 <= q < e2.len() && p != q implies e2[p] != e2[q] by {
            if p < q {
                assert(e2[p].full_name != e2[q].full_name);
            } else {
                assert(e2[q].full_name != e2[p].full_name);
            }
        }
    }
    e1.lemma_multiset_has_no_duplicates();
    e2.lemma_multiset_has_no_duplicates();
    assert(e1.to_multiset() =~= e2.to_multiset()) by {
        assert forall|x: RecordView|
            e1.to_multiset().count(x) == #[trigger] e2.to_multiset().count(x) by {
            if e1.to_multiset().count(x) > 0 {
                assert(e1.contains(x));
                assert(e2.contains(x));
                assert(e1.to_multiset().contains(x));
                assert(e2.to_multiset().contains(x));
            } else if e2.to_multiset().count(x) > 0 {
                assert(e2.contains(x));
                assert(e1.contains(x));
                assert(e1.to_multiset().count(x) > 0);
            }
        }
    }
    // both outputs share the multiset, names distinct, sorted: unique.
    lemma_multiset_distinct_names(e1, out1);
    assert forall|i: int| 0 <= i < out1.len() implies (#[trigger] out1[i]).full_name is Some by {
        let x = out1[i];
        assert(out1.contains(x));
        assert(out1.to_multiset().count(x) > 0);
        assert(e1.to_multiset().count(x) > 0);
        assert(e1.contains(x));
        let p = e1.lemma_contains_to_index(x);
        assert(eligible(e1[p]));
    }
    lemma_sorted_distinct_names_unique(out1, out2);
}

/// A synthesized entry is the image of some input record that carries the
/// required fields.
proof fn lemma_synth_elements(s: Seq<RecordView>, cache_dir: Seq<char>, i: int)
    requires
        0 <= i < synth_spec(s, cache_dir).len(),
    ensures
        exists|k: int|
            0 <= k < s.len() && has_required(#[trigger] s[k]) && synth_spec(s, cache_dir)[i]
                == item_of(s[k], cache_dir),
    decreases s.len(),
{
    reveal(Seq::filter);
    assert(s.len() > 0);
    let t = s.drop_last();
    lemma_synth_step(s, cache_dir);
    if i < synth_spec(t, cache_dir).len() {
        assert(synth_spec(t, cache_dir)[i] == synth_spec(s, cache_dir)[i]);
        lemma_synth_elements(t, cache_dir, i);
        let k = choose|k: int|
            0 <= k < t.len() && has_required(#[trigger] t[k]) && synth_spec(t, cache_dir)[i]
                == item_of(t[k], cache_dir);
        assert(s[k] == t[k]);
        assert(0 <= k < s.len() && has_required(s[k]) && synth_spec(s, cache_dir)[i] == item_of(
            s[k],
            cache_dir,
        ));
    } else {
        let k = s.len() - 1;
        assert(has_required(s[k]));
        assert(synth_spec(s, cache_dir)[i] == item_of(s[k], cache_dir));
    }
}

/// Filter correctness, seen from the synthesized output: every entry of the
/// synthesized combined list is the image of an eligible record of one of
/// the two sources. A record that is archived or has no full name never
/// yields an entry, whichever source carried it.
pub proof fn lemma_no_ineligible_entry(
    owned: Seq<RecordView>,
    starred: Seq<RecordView>,
    out: Seq<RecordView>,
    cache_dir: Seq<char>,
    i: int,
)
    requires
        out.to_multiset() == combined_records(owned, starred).to_multiset(),
        0 <= i < synth_spec(out, cache_dir).len(),
    ensures
        exists|k: int|
            0 <= k < (owned + starred).len() && eligible(#[trigger] (owned + starred)[k])
                && has_required((owned + starred)[k]) && synth_spec(out, cache_dir)[i] == item_of(
                (owned + starred)[k],
                cache_dir,
            ),
{
    lemma_synth_elements(out, cache_dir, i);
    let p = choose|p: int|
        0 <= p < out.len() && has_required(#[trigger] out[p]) && synth_spec(out, cache_dir)[i]
            == item_of(out[p], cache_dir);
    lemma_filter_correct(owned, starred, out, p);
    let k = choose|k: int| 0 <= k < (owned + starred).len() && (owned + starred)[k] == out[p];
    assert(0 <= k < (owned + starred).len() && eligible((owned + starred)[k]) && has_required(
        (owned + starred)[k],
    ) && synth_spec(out, cache_dir)[i] == item_of((owned + starred)[k], cache_dir));
}

/// A permutation keeps full names distinct.
pub proof fn lemma_multiset_distinct_names(a: Seq<RecordView>, b: Seq<RecordView>)
    requires
        a.to_multiset() == b.to_multiset(),
        distinct_full_names(a),
    ensures
        distinct_full_names(b),
{
    broadcast use vstd::seq_lib::group_to_multiset_ensures;
    broadcast use vstd::multiset::group_multiset_axioms;

    assert forall|i: int, j: int| 0 <= i < j < b.len() implies b[i].full_name
        != b[j].full_name by {
        if b[i] == b[j] {
            lemma_count_at_least_two(b, i, j);
            let (p2, q2) = lemma_two_indices_from_count(a, b[i]);
            if p2 < q2 {
                assert(a[p2].full_name != a[q2].full_name);
            } else {
                assert(a[q2].full_name != a[p2].full_name);
            }
        } else if b[i].full_name == b[j].full_name {
            assert(b.contains(b[i]));
            assert(b.contains(b[j]));
            assert(b.to_multiset().count(b[i]) > 0);
            assert(b.to_multiset().count(b[j]) > 0);
            assert(a.to_multiset().count(b[i]) > 0);
            assert(a.to_multiset().count(b[j]) > 0);
            assert(a.contains(b[i]));
            assert(a.contains(b[j]));
            let p = a.lemma_contains_to_index(b[i]);
            let q = a.lemma_contains_to_index(b[j]);
            assert(p != q);
            if p < q {
                assert(a[p].full_name != a[q].full_name);
            } else {
                assert(a[q].full_name != a[p].full_name);
            }
        }
    }
}

} // verus!
