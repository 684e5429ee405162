//! Search-token generation for launcher entries.
//!
//! A repository full name is broken into an ordered, duplicate-free list of
//! tokens: the full string first, then the owner and name halves, then every
//! non-empty part between separator characters, each in first-seen order.

pub mod models;

use vstd::prelude::*;
use vstd::string::*;
use crate::FullName;
use crate::parse_full_name;
use indexmap::IndexSet;

verus! {

/// The characters a full name is split on for search tokens.
pub open spec fn is_sep(c: char) -> bool {
    c == '-' || c == '.' || c == '_' || c == '/'
}

fn is_sep_char(c: char) -> (r: bool)
    ensures
        r == is_sep(c),
{
    c == '-' || c == '.' || c == '_' || c == '/'
}

/// The index of the first separator in `s`, or `s.len()` when there is none.
pub open spec fn find_sep(s: Seq<char>) -> nat
    decreases s.len(),
{
    if s.len() == 0 {
        0
    } else if is_sep(s[0]) {
        0
    } else {
        1 + find_sep(s.drop_first())
    }
}

/// `find_sep` points at the first separator, or past the end when `s` has
/// none.
pub proof fn lemma_find_sep(s: Seq<char>)
    ensures
        find_sep(s) <= s.len(),
        find_sep(s) < s.len() ==> is_sep(s[find_sep(s) as int]),
        forall|k: int| 0 <= k < find_sep(s) && k < s.len() ==> !is_sep(s[k]),
    decreases s.len(),
{
    if s.len() > 0 && !is_sep(s[0]) {
        let t = s.drop_first();
        lemma_find_sep(t);
        assert forall|k: int| 0 <= k < find_sep(s) && k < s.len() implies !is_sep(s[k]) by {
            if k >= 1 {
                assert(t[k - 1] == s[k]);
                assert(!is_sep(t[k - 1]));
            }
        }
    }
}

/// A position that holds a separator, with none before it, is where
/// `find_sep` points.
proof fn lemma_find_sep_at(s: Seq<char>, j: int)
    requires
        0 <= j < s.len(),
        is_sep(s[j]),
        forall|k: int| 0 <= k < j ==> !is_sep(s[k]),
    ensures
        find_sep(s) == j,
{
    lemma_find_sep(s);
    if find_sep(s) > j {
        assert(!is_sep(s[j]));
    }
    if find_sep(s) < j {
        assert(is_sep(s[find_sep(s) as int]));
    }
}

/// The parts of `s` between separators, in order; a part may be empty when
/// two separators touch or one sits at an end of the string.
pub open spec fn split_on_seps(s: Seq<char>) -> Seq<Seq<char>>
    decreases s.len(),
{
    let j = find_sep(s);
    if j >= s.len() {
        seq![s]
    } else {
        seq![s.take(j as int)] + split_on_seps(s.skip(j as int + 1))
    }
}

/// Appends `t` unless it is already present.
pub open spec fn push_new(acc: Seq<Seq<char>>, t: Seq<char>) -> Seq<Seq<char>> {
    if acc.contains(t) {
        acc
    } else {
        acc.push(t)
    }
}

/// Appends a split part: empty parts are dropped, present parts are not
/// repeated.
pub open spec fn push_new_part(acc: Seq<Seq<char>>, t: Seq<char>) -> Seq<Seq<char>> {
    if t.len() == 0 {
        acc
    } else {
        push_new(acc, t)
    }
}

/// Folds every split part into the token list, in order.
pub open spec fn add_parts(acc: Seq<Seq<char>>, parts: Seq<Seq<char>>) -> Seq<Seq<char>>
    decreases parts.len(),
{
    if parts.len() == 0 {
        acc
    } else {
        add_parts(push_new_part(acc, parts[0]), parts.drop_first())
    }
}

/// The tokens of a full name: the whole string, then its owner and name
/// halves when it parses as `owner/name`, then every non-empty part between
/// separators — each token once, in first-seen order.
pub open spec fn tokenize_spec(s: Seq<char>) -> Seq<Seq<char>> {
    let base = seq![s];
    let with_name = match parse_full_name(s) {
        Some((owner, name)) => push_new(push_new(base, owner), name),
        None => base,
    };
    add_parts(with_name, split_on_seps(s))
}

// ---------------------------------------------------------------------------
// The token store: an insertion-ordered set from the indexmap crate.
// ---------------------------------------------------------------------------

/// The insertion-ordered set type of the indexmap crate, declared so that
/// values of it can pass through verified signatures.
#[verifier::external_type_specification]
#[verifier::external_body]
#[verifier::reject_recursive_types(T)]
#[verifier::reject_recursive_types(S)]
pub struct ExIndexSet<T, S>(IndexSet<T, S>);

/// What an insertion-ordered string set holds, in insertion order.
pub uninterp spec fn token_set_contents(s: IndexSet<String>) -> Seq<Seq<char>>;

/// Relies on indexmap's `IndexSet::new`: creates an empty set.
#[verifier::external_body]
fn token_set_new() -> (s: IndexSet<String>)
    ensures
        token_set_contents(s) == Seq::<Seq<char>>::empty(),
{
    IndexSet::new()
}

/// Relies on indexmap's `IndexSet::insert`: appends the value at the end,
/// unless an equal string is already present, in which case the set keeps
/// its contents and order.
#[verifier::external_body]
fn token_set_insert(s: &mut IndexSet<String>, v: String)
    ensures
        token_set_contents(*final(s)) == (if token_set_contents(*old(s)).contains(v@) {
            token_set_contents(*old(s))
        } else {
            token_set_contents(*old(s)).push(v@)
        }),
{
    s.insert(v);
}

/// Relies on indexmap's `IndexSet::into_iter`: yields the elements in their
/// insertion order.
#[verifier::external_body]
fn token_set_into_vec(s: IndexSet<String>) -> (r: Vec<String>)
    ensures
        r.deep_view() == token_set_contents(s),
{
    s.into_iter().collect()
}

// ---------------------------------------------------------------------------
// Executable tokenizer.
// ---------------------------------------------------------------------------

/// Splits `s` at every separator character, keeping empty parts.
fn split_full(s: &str) -> (r: Vec<String>)
    ensures
        r.deep_view() == split_on_seps(s@),
{
    let n = s.unicode_len();
    let mut out: Vec<String> = Vec::new();
    let mut start: usize = 0;
    let mut i: usize = 0;
    proof {
        assert(s@.skip(0) =~= s@);
    }
    while i < n
        invariant
            0 <= start <= i <= n,
            n == s@.len(),
            forall|k: int| start <= k < i ==> !is_sep(s@[k]),
            split_on_seps(s@) == out.deep_view() + split_on_seps(s@.skip(start as int)),
        decreases n - i,
    {
        let c = s.get_char(i);
        if is_sep_char(c) {
            let part = s.substring_char(start, i);
            let ghost old_out = out.deep_view();
            out.push(part.to_owned());
            proof {
                let t = s@.skip(start as int);
                assert forall|k: int| 0 <= k < i - start implies !is_sep(t[k]) by {
                    assert(t[k] == s@[k + start]);
                }
                assert(t[i - start] == s@[i as int]);
                lemma_find_sep_at(t, i - start);
                assert(t.take(i - start) =~= part@);
                assert(t.skip(i - start + 1) =~= s@.skip(i + 1));
                assert(split_on_seps(t) == seq![part@] + split_on_seps(s@.skip(i + 1)));
                assert(out.deep_view() =~= old_out.push(part@));
                assert(old_out + (seq![part@] + split_on_seps(s@.skip(i + 1)))
                    =~= out.deep_view() + split_on_seps(s@.skip(i + 1)));
            }
            start = i + 1;
        }
        i += 1;
    }
    let part = s.substring_char(start, n);
    let ghost old_out = out.deep_view();
    out.push(part.to_owned());
    proof {
        let t = s@.skip(start as int);
        assert forall|k: int| 0 <= k < t.len() implies !is_sep(t[k]) by {
            assert(t[k] == s@[k + start]);
        }
        lemma_find_sep(t);
        assert(find_sep(t) >= t.len());
        assert(t =~= part@);
        assert(split_on_seps(t) == seq![part@]);
        assert(old_out + seq![part@] =~= out.deep_view());
    }
    out
}

/// The search tokens of `s`: the full string first, then — when `s` parses
/// as `owner/name` — the owner and the name, then every non-empty part
/// between the separators `-`, `.`, `_` and `/`; no token repeats, and the
/// first-seen order is kept.
pub fn tokenize(s: &str) -> (r: Vec<String>)
    ensures
        r.deep_view() == tokenize_spec(s@),
        r.deep_view().no_duplicates(),
        r.deep_view().len() >= 1,
        r.deep_view()[0] == s@,
{
    proof {
        lemma_tokenize_tokens(s@);
    }
    let mut tokens = token_set_new();
    token_set_insert(&mut tokens, s.to_owned());
    proof {
        assert(!Seq::<Seq<char>>::empty().contains(s@));
        assert(token_set_contents(tokens) =~= seq![s@]);
    }
    match FullName::from_str(s) {
        Ok(full) => {
            token_set_insert(&mut tokens, full.owner);
            token_set_insert(&mut tokens, full.name);
        },
        Err(_) => {},
    }
    let ghost with_name = token_set_contents(tokens);
    let parts = split_full(s);
    let mut i: usize = 0;
    proof {
        assert(split_on_seps(s@).skip(0) =~= split_on_seps(s@));
    }
    while i < parts.len()
        invariant
            0 <= i <= parts.len(),
            parts.deep_view() == split_on_seps(s@),
            add_parts(with_name, split_on_seps(s@)) == add_parts(
                token_set_contents(tokens),
                parts.deep_view().skip(i as int),
            ),
        decreases parts.len() - i,
    {
        let ghost before = token_set_contents(tokens);
        let ghost rest = parts.deep_view().skip(i as int);
        proof {
            assert(rest[0] == parts.deep_view()[i as int]);
            assert(rest.drop_first() =~= parts.deep_view().skip(i + 1));
        }
        if !parts[i].as_str().is_empty() {
            let tok = parts[i].clone();
            token_set_insert(&mut tokens, tok);
        }
        proof {
            assert(token_set_contents(tokens) == push_new_part(
                before,
                parts.deep_view()[i as int],
            ));
        }
        i += 1;
    }
    proof {
        assert(parts.deep_view().skip(parts.deep_view().len() as int)
            =~= Seq::<Seq<char>>::empty());
        assert(token_set_contents(tokens) == tokenize_spec(s@));
    }
    token_set_into_vec(tokens)
}

// ---------------------------------------------------------------------------
// Joining tokens into one search-match string.
// ---------------------------------------------------------------------------

/// The parts joined by single separators.
pub open spec fn join_sep(parts: Seq<Seq<char>>, sep: char) -> Seq<char>
    decreases parts.len(),
{
    if parts.len() == 0 {
        Seq::empty()
    } else if parts.len() == 1 {
        parts[0]
    } else {
        parts[0] + seq![sep] + join_sep(parts.drop_first(), sep)
    }
}

proof fn lemma_join_sep_push(a: Seq<Seq<char>>, x: Seq<char>, sep: char)
    requires
        a.len() > 0,
    ensures
        join_sep(a.push(x), sep) == join_sep(a, sep) + seq![sep] + x,
    decreases a.len(),
{
    let p = a.push(x);
    assert(p[0] == a[0]);
    if a.len() == 1 {
        assert(p.drop_first() =~= seq![x]);
        assert(join_sep(p.drop_first(), sep) == x);
        assert(join_sep(p, sep) =~= join_sep(a, sep) + seq![sep] + x);
    } else {
        assert(p.drop_first() =~= a.drop_first().push(x));
        lemma_join_sep_push(a.drop_first(), x, sep);
        assert(join_sep(p, sep) == p[0] + seq![sep] + (join_sep(a.drop_first(), sep) + seq![sep]
            + x));
        assert(p[0] + seq![sep] + (join_sep(a.drop_first(), sep) + seq![sep] + x) =~= (a[0]
            + seq![sep] + join_sep(a.drop_first(), sep)) + seq![sep] + x);
    }
}

/// Joins the parts with single separator characters between them.
pub fn join_with(parts: &Vec<String>, sep: char) -> (r: String)
    ensures
        r@ == join_sep(parts.deep_view(), sep),
{
    let mut out = String::new();
    let mut i: usize = 0;
    proof {
        assert(parts.deep_view().take(0) =~= Seq::<Seq<char>>::empty());
    }
    while i < parts.len()
        invariant
            0 <= i <= parts.len(),
            out@ == join_sep(parts.deep_view().take(i as int), sep),
        decreases parts.len() - i,
    {
        let ghost prefix = parts.deep_view().take(i as int);
        if i > 0 {
            crate::push_char(&mut out, sep);
        }
        out.append(parts[i].as_str());
        proof {
            assert(parts.deep_view().take(i + 1) =~= prefix.push(parts.deep_view()[i as int]));
            if i == 0 {
                assert(prefix.push(parts.deep_view()[0]) =~= seq![parts.deep_view()[0]]);
                assert(out@ =~= join_sep(parts.deep_view().take(1), sep));
            } else {
                lemma_join_sep_push(prefix, parts.deep_view()[i as int], sep);
                assert(out@ =~= join_sep(prefix, sep) + seq![sep] + parts.deep_view()[i as int]);
            }
        }
        i += 1;
    }
    proof {
        assert(parts.deep_view().take(parts.deep_view().len() as int) =~= parts.deep_view());
    }
    out
}

// ---------------------------------------------------------------------------
// Tokens never repeat, and the full string leads.
// ---------------------------------------------------------------------------

proof fn lemma_push_new_props(acc: Seq<Seq<char>>, t: Seq<char>)
    requires
        acc.no_duplicates(),
    ensures
        push_new(acc, t).no_duplicates(),
        acc.is_prefix_of(push_new(acc, t)),
        push_new_part(acc, t).no_duplicates(),
        acc.is_prefix_of(push_new_part(acc, t)),
{
    if !acc.contains(t) {
        assert(acc.push(t).drop_last() =~= acc);
    }
}

proof fn lemma_add_parts_props(acc: Seq<Seq<char>>, parts: Seq<Seq<char>>)
    requires
        acc.no_duplicates(),
    ensures
        add_parts(acc, parts).no_duplicates(),
        acc.is_prefix_of(add_parts(acc, parts)),
    decreases parts.len(),
{
    if parts.len() > 0 {
        lemma_push_new_props(acc, parts[0]);
        lemma_add_parts_props(push_new_part(acc, parts[0]), parts.drop_first());
    }
}

/// The token list never repeats a token, and its first entry is the full
/// string itself.
pub proof fn lemma_tokenize_tokens(s: Seq<char>)
    ensures
        tokenize_spec(s).no_duplicates(),
        tokenize_spec(s).len() >= 1,
        tokenize_spec(s)[0] == s,
{
    let base = seq![s];
    assert(base.no_duplicates());
    let with_name = match parse_full_name(s) {
        Some((owner, name)) => push_new(push_new(base, owner), name),
        None => base,
    };
    match parse_full_name(s) {
        Some((owner, name)) => {
            lemma_push_new_props(base, owner);
            lemma_push_new_props(push_new(base, owner), name);
        },
        None => {},
    }
    lemma_add_parts_props(with_name, split_on_seps(s));
    let out = add_parts(with_name, split_on_seps(s));
    assert(base.is_prefix_of(with_name));
    assert(with_name.subrange(0, 1)[0] == with_name[0]);
    assert(with_name[0] == s);
    assert(with_name.is_prefix_of(out));
    assert(out.subrange(0, with_name.len() as int)[0] == out[0]);
    assert(out[0] == s);
}

} // verus!
