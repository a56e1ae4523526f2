//! The segments of a namespace one level below a query: direct children and
//! direct descendants, for one claim and for a collection of claims.
use crate::claim::claim_from_str::claim_from_str;
use crate::claim::{parse_claim_text, Claim, ClaimView};
use crate::text::{
    chars_of, compare_text, lemma_insert_to_set, lemma_text_lt_total, lemma_text_lt_transitive,
    starts_with, starts_with_dotted, text_lt,
};
use std::cmp::Ordering;
use vstd::prelude::*;

verus! {

/// The leading segment of `s`: all of it up to its first dot.
pub open spec fn first_segment(s: Seq<char>) -> Seq<char>
    decreases s.len(),
{
    if s.len() == 0 || s[0] == '.' {
        Seq::empty()
    } else {
        seq![s[0]] + first_segment(s.drop_first())
    }
}

/// The part of `claim`'s subject below `query`'s subject, when the verbs
/// agree, `claim` is not global and its subject lies below `query`'s.
pub open spec fn below(claim: ClaimView, query: ClaimView) -> Option<Seq<char>> {
    if claim.verb != query.verb || claim.is_global() {
        None
    } else if query.is_global() {
        Some(claim.subject)
    } else if starts_with(claim.subject, query.subject + seq!['.']) {
        Some(claim.subject.skip(query.subject.len() + 1 as int))
    } else {
        None
    }
}

/// The segment of `claim` one level below `query`, when nothing further
/// follows it.
pub open spec fn direct_child_spec(claim: ClaimView, query: ClaimView) -> Option<Seq<char>> {
    match below(claim, query) {
        Some(rest) => if rest.contains('.') {
            None
        } else {
            Some(rest)
        },
        None => None,
    }
}

/// The segment of `claim` one level below `query`, whatever follows it.
pub open spec fn direct_descendant_spec(claim: ClaimView, query: ClaimView) -> Option<Seq<char>> {
    match below(claim, query) {
        Some(rest) => Some(first_segment(rest)),
        None => None,
    }
}

/// An optional text as an optional character sequence.
pub open spec fn text_option(r: Option<String>) -> Option<Seq<char>> {
    match r {
        Some(s) => Some(s@),
        None => None,
    }
}

/// The texts of a sequence of strings.
pub open spec fn texts(v: Seq<String>) -> Seq<Seq<char>> {
    v.map_values(|s: String| s@)
}

/// Strictly ascending, hence free of duplicates.
pub open spec fn texts_sorted(s: Seq<Seq<char>>) -> bool {
    forall|i: int, j: int| 0 <= i < j < s.len() ==> text_lt(#[trigger] s[i], #[trigger] s[j])
}

/// The direct children of the claims under `query`.
pub open spec fn children_of(claims: Seq<Claim>, query: ClaimView) -> Set<Seq<char>> {
    Set::new(|s: Seq<char>| exists|j: int| 0 <= j < claims.len() && direct_child_spec(#[trigger] claims[j]@, query) == Some(s))
}

/// The direct descendants of the claims under `query`.
pub open spec fn descendants_of(claims: Seq<Claim>, query: ClaimView) -> Set<Seq<char>> {
    Set::new(|s: Seq<char>| exists|j: int| 0 <= j < claims.len() && direct_descendant_spec(#[trigger] claims[j]@, query) == Some(s))
}

/// A segment that runs to the first dot, or to the end, is the leading one.
pub proof fn lemma_first_segment(s: Seq<char>, k: int)
    requires
        0 <= k <= s.len(),
        forall|i: int| 0 <= i < k ==> s[i] != '.',
        k == s.len() || s[k] == '.',
    ensures
        first_segment(s) == s.take(k),
    decreases k,
{
    if k == 0 {
        assert(s.take(0) =~= Seq::<char>::empty());
    } else {
        lemma_first_segment(s.drop_first(), k - 1);
        assert(s.take(k) =~= seq![s[0]] + s.drop_first().take(k - 1));
    }
}

/// The first dot in `t[from..]`, or the end of `t`.
fn find_dot(t: &Vec<char>, from: usize) -> (r: usize)
    requires
        from <= t@.len(),
    ensures
        from <= r <= t@.len(),
        forall|i: int| from <= i < r ==> t@[i] != '.',
        r == t@.len() || t@[r as int] == '.',
{
    let mut i: usize = from;
    while i < t.len() && t[i] != '.'
        invariant
            from <= i <= t@.len(),
            forall|j: int| from <= j < i ==> t@[j] != '.',
        decreases t@.len() - i,
    {
        i = i + 1;
    }
    i
}

/// Where, in `claim`'s subject, the part below `query`'s subject starts.
fn below_start(claim: &Claim, query: &Claim) -> (r: Option<usize>)
    ensures
        r is None <==> below(claim@, query@) is None,
        r matches Some(k) ==> k <= claim@.subject.len() && below(claim@, query@) == Some(
            claim@.subject.skip(k as int),
        ),
{
    if claim.verb != query.verb || claim.is_global() {
        return None;
    }
    if query.is_global() {
        assert(claim@.subject.skip(0) =~= claim@.subject);
        return Some(0);
    }
    if starts_with_dotted(claim.subject(), query.subject()) {
        let n = claim.subject().unicode_len();
        let m = query.subject().unicode_len();
        assert(m + 1 <= n);
        Some(m + 1)
    } else {
        None
    }
}

pub fn claim_direct_descendant_str(claim: &Claim, query: &str) -> (r: Option<String>)
    ensures
        text_option(r) == match parse_claim_text(query@) {
            Some(q) => direct_descendant_spec(claim@, q),
            None => None,
        },
{
    let parse_result = claim_from_str(query);
    match parse_result {
        Ok(parsed) => claim_direct_descendant(claim, &parsed),
        Err(_) => None,
    }
}

pub fn claim_direct_descendant(claim: &Claim, query: &Claim) -> (r: Option<String>)
    ensures
        text_option(r) == direct_descendant_spec(claim@, query@),
{
    match below_start(claim, query) {
        None => None,
        Some(k) => {
            let subject = claim.subject();
            let t = chars_of(subject);
            let end = find_dot(&t, k);
            proof {
                let rest = t@.skip(k as int);
                lemma_first_segment(rest, end - k);
                assert(rest.take(end - k) =~= t@.subrange(k as int, end as int));
            }
            Some(subject.substring_char(k, end).to_owned())
        },
    }
}

pub fn claim_direct_child_str(claim: &Claim, query: &str) -> (r: Option<String>)
    ensures
        text_option(r) == match parse_claim_text(query@) {
            Some(q) => direct_child_spec(claim@, q),
            None => None,
        },
{
    let parse_result = claim_from_str(query);
    match parse_result {
        Ok(parsed) => claim_direct_child(claim, &parsed),
        Err(_) => None,
    }
}

pub fn claim_direct_child(claim: &Claim, query: &Claim) -> (r: Option<String>)
    ensures
        text_option(r) == direct_child_spec(claim@, query@),
{
    match below_start(claim, query) {
        None => None,
        Some(k) => {
            let subject = claim.subject();
            let t = chars_of(subject);
            let end = find_dot(&t, k);
            let ghost rest = t@.skip(k as int);
            if end < t.len() {
                assert(rest[end - k] == '.');
                None
            } else {
                proof {
                    if rest.contains('.') {
                        let i = choose|i: int| 0 <= i < rest.len() && rest[i] == '.';
                        assert(t@[k + i] == '.');
                    }
                    assert(t@.subrange(k as int, end as int) =~= rest);
                }
                Some(subject.substring_char(k, end).to_owned())
            }
        },
    }
}

proof fn lemma_texts_sorted_insert(s: Seq<Seq<char>>, i: int, x: Seq<char>)
    requires
        texts_sorted(s),
        0 <= i <= s.len(),
        forall|j: int| 0 <= j < i ==> text_lt(#[trigger] s[j], x),
        i < s.len() ==> text_lt(x, s[i]),
    ensures
        texts_sorted(s.insert(i, x)),
{
    let t = s.insert(i, x);
    assert forall|p: int, q: int| 0 <= p < q < t.len() implies text_lt(#[trigger] t[p], #[trigger] t[q]) by {
        if p < i && q > i {
            assert(t[q] == s[q - 1]);
        } else if p == i {
            assert(t[q] == s[q - 1]);
            if q - 1 > i {
                lemma_text_lt_transitive(x, s[i], s[q - 1]);
            }
        } else if p > i {
            assert(t[p] == s[p - 1]);
            assert(t[q] == s[q - 1]);
        }
    }
}

/// Puts `x` in its place in the sorted `v`, unless `v` holds it already.
fn insert_text(v: &mut Vec<String>, x: String)
    requires
        texts_sorted(texts(old(v)@)),
    ensures
        texts_sorted(texts(final(v)@)),
        texts(final(v)@).to_set() == texts(old(v)@).to_set().insert(x@),
{
    let ghost s = texts(v@);
    let mut i: usize = 0;
    while i < v.len() && matches!(compare_text(v[i].as_str(), x.as_str()), Ordering::Less)
        invariant
            i <= v@.len(),
            s == texts(v@),
            texts_sorted(s),
            forall|j: int| 0 <= j < i ==> text_lt(#[trigger] s[j], x@),
        decreases v@.len() - i,
    {
        i = i + 1;
    }
    if i < v.len() && v[i] == x {
        proof {
            assert(s[i as int] == x@);
            assert(s.contains(x@));
            assert(s.to_set().insert(x@) =~= s.to_set());
        }
        return;
    }
    proof {
        if i < s.len() {
            lemma_text_lt_total(s[i as int], x@);
        }
        lemma_texts_sorted_insert(s, i as int, x@);
        lemma_insert_to_set(s, i as int, x@);
    }
    v.insert(i, x);
    assert(texts(v@) =~= s.insert(i as int, x@));
}

pub fn claims_direct_children_str(claims: &[Claim], query: &str) -> (r: Vec<String>)
    ensures
        texts_sorted(texts(r@)),
        texts(r@).to_set() == match parse_claim_text(query@) {
            Some(q) => children_of(claims@, q),
            None => Set::empty(),
        },
{
    let parse_result = claim_from_str(query);
    match parse_result {
        Ok(parsed) => claims_direct_children(claims, &parsed),
        Err(_) => {
            assert(texts(Seq::<String>::empty()).to_set() =~= Set::empty());
            Vec::new()
        },
    }
}

/// The direct children of the claims under `query`, sorted and without
/// duplicates.
pub fn claims_direct_children(claims: &[Claim], query: &Claim) -> (r: Vec<String>)
    ensures
        texts_sorted(texts(r@)),
        texts(r@).to_set() == children_of(claims@, query@),
{
    let mut vec: Vec<String> = Vec::new();
    assert(texts(vec@).to_set() =~= children_of(claims@.take(0), query@));
    let mut i: usize = 0;
    while i < claims.len()
        invariant
            i <= claims@.len(),
            texts_sorted(texts(vec@)),
            texts(vec@).to_set() == children_of(claims@.take(i as int), query@),
        decreases claims@.len() - i,
    {
        let ghost before = texts(vec@).to_set();
        let ghost done = claims@.take(i as int);
        let ghost next = claims@.take(i + 1);
        let found = claim_direct_child(&claims[i], query);
        match found {
            Some(s) => {
                insert_text(&mut vec, s);
            },
            None => {},
        }
        proof {
            assert(next[i as int] == claims@[i as int]);
            assert forall|x: Seq<char>| #![auto] children_of(next, query@).contains(x) <==> texts(vec@).to_set().contains(x) by {
                if children_of(next, query@).contains(x) {
                    let j = choose|j: int| 0 <= j < next.len() && direct_child_spec(#[trigger] next[j]@, query@) == Some(x);
                    if j < i {
                        assert(done[j] == next[j]);
                        assert(before.contains(x));
                    }
                }
                if before.contains(x) {
                    let j = choose|j: int| 0 <= j < done.len() && direct_child_spec(#[trigger] done[j]@, query@) == Some(x);
                    assert(done[j] == next[j]);
                }
            }
            assert(children_of(next, query@) =~= texts(vec@).to_set());
        }
        i = i + 1;
    }
    assert(claims@.take(i as int) =~= claims@);
    vec
}

pub fn claims_direct_descendants_str(claims: &[Claim], query: &str) -> (r: Vec<String>)
    ensures
        texts_sorted(texts(r@)),
        texts(r@).to_set() == match parse_claim_text(query@) {
            Some(q) => descendants_of(claims@, q),
            None => Set::empty(),
        },
{
    let parse_result = claim_from_str(query);
    match parse_result {
        Ok(parsed) => claims_direct_descendants(claims, &parsed),
        Err(_) => {
            assert(texts(Seq::<String>::empty()).to_set() =~= Set::empty());
            Vec::new()
        },
    }
}

/// The direct descendants of the claims under `query`, sorted and without
/// duplicates.
pub fn claims_direct_descendants(claims: &[Claim], query: &Claim) -> (r: Vec<String>)
    ensures
        texts_sorted(texts(r@)),
        texts(r@).to_set() == descendants_of(claims@, query@),
{
    let mut vec: Vec<String> = Vec::new();
    assert(texts(vec@).to_set() =~= descendants_of(claims@.take(0), query@));
    let mut i: usize = 0;
    while i < claims.len()
        invariant
            i <= claims@.len(),
            texts_sorted(texts(vec@)),
            texts(vec@).to_set() == descendants_of(claims@.take(i as int), query@),
        decreases claims@.len() - i,
    {
        let ghost before = texts(vec@).to_set();
        let ghost done = claims@.take(i as int);
        let ghost next = claims@.take(i + 1);
        let found = claim_direct_descendant(&claims[i], query);
        match found {
            Some(s) => {
                insert_text(&mut vec, s);
            },
            None => {},
        }
        proof {
            assert(next[i as int] == claims@[i as int]);
            assert forall|x: Seq<char>| #![auto] descendants_of(next, query@).contains(x) <==> texts(vec@).to_set().contains(x) by {
                if descendants_of(next, query@).contains(x) {
                    let j = choose|j: int| 0 <= j < next.len() && direct_descendant_spec(#[trigger] next[j]@, query@) == Some(x);
                    if j < i {
                        assert(done[j] == next[j]);
                        assert(before.contains(x));
                    }
                }
                if before.contains(x) {
                    let j = choose|j: int| 0 <= j < done.len() && direct_descendant_spec(#[trigger] done[j]@, query@) == Some(x);
                    assert(done[j] == next[j]);
                }
            }
            assert(descendants_of(next, query@) =~= texts(vec@).to_set());
        }
        i = i + 1;
    }
    assert(claims@.take(i as int) =~= claims@);
    vec
}

/// A direct child is a direct descendant: the child relation lies within
/// the descendant relation.
pub proof fn lemma_child_is_descendant(claim: ClaimView, query: ClaimView, s: Seq<char>)
    requires
        direct_child_spec(claim, query) == Some(s),
    ensures
        direct_descendant_spec(claim, query) == Some(s),
{
    let rest = below(claim, query)->0;
    assert forall|i: int| 0 <= i < rest.len() implies rest[i] != '.' by {
        if rest[i] == '.' {
            assert(rest.contains('.'));
        }
    }
    lemma_first_segment(rest, rest.len() as int);
    assert(rest.take(rest.len() as int) =~= rest);
}

} // verus!
