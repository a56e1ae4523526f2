//! Parsing claims from text, one at a time or as a canonical list.
use crate::claim::is_valid_claim_str::{
    claim_colon, is_claim_split, is_claim_text, is_trailing_dot_form, is_wildcard_form, lemma_claim_split_unique, valid_path,
    valid_subject_expr, valid_verb,
};
use crate::claim::{
    claim_lt, lemma_claim_lt_asymmetric, lemma_claim_lt_irreflexive, lemma_claim_lt_total,
    lemma_claim_lt_transitive, normalized_subject, parse_claim_text,
    render_claim, Claim, ClaimView,
};
use std::cmp::Ordering;
use crate::error::Error;
use crate::text::{chars_of, lemma_insert_to_set};
use vstd::prelude::*;

verus! {

/// The message of the error for a text that is not a claim.
pub open spec fn not_parsed_message(t: Seq<char>) -> Seq<char> {
    "the given claim "@ + t + " is not valid"@
}

/// Parses one claim text.
pub fn claim_from_str(claim_str: &str) -> (r: Result<Claim, Error>)
    ensures
        r is Ok <==> is_claim_text(claim_str@),
        r matches Ok(c) ==> parse_claim_text(claim_str@) == Some(c@),
        r matches Err(e) ==> e.message() == not_parsed_message(claim_str@),
{
    let t = chars_of(claim_str);
    let colon = claim_colon(&t);
    match colon {
        None => Err(err_not_parsed(claim_str)),
        Some(k) => {
            let verb = claim_str.substring_char(0, k);
            let subject_match = claim_str.substring_char(k + 1, t.len());
            let subject = parse_subject(subject_match);
            proof {
                let i = choose|i: int| is_claim_split(claim_str@, i);
                lemma_claim_split_unique(claim_str@, i, k as int);
                assert(claim_str@.subrange(k + 1, claim_str@.len() as int) =~= claim_str@.skip(
                    k + 1,
                ));
                assert(claim_str@.subrange(0, k as int) =~= claim_str@.take(k as int));
            }
            Ok(Claim::new(verb, subject.as_str()))
        },
    }
}

/// The subject that a subject expression stands for: `*` and the empty text
/// give the global subject, a trailing `.*` or `.` is dropped.
pub fn parse_subject(s: &str) -> (r: String)
    ensures
        r@ == normalized_subject(s@),
{
    let t = chars_of(s);
    let n = t.len();
    if n == 0 || (n == 1 && t[0] == '*') {
        proof {
            if n == 1 {
                assert(s@ =~= seq!['*']);
            }
        }
        return String::new();
    }
    proof {
        if s@ == seq!['*'] {
            assert(s@[0] == '*');
        }
    }
    if n >= 2 && t[n - 1] == '*' && t[n - 2] == '.' {
        s.substring_char(0, n - 2).to_owned()
    } else if t[n - 1] == '.' {
        s.substring_char(0, n - 1).to_owned()
    } else {
        s.to_owned()
    }
}

/// The error for a text that is not a claim.
pub fn err_not_parsed(claim_str: &str) -> (r: Error)
    ensures
        r.message() == not_parsed_message(claim_str@),
{
    let mut m = String::from_str("the given claim ");
    m.append(claim_str);
    m.append(" is not valid");
    Error::Syntax(m)
}

/// The claims of a sequence of claims.
pub open spec fn claim_views(v: Seq<Claim>) -> Seq<ClaimView> {
    v.map_values(|c: Claim| c@)
}

/// Strictly ascending, hence free of duplicates.
pub open spec fn claims_sorted(s: Seq<ClaimView>) -> bool {
    forall|i: int, j: int| 0 <= i < j < s.len() ==> claim_lt(#[trigger] s[i], #[trigger] s[j])
}

/// The claims that the texts stand for.
pub open spec fn parsed_claims(strs: Seq<&str>) -> Set<ClaimView> {
    Set::new(|c: ClaimView| exists|j: int| 0 <= j < strs.len() && parse_claim_text(#[trigger] strs[j]@) == Some(c))
}

/// `j` is the first of the texts that is not a claim.
pub open spec fn first_invalid(strs: Seq<&str>, j: int) -> bool {
    &&& 0 <= j < strs.len()
    &&& !is_claim_text(strs[j]@)
    &&& forall|k: int| 0 <= k < j ==> is_claim_text(#[trigger] strs[k]@)
}

proof fn lemma_sorted_insert(s: Seq<ClaimView>, i: int, x: ClaimView)
    requires
        claims_sorted(s),
        0 <= i <= s.len(),
        forall|j: int| 0 <= j < i ==> claim_lt(#[trigger] s[j], x),
        i < s.len() ==> claim_lt(x, s[i]),
    ensures
        claims_sorted(s.insert(i, x)),
{
    let t = s.insert(i, x);
    assert forall|p: int, q: int| 0 <= p < q < t.len() implies claim_lt(#[trigger] t[p], #[trigger] t[q]) by {
        if p < i && q == i {
        } else if p < i && q > i {
            assert(t[q] == s[q - 1]);
        } else if p == i {
            assert(t[q] == s[q - 1]);
            if q - 1 > i {
                lemma_claim_lt_transitive(x, s[i], s[q - 1]);
            }
        } else if p > i {
            assert(t[p] == s[p - 1]);
            assert(t[q] == s[q - 1]);
        }
    }
}

/// Puts `c` in its place in the sorted `v`, unless `v` holds it already.
fn insert_claim(v: &mut Vec<Claim>, c: Claim)
    requires
        claims_sorted(claim_views(old(v)@)),
    ensures
        claims_sorted(claim_views(final(v)@)),
        claim_views(final(v)@).to_set() == claim_views(old(v)@).to_set().insert(c@),
{
    let ghost s = claim_views(v@);
    let mut i: usize = 0;
    while i < v.len() && matches!(v[i].cmp(&c), Ordering::Less)
        invariant
            i <= v@.len(),
            s == claim_views(v@),
            claims_sorted(s),
            forall|j: int| 0 <= j < i ==> claim_lt(#[trigger] s[j], c@),
        decreases v@.len() - i,
    {
        i = i + 1;
    }
    if i < v.len() && v[i] == c {
        proof {
            assert(s[i as int] == c@);
            assert(s.contains(c@));
            assert(s.to_set().insert(c@) =~= s.to_set());
        }
        return;
    }
    proof {
        if i < s.len() {
            lemma_claim_lt_total(s[i as int], c@);
        }
        lemma_sorted_insert(s, i as int, c@);
        lemma_insert_to_set(s, i as int, c@);
    }
    v.insert(i, c);
    assert(claim_views(v@) =~= s.insert(i as int, c@));
}

/// Parses every text; the claims come back sorted and without duplicates,
/// and the first text that is not a claim makes the whole call fail.
pub fn claims_from_strs(claim_strs: &[&str]) -> (r: Result<Vec<Claim>, Error>)
    ensures
        r is Ok <==> forall|j: int| 0 <= j < claim_strs@.len() ==> is_claim_text(#[trigger] claim_strs@[j]@),
        r matches Ok(v) ==> claims_sorted(claim_views(v@)) && claim_views(v@).to_set() == parsed_claims(claim_strs@),
        r matches Err(e) ==> exists|j: int| first_invalid(claim_strs@, j) && e.message() == not_parsed_message(claim_strs@[j]@),
{
    let mut vec: Vec<Claim> = Vec::new();
    let mut i: usize = 0;
    while i < claim_strs.len()
        invariant
            i <= claim_strs@.len(),
            forall|k: int| 0 <= k < i ==> is_claim_text(#[trigger] claim_strs@[k]@),
            claims_sorted(claim_views(vec@)),
            claim_views(vec@).to_set() == parsed_claims(claim_strs@.take(i as int)),
        decreases claim_strs@.len() - i,
    {
        let parsed = claim_from_str(claim_strs[i]);
        match parsed {
            Err(e) => {
                assert(first_invalid(claim_strs@, i as int));
                return Err(e);
            },
            Ok(c) => {
                let ghost before = claim_views(vec@).to_set();
                insert_claim(&mut vec, c);
                proof {
                    let strs = claim_strs@.take(i + 1);
                    assert(parsed_claims(strs) =~= before.insert(c@)) by {
                        assert(strs[i as int] == claim_strs@[i as int]);
                        assert forall|x: ClaimView| parsed_claims(strs).contains(x) implies before.insert(c@).contains(x) by {
                            let j = choose|j: int| 0 <= j < strs.len() && parse_claim_text(#[trigger] strs[j]@) == Some(x);
                            if j < i {
                                assert(claim_strs@.take(i as int)[j] == strs[j]);
                            }
                        }
                        assert forall|x: ClaimView| before.insert(c@).contains(x) implies parsed_claims(strs).contains(x) by {
                            if x != c@ {
                                let j = choose|j: int| 0 <= j < i && parse_claim_text(#[trigger] claim_strs@.take(i as int)[j]@) == Some(x);
                                assert(strs[j] == claim_strs@.take(i as int)[j]);
                            }
                        }
                    }
                }
            },
        }
        i = i + 1;
    }
    assert(claim_strs@.take(i as int) =~= claim_strs@);
    Ok(vec)
}

/// A text made of `verb`, a colon and `subject_expr` splits at that colon.
proof fn lemma_split_after_verb(verb: Seq<char>, subject_expr: Seq<char>)
    requires
        valid_verb(verb),
        valid_subject_expr(subject_expr),
    ensures
        parse_claim_text(verb + seq![':'] + subject_expr) == Some(
            ClaimView { verb, subject: normalized_subject(subject_expr) },
        ),
{
    let t = verb + seq![':'] + subject_expr;
    let k = verb.len() as int;
    assert(t.take(k) =~= verb);
    assert(t.skip(k + 1) =~= subject_expr);
    assert(t[k] == ':');
    assert(is_claim_split(t, k));
    let i = choose|i: int| is_claim_split(t, i);
    lemma_claim_split_unique(t, i, k);
}

/// A path is read as itself: it is not `*` and ends in neither `.*` nor `.`.
proof fn lemma_normalized_path(p: Seq<char>)
    requires
        valid_path(p),
    ensures
        normalized_subject(p) == p,
{
    if p == seq!['*'] {
        assert(p[0] == '*');
    }
    assert(p[p.len() - 1] == p.last());
}

/// Rendering a well-formed claim and parsing the text gives the claim back.
pub proof fn lemma_parse_render(c: ClaimView)
    requires
        c.well_formed(),
    ensures
        parse_claim_text(render_claim(c)) == Some(c),
{
    if c.subject.len() == 0 {
        assert(valid_subject_expr(seq!['*']));
        lemma_split_after_verb(c.verb, seq!['*']);
        assert(normalized_subject(seq!['*']) =~= c.subject);
    } else {
        lemma_normalized_path(c.subject);
        lemma_split_after_verb(c.verb, c.subject);
    }
}

/// A trailing `.*` or a trailing `.` after the subject changes nothing:
/// `verb:path.*`, `verb:path.` and `verb:path` are the same claim.
pub proof fn lemma_parse_ignores_suffix(verb: Seq<char>, path: Seq<char>)
    requires
        valid_verb(verb),
        valid_path(path),
    ensures
        parse_claim_text(verb + seq![':'] + path + seq!['.', '*']) == parse_claim_text(
            verb + seq![':'] + path,
        ),
        parse_claim_text(verb + seq![':'] + path + seq!['.']) == parse_claim_text(
            verb + seq![':'] + path,
        ),
{
    let w = path + seq!['.', '*'];
    let d = path + seq!['.'];
    assert(w.take(w.len() - 2) =~= path);
    assert(d.drop_last() =~= path);
    assert(verb + seq![':'] + path + seq!['.', '*'] =~= verb + seq![':'] + w);
    assert(verb + seq![':'] + path + seq!['.'] =~= verb + seq![':'] + d);
    lemma_normalized_path(path);
    lemma_split_after_verb(verb, path);
    assert(is_wildcard_form(w));
    lemma_split_after_verb(verb, w);
    assert(is_trailing_dot_form(d));
    assert(!valid_path(d));
    lemma_split_after_verb(verb, d);
}

/// Without its first element a strictly sorted sequence holds the rest of
/// its set.
proof fn lemma_sorted_drop_first_set(a: Seq<ClaimView>)
    requires
        claims_sorted(a),
        a.len() > 0,
    ensures
        a.drop_first().to_set() == a.to_set().remove(a[0]),
{
    let r = a.drop_first();
    assert forall|x: ClaimView| r.contains(x) <==> a.contains(x) && x != a[0] by {
        if r.contains(x) {
            let k = choose|k: int| 0 <= k < r.len() && r[k] == x;
            assert(a[k + 1] == x);
            assert(claim_lt(a[0], a[k + 1]));
            lemma_claim_lt_irreflexive(a[0]);
        }
        if a.contains(x) && x != a[0] {
            let k = choose|k: int| 0 <= k < a.len() && a[k] == x;
            assert(r[k - 1] == x);
        }
    }
    assert(r.to_set() =~= a.to_set().remove(a[0]));
}

/// A set of claims has one canonical list: two strictly sorted sequences of
/// the same claims are the same sequence. So what `claims_from_strs` returns
/// depends on the set of claims alone, not on the order or the repetition of
/// the texts.
pub proof fn lemma_canonical_claims_unique(a: Seq<ClaimView>, b: Seq<ClaimView>)
    requires
        claims_sorted(a),
        claims_sorted(b),
        a.to_set() == b.to_set(),
    ensures
        a == b,
    decreases a.len(),
{
    if a.len() == 0 || b.len() == 0 {
        if a.len() > 0 {
            assert(a.to_set().contains(a[0]));
        }
        if b.len() > 0 {
            assert(b.to_set().contains(b[0]));
        }
        assert(a =~= b);
    } else {
        assert(a.to_set().contains(a[0]));
        assert(b.to_set().contains(b[0]));
        let j = choose|j: int| 0 <= j < b.len() && b[j] == a[0];
        let k = choose|k: int| 0 <= k < a.len() && a[k] == b[0];
        if j > 0 {
            assert(claim_lt(b[0], b[j]));
            if k > 0 {
                assert(claim_lt(a[0], a[k]));
                lemma_claim_lt_asymmetric(a[0], a[k]);
            } else {
                lemma_claim_lt_irreflexive(a[0]);
            }
        }
        lemma_sorted_drop_first_set(a);
        lemma_sorted_drop_first_set(b);
        lemma_canonical_claims_unique(a.drop_first(), b.drop_first());
        assert(a =~= seq![a[0]] + a.drop_first());
        assert(b =~= seq![b[0]] + b.drop_first());
    }
}

/// Every claim read from text is well formed: its verb is a verb of the
/// grammar and its subject is global or a path.
pub proof fn lemma_parsed_well_formed(t: Seq<char>)
    requires
        parse_claim_text(t) is Some,
    ensures
        parse_claim_text(t)->0.well_formed(),
{
    let i = choose|i: int| is_claim_split(t, i);
    let s = t.skip(i + 1);
    if valid_path(s) {
        lemma_normalized_path(s);
    } else if is_wildcard_form(s) {
        assert(s != seq!['*']) by {
            if s == seq!['*'] {
                assert(s.len() == 1);
            }
        }
    } else if is_trailing_dot_form(s) {
        assert(s != seq!['*']) by {
            if s == seq!['*'] {
                assert(s.last() == '*');
            }
        }
    }
}

} // verus!
