//! The claim grammar: `verb:*`, `verb:path`, `verb:path.*` and `verb:path.`,
//! as spec functions on characters and as a single-pass scanner.
use crate::text::{chars_of, is_name_char, is_word_char, name_char, word_char};
use vstd::prelude::*;

verus! {

/// A verb: one or more of `[A-Za-z0-9_-]`.
pub open spec fn valid_verb(v: Seq<char>) -> bool {
    &&& v.len() > 0
    &&& forall|i: int| 0 <= i < v.len() ==> is_name_char(#[trigger] v[i])
}

/// A subject path: segments of `[A-Za-z0-9_-]` joined by single dots, whose
/// first character is a word character.
pub open spec fn valid_path(p: Seq<char>) -> bool {
    &&& p.len() > 0
    &&& is_word_char(p[0])
    &&& p.last() != '.'
    &&& forall|i: int| 0 <= i < p.len() ==> is_name_char(#[trigger] p[i]) || p[i] == '.'
    &&& forall|i: int| 0 <= i < p.len() - 1 ==> !(#[trigger] p[i] == '.' && p[i + 1] == '.')
}

/// The subject of a claim: empty (global) or a path.
pub open spec fn valid_subject(s: Seq<char>) -> bool {
    s.len() == 0 || valid_path(s)
}

/// `p.*`: a path with a trailing wildcard.
pub open spec fn is_wildcard_form(s: Seq<char>) -> bool {
    &&& s.len() >= 2
    &&& s.last() == '*'
    &&& s[s.len() - 2] == '.'
    &&& valid_path(s.take(s.len() - 2))
}

/// `p.`: a path with a trailing dot.
pub open spec fn is_trailing_dot_form(s: Seq<char>) -> bool {
    &&& s.len() >= 1
    &&& s.last() == '.'
    &&& valid_path(s.drop_last())
}

/// What may follow the colon of a claim text.
pub open spec fn valid_subject_expr(s: Seq<char>) -> bool {
    s == seq!['*'] || valid_path(s) || is_wildcard_form(s) || is_trailing_dot_form(s)
}

/// `t` reads as a claim when split at the colon at `i`.
pub open spec fn is_claim_split(t: Seq<char>, i: int) -> bool {
    &&& 0 <= i < t.len()
    &&& t[i] == ':'
    &&& valid_verb(t.take(i))
    &&& valid_subject_expr(t.skip(i + 1))
}

/// `t` is a claim text.
pub open spec fn is_claim_text(t: Seq<char>) -> bool {
    exists|i: int| is_claim_split(t, i)
}

/// A claim text has one colon only, so it splits in one place.
pub proof fn lemma_claim_split_unique(t: Seq<char>, i: int, j: int)
    requires
        is_claim_split(t, i),
        is_claim_split(t, j),
    ensures
        i == j,
{
    if i < j {
        assert(t.take(j)[i] == ':');
    } else if j < i {
        assert(t.take(i)[j] == ':');
    }
}

/// Whether `t[from..to]` is a subject path.
fn scan_path(t: &Vec<char>, from: usize, to: usize) -> (r: bool)
    requires
        from <= to <= t@.len(),
    ensures
        r == valid_path(t@.subrange(from as int, to as int)),
{
    let ghost p = t@.subrange(from as int, to as int);
    if from == to {
        return false;
    }
    if !word_char(t[from]) || t[to - 1] == '.' {
        assert(p[0] == t@[from as int]);
        assert(p.last() == t@[to - 1]);
        return false;
    }
    let mut i: usize = from;
    while i < to
        invariant
            from <= i <= to,
            to <= t@.len(),
            p == t@.subrange(from as int, to as int),
            forall|j: int| 0 <= j < i - from ==> is_name_char(#[trigger] p[j]) || p[j] == '.',
            forall|j: int| 0 <= j < i - from && j < p.len() - 1 ==> !(#[trigger] p[j] == '.' && p[j + 1] == '.'),
        decreases to - i,
    {
        let c = t[i];
        assert(p[i - from] == c);
        if !(name_char(c) || c == '.') {
            return false;
        }
        if c == '.' && i + 1 < to && t[i + 1] == '.' {
            assert(p[i - from + 1] == t@[i + 1]);
            return false;
        }
        if i + 1 < to {
            assert(p[i - from + 1] == t@[i + 1]);
        }
        i = i + 1;
    }
    assert(p[0] == t@[from as int]);
    assert(p.last() == t@[to - 1]);
    true
}

/// Whether `t[..to]` is a verb.
fn scan_verb(t: &Vec<char>, to: usize) -> (r: bool)
    requires
        to <= t@.len(),
    ensures
        r == valid_verb(t@.take(to as int)),
{
    if to == 0 {
        return false;
    }
    let mut i: usize = 0;
    while i < to
        invariant
            i <= to <= t@.len(),
            forall|j: int| 0 <= j < i ==> is_name_char(#[trigger] t@.take(to as int)[j]),
        decreases to - i,
    {
        assert(t@.take(to as int)[i as int] == t@[i as int]);
        if !name_char(t[i]) {
            return false;
        }
        i = i + 1;
    }
    true
}

/// Whether `t[from..]` may follow the colon of a claim text.
fn scan_subject_expr(t: &Vec<char>, from: usize) -> (r: bool)
    requires
        from <= t@.len(),
    ensures
        r == valid_subject_expr(t@.skip(from as int)),
{
    let n = t.len();
    let ghost s = t@.skip(from as int);
    assert(s =~= t@.subrange(from as int, n as int));
    if n - from == 1 && t[from] == '*' {
        assert(s =~= seq!['*']);
        return true;
    }
    proof {
        if s == seq!['*'] {
            assert(s[0] == t@[from as int]);
        }
    }
    if scan_path(t, from, n) {
        return true;
    }
    if n - from >= 2 && t[n - 1] == '*' && t[n - 2] == '.' {
        assert(s.take(s.len() - 2) =~= t@.subrange(from as int, n - 2));
        return scan_path(t, from, n - 2);
    }
    if n - from >= 1 && t[n - 1] == '.' {
        assert(s.drop_last() =~= t@.subrange(from as int, n - 1));
        return scan_path(t, from, n - 1);
    }
    false
}

/// The place of the colon that splits `t` as a claim, if `t` is one.
pub(crate) fn claim_colon(t: &Vec<char>) -> (r: Option<usize>)
    ensures
        r is Some <==> is_claim_text(t@),
        r matches Some(k) ==> is_claim_split(t@, k as int),
{
    let mut k: usize = 0;
    while k < t.len() && t[k] != ':'
        invariant
            k <= t@.len(),
            forall|j: int| 0 <= j < k ==> t@[j] != ':',
        decreases t@.len() - k,
    {
        k = k + 1;
    }
    if k == t.len() {
        proof {
            if is_claim_text(t@) {
                let i = choose|i: int| is_claim_split(t@, i);
                assert(t@[i] == ':');
            }
        }
        return None;
    }
    let ok = scan_verb(t, k) && scan_subject_expr(t, k + 1);
    proof {
        if !ok && is_claim_text(t@) {
            let i = choose|i: int| is_claim_split(t@, i);
            if i > k {
                assert(t@.take(i)[k as int] == ':');
            }
        }
        if ok {
            assert(is_claim_split(t@, k as int));
        }
    }
    if ok {
        Some(k)
    } else {
        None
    }
}

/// Whether `claim_str` is a claim text.
pub fn is_valid_claim_str(claim_str: &str) -> (r: bool)
    ensures
        r == is_claim_text(claim_str@),
{
    claim_colon(&chars_of(claim_str)).is_some()
}

} // verus!
