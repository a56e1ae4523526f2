//! The claim type: a verb and a dot-delimited subject, where an empty
//! subject makes the claim global for its verb.
use crate::claim::check::{
    check_spec, check_text_spec, claim_check, claim_check_str, claim_exact, claim_exact_str,
    exact_spec, exact_text_spec,
};
use crate::claim::claim_from_str::{
    claim_from_str, claim_views, claims_from_strs, claims_sorted, first_invalid, not_parsed_message,
    parsed_claims,
};
use crate::claim::descendants::{
    claim_direct_child, claim_direct_child_str, claim_direct_descendant,
    claim_direct_descendant_str, direct_child_spec, direct_descendant_spec, text_option,
};
use crate::claim::is_valid_claim_str::{is_claim_split, is_claim_text, valid_subject, valid_verb};
use crate::error::Error;
use crate::text::{
    compare_text, lemma_text_lt_asymmetric, lemma_text_lt_irreflexive, lemma_text_lt_total,
    lemma_text_lt_transitive, text_lt,
};
use std::cmp::Ordering;
use vstd::prelude::*;

pub mod check;
pub mod claim_check;
pub mod claim_from_str;
pub mod descendants;
pub mod is_valid_claim_str;

verus! {

/// What a claim is: its verb and its subject as character sequences.
pub struct ClaimView {
    pub verb: Seq<char>,
    pub subject: Seq<char>,
}

impl ClaimView {
    /// A verb of the grammar, and a subject that is global or a path.
    pub open spec fn well_formed(self) -> bool {
        valid_verb(self.verb) && valid_subject(self.subject)
    }

    pub open spec fn is_global(self) -> bool {
        self.subject.len() == 0
    }
}

/// A permission: `verb` over `subject`, or over every subject when
/// `subject` is empty.
#[derive(Debug, Eq, Ord)]
pub struct Claim {
    verb: String,
    subject: String,
}

impl View for Claim {
    type V = ClaimView;

    closed spec fn view(&self) -> ClaimView {
        ClaimView { verb: self.verb@, subject: self.subject@ }
    }
}

/// The subject that a subject expression stands for: `*` and the empty text
/// are global, a trailing `.*` or `.` is dropped, anything else is kept.
pub open spec fn normalized_subject(s: Seq<char>) -> Seq<char> {
    if s.len() == 0 || s == seq!['*'] {
        Seq::empty()
    } else if s.len() >= 2 && s.last() == '*' && s[s.len() - 2] == '.' {
        s.take(s.len() - 2)
    } else if s.last() == '.' {
        s.drop_last()
    } else {
        s
    }
}

/// The claim that a text stands for, if it is a claim text.
pub open spec fn parse_claim_text(t: Seq<char>) -> Option<ClaimView> {
    if is_claim_text(t) {
        let i = choose|i: int| is_claim_split(t, i);
        Some(ClaimView { verb: t.take(i), subject: normalized_subject(t.skip(i + 1)) })
    } else {
        None
    }
}

/// The text of a claim: `verb:*` when global, `verb:subject` otherwise.
pub open spec fn render_claim(c: ClaimView) -> Seq<char> {
    c.verb + seq![':'] + if c.subject.len() == 0 {
        seq!['*']
    } else {
        c.subject
    }
}

/// Claims are ordered by verb, then by subject.
pub open spec fn claim_lt(a: ClaimView, b: ClaimView) -> bool {
    text_lt(a.verb, b.verb) || (a.verb == b.verb && text_lt(a.subject, b.subject))
}

/// The three-way comparison that goes with `claim_lt`.
pub open spec fn claim_order(a: ClaimView, b: ClaimView) -> Ordering {
    if a == b {
        Ordering::Equal
    } else if claim_lt(a, b) {
        Ordering::Less
    } else {
        Ordering::Greater
    }
}

pub proof fn lemma_claim_lt_irreflexive(a: ClaimView)
    ensures
        !claim_lt(a, a),
{
    lemma_text_lt_irreflexive(a.verb);
    lemma_text_lt_irreflexive(a.subject);
}

pub proof fn lemma_claim_lt_transitive(a: ClaimView, b: ClaimView, c: ClaimView)
    requires
        claim_lt(a, b),
        claim_lt(b, c),
    ensures
        claim_lt(a, c),
{
    if text_lt(a.verb, b.verb) && text_lt(b.verb, c.verb) {
        lemma_text_lt_transitive(a.verb, b.verb, c.verb);
    } else if a.verb == b.verb && b.verb == c.verb {
        lemma_text_lt_transitive(a.subject, b.subject, c.subject);
    }
}

pub proof fn lemma_claim_lt_total(a: ClaimView, b: ClaimView)
    requires
        a != b,
    ensures
        claim_lt(a, b) || claim_lt(b, a),
{
    if a.verb != b.verb {
        lemma_text_lt_total(a.verb, b.verb);
    } else {
        lemma_text_lt_total(a.subject, b.subject);
    }
}

pub proof fn lemma_claim_lt_asymmetric(a: ClaimView, b: ClaimView)
    requires
        claim_lt(a, b),
    ensures
        !claim_lt(b, a),
{
    if text_lt(a.verb, b.verb) {
        lemma_text_lt_asymmetric(a.verb, b.verb);
        lemma_text_lt_irreflexive(a.verb);
    } else {
        lemma_text_lt_irreflexive(a.verb);
        lemma_text_lt_asymmetric(a.subject, b.subject);
    }
}

impl Claim {
    pub fn new(verb: &str, subject: &str) -> (r: Claim)
        ensures
            r@ == (ClaimView { verb: verb@, subject: subject@ }),
    {
        Claim { verb: verb.to_owned(), subject: subject.to_owned() }
    }

    pub fn from_tuple(tuple: (&str, &str)) -> (r: Claim)
        ensures
            r@ == (ClaimView { verb: tuple.0@, subject: tuple.1@ }),
    {
        Claim { verb: tuple.0.to_owned(), subject: tuple.1.to_owned() }
    }

    pub fn verb(&self) -> (r: &str)
        ensures
            r@ == self@.verb,
    {
        self.verb.as_str()
    }

    pub fn subject(&self) -> (r: &str)
        ensures
            r@ == self@.subject,
    {
        self.subject.as_str()
    }

    /// Orders by verb, then by subject.
    pub fn cmp(&self, other: &Self) -> (r: Ordering)
        ensures
            r == claim_order(self@, other@),
    {
        let verb_comp = compare_text(self.verb.as_str(), other.verb.as_str());
        match verb_comp {
            Ordering::Equal => {
                let r = compare_text(self.subject.as_str(), other.subject.as_str());
                proof {
                    lemma_text_lt_irreflexive(self@.verb);
                }
                r
            },
            _ => {
                proof {
                    if verb_comp == Ordering::Greater {
                        lemma_text_lt_total(self@.verb, other@.verb);
                        lemma_text_lt_asymmetric(other@.verb, self@.verb);
                    }
                }
                verb_comp
            },
        }
    }

    pub fn is_global(&self) -> (r: bool)
        ensures
            r == self@.is_global(),
    {
        self.subject.as_str().is_empty()
    }

    pub fn parse(string: &str) -> (r: Result<Claim, Error>)
        ensures
            r is Ok <==> is_claim_text(string@),
            r matches Ok(c) ==> parse_claim_text(string@) == Some(c@),
            r matches Err(e) ==> e.message() == not_parsed_message(string@),
    {
        claim_from_str(string)
    }

    pub fn parse_list(claim_strs: &[&str]) -> (r: Result<Vec<Claim>, Error>)
        ensures
            r is Ok <==> forall|j: int| 0 <= j < claim_strs@.len() ==> is_claim_text(#[trigger] claim_strs@[j]@),
            r matches Ok(v) ==> claims_sorted(claim_views(v@)) && claim_views(v@).to_set() == parsed_claims(claim_strs@),
            r matches Err(e) ==> exists|j: int| first_invalid(claim_strs@, j) && e.message() == not_parsed_message(claim_strs@[j]@),
    {
        claims_from_strs(claim_strs)
    }

    pub fn is_exact(&self, query: &Claim) -> (r: bool)
        ensures
            r == exact_spec(self@, query@),
    {
        claim_exact(self, query)
    }

    pub fn is_exact_str(&self, query: &str) -> (r: bool)
        ensures
            r == exact_text_spec(self@, query@),
    {
        claim_exact_str(self, query)
    }

    pub fn check(&self, query: &Claim) -> (r: bool)
        ensures
            r == check_spec(self@, query@),
    {
        claim_check(self, query)
    }

    pub fn check_str(&self, query: &str) -> (r: bool)
        ensures
            r == check_text_spec(self@, query@),
    {
        claim_check_str(self, query)
    }

    pub fn direct_child(&self, query: &Claim) -> (r: Option<String>)
        ensures
            text_option(r) == direct_child_spec(self@, query@),
    {
        claim_direct_child(self, query)
    }

    pub fn direct_child_str(&self, query: &str) -> (r: Option<String>)
        ensures
            text_option(r) == match parse_claim_text(query@) {
                Some(q) => direct_child_spec(self@, q),
                None => None,
            },
    {
        claim_direct_child_str(self, query)
    }

    pub fn direct_descendant(&self, query: &Claim) -> (r: Option<String>)
        ensures
            text_option(r) == direct_descendant_spec(self@, query@),
    {
        claim_direct_descendant(self, query)
    }

    pub fn direct_descendant_str(&self, query: &str) -> (r: Option<String>)
        ensures
            text_option(r) == match parse_claim_text(query@) {
                Some(q) => direct_descendant_spec(self@, q),
                None => None,
            },
    {
        claim_direct_descendant_str(self, query)
    }

    /// The text of the claim: `verb:*` when global, `verb:subject` otherwise.
    pub fn to_string(&self) -> (r: String)
        ensures
            r@ == render_claim(self@),
    {
        let mut text = self.verb.clone();
        text.append(":");
        if self.is_global() {
            text.append("*");
        } else {
            text.append(self.subject.as_str());
        }
        proof {
            reveal_strlit(":");
            reveal_strlit("*");
        }
        assert(text@ =~= render_claim(self@));
        text
    }
}

impl PartialEq for Claim {
    fn eq(&self, other: &Claim) -> (r: bool) {
        self.verb == other.verb && self.subject == other.subject
    }
}

impl vstd::std_specs::cmp::PartialEqSpecImpl for Claim {
    open spec fn obeys_eq_spec() -> bool {
        true
    }

    open spec fn eq_spec(&self, other: &Claim) -> bool {
        self@ == other@
    }
}

impl PartialOrd for Claim {
    fn partial_cmp(&self, other: &Claim) -> (r: Option<Ordering>) {
        Some(Claim::cmp(self, other))
    }
}

impl vstd::std_specs::cmp::PartialOrdSpecImpl for Claim {
    open spec fn obeys_partial_cmp_spec() -> bool {
        true
    }

    open spec fn partial_cmp_spec(&self, other: &Claim) -> Option<Ordering> {
        Some(claim_order(self@, other@))
    }
}

} // verus!
