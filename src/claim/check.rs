//! Exact match and containment between a held claim and a requested one.
use crate::claim::claim_from_str::claim_from_str;
use crate::claim::{parse_claim_text, Claim, ClaimView};
use crate::text::{starts_with, starts_with_dotted};
use vstd::prelude::*;

verus! {

/// The two claims have the same verb and the same subject.
pub open spec fn exact_spec(claim: ClaimView, query: ClaimView) -> bool {
    claim.verb == query.verb && claim.subject == query.subject
}

/// `claim` authorizes `query`: same verb, and `claim` is global, or `query`
/// is not global and its subject is `claim`'s or lies below it.
pub open spec fn check_spec(claim: ClaimView, query: ClaimView) -> bool {
    &&& claim.verb == query.verb
    &&& (claim.is_global() || (!query.is_global() && (claim.subject == query.subject
        || starts_with(query.subject, claim.subject + seq!['.']))))
}

/// `check_spec` against the claim that `query` stands for; false when it
/// is not a claim text.
pub open spec fn check_text_spec(claim: ClaimView, query: Seq<char>) -> bool {
    match parse_claim_text(query) {
        Some(q) => check_spec(claim, q),
        None => false,
    }
}

/// `exact_spec` against the claim that `query` stands for; false when it
/// is not a claim text.
pub open spec fn exact_text_spec(claim: ClaimView, query: Seq<char>) -> bool {
    match parse_claim_text(query) {
        Some(q) => exact_spec(claim, q),
        None => false,
    }
}

pub fn claim_check_str(claim: &Claim, query: &str) -> (r: bool)
    ensures
        r == check_text_spec(claim@, query@),
{
    let parse_result = claim_from_str(query);
    match parse_result {
        Ok(parsed) => claim_check(claim, &parsed),
        Err(_) => false,
    }
}

pub fn claim_exact_str(claim: &Claim, query: &str) -> (r: bool)
    ensures
        r == exact_text_spec(claim@, query@),
{
    let parse_result = claim_from_str(query);
    match parse_result {
        Ok(parsed) => claim_exact(claim, &parsed),
        Err(_) => false,
    }
}

pub fn claim_exact(claim: &Claim, query: &Claim) -> (r: bool)
    ensures
        r == exact_spec(claim@, query@),
{
    claim.verb == query.verb && claim.subject == query.subject
}

pub fn claim_check(claim: &Claim, query: &Claim) -> (r: bool)
    ensures
        r == check_spec(claim@, query@),
{
    if claim.verb != query.verb {
        return false;
    }
    if claim.is_global() {
        return true;
    }
    if query.is_global() {
        return false;
    }
    if claim.subject == query.subject {
        return true;
    }
    starts_with_dotted(query.subject.as_str(), claim.subject.as_str())
}

/// Every claim authorizes itself.
pub proof fn lemma_check_reflexive(c: ClaimView)
    ensures
        check_spec(c, c),
{
}

/// An exact match authorizes.
pub proof fn lemma_exact_implies_check(claim: ClaimView, query: ClaimView)
    requires
        exact_spec(claim, query),
    ensures
        check_spec(claim, query),
{
}

/// A global claim authorizes every claim of its verb and none of another;
/// a global query is authorized only by a global claim of its verb.
pub proof fn lemma_check_global(claim: ClaimView, query: ClaimView)
    ensures
        claim.is_global() ==> (check_spec(claim, query) <==> claim.verb == query.verb),
        claim.verb != query.verb ==> !check_spec(claim, query),
        query.is_global() ==> (check_spec(claim, query) <==> claim.verb == query.verb
            && claim.is_global()),
{
}

} // verus!
