//! Containment for claims given as a pair of texts, verb and subject.
use crate::claim::check::{check_spec, check_text_spec};
use crate::claim::claim_from_str::claim_from_str;
use crate::claim::ClaimView;
use crate::text::{compare_text, starts_with_dotted};
use std::cmp::Ordering;
use vstd::prelude::*;

verus! {

/// The claim that a pair of verb and subject stands for.
pub open spec fn pair_view(claim: (&str, &str)) -> ClaimView {
    ClaimView { verb: claim.0@, subject: claim.1@ }
}

fn same_text(a: &str, b: &str) -> (r: bool)
    ensures
        r == (a@ == b@),
{
    matches!(compare_text(a, b), Ordering::Equal)
}

pub fn claim_is_global(claim: (&str, &str)) -> (r: bool)
    ensures
        r == pair_view(claim).is_global(),
{
    claim.1.is_empty()
}

pub fn claim_check_str(claim: (&str, &str), query: &str) -> (r: bool)
    ensures
        r == check_text_spec(pair_view(claim), query@),
{
    let parse_result = claim_from_str(query);
    match parse_result {
        Ok(parsed) => claim_check(claim, (parsed.verb(), parsed.subject())),
        Err(_) => false,
    }
}

pub fn claim_check(claim: (&str, &str), query: (&str, &str)) -> (r: bool)
    ensures
        r == check_spec(pair_view(claim), pair_view(query)),
{
    if !same_text(claim.0, query.0) {
        return false;
    }
    if claim_is_global(claim) {
        return true;
    }
    if claim_is_global(query) {
        return false;
    }
    if same_text(claim.1, query.1) {
        return true;
    }
    starts_with_dotted(query.1, claim.1)
}

} // verus!
