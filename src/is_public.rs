//! The strict form of the claim grammar, which refuses a bare trailing dot
//! after the subject (`verb:path.`).
use crate::claim::is_valid_claim_str::{claim_colon, is_claim_text};
use crate::text::chars_of;
use vstd::prelude::*;

verus! {

/// A claim text that does not end in a bare dot.
pub open spec fn is_strict_claim_text(t: Seq<char>) -> bool {
    is_claim_text(t) && t.last() != '.'
}

/// Whether `claim` is a claim text in the strict grammar.
pub fn is_valid_claim(claim: &str) -> (r: bool)
    ensures
        r == is_strict_claim_text(claim@),
{
    let t = chars_of(claim);
    match claim_colon(&t) {
        None => false,
        Some(_) => t[t.len() - 1] != '.',
    }
}

} // verus!
