use claims::claim::check::{claim_check, claim_check_str, claim_exact, claim_exact_str};
use claims::claim::Claim;

#[test]
fn exact_with_invalid_query() {
    assert!(!claim_exact_str(&Claim::new("read", ""), "whatever-this-is"));
}

#[test]
fn check_with_invalid_query() {
    assert!(!claim_check_str(&Claim::new("read", ""), "whatever-this-is"));
}

#[test]
fn test_exact_with_same() {
    assert!(claim_check_str(&Claim::new("read", ""), "read:*"));
}

#[test]
fn test_exact_with_different_verb() {
    assert!(!claim_check_str(&Claim::new("read", ""), "admin:*"));
    assert!(!claim_check_str(&Claim::new("read", "something"), "admin:something"));
}

#[test]
fn test_exact_with_different_subject() {
    assert!(!claim_exact_str(&Claim::new("read", ""), "read:blah"));
    assert!(!claim_exact_str(&Claim::new("read", "something"), "read:blah"));
    assert!(!claim_exact_str(&Claim::new("read", "something"), "read:something.blah"));
}

#[test]
fn check_global_claim_with_valid() {
    let claim = Claim::new("read", "");
    let list = ["read:*", "read:something", "read:some-like_this.stuff-or_o.even-with-99"];
    for x in list.iter() {
        assert!(claim_check_str(&claim, x), "claim: '{:?}' with query '{}' should work", claim, x);
    }
}

#[test]
fn check_global_claim_with_invalid() {
    let claim = Claim::new("read", "");
    let list = ["admin:*", "admin:something"];
    for x in list.iter() {
        assert!(!claim_check_str(&claim, x), "claim: '{:?}' with query '{}' should fail", claim, x);
    }
}

#[test]
fn check_specific_claim_with_valid() {
    let claim = Claim::new("read", "something");
    let list = ["read:something", "read:something.else"];
    for x in list.iter() {
        assert!(claim_check_str(&claim, x), "claim: '{:?}' with query '{}' should work", claim, x);
    }
}

#[test]
fn check_specific_claim_with_invalid() {
    let claim = Claim::new("read", "something");
    let list = ["read:*", "admin:something", "admin:*", "admin:something"];
    for x in list.iter() {
        assert!(!claim_check_str(&claim, x), "claim: '{:?}' with query '{}' should fail", claim, x);
    }
}

#[test]
fn check_needs_a_segment_boundary() {
    let claim = Claim::new("read", "foo");
    assert!(!claim_check(&claim, &Claim::new("read", "foobar")));
    assert!(claim_check(&claim, &Claim::new("read", "foo.bar")));
    assert!(!claim_check(&Claim::new("read", "foo.bar"), &claim));
}

#[test]
fn exact_compares_both_fields() {
    assert!(claim_exact(&Claim::new("read", "a.b"), &Claim::new("read", "a.b")));
    assert!(!claim_exact(&Claim::new("read", "a.b"), &Claim::new("read", "a")));
    assert!(!claim_exact(&Claim::new("read", "a"), &Claim::new("write", "a")));
}
