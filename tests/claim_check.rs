use claims::claim::claim_check::{claim_check, claim_check_str, claim_is_global};

#[test]
fn claim_check_test_claim_is_global() {
    assert!(claim_is_global(("read", "")));
    assert!(!claim_is_global(("read", "paco")));
}

#[test]
fn test_with_invalid_query() {
    assert!(!claim_check_str(("read", ""), "whatever-this-is"));
}

#[test]
fn claim_check_global_claim_with_valid() {
    let claim = ("read", "");
    let list = ["read:*", "read:something", "read:some-like_this.stuff-or_o.even-with-99"];
    for x in list.iter() {
        assert!(claim_check_str(claim, x), "claim: '{:?}' with query '{}' should work", claim, x);
    }
}

#[test]
fn claim_check_global_claim_with_invalid() {
    let claim = ("read", "");
    let list = ["admin:*", "admin:something"];
    for x in list.iter() {
        assert!(!claim_check_str(claim, x), "claim: '{:?}' with query '{}' should fail", claim, x);
    }
}

#[test]
fn claim_check_specific_claim_with_valid() {
    let claim = ("read", "something");
    let list = ["read:something", "read:something.else"];
    for x in list.iter() {
        assert!(claim_check_str(claim, x), "claim: '{:?}' with query '{}' should work", claim, x);
    }
}

#[test]
fn claim_check_specific_claim_with_invalid() {
    let claim = ("read", "something");
    let list = ["read:*", "admin:something", "admin:*", "admin:something"];
    for x in list.iter() {
        assert!(!claim_check_str(claim, x), "claim: '{:?}' with query '{}' should fail", claim, x);
    }
}

#[test]
fn claim_check_pairs_need_a_segment_boundary() {
    assert!(!claim_check(("read", "foo"), ("read", "foobar")));
    assert!(claim_check(("read", "foo"), ("read", "foo.bar")));
    assert!(claim_check(("read", ""), ("read", "")));
    assert!(!claim_check(("read", "foo"), ("read", "")));
}
