use claims::claim::is_valid_claim_str::is_valid_claim_str;

#[test]
fn is_valid_claim_str_accepts_the_valid() {
    let list = [
        "admin:some-like_this.stuff-or_o_.even-with-99",
        "read:some-like_this.stuff-or_o.even-with-99",
        "admin:something",
        "read:something",
        "A:1.9",
        "A:1-9",
        "A:*",
        "A:some.stuff.*",
    ];
    for x in list.iter() {
        assert!(is_valid_claim_str(x), "claim: '{}' should work", x);
    }
}

#[test]
fn is_valid_claim_str_rejects_the_invalid() {
    let list = [
        "admin:stuff-has-spaces ",
        "  admin:stuff-has-spaces",
        "  admin:stuff-has-spaces ",
        "admin:stuff:has-other-colons",
        "read:**",
        "read:.paco",
        "read:*.*",
        "read:*.some.stuff",
    ];
    for x in list.iter() {
        assert!(!is_valid_claim_str(x), "claim: '{}' should fail", x);
    }
}

#[test]
fn is_valid_claim_str_takes_a_trailing_dot_and_no_empty_text() {
    assert!(is_valid_claim_str("read:a."));
    assert!(!is_valid_claim_str(""));
    assert!(!is_valid_claim_str("read:a b"));
    assert!(!is_valid_claim_str("re ad:a"));
}
