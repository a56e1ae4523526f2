use claims::is_public::is_valid_claim;

#[test]
fn is_public_accepts_the_valid() {
    let list = [
        "admin:some-like_this.stuff-or_o_.even-with-99",
        "read:some-like_this.stuff-or_o.even-with-99",
        "admin:something",
        "read:something",
        "A:1.9",
        "A:1-9",
        "A:*",
        "A:some.stuff.*",
    ];
    for x in list.iter() {
        assert!(is_valid_claim(x), "claim: '{}' should work", x);
    }
}

#[test]
fn is_public_rejects_the_invalid() {
    let list = [
        "admin:stuff-has-spaces ",
        "  admin:stuff-has-spaces",
        "  admin:stuff-has-spaces ",
        "admin:stuff:has-other-colons",
        "read:**",
        "read:.paco",
        "read:*.*",
        "read:*.some.stuff",
    ];
    for x in list.iter() {
        assert!(!is_valid_claim(x), "claim: '{}' should fail", x);
    }
}

#[test]
fn is_public_refuses_a_trailing_dot() {
    assert!(!is_valid_claim("read:a."));
    assert!(is_valid_claim("read:a"));
    assert!(is_valid_claim("read:a.*"));
}
