use claims::claim::claim_from_str::{claim_from_str, claims_from_strs, err_not_parsed, parse_subject};
use claims::claim::Claim;
use claims::error::Error;

#[test]
fn claim_from_str_accepts_the_valid() {
    let list = [
        "admin:some-like_this.stuff-or_o_.even-with-99",
        "read:some-like_this.stuff-or_o.even-with-99",
        "admin:something",
        "read:something",
        "A:1.9",
        "A:1-9",
        "A:*",
        "A:some.stuff.*",
    ];
    for x in list.iter() {
        let res = claim_from_str(x);
        assert!(res.is_ok(), "claim: '{}' should work but failed with {:?}", x, res);
    }
}

#[test]
fn claim_from_str_rejects_the_invalid() {
    let list = [
        "noverb",
        "admin:stuff-has-spaces ",
        "  admin:stuff-has-spaces",
        "  admin:stuff-has-spaces ",
        "admin:stuff:has-other-colons",
        "read:**",
        "read:.",
        "read:.paco",
        "read:*.*",
        "read:*.some.stuff",
    ];
    for x in list.iter() {
        let res = claim_from_str(x);
        assert!(res.is_err(), "claim: '{}' should fail", x);
    }
}

#[test]
fn parse_subject_for_global() {
    assert_eq!(parse_subject(""), "");
    assert_eq!(parse_subject("*"), "");
}

#[test]
fn parse_subject_for_suffix() {
    assert_eq!(parse_subject("a"), "a");
    assert_eq!(parse_subject("a."), "a");
    assert_eq!(parse_subject("a.*"), "a");
    assert_eq!(parse_subject("paco"), "paco");
    assert_eq!(parse_subject("paco.el.flaco"), "paco.el.flaco");
    assert_eq!(parse_subject("paco.el.flaco."), "paco.el.flaco");
    assert_eq!(parse_subject("paco.el.flaco.*"), "paco.el.flaco");
}

#[test]
fn parse_list_all_good() {
    let strings = ["read:something", "read:*", "read:*", "read:something"];
    let expected = vec![Claim::new("read", ""), Claim::new("read", "something")];
    assert_eq!(claims_from_strs(&strings), Ok(expected));
}

#[test]
fn parse_list_some_bad() {
    let strings = ["read:*", "read:something", "bad", "another-bad"];
    assert_eq!(claims_from_strs(&strings), Err(err_not_parsed("bad")));
}

#[test]
fn parse_list_blank() {
    let strings: Vec<&str> = Vec::new();
    let expected: Vec<Claim> = Vec::new();
    assert_eq!(claims_from_strs(&strings), Ok(expected));
}

#[test]
fn parse_error_names_the_text() {
    assert_eq!(
        claim_from_str("bad"),
        Err(Error::Syntax("the given claim bad is not valid".to_string()))
    );
    assert_eq!(err_not_parsed("x").description(), "the given claim x is not valid");
}

#[test]
fn parse_rejects_doubled_dots_and_empty_parts() {
    let list = ["read:a..b", "read:a..", "read:a.*.*", ":a", "read:", "read:a.b.", "read:-a"];
    let expected = [false, false, false, false, false, true, false];
    for (x, ok) in list.iter().zip(expected.iter()) {
        assert_eq!(claim_from_str(x).is_ok(), *ok, "claim: '{}'", x);
    }
    assert_eq!(claim_from_str("read:a.b."), Ok(Claim::new("read", "a.b")));
    assert_eq!(claim_from_str("read:a.-b"), Ok(Claim::new("read", "a.-b")));
}
