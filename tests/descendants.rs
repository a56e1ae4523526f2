use claims::claim::descendants::{
    claim_direct_child, claim_direct_child_str, claim_direct_descendant,
    claim_direct_descendant_str, claims_direct_children, claims_direct_children_str,
    claims_direct_descendants, claims_direct_descendants_str,
};
use claims::claim::Claim;

#[test]
fn test_claims_direct_children_with_bad_query() {
    let claims = [Claim::new("read", "paco"), Claim::new("read", "something")];
    let query = "adminasdasda";
    let expected: Vec<String> = Vec::new();
    assert_eq!(claims_direct_children_str(&claims, query), expected)
}

#[test]
fn test_claims_direct_children_with_none() {
    let claims = [Claim::new("read", "paco"), Claim::new("read", "something")];
    let query = "admin:whatever";
    let expected: Vec<String> = Vec::new();
    assert_eq!(claims_direct_children_str(&claims, query), expected)
}

#[test]
fn test_claims_direct_children_with_some() {
    let claims = [
        Claim::new("read", "paco"),
        Claim::new("read", "paco"),
        Claim::new("read", "something"),
        Claim::new("admin", "blah"),
    ];
    let query = "read:*";
    let expected: Vec<String> = vec![String::from("paco"), String::from("something")];
    assert_eq!(claims_direct_children_str(&claims, query), expected)
}

#[test]
fn test_claims_direct_descendants_with_bad_query() {
    let claims = [Claim::new("read", "paco"), Claim::new("read", "something")];
    let query = "adminasdasda";
    let expected: Vec<&str> = Vec::new();
    assert_eq!(claims_direct_descendants_str(&claims, query), expected)
}

#[test]
fn test_claims_direct_descendants_with_none() {
    let claims = [Claim::new("read", "paco"), Claim::new("read", "something")];
    let query = "admin:whatever";
    let expected: Vec<String> = Vec::new();
    assert_eq!(claims_direct_descendants_str(&claims, query), expected)
}

#[test]
fn test_claims_direct_descendants_with_some() {
    let claims = [
        Claim::new("read", "paco.what"),
        Claim::new("read", "paco.and.something"),
        Claim::new("read", "paco.and.another"),
        Claim::new("read", "paco"),
        Claim::new("admin", "blah"),
    ];
    let query = "read:paco";
    let expected: Vec<String> = vec![String::from("and"), String::from("what")];
    assert_eq!(claims_direct_descendants_str(&claims, query), expected)
}

#[test]
fn test_direct_descendant_valid_global() {
    let claim = Claim::new("read", "paco");
    assert_eq!(claim_direct_descendant_str(&claim, "read:*"), Some(String::from("paco")));
}

#[test]
fn test_direct_descendant_valid() {
    let claim = Claim::new("read", "something.or.other");
    assert_eq!(claim_direct_descendant_str(&claim, "read:*"), Some(String::from("something")));
    assert_eq!(claim_direct_descendant_str(&claim, "read:something"), Some(String::from("or")));
    assert_eq!(
        claim_direct_descendant_str(&claim, "read:something.or"),
        Some(String::from("other"))
    );
}

#[test]
fn test_direct_descendant_global() {
    let claim = Claim::new("read", "");
    assert_eq!(claim_direct_descendant_str(&claim, "read:*"), None);
    assert_eq!(claim_direct_descendant_str(&claim, "read:something"), None);
    assert_eq!(claim_direct_descendant_str(&claim, "admin:*"), None);
    assert_eq!(claim_direct_descendant_str(&claim, "admin:something"), None);
}

#[test]
fn test_direct_descendant_invalid() {
    let claim = Claim::new("read", "something.or.other");
    assert_eq!(claim_direct_descendant_str(&claim, "read:another"), None);
    assert_eq!(claim_direct_descendant_str(&claim, "admin:something"), None);
    assert_eq!(claim_direct_descendant_str(&claim, "read:something.or.other"), None);
}

#[test]
fn test_direct_child_valid_global() {
    let claim = Claim::new("read", "paco");
    assert_eq!(claim_direct_child_str(&claim, "read:*"), Some(String::from("paco")));
}

#[test]
fn test_direct_child_valid() {
    let claim = Claim::new("read", "something.or.other");
    assert_eq!(claim_direct_child_str(&claim, "read:*"), None);
    assert_eq!(claim_direct_child_str(&claim, "read:something"), None);
    assert_eq!(claim_direct_child_str(&claim, "read:something.or"), Some(String::from("other")));
}

#[test]
fn test_direct_child_global() {
    let claim = Claim::new("read", "");
    assert_eq!(claim_direct_child_str(&claim, "read:*"), None);
    assert_eq!(claim_direct_child_str(&claim, "read:something"), None);
    assert_eq!(claim_direct_child_str(&claim, "admin:*"), None);
    assert_eq!(claim_direct_child_str(&claim, "admin:something"), None);
}

#[test]
fn test_direct_child_invalid() {
    let claim = Claim::new("read", "something.or.other");
    assert_eq!(claim_direct_child_str(&claim, "read:another"), None);
    assert_eq!(claim_direct_child_str(&claim, "admin:something"), None);
    assert_eq!(claim_direct_child_str(&claim, "read:something.or.other"), None);
}

#[test]
fn direct_relations_need_a_segment_boundary() {
    let claim = Claim::new("read", "foobar.x");
    let query = Claim::new("read", "foo");
    assert_eq!(claim_direct_child(&claim, &query), None);
    assert_eq!(claim_direct_descendant(&claim, &query), None);
    let query = Claim::new("read", "foobar");
    assert_eq!(claim_direct_child(&claim, &query), Some(String::from("x")));
    assert_eq!(claim_direct_descendant(&claim, &query), Some(String::from("x")));
}

#[test]
fn collections_sort_and_drop_duplicates() {
    let claims = [
        Claim::new("read", "b.z"),
        Claim::new("read", "a"),
        Claim::new("read", "c"),
        Claim::new("read", "a"),
        Claim::new("read", "b"),
    ];
    let query = Claim::new("read", "");
    assert_eq!(claims_direct_children(&claims, &query), vec!["a", "b", "c"]);
    assert_eq!(claims_direct_descendants(&claims, &query), vec!["a", "b", "c"]);
    assert_eq!(claims_direct_children(&[], &query), Vec::<String>::new());
}
