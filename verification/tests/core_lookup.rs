use psl2::data::{EXCEPTIONS, RULES, WILDCARDS};
use psl2::table::{lookup_block, split_line};
use psl2::{lookup, psl_version};

#[test]
fn core_lookup_basic() {
    let d = lookup("www.example.co.uk").unwrap();
    assert_eq!(d.suffix(), "co.uk");
    assert_eq!(d.registrable_domain(), Some("example.co.uk"));
    assert_eq!(d.subdomain(), Some("www"));
    assert!(d.is_icann());
}

#[test]
fn core_lookup_requires_normalized_input() {
    assert!(lookup("WWW.EXAMPLE.COM").is_none());
    assert!(lookup("食狮.com.cn").is_none());
    assert!(lookup("").is_none());
    assert!(lookup(".com").is_none());
    assert!(lookup("a..b").is_none());
    // A single trailing dot is accepted.
    assert_eq!(lookup("example.com.").unwrap().suffix(), "com");
}

#[test]
fn core_wildcard_and_exception() {
    assert!(lookup("foo.ck").unwrap().is_public_suffix());
    assert_eq!(
        lookup("a.b.test.ck").unwrap().registrable_domain(),
        Some("b.test.ck")
    );
    assert_eq!(
        lookup("www.ck").unwrap().registrable_domain(),
        Some("www.ck")
    );
    assert_eq!(lookup("www.ck").unwrap().suffix(), "ck");
}

#[test]
fn core_unknown_tld_default_rule() {
    let d = lookup("foo.nonexistenttld").unwrap();
    assert_eq!(d.suffix(), "nonexistenttld");
    assert_eq!(d.registrable_domain(), Some("foo.nonexistenttld"));
    assert!(!d.is_known());
}

/// Cross-check the binary search against a brute-force scan for every rule.
#[test]
fn binary_search_matches_linear() {
    for block in [RULES, WILDCARDS, EXCEPTIONS] {
        for line in block.lines() {
            let (rule, sec) = split_line(line);
            assert_eq!(lookup_block(block, rule), Some(sec), "missing {rule:?}");
        }
        assert_eq!(lookup_block(block, "\u{0}definitely-not-present"), None);
        assert_eq!(lookup_block(block, "zzzzzzzz-not-present"), None);
    }
}

#[test]
fn version_present() {
    assert!(!psl_version().is_empty());
    assert!(!psl_version().contains('\n'));
}
