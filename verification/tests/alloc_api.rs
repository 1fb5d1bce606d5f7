use psl2::{analyze, is_public_suffix, registrable_domain, subdomain, suffix};

#[test]
fn alloc_api() {
    assert_eq!(suffix("example.com").as_deref(), Some("com"));
    assert_eq!(
        registrable_domain("www.example.co.uk").as_deref(),
        Some("example.co.uk")
    );
    assert_eq!(subdomain("a.b.example.co.uk").as_deref(), Some("a.b"));
    assert_eq!(registrable_domain("co.uk"), None);
    assert!(is_public_suffix("co.uk"));
    assert_ne!(suffix("."), Some(String::new()));
    assert!(analyze("com..").is_none());
}

#[test]
fn alloc_normalizes_case_and_trailing_dot() {
    assert_eq!(
        registrable_domain("WwW.Example.COM.").as_deref(),
        Some("example.com")
    );
}

#[test]
fn alloc_private_suffix() {
    let info = analyze("foo.blogspot.com").unwrap();
    assert_eq!(info.suffix(), "blogspot.com");
    assert!(info.is_private());
    assert_eq!(registrable_domain("blogspot.com"), None);
}
