use psl2::compat::{domain, domain_str, suffix, suffix_str, Type};

#[test]
fn domain_and_suffix() {
    let d = domain_str("www.example.co.uk").unwrap();
    assert_eq!(d.as_bytes(), b"example.co.uk");
    assert_eq!(d.suffix().as_bytes(), b"co.uk");
    assert!(d.suffix().is_known());
    assert_eq!(d.suffix().typ(), Some(Type::Icann));

    assert_eq!(suffix_str("com").unwrap().as_bytes(), b"com");
    assert_eq!(domain_str("com"), None); // a bare suffix has no domain
}

#[test]
fn unknown_tld_uses_default_rule() {
    let s = suffix_str("foo.example").unwrap();
    assert_eq!(s.as_bytes(), b"example");
    assert!(!s.is_known());
    assert_eq!(
        domain_str("foo.example").unwrap().as_bytes(),
        b"foo.example"
    );
}

#[test]
fn fully_qualified() {
    let s = suffix_str("example.com.").unwrap();
    assert_eq!(s.as_bytes(), b"com");
    assert!(s.is_fqdn());
    assert!(!suffix_str("example.com").unwrap().is_fqdn());
}

#[test]
fn byte_and_str_agree() {
    assert_eq!(domain(b"a.b.example.com"), domain_str("a.b.example.com"));
    assert_eq!(
        domain_str("a.b.example.com").unwrap().as_bytes(),
        b"example.com"
    );
}

#[test]
fn invalid() {
    assert_eq!(suffix(b""), None);
    assert_eq!(domain(b""), None);
    assert_eq!(suffix(&[0xff, 0xfe]), None); // not UTF-8
}
