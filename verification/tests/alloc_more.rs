use psl2::{analyze, is_public_suffix, psl_version, registrable_domain, subdomain, suffix, Info};

#[test]
fn idna_conversion() {
    assert_eq!(
        registrable_domain("食狮.公司.cn").as_deref(),
        Some("xn--85x722f.xn--55qx5d.cn")
    );
    assert_eq!(
        registrable_domain("www.食狮.公司.cn").as_deref(),
        Some("xn--85x722f.xn--55qx5d.cn")
    );
    assert_eq!(subdomain("www.食狮.公司.cn").as_deref(), Some("www"));
    assert!(is_public_suffix("公司.cn"));
    assert_eq!(registrable_domain("公司.cn"), None);
    let info = analyze("Shishi.公司.CN").unwrap();
    assert_eq!(info.as_ascii(), "shishi.xn--55qx5d.cn");
    assert_eq!(info.suffix(), "xn--55qx5d.cn");
}

#[test]
fn input_is_trimmed() {
    assert_eq!(suffix("  www.example.co.uk \t").as_deref(), Some("co.uk"));
    assert_eq!(
        registrable_domain("\u{3000}www.example.co.uk\n").as_deref(),
        Some("example.co.uk")
    );
    assert_eq!(suffix("   "), None);
}

#[test]
fn analyze_accessors() {
    let info = analyze("WwW.Example.CO.UK").unwrap();
    assert_eq!(info.as_ascii(), "www.example.co.uk");
    assert_eq!(info.suffix(), "co.uk");
    assert_eq!(info.registrable_domain(), Some("example.co.uk"));
    assert_eq!(info.subdomain(), Some("www"));
    assert!(!info.is_public_suffix());
    assert!(info.is_icann());
    assert!(!info.is_private());
    assert!(info.is_known());
    assert_eq!(info.typ(), Some(psl2::Type::Icann));
    let copy = info.clone();
    assert_eq!(copy.as_ascii(), info.as_ascii());
    assert_eq!(copy.suffix(), info.suffix());

    let unknown = analyze("foo.nonexistenttld").unwrap();
    assert!(!unknown.is_known());
    assert_eq!(unknown.typ(), None);
}

#[test]
fn unusable_inputs() {
    assert!(analyze("").is_none());
    assert!(analyze(".").is_none());
    assert!(analyze(".com").is_none());
    assert!(analyze("a..b").is_none());
    assert_eq!(registrable_domain(".example.com"), None);
    assert!(!is_public_suffix(""));
    assert_eq!(subdomain("example.com"), None);
}

#[test]
fn from_ascii() {
    let info = Info::from_ascii(String::from("www.example.co.uk")).unwrap();
    assert_eq!(info.suffix(), "co.uk");
    assert_eq!(info.registrable_domain(), Some("example.co.uk"));
    assert!(Info::from_ascii(String::from("a..b")).is_none());
    assert!(Info::from_ascii(String::from(".com")).is_none());
    assert!(Info::from_ascii(String::from("com.")).is_none());
    assert!(Info::from_ascii(String::new()).is_none());
}

#[test]
fn version_value() {
    assert_eq!(psl_version(), "2025-subset");
    assert_eq!(psl_version(), psl2::data::PSL_VERSION);
}
