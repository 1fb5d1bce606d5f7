use psl2::compat;
use psl2::data::{EXCEPTIONS, RULES, WILDCARDS};
use psl2::table::{lookup_block, split_line};
use psl2::{lookup, Domain, Type};

const HOSTS: [&str; 9] = [
    "www.example.co.uk",
    "a.b.test.ck",
    "foo.nonexistenttld",
    "www.ck",
    "www.www.ck",
    "x.y.z.github.io",
    "a.b.c.kobe.jp",
    "city.kobe.jp",
    "foo.blogspot.com",
];

fn check_shape(d: &Domain<'_>) {
    let host = d.as_str();
    let suffix = d.suffix();
    assert!(host.ends_with(suffix));
    match d.registrable_domain() {
        Some(reg) => {
            // One label, a dot, and the suffix.
            let label = &reg[..reg.len() - suffix.len() - 1];
            assert!(!label.contains('.'));
            assert_eq!(format!("{label}.{suffix}"), reg);
            match d.subdomain() {
                Some(sub) => assert_eq!(format!("{sub}.{reg}"), host),
                None => assert_eq!(reg, host),
            }
            assert!(!d.is_public_suffix());
            assert_ne!(suffix, host);
        }
        None => {
            assert!(d.is_public_suffix());
            assert_eq!(suffix, host);
            assert_eq!(d.subdomain(), None);
        }
    }
}

#[test]
fn registrable_is_suffix_plus_one_label() {
    for host in HOSTS {
        check_shape(&lookup(host).unwrap());
    }
    for host in ["co.uk", "c.kobe.jp", "test.ck", "blogspot.com", "com"] {
        let d = lookup(host).unwrap();
        check_shape(&d);
        assert!(d.is_public_suffix());
    }
}

#[test]
fn exception_prevails() {
    let d = lookup("www.www.ck").unwrap();
    assert_eq!(d.suffix(), "ck");
    assert_eq!(d.registrable_domain(), Some("www.ck"));
    assert_eq!(d.subdomain(), Some("www"));
    assert!(d.is_icann());

    let d = lookup("a.city.kobe.jp").unwrap();
    assert_eq!(d.suffix(), "kobe.jp");
    assert_eq!(d.registrable_domain(), Some("city.kobe.jp"));
}

#[test]
fn longest_rule_prevails() {
    // `*.kobe.jp` (three labels) beats `jp`.
    let d = lookup("a.b.c.kobe.jp").unwrap();
    assert_eq!(d.suffix(), "c.kobe.jp");
    assert_eq!(d.registrable_domain(), Some("b.c.kobe.jp"));
    // The PRIVATE `github.io` beats the ICANN `io`.
    let d = lookup("x.y.z.github.io").unwrap();
    assert_eq!(d.suffix(), "github.io");
    assert_eq!(d.registrable_domain(), Some("z.github.io"));
    assert_eq!(d.subdomain(), Some("x.y"));
    assert!(d.is_private());
    assert!(!d.is_icann());
    assert_eq!(d.typ(), Some(psl2::Type::Private));
    let d = lookup("bucket.s3.amazonaws.com").unwrap();
    assert_eq!(d.suffix(), "s3.amazonaws.com");
}

#[test]
fn default_rule_is_last_label() {
    let d = lookup("a.b.c.example").unwrap();
    assert_eq!(d.suffix(), "example");
    assert_eq!(d.registrable_domain(), Some("c.example"));
    assert_eq!(d.typ(), None);
    assert!(!d.is_known());
    assert!(!d.is_icann());
    assert!(!d.is_private());
}

#[test]
fn many_labels_are_analyzed() {
    let labels_128 = vec!["a"; 128].join(".");
    let d = lookup(&labels_128).unwrap();
    assert_eq!(d.suffix(), "a");
    let sub = vec!["a"; 300].join(".");
    let host = format!("{sub}.example.co.uk");
    let d = lookup(&host).unwrap();
    assert_eq!(d.suffix(), "co.uk");
    assert_eq!(d.registrable_domain(), Some("example.co.uk"));
    assert_eq!(d.subdomain(), Some(sub.as_str()));
    assert_eq!(compat::suffix_str(&host).unwrap().as_bytes(), b"co.uk");
    let upper = host.to_ascii_uppercase();
    let info = psl2::analyze(&upper).unwrap();
    assert_eq!(info.as_ascii(), host);
    assert_eq!(psl2::registrable_domain(&upper).as_deref(), Some("example.co.uk"));
    assert_eq!(psl2::subdomain(&host).as_deref(), Some(sub.as_str()));
}

#[test]
fn trailing_dot_ignored() {
    for host in HOSTS {
        let with_dot = format!("{host}.");
        let a = lookup(host).unwrap();
        let b = lookup(&with_dot).unwrap();
        assert_eq!(a.as_str(), b.as_str());
        assert_eq!(a.suffix(), b.suffix());
        assert_eq!(a.registrable_domain(), b.registrable_domain());
        assert_eq!(a.typ(), b.typ());
    }
    assert!(lookup("example.com..").is_none());
}

#[test]
fn compat_agrees_with_lookup() {
    for host in HOSTS {
        let d = lookup(host).unwrap();
        let s = compat::suffix_str(host).unwrap();
        assert_eq!(s.as_bytes(), d.suffix().as_bytes());
        assert_eq!(s.typ(), d.typ());
        assert!(!s.is_fqdn());
        match compat::domain_str(host) {
            Some(cd) => assert_eq!(Some(cd.as_bytes()), d.registrable_domain().map(str::as_bytes)),
            None => assert!(d.is_public_suffix()),
        }
        let fq = format!("{host}.");
        let s = compat::suffix_str(&fq).unwrap();
        assert!(s.is_fqdn());
        assert_eq!(s.as_bytes(), d.suffix().as_bytes());
    }
}

#[test]
fn compat_is_case_sensitive_and_unnormalized() {
    // Not lowercased: no rule matches, the implicit `*` applies.
    let s = compat::suffix_str("EXAMPLE.CO.UK").unwrap();
    assert_eq!(s.as_bytes(), b"UK");
    assert!(!s.is_known());
    assert_eq!(compat::suffix(b"."), None);
    assert_eq!(compat::domain(b"com."), None);
}

#[test]
fn lookup_rejects_uppercase_and_non_ascii() {
    assert!(lookup("Example.com").is_none());
    assert!(lookup("exämple.com").is_none());
    assert!(lookup("example.com").is_some());
    assert!(lookup(".").is_none());
    assert!(lookup("..").is_none());
}

#[test]
fn case_does_not_matter() {
    for host in HOSTS {
        let upper = host.to_ascii_uppercase();
        assert_eq!(psl2::registrable_domain(&upper), psl2::registrable_domain(host));
        assert_eq!(psl2::suffix(&upper), psl2::suffix(host));
        assert_eq!(psl2::subdomain(&upper), psl2::subdomain(host));
    }
    assert_eq!(psl2::registrable_domain("WWW.Example.Co.UK").as_deref(), Some("example.co.uk"));
}

#[test]
fn trailing_dot_does_not_matter() {
    for host in HOSTS {
        let with_dot = format!("{host}.");
        assert_eq!(psl2::registrable_domain(&with_dot), psl2::registrable_domain(host));
        assert_eq!(psl2::suffix(&with_dot), psl2::suffix(host));
    }
    assert_eq!(psl2::suffix("example.com.."), None);
}

#[test]
fn analysis_is_lookup() {
    for input in ["WwW.Example.CO.UK", "  a.b.test.ck. ", "食狮.公司.cn", "X.Y.github.io"] {
        let info = psl2::analyze(input).unwrap();
        assert!(psl2::is_normalized_ascii(info.as_ascii()));
        let d = lookup(info.as_ascii()).unwrap();
        assert_eq!(d.as_str(), info.as_ascii());
        assert_eq!(d.suffix(), info.suffix());
        assert_eq!(d.registrable_domain(), info.registrable_domain());
        assert_eq!(d.subdomain(), info.subdomain());
        assert_eq!(d.is_public_suffix(), info.is_public_suffix());
        assert_eq!(d.typ(), info.typ());
        assert_eq!(d.is_icann(), info.is_icann());
        assert_eq!(d.is_private(), info.is_private());
        assert_eq!(d.is_known(), info.is_known());
    }
    assert_eq!(psl2::analyze("WwW.Example.CO.UK").unwrap().as_ascii(), "www.example.co.uk");
}

#[test]
fn normalized_ascii_shape() {
    assert!(psl2::is_normalized_ascii("www.example.co.uk"));
    assert!(psl2::is_normalized_ascii("xn--85x722f.com.cn"));
    assert!(!psl2::is_normalized_ascii(""));
    assert!(!psl2::is_normalized_ascii(".com"));
    assert!(!psl2::is_normalized_ascii("com."));
    assert!(!psl2::is_normalized_ascii("a..b"));
    assert!(!psl2::is_normalized_ascii("Example.com"));
    assert!(!psl2::is_normalized_ascii("exämple.com"));
}

#[test]
fn split_line_format() {
    for rule in ["com", "co.uk", "xn--55qx5d.cn", ""] {
        for (mark, typ) in [('P', Type::Private), ('I', Type::Icann), ('x', Type::Icann), ('食', Type::Icann)] {
            let line = format!("{rule}\t{mark}");
            assert_eq!(split_line(&line), (rule, typ));
        }
        assert_eq!(split_line(rule), (rule, Type::Icann));
    }
    assert_eq!(split_line("公司.cn"), ("公司.cn", Type::Icann));
}

#[test]
fn keys_outside_the_block_are_absent() {
    for block in [RULES, WILDCARDS, EXCEPTIONS] {
        assert_eq!(lookup_block(block, "\u{0}definitely-not-present"), None);
        assert_eq!(lookup_block(block, "zzzzzzzz-not-present"), None);
    }
}

#[test]
fn parse_shape() {
    let (host, parts, fqdn) = compat::parse(b"www.example.co.uk.").unwrap();
    assert_eq!(host, "www.example.co.uk");
    assert!(fqdn);
    assert_eq!(parts, psl2::matching::compute(host));
    let (host, _, fqdn) = compat::parse(b"example.com").unwrap();
    assert_eq!(host, "example.com");
    assert!(!fqdn);
    assert!(compat::parse(b"").is_none());
    assert!(compat::parse(b".").is_none());
    assert!(compat::parse(b"\xff.com").is_none());
    assert!(compat::parse(vec!["a"; 129].join(".").as_bytes()).is_some());
    assert!(compat::parse(vec!["a"; 128].join(".").as_bytes()).is_some());
}
