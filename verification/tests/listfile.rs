use psl2::data::{EXCEPTIONS, RULES, WILDCARDS};
use psl2::listfile::{parse_list, read_version, SkipReason};
use psl2::ruleset::{write_block, RuleSet};
use psl2::table::{is_block_wf, lookup_block, split_line};
use psl2::Type;

const SAMPLE: &str = "// This Source Code Form is subject to the terms of the Mozilla Public\r
// VERSION: 2025-01-01_00-00-00_UTC\r
\r
// ===BEGIN ICANN DOMAINS===\r
com\r
uk\r
co.uk\r
*.ck\r
!www.ck\r
公司.cn\r
*\r
// ===END ICANN DOMAINS===\r
// ===BEGIN PRIVATE DOMAINS===\r
blogspot.com  trailing text\r
github.io\r
// ===END PRIVATE DOMAINS===\r
";

#[test]
fn parse_sample_list() {
    let list = parse_list(SAMPLE);
    assert_eq!(list.version, "2025-01-01_00-00-00_UTC");
    assert!(list.skipped.is_empty());
    assert_eq!(list.rules.len(), 6);
    assert_eq!(
        write_block(&list.rules),
        "blogspot.com\tP\nco.uk\tI\ncom\tI\ngithub.io\tP\nuk\tI\nxn--55qx5d.cn\tI"
    );
    assert_eq!(write_block(&list.wildcards), "\tI\nck\tI");
    assert_eq!(write_block(&list.exceptions), "www.ck\tI");
}

#[test]
fn written_block_reads_back() {
    let list = parse_list(SAMPLE);
    let block = write_block(&list.rules);
    for (rule, sec) in [
        ("blogspot.com", Type::Private),
        ("com", Type::Icann),
        ("co.uk", Type::Icann),
        ("github.io", Type::Private),
        ("uk", Type::Icann),
        ("xn--55qx5d.cn", Type::Icann),
    ] {
        assert_eq!(lookup_block(&block, rule), Some(sec));
    }
    assert_eq!(lookup_block(&block, "ck"), None);
    assert_eq!(lookup_block(&block, "net"), None);
    assert_eq!(lookup_block(&block, ""), None);
    let wild = write_block(&list.wildcards);
    assert_eq!(lookup_block(&wild, ""), Some(Type::Icann));
}

#[test]
fn later_rule_replaces_earlier() {
    let list = parse_list("com\n// ===BEGIN PRIVATE DOMAINS===\ncom\n");
    assert_eq!(write_block(&list.rules), "com\tP");
    assert_eq!(list.version, "unknown");
}

#[test]
fn unconvertible_rules_are_skipped() {
    // U+FFFD is disallowed by the IDNA conversion.
    let list = parse_list("com\n\u{FFFD}.com\n*.x\u{FFFD}  rest\n");
    assert_eq!(
        list.skipped,
        vec![
            (String::from("\u{FFFD}.com"), SkipReason::Idna),
            (String::from("*.x\u{FFFD}"), SkipReason::Idna),
        ]
    );
    assert_eq!(write_block(&list.rules), "com\tI");
    assert_eq!(write_block(&list.wildcards), "");
}

#[test]
fn empty_inputs() {
    let list = parse_list("");
    assert_eq!(list.version, "unknown");
    assert_eq!(list.rules.len(), 0);
    assert_eq!(write_block(&list.rules), "");
    assert_eq!(lookup_block("", "com"), None);
    assert_eq!(read_version("  // VERSION:   v1  \n"), "v1");
}

#[test]
fn insert_keeps_order() {
    let mut set = RuleSet::new();
    set.insert(String::from("uk"), Type::Icann);
    set.insert(String::from("co.uk"), Type::Icann);
    set.insert(String::from("ac"), Type::Private);
    set.insert(String::from("co.uk"), Type::Private);
    assert_eq!(set.len(), 3);
    assert_eq!(write_block(&set), "ac\tP\nco.uk\tP\nuk\tI");
}

#[test]
fn split_line_fields() {
    assert_eq!(split_line("co.uk\tI"), ("co.uk", Type::Icann));
    assert_eq!(split_line("github.io\tP"), ("github.io", Type::Private));
    assert_eq!(split_line("bare"), ("bare", Type::Icann));
    assert_eq!(split_line("x\t"), ("x", Type::Icann));
}

/// The embedded blocks are exactly what the generator writes from the same
/// rules in list form.
#[test]
fn embedded_blocks_match_generator() {
    let mut icann = String::from("// ===BEGIN ICANN DOMAINS===\n");
    let mut private = String::from("// ===BEGIN PRIVATE DOMAINS===\n");
    for (block, prefix) in [(RULES, ""), (WILDCARDS, "*."), (EXCEPTIONS, "!")] {
        for line in block.lines() {
            let (rule, sec) = split_line(line);
            let target = if sec == Type::Private { &mut private } else { &mut icann };
            target.push_str(prefix);
            target.push_str(rule);
            target.push('\n');
        }
    }
    let list = parse_list(&format!("{icann}{private}"));
    assert_eq!(write_block(&list.rules), RULES);
    assert_eq!(write_block(&list.wildcards), WILDCARDS);
    assert_eq!(write_block(&list.exceptions), EXCEPTIONS);
}

/// The White_Space set used in the contracts is the one `char::is_whitespace`
/// tests, over every character.
#[test]
fn white_space_matches_std() {
    for u in 0u32..=0x10FFFF {
        if let Some(c) = char::from_u32(u) {
            assert_eq!(psl2::listfile::white_space(c), c.is_whitespace(), "U+{u:04X}");
        }
    }
    assert!(!psl2::listfile::white_space('\u{200b}'));
    assert!(psl2::listfile::white_space('\u{3000}'));
}

#[test]
fn rule_token_stops_at_white_space() {
    let list = parse_list("co.uk\u{3000}comment\nnet\tmore\n  org  \n");
    assert_eq!(write_block(&list.rules), "co.uk\tI\nnet\tI\norg\tI");
}

#[test]
fn block_check() {
    assert!(is_block_wf(RULES));
    assert!(is_block_wf(WILDCARDS));
    assert!(is_block_wf(EXCEPTIONS));
    assert!(is_block_wf(""));
    assert!(is_block_wf("a\tI"));
    assert!(is_block_wf("a\tI\nb\tP\nba\tI"));
    assert!(!is_block_wf("b\tI\na\tI"));
    assert!(!is_block_wf("a\tI\na\tP"));
    assert!(!is_block_wf("a\tI\n"));
    let list = parse_list("com\nnet\norg\n*.ck\n!www.ck\n");
    assert!(is_block_wf(&write_block(&list.rules)));
    // An unsorted block: whatever is found belongs to a line with that rule.
    let bad = "m\tI\nc\tP\nz\tI";
    for key in ["m", "c", "z", "q"] {
        if let Some(t) = lookup_block(bad, key) {
            assert!(bad.lines().any(|l| split_line(l) == (key, t)));
        }
    }
}
