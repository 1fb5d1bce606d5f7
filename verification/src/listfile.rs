//! Reading the Public Suffix List source (`public_suffix_list.dat`) into the
//! three rule sets that the lookup blocks are written from.
use vstd::prelude::*;
use vstd::string::StringSliceAdditionalSpecFns;
use vstd::utf8::{decode_utf8, encode_utf8, encode_utf8_decode_utf8};
use crate::Type;
use crate::bytes::{
    find_byte, lemma_find_byte, lemma_find_byte_unique, str_head, str_tail, str_prefix_chars,
    lemma_ascii_literal_bytes,
};
use crate::table::{newline, tab};
use crate::normalize::{is_white_space, trim_chars, trim, to_ascii, idna_domain_to_ascii};
use crate::ruleset::{RuleSet, entries_lookup, sorted_keys, clean_keys};

verus! {

/// The index of the first White_Space character of `s`, if any.
pub open spec fn first_white_space(s: Seq<char>) -> Option<int>
    decreases s.len(),
{
    if s.len() == 0 {
        None
    } else if is_white_space(s[0]) {
        Some(0)
    } else {
        match first_white_space(s.drop_first()) {
            Some(k) => Some(k + 1),
            None => None,
        }
    }
}

/// The first whitespace-separated token of `s`, which does not start with
/// whitespace: everything before the first White_Space character.
pub open spec fn first_token(s: Seq<char>) -> Seq<char> {
    match first_white_space(s) {
        Some(k) => s.take(k),
        None => s,
    }
}

/// `true` if `c` has the White_Space property.
pub fn white_space(c: char) -> (r: bool)
    ensures
        r == is_white_space(c),
{
    ('\u{9}' <= c && c <= '\u{d}') || c == ' ' || c == '\u{85}' || c == '\u{a0}' || c
        == '\u{1680}' || ('\u{2000}' <= c && c <= '\u{200a}') || c == '\u{2028}' || c
        == '\u{2029}' || c == '\u{202f}' || c == '\u{205f}' || c == '\u{3000}'
}

/// Calls `str::find` with a predicate that calls `white_space`. Claimed: the
/// byte offset of the first character for which the predicate holds, or
/// `None` when there is none.
#[verifier::external_body]
fn find_white_space(s: &str) -> (r: Option<usize>)
    ensures
        match r {
            Some(i) => first_white_space(s@) matches Some(k) && i == encode_utf8(s@.take(k)).len(),
            None => first_white_space(s@) is None,
        },
{
    s.find(|c: char| white_space(c))
}

/// `b` starts with `p`.
pub open spec fn starts_with(b: Seq<u8>, p: Seq<u8>) -> bool {
    p.len() <= b.len() && b.subrange(0, p.len() as int) == p
}

/// `p` occurs somewhere in `b`.
pub open spec fn occurs_in(b: Seq<u8>, p: Seq<u8>) -> bool {
    exists|i: int| 0 <= i && i + p.len() <= b.len() && #[trigger] b.subrange(i, i + p.len()) == p
}

/// The bytes of `s`, trimmed of White_Space at both ends.
pub open spec fn trimmed(s: Seq<u8>) -> Seq<u8> {
    encode_utf8(trim_chars(decode_utf8(s)))
}

/// The comment marker `//`.
pub open spec fn comment_mark() -> Seq<u8> {
    seq![47u8, 47u8]
}

/// The marker of the list's version line.
pub open spec fn version_mark() -> Seq<u8> {
    "// VERSION:".spec_bytes()
}

/// The comment text that opens the PRIVATE section.
pub open spec fn private_mark() -> Seq<u8> {
    "BEGIN PRIVATE DOMAINS".spec_bytes()
}

/// The comment text that opens the ICANN section.
pub open spec fn icann_mark() -> Seq<u8> {
    "BEGIN ICANN DOMAINS".spec_bytes()
}

/// Which set a rule goes to (0 ordinary, 1 wildcard, 2 exception), and the
/// domain part that is stored there: `!X` stores `X` as an exception, `*.Y`
/// stores `Y` as a wildcard, `*` stores the empty name as a wildcard.
pub open spec fn classify(rule: Seq<u8>) -> (int, Seq<u8>) {
    if rule.len() > 0 && rule[0] == 33u8 {
        (2, rule.drop_first())
    } else if starts_with(rule, seq![42u8, 46u8]) {
        (1, rule.subrange(2, rule.len() as int))
    } else if rule == seq![42u8] {
        (1, seq![])
    } else {
        (0, rule)
    }
}

/// Why a rule of the list was left out.
#[derive(Clone, Copy, Debug, PartialEq, Eq, Structural)]
pub enum SkipReason {
    /// The IDNA conversion of the rule failed.
    Idna,
    /// The converted rule holds a tab or a newline.
    IllegalCharacter,
}

/// The state of a pass over the list: the current section, the ordinary,
/// wildcard and exception rules read so far, and the rules skipped so far,
/// in order, each with the reason.
pub type ListState = (
    Type,
    Map<Seq<u8>, Type>,
    Map<Seq<u8>, Type>,
    Map<Seq<u8>, Type>,
    Seq<(Seq<char>, SkipReason)>,
);

/// The rules of a set, as a map from rule to section.
pub open spec fn as_map(s: Seq<(Seq<u8>, Type)>) -> Map<Seq<u8>, Type> {
    Map::new(|k: Seq<u8>| entries_lookup(s, k) is Some, |k: Seq<u8>| entries_lookup(s, k)->0)
}

/// The state after one line of the list.
pub open spec fn read_line(st: ListState, line: Seq<u8>) -> ListState {
    let t = trimmed(line);
    if t.len() == 0 {
        st
    } else if starts_with(t, comment_mark()) {
        let comment = t.subrange(2, t.len() as int);
        if occurs_in(comment, private_mark()) {
            (Type::Private, st.1, st.2, st.3, st.4)
        } else if occurs_in(comment, icann_mark()) {
            (Type::Icann, st.1, st.2, st.3, st.4)
        } else {
            st
        }
    } else {
        let token = first_token(trim_chars(decode_utf8(line)));
        let rule = encode_utf8(token);
        if rule.len() == 0 {
            st
        } else {
            let (which, part) = classify(rule);
            match idna_domain_to_ascii(decode_utf8(part)) {
                None => (st.0, st.1, st.2, st.3, st.4.push((token, SkipReason::Idna))),
                Some(a) => {
                    let key = encode_utf8(a);
                    if key.contains(tab()) || key.contains(newline()) {
                        (st.0, st.1, st.2, st.3, st.4.push((token, SkipReason::IllegalCharacter)))
                    } else if which == 0 {
                        (st.0, st.1.insert(key, st.0), st.2, st.3, st.4)
                    } else if which == 1 {
                        (st.0, st.1, st.2.insert(key, st.0), st.3, st.4)
                    } else {
                        (st.0, st.1, st.2, st.3.insert(key, st.0), st.4)
                    }
                },
            }
        }
    }
}

/// The state after the lines of `b` from `start` on (lines end at newlines;
/// a final newline ends the last line).
pub open spec fn read_lines(b: Seq<u8>, start: int, st: ListState) -> ListState
    decreases b.len() - start,
{
    if start < 0 || start >= b.len() {
        st
    } else {
        let e = find_byte(b, newline(), start);
        proof {
            lemma_find_byte(b, newline(), start);
        }
        let next = read_line(st, b.subrange(start, e));
        if e >= b.len() {
            next
        } else {
            read_lines(b, e + 1, next)
        }
    }
}

/// The version named by the first line of `b` from `start` on that starts,
/// once trimmed, with `// VERSION:`.
pub open spec fn version_line(b: Seq<u8>, start: int) -> Option<Seq<u8>>
    decreases b.len() - start,
{
    if start < 0 || start >= b.len() {
        None
    } else {
        let e = find_byte(b, newline(), start);
        proof {
            lemma_find_byte(b, newline(), start);
        }
        let t = trimmed(b.subrange(start, e));
        if starts_with(t, version_mark()) {
            Some(t.subrange(version_mark().len() as int, t.len() as int))
        } else if e >= b.len() {
            None
        } else {
            version_line(b, e + 1)
        }
    }
}

/// The version of the list in `b`, trimmed, or `unknown`.
pub open spec fn list_version(b: Seq<u8>) -> Seq<char> {
    match version_line(b, 0) {
        Some(v) => trim_chars(decode_utf8(v)),
        None => "unknown"@,
    }
}

/// The rules read from a Public Suffix List source.
pub struct ParsedList {
    /// The list's version (the `// VERSION:` line), or `unknown`.
    pub version: String,
    /// Ordinary rules (`com`, `co.uk`).
    pub rules: RuleSet,
    /// The `Y` of each wildcard rule `*.Y` (and the empty name for `*`).
    pub wildcards: RuleSet,
    /// The `X` of each exception rule `!X`.
    pub exceptions: RuleSet,
    /// The rules left out, in the order of the list, each with the reason:
    /// the IDNA conversion failed, or the result held a tab or a newline.
    pub skipped: Vec<(String, SkipReason)>,
}

/// `b` starts with `p`.
fn bytes_start_with(b: &[u8], p: &[u8]) -> (r: bool)
    ensures
        r == starts_with(b@, p@),
{
    if p.len() > b.len() {
        return false;
    }
    let mut i: usize = 0;
    while i < p.len()
        invariant
            p@.len() <= b@.len(),
            i <= p@.len(),
            forall|j: int| 0 <= j < i ==> b@[j] == p@[j],
        decreases p@.len() - i,
    {
        if b[i] != p[i] {
            proof {
                assert(b@.subrange(0, p@.len() as int)[i as int] != p@[i as int]);
            }
            return false;
        }
        i = i + 1;
    }
    proof {
        assert(b@.subrange(0, p@.len() as int) =~= p@);
    }
    true
}

/// `p` occurs somewhere in `b`.
fn bytes_contain(b: &[u8], p: &[u8]) -> (r: bool)
    ensures
        r == occurs_in(b@, p@),
{
    if p.len() > b.len() {
        return false;
    }
    assert(b@.len() == b.len());
    let mut i: usize = 0;
    while i <= b.len() - p.len()
        invariant
            b@.len() <= usize::MAX,
            p@.len() <= b@.len(),
            i <= b@.len() - p@.len() + 1,
            forall|j: int| 0 <= j < i ==> #[trigger] b@.subrange(j, j + p@.len()) != p@,
        decreases b@.len() - p@.len() + 1 - i,
    {
        let mut k: usize = 0;
        let mut same = true;
        while k < p.len()
            invariant
                b@.len() <= usize::MAX,
                p@.len() <= b@.len(),
                i + p@.len() <= b@.len(),
                k <= p@.len(),
                same == forall|j: int| 0 <= j < k ==> b@[i + j] == p@[j],
            decreases p@.len() - k,
        {
            if b[i + k] != p[k] {
                same = false;
            }
            k = k + 1;
        }
        if same {
            proof {
                assert(b@.subrange(i as int, i + p@.len()) =~= p@);
            }
            return true;
        }
        proof {
            let j = choose|j: int| 0 <= j < p@.len() && b@[i + j] != p@[j];
            assert(b@.subrange(i as int, i + p@.len())[j] != p@[j]);
        }
        i = i + 1;
    }
    false
}

/// `b` holds the byte `c`.
fn bytes_have(b: &[u8], c: u8) -> (r: bool)
    ensures
        r == b@.contains(c),
{
    let mut i: usize = 0;
    while i < b.len()
        invariant
            i <= b@.len(),
            forall|j: int| 0 <= j < i ==> b@[j] != c,
        decreases b@.len() - i,
    {
        if b[i] == c {
            return true;
        }
        i = i + 1;
    }
    false
}

/// The first whitespace-separated token of `s` (see `first_token`).
fn first_token_of(s: &str) -> (r: &str)
    ensures
        r@ == first_token(s@),
{
    match find_white_space(s) {
        Some(i) => {
            let ghost k = first_white_space(s@)->0;
            proof {
                lemma_first_white_space_bound(s@);
            }
            str_prefix_chars(s, i, Ghost(k))
        },
        None => s,
    }
}

proof fn lemma_first_white_space_bound(s: Seq<char>)
    ensures
        first_white_space(s) matches Some(k) ==> 0 <= k < s.len(),
    decreases s.len(),
{
    if s.len() > 0 {
        lemma_first_white_space_bound(s.drop_first());
    }
}

/// The skipped rules of a pass, as text and reason.
pub open spec fn skipped_view(out: ParsedList) -> Seq<(Seq<char>, SkipReason)> {
    out.skipped@.map_values(|e: (String, SkipReason)| (e.0@, e.1))
}

/// The state of a pass as seen in the exec values.
pub open spec fn state_of(section: Type, out: ParsedList) -> ListState {
    (section, as_map(out.rules@), as_map(out.wildcards@), as_map(out.exceptions@), skipped_view(out))
}

/// The tables of a pass are sorted and hold no tab or newline in a rule.
pub open spec fn tables_ok(out: ParsedList) -> bool {
    &&& sorted_keys(out.rules@) && clean_keys(out.rules@)
    &&& sorted_keys(out.wildcards@) && clean_keys(out.wildcards@)
    &&& sorted_keys(out.exceptions@) && clean_keys(out.exceptions@)
}

/// Add a clean key to a set: the map gains it, and the set stays sorted and
/// clean.
fn insert_clean(set: &mut RuleSet, key: String, sec: Type)
    requires
        sorted_keys(old(set)@),
        clean_keys(old(set)@),
        !encode_utf8(key@).contains(tab()),
        !encode_utf8(key@).contains(newline()),
    ensures
        sorted_keys(final(set)@),
        clean_keys(final(set)@),
        as_map(final(set)@) == as_map(old(set)@).insert(encode_utf8(key@), sec),
{
    let ghost kb = encode_utf8(key@);
    let ghost before = set@;
    set.insert(key, sec);
    proof {
        assert(as_map(set@) =~= as_map(before).insert(kb, sec)) by {
            assert forall|k: Seq<u8>| #[trigger] as_map(set@).contains_key(k) == as_map(
                before,
            ).insert(kb, sec).contains_key(k) by {
                assert(entries_lookup(set@, k) == if k == kb {
                    Some(sec)
                } else {
                    entries_lookup(before, k)
                });
            }
            assert forall|k: Seq<u8>| #[trigger] as_map(set@).contains_key(k) implies as_map(
                set@,
            )[k] == as_map(before).insert(kb, sec)[k] by {
                assert(entries_lookup(set@, k) == if k == kb {
                    Some(sec)
                } else {
                    entries_lookup(before, k)
                });
            }
        }
        assert forall|j: int| 0 <= j < set@.len() implies !(#[trigger] set@[j]).0.contains(tab())
            && !set@[j].0.contains(newline()) by {
            if set@[j].0 != kb {
                let i = choose|i: int| 0 <= i < before.len() && before[i].0 == set@[j].0;
                assert(!before[i].0.contains(tab()));
            }
        }
    }
}

/// Apply one line of the list to the state of a pass.
fn read_one_line(section: &mut Type, out: &mut ParsedList, line: &str)
    requires
        tables_ok(*old(out)),
    ensures
        tables_ok(*final(out)),
        state_of(*final(section), *final(out)) == read_line(
            state_of(*old(section), *old(out)),
            line.spec_bytes(),
        ),
        final(out).version == old(out).version,
{
    let ghost st = state_of(*section, *out);
    proof {
        encode_utf8_decode_utf8(line@);
    }
    let t = trim(line);
    if t.is_empty() {
        return;
    }
    let cm = "//";
    proof {
        reveal_strlit("//");
        lemma_ascii_literal_bytes(cm);
        assert(cm.spec_bytes() =~= comment_mark());
    }
    if bytes_start_with(t.as_bytes(), cm.as_bytes()) {
        let comment = str_tail(t, 2);
        if bytes_contain(comment.as_bytes(), "BEGIN PRIVATE DOMAINS".as_bytes()) {
            *section = Type::Private;
        } else if bytes_contain(comment.as_bytes(), "BEGIN ICANN DOMAINS".as_bytes()) {
            *section = Type::Icann;
        }
        return;
    }
    let rule = first_token_of(t);
    if rule.is_empty() {
        return;
    }
    let rb = rule.as_bytes();
    let wm = "*.";
    proof {
        reveal_strlit("*.");
        lemma_ascii_literal_bytes(wm);
        assert(wm.spec_bytes() =~= seq![42u8, 46u8]);
        reveal_strlit("");
        encode_utf8_decode_utf8(rule@);
    }
    let (which, part): (u8, &str) = if rb[0] == 33u8 {
        (2, str_tail(rule, 1))
    } else if bytes_start_with(rb, wm.as_bytes()) {
        (1, str_tail(rule, 2))
    } else if rb.len() == 1 && rb[0] == 42u8 {
        (1, "")
    } else {
        (0, rule)
    };
    proof {
        encode_utf8_decode_utf8(part@);
        let c = classify(rb@);
        if rb@[0] == 33u8 {
            assert(part.spec_bytes() =~= rb@.drop_first());
        } else if starts_with(rb@, seq![42u8, 46u8]) {
        } else if rb@ =~= seq![42u8] {
            assert(part@ =~= Seq::<char>::empty());
            assert(part.spec_bytes() =~= Seq::<u8>::empty());
        } else {
            assert(!(rb@ =~= seq![42u8]));
        }
        assert(part.spec_bytes() == c.1);
        assert(which as int == c.0);
    }
    let ascii = match to_ascii(part) {
        Some(a) => a,
        None => {
            out.skipped.push((rule.to_owned(), SkipReason::Idna));
            proof {
                assert(skipped_view(*out) =~= st.4.push((rule@, SkipReason::Idna)));
            }
            return;
        },
    };
    let kb = ascii.as_str().as_bytes();
    if bytes_have(kb, 9u8) || bytes_have(kb, 10u8) {
        out.skipped.push((rule.to_owned(), SkipReason::IllegalCharacter));
        proof {
            assert(skipped_view(*out) =~= st.4.push((rule@, SkipReason::IllegalCharacter)));
        }
        return;
    }
    if which == 0 {
        insert_clean(&mut out.rules, ascii, *section);
    } else if which == 1 {
        insert_clean(&mut out.wildcards, ascii, *section);
    } else {
        insert_clean(&mut out.exceptions, ascii, *section);
    }
}

/// The line of `raw` that starts at `start`, and where it ends.
fn line_at(raw: &str, start: usize) -> (r: (&str, usize))
    requires
        start < raw.spec_bytes().len(),
        start == 0 || raw.spec_bytes()[start - 1] == newline(),
    ensures
        r.1 == find_byte(raw.spec_bytes(), newline(), start as int),
        r.0.spec_bytes() == raw.spec_bytes().subrange(start as int, r.1 as int),
{
    let b = raw.as_bytes();
    let mut e = start;
    while e < b.len() && b[e] != 10u8
        invariant
            b@ == raw.spec_bytes(),
            start <= e <= b@.len(),
            forall|j: int| start <= j < e ==> b@[j] != newline(),
        decreases b@.len() - e,
    {
        e = e + 1;
    }
    proof {
        lemma_find_byte_unique(b@, newline(), start as int, e as int);
    }
    let line = str_head(str_tail(raw, start), e - start);
    proof {
        assert(line.spec_bytes() =~= b@.subrange(start as int, e as int));
    }
    (line, e)
}

/// The version of the list in `raw`: the rest of the first line that starts,
/// once trimmed, with `// VERSION:`, trimmed; or `unknown`.
pub fn read_version(raw: &str) -> (r: String)
    ensures
        r@ == list_version(raw.spec_bytes()),
{
    let b = raw.as_bytes();
    let vm = "// VERSION:";
    proof {
        reveal_strlit("// VERSION:");
        lemma_ascii_literal_bytes(vm);
    }
    let mut start: usize = 0;
    while start < b.len()
        invariant
            b@ == raw.spec_bytes(),
            start <= b@.len(),
            start == 0 || start == b@.len() || b@[start - 1] == newline(),
            vm.spec_bytes() == version_mark(),
            version_mark().len() == 11,
            version_mark()[10] == 58u8,
            version_line(b@, 0) == version_line(b@, start as int),
        decreases b@.len() - start,
    {
        let (line, e) = line_at(raw, start);
        proof {
            lemma_find_byte(b@, newline(), start as int);
        }
        let t = trim(line);
        proof {
            encode_utf8_decode_utf8(line@);
        }
        if bytes_start_with(t.as_bytes(), vm.as_bytes()) {
            let rest = str_tail(t, 11);
            proof {
                encode_utf8_decode_utf8(rest@);
            }
            return trim(rest).to_owned();
        }
        if e >= b.len() {
            start = e;
        } else {
            start = e + 1;
        }
    }
    "unknown".to_owned()
}

/// The initial state of a pass: ICANN section, no rules, none skipped.
pub open spec fn initial_state() -> ListState {
    (Type::Icann, Map::empty(), Map::empty(), Map::empty(), Seq::empty())
}

/// Read a Public Suffix List source: its version, and its ordinary, wildcard
/// and exception rules with their sections, each converted to ASCII and kept
/// sorted (a later rule for the same name replaces an earlier one).
pub fn parse_list(raw: &str) -> (r: ParsedList)
    ensures
        r.version@ == list_version(raw.spec_bytes()),
        tables_ok(r),
        ({
            let st = read_lines(raw.spec_bytes(), 0, initial_state());
            &&& as_map(r.rules@) == st.1
            &&& as_map(r.wildcards@) == st.2
            &&& as_map(r.exceptions@) == st.3
            &&& skipped_view(r) == st.4
        }),
{
    let version = read_version(raw);
    let mut out = ParsedList {
        version,
        rules: RuleSet::new(),
        wildcards: RuleSet::new(),
        exceptions: RuleSet::new(),
        skipped: Vec::new(),
    };
    let mut section = Type::Icann;
    proof {
        assert(as_map(Seq::<(Seq<u8>, Type)>::empty()) =~= Map::empty());
        assert(skipped_view(out) =~= Seq::<(Seq<char>, SkipReason)>::empty());
    }
    let b = raw.as_bytes();
    let ghost fin = read_lines(b@, 0, initial_state());
    let mut start: usize = 0;
    while start < b.len()
        invariant
            b@ == raw.spec_bytes(),
            fin == read_lines(b@, 0, initial_state()),
            start <= b@.len(),
            start == 0 || start == b@.len() || b@[start - 1] == newline(),
            out.version@ == list_version(raw.spec_bytes()),
            tables_ok(out),
            read_lines(b@, start as int, state_of(section, out)) == fin,
        decreases b@.len() - start,
    {
        let (line, e) = line_at(raw, start);
        proof {
            lemma_find_byte(b@, newline(), start as int);
        }
        read_one_line(&mut section, &mut out, line);
        if e >= b.len() {
            start = e;
        } else {
            start = e + 1;
        }
    }
    out
}

/// A rule stored by a line of the list is stored with the section the line
/// was read in; every other stored rule keeps what it had.
pub proof fn law_rules_keep_their_section(st: ListState, line: Seq<u8>)
    ensures
        ({
            let nx = read_line(st, line);
            &&& forall|k: Seq<u8>| #[trigger]
                nx.1.contains_key(k) ==> nx.1[k] == st.0 || (st.1.contains_key(k) && nx.1[k]
                    == st.1[k])
            &&& forall|k: Seq<u8>| #[trigger]
                nx.2.contains_key(k) ==> nx.2[k] == st.0 || (st.2.contains_key(k) && nx.2[k]
                    == st.2[k])
            &&& forall|k: Seq<u8>| #[trigger]
                nx.3.contains_key(k) ==> nx.3[k] == st.0 || (st.3.contains_key(k) && nx.3[k]
                    == st.3[k])
        }),
{
}

/// A line that is a single token with no White_Space in it reads as that
/// token.
proof fn lemma_token_line(t: Seq<char>)
    requires
        t.len() > 0,
        forall|i: int| 0 <= i < t.len() ==> !is_white_space(#[trigger] t[i]),
    ensures
        trimmed(encode_utf8(t)) == encode_utf8(t),
        first_token(trim_chars(decode_utf8(encode_utf8(t)))) == t,
{
    encode_utf8_decode_utf8(t);
    assert(!is_white_space(t[0]) && !is_white_space(t.last()));
    assert(trim_chars(t) == t);
    lemma_no_white_space(t);
}

proof fn lemma_no_white_space(t: Seq<char>)
    requires
        forall|i: int| 0 <= i < t.len() ==> !is_white_space(#[trigger] t[i]),
    ensures
        first_white_space(t) is None,
    decreases t.len(),
{
    if t.len() > 0 {
        assert(!is_white_space(t[0]));
        assert forall|i: int| 0 <= i < t.drop_first().len() implies !is_white_space(
            #[trigger] t.drop_first()[i],
        ) by {
            assert(t.drop_first()[i] == t[i + 1]);
        }
        lemma_no_white_space(t.drop_first());
    }
}

/// The encoding of a prefix of ASCII characters followed by `x`.
proof fn lemma_ascii_prefix_encoding(p: Seq<char>, x: Seq<char>)
    requires
        vstd::utf8::is_ascii_chars(p),
    ensures
        encode_utf8(p + x) == encode_utf8(p) + encode_utf8(x),
        encode_utf8(p).len() == p.len(),
        forall|i: int| 0 <= i < p.len() ==> #[trigger] encode_utf8(p)[i] == p[i] as u8,
{
    crate::bytes::lemma_encode_concat(p, x);
    vstd::utf8::is_ascii_chars_encode_utf8(p);
}

/// A wildcard line `*.Y` (no White_Space in `Y`) stores the conversion of
/// `Y` among the wildcards, with the section the line is read in; it is
/// skipped, with the reason, when the conversion fails or yields a tab or a
/// newline. Nothing else changes.
pub proof fn law_wildcard_line(st: ListState, y: Seq<char>)
    requires
        forall|i: int| 0 <= i < y.len() ==> !is_white_space(#[trigger] y[i]),
    ensures
        read_line(st, encode_utf8(seq!['*', '.'] + y)) == match idna_domain_to_ascii(y) {
            None => (st.0, st.1, st.2, st.3, st.4.push((seq!['*', '.'] + y, SkipReason::Idna))),
            Some(a) => if encode_utf8(a).contains(tab()) || encode_utf8(a).contains(newline()) {
                (
                    st.0,
                    st.1,
                    st.2,
                    st.3,
                    st.4.push((seq!['*', '.'] + y, SkipReason::IllegalCharacter)),
                )
            } else {
                (st.0, st.1, st.2.insert(encode_utf8(a), st.0), st.3, st.4)
            },
        },
{
    let p = seq!['*', '.'];
    let t = p + y;
    assert forall|i: int| 0 <= i < t.len() implies !is_white_space(#[trigger] t[i]) by {
        if i >= 2 {
            assert(t[i] == y[i - 2]);
        }
    }
    lemma_token_line(t);
    lemma_ascii_prefix_encoding(p, y);
    let b = encode_utf8(t);
    assert(b[0] == 42u8 && b[1] == 46u8);
    assert(!starts_with(b, comment_mark()));
    assert(starts_with(b, seq![42u8, 46u8])) by {
        assert(b.subrange(0, 2) == seq![42u8, 46u8]);
    }
    assert(b.subrange(2, b.len() as int) == encode_utf8(y));
    encode_utf8_decode_utf8(y);
}

/// An exception line `!X` (no White_Space in `X`) stores the conversion of
/// `X` among the exceptions, with the section the line is read in; it is
/// skipped, with the reason, when the conversion fails or yields a tab or a
/// newline. Nothing else changes.
pub proof fn law_exception_line(st: ListState, x: Seq<char>)
    requires
        forall|i: int| 0 <= i < x.len() ==> !is_white_space(#[trigger] x[i]),
    ensures
        read_line(st, encode_utf8(seq!['!'] + x)) == match idna_domain_to_ascii(x) {
            None => (st.0, st.1, st.2, st.3, st.4.push((seq!['!'] + x, SkipReason::Idna))),
            Some(a) => if encode_utf8(a).contains(tab()) || encode_utf8(a).contains(newline()) {
                (
                    st.0,
                    st.1,
                    st.2,
                    st.3,
                    st.4.push((seq!['!'] + x, SkipReason::IllegalCharacter)),
                )
            } else {
                (st.0, st.1, st.2, st.3.insert(encode_utf8(a), st.0), st.4)
            },
        },
{
    let p = seq!['!'];
    let t = p + x;
    assert forall|i: int| 0 <= i < t.len() implies !is_white_space(#[trigger] t[i]) by {
        if i >= 1 {
            assert(t[i] == x[i - 1]);
        }
    }
    lemma_token_line(t);
    lemma_ascii_prefix_encoding(p, x);
    let b = encode_utf8(t);
    assert(b[0] == 33u8);
    assert(!starts_with(b, comment_mark()));
    assert(b.drop_first() == encode_utf8(x));
    encode_utf8_decode_utf8(x);
}

/// An ordinary rule line `X` (no White_Space in it, not starting with `!`,
/// `*` or `/`) stores the conversion of `X` among the ordinary rules, with
/// the section the line is read in; it is skipped, with the reason, when the
/// conversion fails or yields a tab or a newline. Nothing else changes.
pub proof fn law_rule_line(st: ListState, x: Seq<char>)
    requires
        x.len() > 0,
        forall|i: int| 0 <= i < x.len() ==> !is_white_space(#[trigger] x[i]),
        x[0] != '!' && x[0] != '*' && x[0] != '/',
    ensures
        read_line(st, encode_utf8(x)) == match idna_domain_to_ascii(x) {
            None => (st.0, st.1, st.2, st.3, st.4.push((x, SkipReason::Idna))),
            Some(a) => if encode_utf8(a).contains(tab()) || encode_utf8(a).contains(newline()) {
                (st.0, st.1, st.2, st.3, st.4.push((x, SkipReason::IllegalCharacter)))
            } else {
                (st.0, st.1.insert(encode_utf8(a), st.0), st.2, st.3, st.4)
            },
        },
{
    lemma_token_line(x);
    let b = encode_utf8(x);
    let e = vstd::utf8::encode_scalar(x[0] as u32);
    assert(b == e + encode_utf8(x.drop_first()));
    vstd::utf8::char_is_scalar(x[0]);
    assert(e.len() > 0);
    assert(b[0] == e[0]);
    if e[0] < 128 {
        crate::bytes::lemma_scalar_ascii_byte(x[0], 0);
        if e[0] == 33u8 {
            vstd::utf8::char_u32_cast(x[0], 33u32);
            vstd::utf8::char_u32_cast('!', 33u32);
        }
        if e[0] == 42u8 {
            vstd::utf8::char_u32_cast(x[0], 42u32);
            vstd::utf8::char_u32_cast('*', 42u32);
        }
        if e[0] == 47u8 {
            vstd::utf8::char_u32_cast(x[0], 47u32);
            vstd::utf8::char_u32_cast('/', 47u32);
        }
    }
    assert(b[0] != 33u8 && b[0] != 42u8 && b[0] != 47u8);
    assert(!starts_with(b, comment_mark()));
    assert(!starts_with(b, seq![42u8, 46u8]));
    assert(b != seq![42u8]);
    encode_utf8_decode_utf8(x);
}

/// A comment line switches to the PRIVATE section when it names
/// `BEGIN PRIVATE DOMAINS`, else to the ICANN section when it names
/// `BEGIN ICANN DOMAINS`, and otherwise changes nothing; it never stores or
/// skips a rule.
pub proof fn law_comment_line(st: ListState, line: Seq<u8>)
    requires
        trimmed(line) == line,
        starts_with(line, comment_mark()),
    ensures
        ({
            let nx = read_line(st, line);
            let text = line.subrange(2, line.len() as int);
            &&& nx.0 == (if occurs_in(text, private_mark()) {
                Type::Private
            } else if occurs_in(text, icann_mark()) {
                Type::Icann
            } else {
                st.0
            })
            &&& nx.1 == st.1 && nx.2 == st.2 && nx.3 == st.3 && nx.4 == st.4
        }),
{
}

proof fn lemma_find_byte_shift(p: Seq<u8>, r: Seq<u8>, c: u8, j: int)
    requires
        0 <= j,
    ensures
        find_byte(p + r, c, p.len() + j) == p.len() + find_byte(r, c, j),
    decreases r.len() - j,
{
    if j < r.len() {
        assert((p + r)[p.len() + j] == r[j]);
        if r[j] != c {
            lemma_find_byte_shift(p, r, c, j + 1);
        }
    }
}

proof fn lemma_read_lines_shift(p: Seq<u8>, r: Seq<u8>, j: int, st: ListState)
    requires
        0 <= j,
    ensures
        read_lines(p + r, p.len() + j, st) == read_lines(r, j, st),
    decreases r.len() - j,
{
    if j < r.len() {
        let b = p + r;
        lemma_find_byte_shift(p, r, newline(), j);
        lemma_find_byte(r, newline(), j);
        let e = find_byte(r, newline(), j);
        assert(b.subrange(p.len() + j, p.len() + e) == r.subrange(j, e));
        if e < r.len() {
            lemma_read_lines_shift(p, r, e + 1, read_line(st, r.subrange(j, e)));
        }
    }
}

/// The list is read line by line, in order: a first line ended by a newline
/// is read, then the rest from the state it leaves; a last line with no
/// newline is read alone.
pub proof fn law_lines_in_order(l: Seq<u8>, rest: Seq<u8>, st: ListState)
    requires
        !l.contains(newline()),
    ensures
        read_lines(l + seq![newline()] + rest, 0, st) == read_lines(rest, 0, read_line(st, l)),
        read_lines(l, 0, st) == read_line(st, l),
{
    let p = l + seq![newline()];
    let b = p + rest;
    assert(l + seq![newline()] + rest == b);
    assert forall|k: int| 0 <= k < l.len() implies b[k] != newline() by {
        assert(b[k] == l[k]);
        if l[k] == newline() {
            assert(l.contains(newline()));
        }
    }
    lemma_find_byte_unique(b, newline(), 0, l.len() as int);
    assert(b.subrange(0, l.len() as int) == l);
    lemma_read_lines_shift(p, rest, 0, read_line(st, l));
    assert(p.len() + 0 == l.len() + 1);
    if l.len() > 0 {
        assert forall|k: int| 0 <= k < l.len() implies l[k] != newline() by {
            if l[k] == newline() {
                assert(l.contains(newline()));
            }
        }
        lemma_find_byte_unique(l, newline(), 0, l.len() as int);
        assert(l.subrange(0, l.len() as int) == l);
    } else {
        assert(trim_chars(decode_utf8(l)) == decode_utf8(l)) by {
            assert(decode_utf8(l).len() == 0);
        }
        assert(trimmed(l).len() == 0);
    }
}

} // verus!
