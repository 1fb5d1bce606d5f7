//! Sorted rule blocks: one `rule\tS` line per rule, lines joined by `\n`,
//! sorted by rule, and the binary search over them.
use vstd::prelude::*;
use vstd::string::StringSliceAdditionalSpecFns;
use crate::bytes::{
    bytes_lt, find_byte, lemma_find_byte, lemma_find_byte_unique, lemma_bytes_lt_trans,
    lemma_bytes_lt_total, lemma_bytes_lt_irrefl, compare_bytes, ByteOrder, str_head, str_tail,
    lemma_encode_concat, lemma_encode_avoids_byte, lemma_scalar_ascii_byte,
};
use vstd::utf8::{encode_utf8, encode_scalar, char_u32_cast};
use crate::Type;

verus! {

/// Newline, the line separator of a block.
pub open spec fn newline() -> u8 {
    10u8
}

/// Tab, the separator between a rule and its section letter.
pub open spec fn tab() -> u8 {
    9u8
}

/// The lines of `b` from position `start` on, split at each newline.
pub open spec fn lines_from(b: Seq<u8>, start: int) -> Seq<Seq<u8>>
    decreases b.len() - start,
{
    let e = find_byte(b, newline(), start);
    if start < 0 || start > b.len() || e >= b.len() {
        seq![b.subrange(start, b.len() as int)]
    } else {
        proof {
            lemma_find_byte(b, newline(), start);
        }
        seq![b.subrange(start, e)] + lines_from(b, e + 1)
    }
}

/// The lines of a block; an empty block has none.
pub open spec fn block_lines(b: Seq<u8>) -> Seq<Seq<u8>> {
    if b.len() == 0 {
        seq![]
    } else {
        lines_from(b, 0)
    }
}

/// The rule of a line: everything before its first tab.
pub open spec fn rule_of(line: Seq<u8>) -> Seq<u8> {
    line.subrange(0, find_byte(line, tab(), 0))
}

/// The section of a line: PRIVATE when the byte after the first tab is `P`,
/// ICANN otherwise (also when the line has no tab).
pub open spec fn type_of(line: Seq<u8>) -> Type {
    let t = find_byte(line, tab(), 0);
    if t + 1 < line.len() && line[t + 1] == 80u8 {
        Type::Private
    } else {
        Type::Icann
    }
}

/// The rules of `ls` strictly increase.
pub open spec fn sorted_rules(ls: Seq<Seq<u8>>) -> bool {
    forall|i: int, j: int|
        #![trigger ls[i], ls[j]]
        0 <= i < j < ls.len() ==> bytes_lt(rule_of(ls[i]), rule_of(ls[j]))
}

/// A well-formed block: its lines are sorted by rule, with no rule twice.
pub open spec fn block_wf(b: Seq<u8>) -> bool {
    sorted_rules(block_lines(b))
}

/// The section of the first line of `ls` whose rule is `key`, if any.
pub open spec fn find_rule(ls: Seq<Seq<u8>>, key: Seq<u8>) -> Option<Type>
    decreases ls.len(),
{
    if ls.len() == 0 {
        None
    } else if rule_of(ls[0]) == key {
        Some(type_of(ls[0]))
    } else {
        find_rule(ls.drop_first(), key)
    }
}

/// The section that block `b` gives rule `key`, or `None` if no line holds it.
pub open spec fn block_lookup(b: Seq<u8>, key: Seq<u8>) -> Option<Type> {
    find_rule(block_lines(b), key)
}

pub proof fn lemma_sorted_cons(l: Seq<u8>, rest: Seq<Seq<u8>>)
    requires
        sorted_rules(rest),
        rest.len() > 0,
        bytes_lt(rule_of(l), rule_of(rest[0])),
    ensures
        sorted_rules(seq![l] + rest),
{
    let s = seq![l] + rest;
    assert forall|i: int, j: int| 0 <= i < j < s.len() implies bytes_lt(
        rule_of(#[trigger] s[i]),
        rule_of(#[trigger] s[j]),
    ) by {
        if i == 0 {
            assert(s[j] == rest[j - 1]);
            if j > 1 {
                assert(bytes_lt(rule_of(rest[0]), rule_of(rest[j - 1])));
                lemma_bytes_lt_trans(rule_of(l), rule_of(rest[0]), rule_of(rest[j - 1]));
            }
        } else {
            assert(s[i] == rest[i - 1]);
            assert(s[j] == rest[j - 1]);
        }
    }
}

/// `s` starts a line of `b`: it is the start of `b` or follows a newline.
pub open spec fn line_start(b: Seq<u8>, s: int) -> bool {
    0 <= s <= b.len() && b.len() > 0 && (s == 0 || b[s - 1] == newline())
}

/// The line of `b` that starts at `s`.
pub open spec fn line_at(b: Seq<u8>, s: int) -> Seq<u8> {
    b.subrange(s, find_byte(b, newline(), s))
}

/// The number of newlines in `b[from..to]`.
pub open spec fn count_newlines(b: Seq<u8>, from: int, to: int) -> int
    decreases to - from,
{
    if from >= to {
        0
    } else {
        (if b[from] == newline() { 1int } else { 0int }) + count_newlines(b, from + 1, to)
    }
}

proof fn lemma_count_split(b: Seq<u8>, a: int, m: int, c: int)
    requires
        a <= m <= c,
    ensures
        count_newlines(b, a, c) == count_newlines(b, a, m) + count_newlines(b, m, c),
    decreases m - a,
{
    if a < m {
        lemma_count_split(b, a + 1, m, c);
    }
}

proof fn lemma_count_none(b: Seq<u8>, a: int, c: int)
    requires
        a <= c,
        forall|j: int| a <= j < c ==> b[j] != newline(),
    ensures
        count_newlines(b, a, c) == 0,
    decreases c - a,
{
    if a < c {
        lemma_count_none(b, a + 1, c);
    }
}

proof fn lemma_count_pos(b: Seq<u8>, a: int, c: int)
    requires
        0 <= a < c <= b.len(),
        b[c - 1] == newline(),
    ensures
        count_newlines(b, a, c) >= 1,
    decreases c - a,
{
    if a < c - 1 {
        lemma_count_pos(b, a + 1, c);
    } else {
        assert(count_newlines(b, c, c) == 0);
    }
}

/// The line of `b` starting at `s` is entry `count_newlines(b, s0, s)` of the
/// lines that start at `s0`.
pub proof fn lemma_lines_index(b: Seq<u8>, s0: int, s: int)
    requires
        line_start(b, s0),
        line_start(b, s),
        s0 <= s,
    ensures
        0 <= count_newlines(b, s0, s) < lines_from(b, s0).len(),
        lines_from(b, s0)[count_newlines(b, s0, s)] == line_at(b, s),
    decreases b.len() - s0,
{
    let e = find_byte(b, newline(), s0);
    lemma_find_byte(b, newline(), s0);
    if s == s0 {
    } else {
        assert(b[s - 1] == newline());
        assert(e <= s - 1);
        assert(e < b.len());
        lemma_count_split(b, s0, e + 1, s);
        lemma_count_split(b, s0, e, e + 1);
        lemma_count_none(b, s0, e);
        assert(count_newlines(b, e, e + 1) == 1) by {
            assert(count_newlines(b, e + 1, e + 1) == 0);
        }
        lemma_lines_index(b, e + 1, s);
        assert(lines_from(b, s0) == seq![b.subrange(s0, e)] + lines_from(b, e + 1));
    }
}

/// Every entry of the lines that start at `s0` is the line at some line start.
pub proof fn lemma_lines_cover(b: Seq<u8>, s0: int, k: int) -> (s: int)
    requires
        line_start(b, s0),
        0 <= k < lines_from(b, s0).len(),
    ensures
        line_start(b, s),
        s0 <= s,
        count_newlines(b, s0, s) == k,
        lines_from(b, s0)[k] == line_at(b, s),
    decreases b.len() - s0,
{
    let e = find_byte(b, newline(), s0);
    lemma_find_byte(b, newline(), s0);
    if k == 0 {
        s0
    } else {
        assert(e < b.len());
        assert(lines_from(b, s0) == seq![b.subrange(s0, e)] + lines_from(b, e + 1));
        let s = lemma_lines_cover(b, e + 1, k - 1);
        lemma_count_split(b, s0, e + 1, s);
        lemma_count_split(b, s0, e, e + 1);
        lemma_count_none(b, s0, e);
        assert(count_newlines(b, e, e + 1) == 1) by {
            assert(count_newlines(b, e + 1, e + 1) == 0);
        }
        s
    }
}

/// In a well-formed block, lines that start later hold greater rules.
pub proof fn lemma_wf_positional(b: Seq<u8>, s1: int, s2: int)
    requires
        block_wf(b),
        b.len() > 0,
        line_start(b, s1),
        line_start(b, s2),
        s1 < s2,
    ensures
        bytes_lt(rule_of(line_at(b, s1)), rule_of(line_at(b, s2))),
{
    lemma_lines_index(b, 0, s1);
    lemma_lines_index(b, 0, s2);
    lemma_count_split(b, 0, s1, s2);
    lemma_count_pos(b, s1, s2);
    let ls = block_lines(b);
    let i = count_newlines(b, 0, s1);
    let j = count_newlines(b, 0, s2);
    assert(bytes_lt(rule_of(ls[i]), rule_of(ls[j])));
}

/// A well-formed block does not end in a newline.
pub proof fn lemma_wf_no_trailing_newline(b: Seq<u8>)
    requires
        block_wf(b),
        b.len() > 0,
    ensures
        b[b.len() - 1] != newline(),
{
    if b[b.len() - 1] == newline() {
        lemma_wf_positional(b, 0, b.len() as int);
        lemma_find_byte(b, newline(), b.len() as int);
        assert(line_at(b, b.len() as int).len() == 0);
        assert(rule_of(line_at(b, b.len() as int)).len() == 0);
    }
}

proof fn lemma_find_rule_none(ls: Seq<Seq<u8>>, key: Seq<u8>)
    requires
        forall|k: int| 0 <= k < ls.len() ==> rule_of(#[trigger] ls[k]) != key,
    ensures
        find_rule(ls, key) is None,
    decreases ls.len(),
{
    if ls.len() > 0 {
        assert(rule_of(ls[0]) != key);
        assert forall|k: int| 0 <= k < ls.drop_first().len() implies rule_of(
            #[trigger] ls.drop_first()[k],
        ) != key by {
            assert(ls.drop_first()[k] == ls[k + 1]);
        }
        lemma_find_rule_none(ls.drop_first(), key);
    }
}

proof fn lemma_find_rule_found(ls: Seq<Seq<u8>>, key: Seq<u8>, k: int)
    requires
        sorted_rules(ls),
        0 <= k < ls.len(),
        rule_of(ls[k]) == key,
    ensures
        find_rule(ls, key) == Some(type_of(ls[k])),
    decreases k,
{
    if k > 0 {
        assert(bytes_lt(rule_of(ls[0]), rule_of(ls[k])));
        lemma_bytes_lt_total(rule_of(ls[0]), rule_of(ls[k]));
        let rest = ls.drop_first();
        assert(rest[k - 1] == ls[k]);
        assert(sorted_rules(rest)) by {
            assert forall|i: int, j: int| 0 <= i < j < rest.len() implies bytes_lt(
                rule_of(#[trigger] rest[i]),
                rule_of(#[trigger] rest[j]),
            ) by {
                assert(rest[i] == ls[i + 1]);
                assert(rest[j] == ls[j + 1]);
            }
        }
        lemma_find_rule_found(rest, key, k - 1);
    }
}

/// Split a `rule\tS` line into its rule and section.
pub fn split_line(line: &str) -> (r: (&str, Type))
    ensures
        r.0.spec_bytes() == rule_of(line.spec_bytes()),
        r.1 == type_of(line.spec_bytes()),
{
    let bytes = line.as_bytes();
    let mut t: usize = 0;
    while t < bytes.len() && bytes[t] != 9u8
        invariant
            t <= bytes@.len(),
            bytes@ == line.spec_bytes(),
            forall|j: int| 0 <= j < t ==> bytes@[j] != tab(),
        decreases bytes@.len() - t,
    {
        t = t + 1;
    }
    proof {
        lemma_find_byte_unique(bytes@, tab(), 0, t as int);
    }
    if t < bytes.len() {
        let sec = if t + 1 < bytes.len() && bytes[t + 1] == 80u8 {
            Type::Private
        } else {
            Type::Icann
        };
        (str_head(line, t), sec)
    } else {
        proof {
            assert(bytes@.subrange(0, t as int) == bytes@);
        }
        (line, Type::Icann)
    }
}

/// Binary-search a block for `key`, returning the section of the line whose
/// rule equals `key`. Allocation-free.
///
/// On a well-formed block (sorted, no rule twice) the answer is exact; on any
/// other block a found section still belongs to a line whose rule is `key`.
pub fn lookup_block(block: &str, key: &str) -> (r: Option<Type>)
    ensures
        block_wf(block.spec_bytes()) ==> r == block_lookup(block.spec_bytes(), key.spec_bytes()),
        r matches Some(t) ==> exists|k: int|
            0 <= k < block_lines(block.spec_bytes()).len() && rule_of(
                #[trigger] block_lines(block.spec_bytes())[k],
            ) == key.spec_bytes() && type_of(block_lines(block.spec_bytes())[k]) == t,
{
    let b = block.as_bytes();
    let ghost bs = b@;
    let ghost kb = key.spec_bytes();
    let mut lo: usize = 0;
    let mut hi: usize = b.len();
    proof {
        if bs.len() > 0 && block_wf(bs) {
            lemma_wf_no_trailing_newline(bs);
        }
    }
    // Invariant: `lo` and `hi` are line starts (or the very end of the block).
    while lo < hi
        invariant
            bs == b@,
            bs == block.spec_bytes(),
            kb == key.spec_bytes(),
            hi <= bs.len(),
            lo <= hi + 1,
            lo < hi ==> line_start(bs, lo as int),
            hi == bs.len() || (hi > 0 && bs[hi - 1] == newline()) || hi <= lo,
            block_wf(bs) && bs.len() > 0 ==> bs[bs.len() - 1] != newline(),
            block_wf(bs) ==> forall|s: int|
                line_start(bs, s) && (s < lo || s >= hi) ==> rule_of(#[trigger] line_at(bs, s))
                    != kb,
        decreases hi + 1 - lo,
    {
        // Midpoint, snapped back to the start of the line it falls in.
        let mut mid = lo + (hi - lo) / 2;
        while mid > lo && b[mid - 1] != 10u8
            invariant
                bs == b@,
                lo <= mid < hi,
                hi <= bs.len(),
            decreases mid,
        {
            mid = mid - 1;
        }
        // End of that line.
        let mut end = mid;
        while end < hi && b[end] != 10u8
            invariant
                bs == b@,
                mid <= end <= hi,
                hi <= bs.len(),
                forall|j: int| mid <= j < end ==> bs[j] != newline(),
            decreases hi - end,
        {
            end = end + 1;
        }
        proof {
            assert(line_start(bs, mid as int));
            if end == hi && hi < bs.len() {
                assert(bs[hi - 1] == newline());
                assert(false);
            }
            lemma_find_byte_unique(bs, newline(), mid as int, end as int);
        }
        let line = str_head(str_tail(block, mid), end - mid);
        proof {
            assert(line.spec_bytes() == line_at(bs, mid as int));
        }
        let (rule, sec) = split_line(line);
        match compare_bytes(key.as_bytes(), rule.as_bytes()) {
            ByteOrder::Equal => {
                proof {
                    lemma_lines_index(bs, 0, mid as int);
                    let k = count_newlines(bs, 0, mid as int);
                    assert(block_lines(bs)[k] == line_at(bs, mid as int));
                    if block_wf(bs) {
                        lemma_find_rule_found(block_lines(bs), kb, k);
                    }
                }
                return Some(sec);
            },
            ByteOrder::Less => {
                proof {
                    lemma_bytes_lt_total(kb, rule_of(line_at(bs, mid as int)));
                    if block_wf(bs) {
                    assert forall|s: int|
                        line_start(bs, s) && s >= mid implies rule_of(
                            #[trigger] line_at(bs, s),
                        ) != kb by {
                        if s > mid {
                            lemma_wf_positional(bs, mid as int, s);
                            lemma_bytes_lt_trans(
                                kb,
                                rule_of(line_at(bs, mid as int)),
                                rule_of(line_at(bs, s)),
                            );
                            lemma_bytes_lt_total(kb, rule_of(line_at(bs, s)));
                        }
                    }
                    }
                }
                hi = mid;
            },
            ByteOrder::Greater => {
                proof {
                    lemma_bytes_lt_total(kb, rule_of(line_at(bs, mid as int)));
                    if block_wf(bs) {
                    assert forall|s: int|
                        line_start(bs, s) && s < end + 1 implies rule_of(
                            #[trigger] line_at(bs, s),
                        ) != kb by {
                        if lo <= s < mid {
                            lemma_wf_positional(bs, s, mid as int);
                            lemma_bytes_lt_trans(
                                rule_of(line_at(bs, s)),
                                rule_of(line_at(bs, mid as int)),
                                kb,
                            );
                            lemma_bytes_lt_total(kb, rule_of(line_at(bs, s)));
                        } else if mid < s {
                            assert(bs[s - 1] != newline());
                        }
                    }
                    }
                }
                lo = if end < hi {
                    end + 1
                } else {
                    hi
                };
            },
        }
    }
    proof {
        let ls = block_lines(bs);
        if bs.len() > 0 && block_wf(bs) {
            assert forall|k: int| 0 <= k < ls.len() implies rule_of(#[trigger] ls[k]) != kb by {
                let s = lemma_lines_cover(bs, 0, k);
            }
        }
        if block_wf(bs) {
            lemma_find_rule_none(ls, kb);
        }
    }
    None
}

/// `true` exactly when `block` is well formed: its rules strictly increase
/// from line to line. A check that runs in one pass, for blocks too large to
/// prove well formed line by line.
pub fn is_block_wf(block: &str) -> (r: bool)
    ensures
        r == block_wf(block.spec_bytes()),
{
    let b = block.as_bytes();
    let ghost bs = b@;
    let ghost ls = block_lines(bs);
    if b.len() == 0 {
        return true;
    }
    let mut s: usize = 0;
    let mut prev: Option<&str> = None;
    let ghost mut k: int = 0;
    proof {
        lemma_lines_index(bs, 0, 0);
        assert(count_newlines(bs, 0, 0) == 0);
    }
    loop
        invariant
            bs == b@,
            bs == block.spec_bytes(),
            bs.len() > 0,
            ls == block_lines(bs),
            ls == lines_from(bs, 0),
            line_start(bs, s as int),
            s < bs.len() || s == bs.len(),
            k == count_newlines(bs, 0, s as int),
            0 <= k < ls.len(),
            ls[k] == line_at(bs, s as int),
            prev is None <==> k == 0,
            prev matches Some(p) ==> p.spec_bytes() == rule_of(ls[k - 1]),
            sorted_rules(ls.take(k)),
        decreases bs.len() - s,
    {
        let mut e = s;
        while e < b.len() && b[e] != 10u8
            invariant
                bs == b@,
                s <= e <= bs.len(),
                forall|j: int| s <= j < e ==> bs[j] != newline(),
            decreases bs.len() - e,
        {
            e = e + 1;
        }
        proof {
            lemma_find_byte_unique(bs, newline(), s as int, e as int);
        }
        let line = str_head(str_tail(block, s), e - s);
        proof {
            assert(line.spec_bytes() == line_at(bs, s as int));
        }
        let (rule, _) = split_line(line);
        if let Some(p) = prev {
            match compare_bytes(p.as_bytes(), rule.as_bytes()) {
                ByteOrder::Less => {},
                _ => {
                    proof {
                        assert(!bytes_lt(rule_of(ls[k - 1]), rule_of(ls[k])));
                        assert(!sorted_rules(ls));
                    }
                    return false;
                },
            }
        }
        proof {
            let t = ls.take(k + 1);
            assert forall|i: int, j: int| 0 <= i < j < t.len() implies bytes_lt(
                rule_of(#[trigger] t[i]),
                rule_of(#[trigger] t[j]),
            ) by {
                if j < k {
                    assert(ls.take(k)[i] == t[i] && ls.take(k)[j] == t[j]);
                } else if i < k - 1 {
                    assert(ls.take(k)[i] == t[i] && ls.take(k)[k - 1] == t[k - 1]);
                    lemma_bytes_lt_trans(rule_of(t[i]), rule_of(t[k - 1]), rule_of(t[j]));
                }
            }
        }
        if e >= b.len() {
            proof {
                if ls.len() > k + 1 {
                    let s2 = lemma_lines_cover(bs, 0, k + 1);
                    if s2 <= s {
                        lemma_count_split(bs, 0, s2 as int, s as int);
                        assert(count_newlines(bs, s2, s as int) >= 0) by {
                            lemma_count_nonneg(bs, s2, s as int);
                        }
                    }
                    assert(bs[s2 - 1] == newline());
                }
                assert(ls.take(k + 1) == ls);
            }
            return true;
        }
        prev = Some(rule);
        proof {
            lemma_lines_index(bs, 0, e + 1);
            lemma_count_split(bs, 0, s as int, e + 1);
            lemma_count_split(bs, s as int, e as int, e + 1);
            lemma_count_none(bs, s as int, e as int);
            assert(count_newlines(bs, e as int, e + 1) == 1) by {
                assert(count_newlines(bs, e + 1, e + 1) == 0);
            }
            k = k + 1;
        }
        s = e + 1;
    }
}

proof fn lemma_count_nonneg(b: Seq<u8>, a: int, c: int)
    ensures
        count_newlines(b, a, c) >= 0,
    decreases c - a,
{
    if a < c {
        lemma_count_nonneg(b, a + 1, c);
    }
}

/// Every rule of block `b` contains the byte `c`.
pub open spec fn rules_contain(b: Seq<u8>, c: u8) -> bool {
    forall|k: int|
        0 <= k < block_lines(b).len() ==> rule_of(#[trigger] block_lines(b)[k]).contains(c)
}

proof fn lemma_find_rule_some(ls: Seq<Seq<u8>>, key: Seq<u8>) -> (k: int)
    requires
        find_rule(ls, key) is Some,
    ensures
        0 <= k < ls.len(),
        rule_of(ls[k]) == key,
    decreases ls.len(),
{
    if rule_of(ls[0]) == key {
        0
    } else {
        let k = lemma_find_rule_some(ls.drop_first(), key);
        assert(ls.drop_first()[k] == ls[k + 1]);
        k + 1
    }
}

/// A key that a block holds is one of its rules, so it has what all its rules have.
pub proof fn lemma_lookup_contains(b: Seq<u8>, key: Seq<u8>, c: u8)
    requires
        rules_contain(b, c),
        block_lookup(b, key) is Some,
    ensures
        key.contains(c),
{
    let k = lemma_find_rule_some(block_lines(b), key);
}

pub proof fn lemma_sorted_single(l: Seq<u8>)
    ensures
        sorted_rules(seq![l]),
{
}

/// Every line of a well-formed block is found by its own rule, with its own
/// section.
pub proof fn law_block_lookup_finds_each_line(b: Seq<u8>, k: int)
    requires
        block_wf(b),
        0 <= k < block_lines(b).len(),
    ensures
        block_lookup(b, rule_of(block_lines(b)[k])) == Some(type_of(block_lines(b)[k])),
{
    lemma_find_rule_found(block_lines(b), rule_of(block_lines(b)[k]), k);
}

/// A key that is the rule of no line is not found.
pub proof fn law_block_lookup_absent(b: Seq<u8>, key: Seq<u8>)
    requires
        forall|k: int|
            0 <= k < block_lines(b).len() ==> rule_of(#[trigger] block_lines(b)[k]) != key,
    ensures
        block_lookup(b, key) is None,
{
    lemma_find_rule_none(block_lines(b), key);
}

/// A line with no tab is all rule, in the ICANN section.
pub proof fn law_split_line_no_tab(line: Seq<char>)
    requires
        !line.contains('\t'),
    ensures
        rule_of(encode_utf8(line)) == encode_utf8(line),
        type_of(encode_utf8(line)) == Type::Icann,
{
    let b = encode_utf8(line);
    assert forall|k: int| 0 <= k < line.len() implies #[trigger] (line[k] as u32) != tab() as u32 by {
        if line[k] as u32 == 9 {
            char_u32_cast(line[k], 9u32);
            char_u32_cast('\t', 9u32);
            assert(line.contains('\t'));
        }
    }
    lemma_encode_avoids_byte(line, tab());
    lemma_find_byte_unique(b, tab(), 0, b.len() as int);
    assert(b.subrange(0, b.len() as int) == b);
}

/// A line written as a rule, a tab and a section letter gives back the rule,
/// and the section is PRIVATE exactly when the letter is `P`.
pub proof fn law_split_line_format(rule: Seq<char>, mark: char)
    requires
        !rule.contains('\t'),
    ensures
        rule_of(encode_utf8(rule + seq!['\t', mark])) == encode_utf8(rule),
        type_of(encode_utf8(rule + seq!['\t', mark])) == (if mark == 'P' {
            Type::Private
        } else {
            Type::Icann
        }),
{
    let tail = seq!['\t', mark];
    let er = encode_utf8(rule);
    lemma_encode_concat(rule, tail);
    assert(tail.drop_first() == seq![mark]);
    assert(seq![mark].drop_first() == Seq::<char>::empty());
    assert(encode_utf8(Seq::<char>::empty()) == Seq::<u8>::empty());
    let em = encode_scalar(mark as u32);
    assert(encode_utf8(seq![mark]) == em + Seq::<u8>::empty());
    assert(encode_scalar('\t' as u32) == seq![9u8]) by {
        char_u32_cast('\t', 9u32);
        assert((9u32 & 0x7F) as u8 == 9u8) by (bit_vector);
    }
    assert(encode_utf8(tail) == seq![9u8] + encode_utf8(seq![mark]));
    let b = encode_utf8(rule + tail);
    assert(b == er + seq![9u8] + em);
    assert forall|k: int| 0 <= k < rule.len() implies #[trigger] (rule[k] as u32) != tab() as u32 by {
        if rule[k] as u32 == 9 {
            char_u32_cast(rule[k], 9u32);
            char_u32_cast('\t', 9u32);
            assert(rule.contains('\t'));
        }
    }
    lemma_encode_avoids_byte(rule, tab());
    lemma_find_byte_unique(b, tab(), 0, er.len() as int);
    assert(b.subrange(0, er.len() as int) == er);
    assert(em.len() > 0);
    assert(b[er.len() as int + 1] == em[0]);
    if em[0] == 80u8 {
        lemma_scalar_ascii_byte(mark, 0);
        char_u32_cast(mark, 80u32);
        char_u32_cast('P', 80u32);
    }
    if mark == 'P' {
        assert(em == seq![80u8]) by {
            char_u32_cast('P', 80u32);
            assert((80u32 & 0x7F) as u8 == 80u8) by (bit_vector);
        }
    }
}

/// A key ordered before the first rule of a well-formed block, or after its
/// last, is not in the block.
pub proof fn law_block_lookup_outside(b: Seq<u8>, key: Seq<u8>)
    requires
        block_wf(b),
        block_lines(b).len() > 0,
        bytes_lt(key, rule_of(block_lines(b)[0])) || bytes_lt(
            rule_of(block_lines(b).last()),
            key,
        ),
    ensures
        block_lookup(b, key) is None,
{
    let ls = block_lines(b);
    let n = ls.len() as int;
    assert forall|k: int| 0 <= k < n implies rule_of(#[trigger] ls[k]) != key by {
        lemma_bytes_lt_irrefl(key);
        if bytes_lt(key, rule_of(ls[0])) {
            if k > 0 {
                assert(bytes_lt(rule_of(ls[0]), rule_of(ls[k])));
                lemma_bytes_lt_trans(key, rule_of(ls[0]), rule_of(ls[k]));
            }
        } else {
            if k < n - 1 {
                assert(bytes_lt(rule_of(ls[k]), rule_of(ls[n - 1])));
                lemma_bytes_lt_trans(rule_of(ls[k]), rule_of(ls[n - 1]), key);
            }
        }
    }
    law_block_lookup_absent(b, key);
}

} // verus!
