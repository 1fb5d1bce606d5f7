//! The Public Suffix List algorithm over a normalized hostname: label
//! splitting, the prevailing-rule choice, and the byte offsets it yields.
use vstd::prelude::*;
use vstd::string::StringSliceAdditionalSpecFns;
use crate::Type;
use crate::bytes::str_tail;
use crate::table::{block_lookup, lookup_block, lemma_lookup_contains};
use crate::data::{
    RULES, WILDCARDS, EXCEPTIONS, lemma_rules_wf, lemma_wildcards_wf, lemma_exceptions_wf,
};

verus! {

/// The dot, which separates labels.
pub open spec fn dot() -> u8 {
    46u8
}

/// Result of the matching algorithm: byte offsets into the analyzed hostname
/// plus the matched section.
#[derive(Clone, Copy, Debug, PartialEq, Eq, Structural)]
pub struct Parts {
    /// Where the public suffix starts.
    pub suffix_off: usize,
    /// Where the registrable domain starts, if there is one.
    pub domain_off: Option<usize>,
    /// The section of the prevailing rule, or `None` for the implicit `*` rule.
    pub typ: Option<Type>,
}

/// The byte offsets at which the labels of `h` start: 0, then one past each dot.
pub open spec fn label_starts(h: Seq<u8>) -> Seq<int>
    decreases h.len(),
{
    if h.len() == 0 {
        seq![0]
    } else if h.last() == dot() {
        label_starts(h.drop_last()).push(h.len() as int)
    } else {
        label_starts(h.drop_last())
    }
}

/// The number of labels of `h`.
pub open spec fn label_count(h: Seq<u8>) -> int {
    label_starts(h).len() as int
}

/// The hostname made of labels `i..` of `h`.
pub open spec fn candidate(h: Seq<u8>, i: int) -> Seq<u8> {
    h.subrange(label_starts(h)[i], h.len() as int)
}

/// The exception rule `!X` with `X` equal to labels `i..` of `h`, if any.
pub open spec fn exception_at(h: Seq<u8>, i: int) -> Option<Type> {
    block_lookup(EXCEPTIONS.spec_bytes(), candidate(h, i))
}

/// An ordinary rule equal to labels `i..`, or else a wildcard `*.Y` whose `*`
/// is label `i` and whose `Y` is labels `i+1..`.
pub open spec fn rule_at(h: Seq<u8>, i: int) -> Option<Type> {
    match block_lookup(RULES.spec_bytes(), candidate(h, i)) {
        Some(t) => Some(t),
        None => if i + 1 < label_count(h) {
            block_lookup(WILDCARDS.spec_bytes(), candidate(h, i + 1))
        } else {
            None
        },
    }
}

/// The matching exception rule with the most labels among the candidates
/// `from..`: the first candidate from there on that matches one, as its index
/// and section.
pub open spec fn first_exception(h: Seq<u8>, from: int) -> Option<(int, Type)>
    decreases label_count(h) - from,
{
    if from < 0 || from >= label_count(h) {
        None
    } else {
        match exception_at(h, from) {
            Some(t) => Some((from, t)),
            None => first_exception(h, from + 1),
        }
    }
}

/// The matching rule (ordinary or wildcard) with the most labels among the
/// candidates `from..`, as its index and section.
pub open spec fn first_rule(h: Seq<u8>, from: int) -> Option<(int, Type)>
    decreases label_count(h) - from,
{
    if from < 0 || from >= label_count(h) {
        None
    } else {
        match rule_at(h, from) {
            Some(t) => Some((from, t)),
            None => first_rule(h, from + 1),
        }
    }
}

/// The prevailing rule as (index of the label where the public suffix
/// starts, section): an exception always wins and gives its rule minus the
/// leftmost label; else the matching rule with the most labels; else the
/// implicit `*` rule, the last label alone.
pub open spec fn prevailing(h: Seq<u8>) -> (int, Option<Type>) {
    match first_exception(h, 0) {
        Some((j, t)) => (j + 1, Some(t)),
        None => match first_rule(h, 0) {
            Some((j, t)) => (j, Some(t)),
            None => (label_count(h) - 1, None),
        },
    }
}

/// The outcome of the algorithm on `h`: the offsets of the public suffix and
/// of the registrable domain (one more label, if there is one), and the
/// prevailing rule's section.
pub open spec fn psl_parts(h: Seq<u8>) -> Parts {
    let offs = label_starts(h);
    let si = prevailing(h).0;
    Parts {
        suffix_off: offs[si] as usize,
        domain_off: if si >= 1 {
            Some(offs[si - 1] as usize)
        } else {
            None
        },
        typ: prevailing(h).1,
    }
}

/// The shape of `label_starts`: it starts at 0, strictly increases, each later
/// entry follows a dot, and the last one lies past every dot.
pub proof fn lemma_label_starts(h: Seq<u8>)
    ensures
        label_starts(h).len() >= 1,
        label_starts(h).len() <= h.len() + 1,
        label_starts(h)[0] == 0,
        forall|k: int|
            0 < k < label_starts(h).len() ==> 0 < #[trigger] label_starts(h)[k] <= h.len()
                && h[label_starts(h)[k] - 1] == dot(),
        forall|k: int, l: int|
            0 <= k < l < label_starts(h).len() ==> #[trigger] label_starts(h)[k]
                < #[trigger] label_starts(h)[l],
        forall|p: int| 0 <= p < h.len() && #[trigger] h[p] == dot() ==> p < label_starts(h).last(),
    decreases h.len(),
{
    if h.len() > 0 {
        let t = h.drop_last();
        lemma_label_starts(t);
        let ot = label_starts(t);
        let o = label_starts(h);
        assert forall|p: int| 0 <= p < h.len() && #[trigger] h[p] == dot() implies p < o.last() by {
            if p < h.len() - 1 {
                assert(t[p] == h[p]);
            }
        }
    }
}

/// No dot lies inside a label: between the start of a label and the dot that
/// ends it.
pub proof fn lemma_label_interior(h: Seq<u8>)
    ensures
        forall|k: int, p: int|
            #![trigger label_starts(h)[k], h[p]]
            0 <= k && k + 1 < label_starts(h).len() && label_starts(h)[k] <= p < label_starts(h)[k
                + 1] - 1 ==> h[p] != dot(),
    decreases h.len(),
{
    if h.len() > 0 {
        let t = h.drop_last();
        lemma_label_interior(t);
        let ot = label_starts(t);
        let o = label_starts(h);
        if h.last() == dot() {
            lemma_label_starts(t);
            assert(o == ot.push(h.len() as int));
            assert forall|k: int, p: int|
                #![trigger o[k], h[p]]
                0 <= k && k + 1 < o.len() && o[k] <= p < o[k + 1] - 1 implies h[p] != dot() by {
                assert(t[p] == h[p]);
                if k + 1 < ot.len() {
                    assert(o[k] == ot[k] && o[k + 1] == ot[k + 1]);
                    assert(ot[k] <= p < ot[k + 1] - 1);
                } else {
                    assert(o[k] == ot.last());
                    if t[p] == dot() {
                        assert(p < ot.last());
                    }
                }
            }
        } else {
            assert(o == ot);
            assert forall|k: int, p: int|
                #![trigger o[k], h[p]]
                0 <= k && k + 1 < o.len() && o[k] <= p < o[k + 1] - 1 implies h[p] != dot() by {
                assert(ot[k] <= p < ot[k + 1] - 1);
                lemma_label_starts(t);
                assert(t[p] == h[p]);
            }
        }
    }
}

/// Label counts only grow as the hostname is read further.
pub proof fn lemma_label_starts_prefix(h: Seq<u8>, j: int)
    requires
        0 <= j <= h.len(),
    ensures
        label_starts(h.subrange(0, j)).len() <= label_starts(h).len(),
    decreases h.len(),
{
    if j < h.len() {
        assert(h.drop_last().subrange(0, j) == h.subrange(0, j));
        lemma_label_starts_prefix(h.drop_last(), j);
    } else {
        assert(h.subrange(0, j) == h);
    }
}

/// A matching exception always has at least two labels, since every
/// exception rule holds a dot.
pub proof fn lemma_exception_labels(h: Seq<u8>, i: int)
    requires
        0 <= i < label_count(h),
        exception_at(h, i) is Some,
    ensures
        i + 1 < label_count(h),
{
    lemma_exceptions_wf();
    lemma_label_starts(h);
    lemma_lookup_contains(EXCEPTIONS.spec_bytes(), candidate(h, i), dot());
    let c = candidate(h, i);
    let j = choose|j: int| 0 <= j < c.len() && c[j] == dot();
    let o = label_starts(h);
    assert(h[o[i] + j] == dot());
    if i == label_count(h) - 1 {
        assert(o[i] + j < o.last());
    }
}

proof fn lemma_first_exception_bounds(h: Seq<u8>, from: int)
    requires
        0 <= from <= label_count(h),
    ensures
        first_exception(h, from) matches Some((j, t)) ==> from <= j && j + 1 < label_count(h)
            && exception_at(h, j) == Some(t),
    decreases label_count(h) - from,
{
    if from < label_count(h) {
        lemma_first_exception_bounds(h, from + 1);
        if exception_at(h, from) is Some {
            lemma_exception_labels(h, from);
        }
    }
}

proof fn lemma_first_rule_bounds(h: Seq<u8>, from: int)
    requires
        0 <= from <= label_count(h),
    ensures
        first_rule(h, from) matches Some((j, t)) ==> from <= j < label_count(h) && rule_at(h, j)
            == Some(t),
    decreases label_count(h) - from,
{
    if from < label_count(h) {
        lemma_first_rule_bounds(h, from + 1);
    }
}

/// The public suffix starts at a label of the hostname, after the first one
/// when an exception prevails.
pub proof fn lemma_prevailing_bounds(h: Seq<u8>)
    ensures
        0 <= prevailing(h).0 < label_count(h),
        first_exception(h, 0) is Some ==> prevailing(h).0 >= 1,
{
    lemma_label_starts(h);
    lemma_first_exception_bounds(h, 0);
    lemma_first_rule_bounds(h, 0);
}

/// The public suffix of `h` under `p`.
pub open spec fn suffix_of(h: Seq<u8>, p: Parts) -> Seq<u8> {
    h.subrange(p.suffix_off as int, h.len() as int)
}

/// The registrable domain of `h` under `p`, if there is one.
pub open spec fn registrable_of(h: Seq<u8>, p: Parts) -> Option<Seq<u8>> {
    match p.domain_off {
        Some(d) => Some(h.subrange(d as int, h.len() as int)),
        None => None,
    }
}

/// The labels of `h` left of the registrable domain, without the dot that
/// ends them, if there are any.
pub open spec fn subdomain_of(h: Seq<u8>, p: Parts) -> Option<Seq<u8>> {
    match p.domain_off {
        Some(d) => if d > 0 {
            Some(h.subrange(0, d - 1))
        } else {
            None
        },
        None => None,
    }
}

/// Where the offsets of a result fall in its hostname: the suffix starts a
/// label; a registrable domain starts the label just before it; the hostname
/// is itself the suffix exactly when there is no registrable domain.
pub proof fn lemma_parts_shape(h: Seq<u8>)
    requires
        h.len() <= usize::MAX,
    ensures
        ({
            let p = psl_parts(h);
            &&& p.suffix_off <= h.len()
            &&& p.suffix_off > 0 ==> h[p.suffix_off - 1] == dot()
            &&& (p.domain_off is None <==> p.suffix_off == 0)
            &&& p.domain_off matches Some(d) ==> {
                &&& d < p.suffix_off
                &&& d > 0 ==> h[d - 1] == dot()
                &&& forall|j: int| d <= j < p.suffix_off - 1 ==> #[trigger] h[j] != dot()
            }
        }),
{
    lemma_label_starts(h);
    lemma_label_interior(h);
    lemma_prevailing_bounds(h);
    let o = label_starts(h);
    let si = prevailing(h).0;
    let p = psl_parts(h);
    if si >= 1 {
        assert(o[si - 1] < o[si]);
        assert forall|j: int| o[si - 1] <= j < o[si] - 1 implies #[trigger] h[j] != dot() by {
            assert(o[si - 1] <= j);
        }
    }
}

/// A position that starts a label and reaches position `e` with no dot in
/// between is the start of the last label, when `e` is the end.
proof fn lemma_last_label_start(h: Seq<u8>, r: int)
    requires
        0 <= r <= h.len(),
        r == 0 || h[r - 1] == dot(),
        forall|p: int| r <= p < h.len() ==> #[trigger] h[p] != dot(),
    ensures
        r == label_starts(h).last(),
{
    lemma_label_starts(h);
    let o = label_starts(h);
    let l = o.last();
    if r < l {
        assert(o.len() > 1);
        assert(h[l - 1] == dot());
    } else if r > l {
        assert(h[r - 1] == dot());
    }
}

/// A position that starts a label and reaches the dot before label `k` with
/// no dot in between is the start of label `k - 1`.
proof fn lemma_prev_label_start(h: Seq<u8>, k: int, r: int)
    requires
        1 <= k < label_starts(h).len(),
        0 <= r <= label_starts(h)[k] - 1,
        r == 0 || h[r - 1] == dot(),
        forall|p: int| r <= p < label_starts(h)[k] - 1 ==> #[trigger] h[p] != dot(),
    ensures
        r == label_starts(h)[k - 1],
{
    lemma_label_starts(h);
    lemma_label_interior(h);
    let o = label_starts(h);
    let l = o[k - 1];
    assert(o[k - 1] < o[k]);
    if r < l {
        assert(k - 1 > 0);
        assert(h[l - 1] == dot());
    } else if r > l {
        assert(h[r - 1] == dot());
        assert(o[k - 1] <= r - 1 < o[k] - 1);
    }
}

/// Where the label that ends at byte `e` of `b` starts: just past the last dot
/// before `e`, or 0.
fn label_start_of(b: &[u8], e: usize) -> (r: usize)
    requires
        e <= b@.len(),
    ensures
        r <= e,
        r == 0 || b@[r - 1] == dot(),
        forall|p: int| r <= p < e ==> #[trigger] b@[p] != dot(),
{
    let mut k = e;
    while k > 0 && b[k - 1] != 46u8
        invariant
            k <= e <= b@.len(),
            forall|p: int| k <= p < e ==> #[trigger] b@[p] != dot(),
        decreases k,
    {
        k = k - 1;
    }
    k
}

/// Run the Public Suffix List algorithm over an already-normalized
/// (lowercase ASCII/punycode) hostname. Allocation-free: the candidates are
/// walked from the last label leftwards, each found match having more labels
/// than the ones before it.
pub fn compute(ascii: &str) -> (r: Parts)
    ensures
        r == psl_parts(ascii.spec_bytes()),
        ascii.spec_bytes().len() <= usize::MAX,
{
    let b = ascii.as_bytes();
    assert(b@.len() == b.len());
    let ghost h = b@;
    let ghost o = label_starts(h);
    let ghost n = label_count(h);
    proof {
        lemma_label_starts(h);
        lemma_rules_wf();
        lemma_wildcards_wf();
        lemma_exceptions_wf();
    }
    let last = label_start_of(b, b.len());
    proof {
        lemma_last_label_start(h, last as int);
    }
    // Candidate `i` is labels `i..` (ghost), starting at byte `start`; `prev`
    // is where candidate `i + 1` starts. `exception` and `best` hold the
    // public suffix start and section of the best match among the
    // candidates after `i`.
    let mut start = last;
    let mut prev: Option<usize> = None;
    let mut exception: Option<(usize, Type)> = None;
    let mut best: Option<(usize, Type)> = None;
    let ghost mut i: int = n - 1;
    loop
        invariant_except_break
            start == o[i],
            prev == (if i + 1 < n {
                Some(o[i + 1] as usize)
            } else {
                None
            }),
            match first_exception(h, i + 1) {
                Some((j, t)) => j + 1 < n && exception == Some((o[j + 1] as usize, t)),
                None => exception is None,
            },
            match first_rule(h, i + 1) {
                Some((j, t)) => best == Some((o[j] as usize, t)),
                None => best is None,
            },
        invariant
            h == b@,
            h == ascii.spec_bytes(),
            o == label_starts(h),
            n == label_count(h),
            0 <= i < n,
            last == o[n - 1],
            crate::table::block_wf(RULES.spec_bytes()),
            crate::table::block_wf(WILDCARDS.spec_bytes()),
            crate::table::block_wf(EXCEPTIONS.spec_bytes()),
        ensures
            i == 0,
            match first_exception(h, 0) {
                Some((j, t)) => j + 1 < n && exception == Some((o[j + 1] as usize, t)),
                None => exception is None,
            },
            match first_rule(h, 0) {
                Some((j, t)) => best == Some((o[j] as usize, t)),
                None => best is None,
            },
        decreases start,
    {
        proof {
            lemma_label_starts(h);
            lemma_first_exception_bounds(h, i + 1);
            lemma_first_rule_bounds(h, i + 1);
        }
        let cand = str_tail(ascii, start);
        match prev {
            Some(p) => {
                if let Some(ty) = lookup_block(EXCEPTIONS, cand) {
                    exception = Some((p, ty));
                }
            },
            None => {
                proof {
                    if exception_at(h, i) is Some {
                        lemma_exception_labels(h, i);
                    }
                }
            },
        }
        if let Some(ty) = lookup_block(RULES, cand) {
            best = Some((start, ty));
        } else if let Some(p) = prev {
            // Wildcard `*.Y`: the `*` is label `i`, `Y` is labels `i + 1..`.
            if let Some(ty) = lookup_block(WILDCARDS, str_tail(ascii, p)) {
                best = Some((start, ty));
            }
        }
        if start == 0 {
            proof {
                assert(i == 0) by {
                    if i > 0 {
                        assert(o[0] < o[i]);
                    }
                }
            }
            break;
        }
        prev = Some(start);
        proof {
            assert(i > 0);
        }
        start = label_start_of(b, start - 1);
        proof {
            lemma_prev_label_start(h, i, start as int);
            i = i - 1;
        }
    }
    proof {
        lemma_prevailing_bounds(h);
        lemma_first_exception_bounds(h, 0);
        lemma_first_rule_bounds(h, 0);
    }
    let (suffix_off, typ) = match exception {
        // An exception's suffix is the rule minus its leftmost label.
        Some((s, ty)) => (s, Some(ty)),
        None => match best {
            Some((s, ty)) => (s, Some(ty)),
            None => (last, None),  // implicit `*`
        },
    };
    let ghost si = prevailing(h).0;
    assert(suffix_off == o[si]);
    let domain_off = if suffix_off == 0 {
        proof {
            if si >= 1 {
                assert(o[0] < o[si]);
            }
        }
        None
    } else {
        proof {
            if si == 0 {
                assert(o[0] == 0);
            }
        }
        let d = label_start_of(b, suffix_off - 1);
        proof {
            lemma_prev_label_start(h, si, d as int);
        }
        Some(d)
    };
    Parts { suffix_off, domain_off, typ }
}

/// The registrable domain is the public suffix plus exactly one more label:
/// a label without a dot, then a dot, then the suffix.
pub proof fn law_registrable_is_suffix_plus_one_label(h: Seq<u8>)
    requires
        h.len() <= usize::MAX,
        psl_parts(h).domain_off is Some,
    ensures
        ({
            let p = psl_parts(h);
            let d = p.domain_off->0 as int;
            let label = h.subrange(d, p.suffix_off - 1);
            &&& !label.contains(dot())
            &&& registrable_of(h, p) == Some(label + seq![dot()] + suffix_of(h, p))
        }),
{
    lemma_parts_shape(h);
    let p = psl_parts(h);
    let d = p.domain_off->0 as int;
    let label = h.subrange(d, p.suffix_off - 1);
    assert(h.subrange(d, h.len() as int) =~= label + seq![dot()] + suffix_of(h, p));
    assert forall|j: int| 0 <= j < label.len() implies label[j] != dot() by {
        assert(label[j] == h[d + j]);
    }
}

/// The subdomain, a dot, and the registrable domain make up the hostname;
/// without a subdomain, the registrable domain is the whole hostname.
pub proof fn law_subdomain_then_registrable(h: Seq<u8>)
    requires
        h.len() <= usize::MAX,
        psl_parts(h).domain_off is Some,
    ensures
        ({
            let p = psl_parts(h);
            match subdomain_of(h, p) {
                Some(sub) => sub + seq![dot()] + registrable_of(h, p)->0 == h,
                None => registrable_of(h, p) == Some(h),
            }
        }),
{
    lemma_parts_shape(h);
    let p = psl_parts(h);
    let d = p.domain_off->0 as int;
    if d > 0 {
        assert(h.subrange(0, d - 1) + seq![dot()] + h.subrange(d, h.len() as int) =~= h);
    } else {
        assert(h.subrange(0, h.len() as int) =~= h);
    }
}

/// A hostname has no registrable domain exactly when it is its own public
/// suffix.
pub proof fn law_public_suffix_iff_whole(h: Seq<u8>)
    requires
        h.len() <= usize::MAX,
    ensures
        (psl_parts(h).domain_off is None) <==> suffix_of(h, psl_parts(h)) == h,
{
    lemma_parts_shape(h);
    let p = psl_parts(h);
    if p.suffix_off == 0 {
        assert(h.subrange(0, h.len() as int) =~= h);
    } else {
        assert(suffix_of(h, p).len() < h.len());
    }
}

proof fn lemma_first_exception_at(h: Seq<u8>, i: int, from: int)
    requires
        0 <= from <= i < label_count(h),
        exception_at(h, i) is Some,
        forall|j: int| from <= j < i ==> #[trigger] exception_at(h, j) is None,
    ensures
        first_exception(h, from) == Some((i, exception_at(h, i)->0)),
    decreases i - from,
{
    if from < i {
        lemma_first_exception_at(h, i, from + 1);
    }
}

proof fn lemma_first_exception_none(h: Seq<u8>, from: int)
    requires
        0 <= from,
        forall|j: int| from <= j < label_count(h) ==> #[trigger] exception_at(h, j) is None,
    ensures
        first_exception(h, from) is None,
    decreases label_count(h) - from,
{
    if from < label_count(h) {
        lemma_first_exception_none(h, from + 1);
    }
}

proof fn lemma_first_rule_at(h: Seq<u8>, i: int, from: int)
    requires
        0 <= from <= i < label_count(h),
        rule_at(h, i) is Some,
        forall|j: int| from <= j < i ==> #[trigger] rule_at(h, j) is None,
    ensures
        first_rule(h, from) == Some((i, rule_at(h, i)->0)),
    decreases i - from,
{
    if from < i {
        lemma_first_rule_at(h, i, from + 1);
    }
}

proof fn lemma_first_rule_none(h: Seq<u8>, from: int)
    requires
        0 <= from,
        forall|j: int| from <= j < label_count(h) ==> #[trigger] rule_at(h, j) is None,
    ensures
        first_rule(h, from) is None,
    decreases label_count(h) - from,
{
    if from < label_count(h) {
        lemma_first_rule_none(h, from + 1);
    }
}

/// An exception always wins: when the matching exception rule with the most
/// labels covers labels `i..`, the public suffix is labels `i+1..` (the rule
/// minus its leftmost label), with that rule's section.
pub proof fn law_exception_prevails(h: Seq<u8>, i: int)
    requires
        h.len() <= usize::MAX,
        0 <= i < label_count(h),
        exception_at(h, i) is Some,
        forall|j: int| 0 <= j < i ==> #[trigger] exception_at(h, j) is None,
    ensures
        i + 1 < label_count(h),
        psl_parts(h).suffix_off == label_starts(h)[i + 1],
        psl_parts(h).domain_off == Some(label_starts(h)[i] as usize),
        psl_parts(h).typ == exception_at(h, i),
{
    lemma_exception_labels(h, i);
    lemma_first_exception_at(h, i, 0);
    lemma_label_starts(h);
}

/// Without a matching exception, the matching rule with the most labels
/// prevails: when it covers labels `i..`, the public suffix is labels `i..`,
/// with that rule's section (an ordinary rule before a wildcard).
pub proof fn law_longest_rule_prevails(h: Seq<u8>, i: int)
    requires
        h.len() <= usize::MAX,
        0 <= i < label_count(h),
        forall|j: int| 0 <= j < label_count(h) ==> #[trigger] exception_at(h, j) is None,
        rule_at(h, i) is Some,
        forall|j: int| 0 <= j < i ==> #[trigger] rule_at(h, j) is None,
    ensures
        psl_parts(h).suffix_off == label_starts(h)[i],
        psl_parts(h).domain_off == (if i >= 1 {
            Some(label_starts(h)[i - 1] as usize)
        } else {
            None
        }),
        psl_parts(h).typ == rule_at(h, i),
{
    lemma_first_exception_none(h, 0);
    lemma_first_rule_at(h, i, 0);
    lemma_label_starts(h);
}

/// When no rule matches at all, the implicit `*` rule prevails: the public
/// suffix is the last label, and no section is known.
pub proof fn law_default_rule(h: Seq<u8>)
    requires
        h.len() <= usize::MAX,
        forall|j: int| 0 <= j < label_count(h) ==> #[trigger] exception_at(h, j) is None,
        forall|j: int| 0 <= j < label_count(h) ==> #[trigger] rule_at(h, j) is None,
    ensures
        psl_parts(h).suffix_off == label_starts(h).last(),
        psl_parts(h).typ is None,
        !suffix_of(h, psl_parts(h)).contains(dot()),
{
    lemma_first_exception_none(h, 0);
    lemma_first_rule_none(h, 0);
    lemma_label_starts(h);
    let p = psl_parts(h);
    let s = suffix_of(h, p);
    assert forall|j: int| 0 <= j < s.len() implies s[j] != dot() by {
        assert(s[j] == h[p.suffix_off + j]);
    }
}

} // verus!
