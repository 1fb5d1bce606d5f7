//! A sorted set of rules with their sections, and the block text written
//! from it: one `rule\tS` line per rule, sorted by rule, joined by newlines.
use vstd::prelude::*;
use vstd::string::{StringSliceAdditionalSpecFns, StringExecFns};
use vstd::utf8::encode_utf8;
use crate::Type;
use crate::bytes::{
    bytes_lt, compare_bytes, ByteOrder, find_byte, lemma_bytes_lt_total, lemma_bytes_lt_trans,
    lemma_encode_concat, lemma_find_byte_unique, lemma_find_byte, lemma_ascii_literal_bytes,
};
use crate::table::{
    newline, tab, lines_from, block_lines, block_wf, block_lookup, rule_of, type_of, find_rule,
    sorted_rules,
};

verus! {

/// The section letter of a block line: `P` for PRIVATE, `I` for ICANN.
pub open spec fn section_letter(t: Type) -> u8 {
    match t {
        Type::Private => 80u8,
        Type::Icann => 73u8,
    }
}

/// The block line for one entry: the rule, a tab, and the section letter.
pub open spec fn entry_line(e: (Seq<u8>, Type)) -> Seq<u8> {
    e.0 + seq![tab(), section_letter(e.1)]
}

/// The block text for `s`: its entry lines joined by newlines.
pub open spec fn block_text(s: Seq<(Seq<u8>, Type)>) -> Seq<u8>
    decreases s.len(),
{
    if s.len() == 0 {
        seq![]
    } else if s.len() == 1 {
        entry_line(s[0])
    } else {
        block_text(s.drop_last()) + seq![newline()] + entry_line(s.last())
    }
}

/// The entries' rules strictly increase.
pub open spec fn sorted_keys(s: Seq<(Seq<u8>, Type)>) -> bool {
    forall|i: int, j: int| #![trigger s[i], s[j]] 0 <= i < j < s.len() ==> bytes_lt(s[i].0, s[j].0)
}

/// No rule holds a tab or a newline.
pub open spec fn clean_keys(s: Seq<(Seq<u8>, Type)>) -> bool {
    forall|i: int| 0 <= i < s.len() ==> !(#[trigger] s[i]).0.contains(tab()) && !s[i].0.contains(
        newline(),
    )
}

/// The section that `s` gives rule `key`, if any.
pub open spec fn entries_lookup(s: Seq<(Seq<u8>, Type)>, key: Seq<u8>) -> Option<Type>
    decreases s.len(),
{
    if s.len() == 0 {
        None
    } else if s[0].0 == key {
        Some(s[0].1)
    } else {
        entries_lookup(s.drop_first(), key)
    }
}

/// A set of rules, each with its section, kept sorted by rule with no rule
/// twice.
///
/// A sorted vector rather than a `BTreeMap<String, _>`: vstd's `BTreeMap`
/// specification holds only for key types shown to obey its order model (the
/// integers and tuples of them), which `String` is not, whereas here the
/// contents and their order are stated exactly, as writing a block needs.
pub struct RuleSet {
    entries: Vec<(String, Type)>,
}

/// Entries as (rule bytes, section).
pub open spec fn view_of(entries: Seq<(String, Type)>) -> Seq<(Seq<u8>, Type)> {
    entries.map_values(|e: (String, Type)| (encode_utf8(e.0@), e.1))
}

impl View for RuleSet {
    type V = Seq<(Seq<u8>, Type)>;

    /// The entries as (rule bytes, section), in order.
    closed spec fn view(&self) -> Seq<(Seq<u8>, Type)> {
        view_of(self.entries@)
    }
}

impl RuleSet {
    #[verifier::type_invariant]
    spec fn sorted(self) -> bool {
        sorted_keys(self@)
    }

    /// An empty set.
    pub fn new() -> (r: RuleSet)
        ensures
            r@ == Seq::<(Seq<u8>, Type)>::empty(),
            sorted_keys(r@),
    {
        let r = RuleSet { entries: Vec::new() };
        proof {
            assert(r@ =~= Seq::<(Seq<u8>, Type)>::empty());
        }
        r
    }

    /// The number of rules.
    pub fn len(&self) -> (r: usize)
        ensures
            r == self@.len(),
            sorted_keys(self@),
    {
        proof {
            use_type_invariant(self);
        }
        self.entries.len()
    }

    /// Add `key` with section `sec`, replacing the section if `key` is
    /// already there.
    pub fn insert(&mut self, key: String, sec: Type)
        ensures
            sorted_keys(final(self)@),
            forall|j: int|
                0 <= j < final(self)@.len() ==> #[trigger] final(self)@[j].0 == encode_utf8(key@)
                    || exists|i: int| 0 <= i < old(self)@.len() && old(self)@[i].0 == final(self)@[j].0,
            forall|k: Seq<u8>|
                #[trigger] entries_lookup(final(self)@, k) == if k == encode_utf8(key@) {
                    Some(sec)
                } else {
                    entries_lookup(old(self)@, k)
                },
    {
        proof {
            use_type_invariant(&*self);
        }
        let ghost kb = encode_utf8(key@);
        let ghost old_view = self@;
        let n = self.entries.len();
        let mut i: usize = 0;
        let mut order = ByteOrder::Greater;
        while i < n
            invariant_except_break
                kb == encode_utf8(key@),
                n == self.entries@.len(),
                old_view == self@,
                sorted_keys(old_view),
                i <= n,
                forall|j: int| 0 <= j < i ==> bytes_lt(#[trigger] old_view[j].0, kb),
            ensures
                kb == encode_utf8(key@),
                n == self.entries@.len(),
                old_view == self@,
                i <= n,
                forall|j: int| 0 <= j < i ==> bytes_lt(#[trigger] old_view[j].0, kb),
                i < n ==> (order == ByteOrder::Equal <==> old_view[i as int].0 == kb),
                i < n ==> !bytes_lt(old_view[i as int].0, kb),
            decreases n - i,
        {
            let a = self.entries[i].0.as_str();
            let k = key.as_str();
            proof {
                assert(old_view[i as int].0 == encode_utf8(self.entries@[i as int].0@));
                assert(a.spec_bytes() == old_view[i as int].0);
                assert(k.spec_bytes() == kb);
            }
            order = compare_bytes(a.as_bytes(), k.as_bytes());
            if order != ByteOrder::Less {
                break;
            }
            i = i + 1;
        }
        proof {
            if i < n {
                lemma_bytes_lt_total(old_view[i as int].0, kb);
            }
        }
        let mut entries: Vec<(String, Type)> = Vec::new();
        std::mem::swap(&mut entries, &mut self.entries);
        if i < n && order == ByteOrder::Equal {
            entries.set(i, (key, sec));
            proof {
                let v = view_of(entries@);
                assert(v == old_view.update(i as int, (kb, sec)));
                lemma_lookup_update(old_view, i as int, sec);
                assert forall|j: int| 0 <= j < v.len() implies #[trigger] v[j].0 == kb || exists|
                    a: int,
                | 0 <= a < old_view.len() && old_view[a].0 == v[j].0 by {
                    assert(v[j].0 == old_view[j].0);
                }
                assert(sorted_keys(v)) by {
                    assert forall|a: int, b: int| #![trigger v[a], v[b]]
                        0 <= a < b < v.len() implies bytes_lt(v[a].0, v[b].0) by {
                        assert(v[a].0 == old_view[a].0);
                        assert(v[b].0 == old_view[b].0);
                    }
                }
            }
        } else {
            entries.insert(i, (key, sec));
            proof {
                let v = view_of(entries@);
                assert(v == old_view.insert(i as int, (kb, sec)));
                assert(sorted_keys(v)) by {
                    assert forall|a: int, b: int| #![trigger v[a], v[b]]
                        0 <= a < b < v.len() implies bytes_lt(v[a].0, v[b].0) by {
                        if b == i {
                            assert(bytes_lt(old_view[a].0, kb));
                        } else if a == i {
                            assert(v[b] == old_view[b - 1]);
                            if b - 1 > i {
                                assert(bytes_lt(old_view[i as int].0, old_view[b - 1].0));
                                lemma_bytes_lt_total(old_view[i as int].0, kb);
                                lemma_bytes_lt_trans(kb, old_view[i as int].0, old_view[b - 1].0);
                            } else {
                                lemma_bytes_lt_total(old_view[i as int].0, kb);
                            }
                        } else if a < i && b > i {
                            assert(v[b] == old_view[b - 1]);
                        } else if a > i {
                            assert(v[a] == old_view[a - 1]);
                            assert(v[b] == old_view[b - 1]);
                        }
                    }
                }
                lemma_lookup_insert(old_view, i as int, kb, sec);
                assert forall|j: int| 0 <= j < v.len() implies #[trigger] v[j].0 == kb || exists|
                    a: int,
                | 0 <= a < old_view.len() && old_view[a].0 == v[j].0 by {
                    if j < i {
                        assert(v[j] == old_view[j]);
                    } else if j > i {
                        assert(v[j] == old_view[j - 1]);
                    }
                }
            }
        }
        self.entries = entries;
    }
}

proof fn lemma_lookup_present(s: Seq<(Seq<u8>, Type)>, i: int)
    requires
        sorted_keys(s),
        0 <= i < s.len(),
    ensures
        entries_lookup(s, s[i].0) == Some(s[i].1),
    decreases i,
{
    if i > 0 {
        assert(bytes_lt(s[0].0, s[i].0));
        lemma_bytes_lt_total(s[0].0, s[i].0);
        lemma_sorted_tail(s);
        assert(s.drop_first()[i - 1] == s[i]);
        lemma_lookup_present(s.drop_first(), i - 1);
    }
}

proof fn lemma_sorted_tail(s: Seq<(Seq<u8>, Type)>)
    requires
        sorted_keys(s),
        s.len() > 0,
    ensures
        sorted_keys(s.drop_first()),
{
    let t = s.drop_first();
    assert forall|i: int, j: int| #![trigger t[i], t[j]] 0 <= i < j < t.len() implies bytes_lt(
        t[i].0,
        t[j].0,
    ) by {
        assert(t[i] == s[i + 1] && t[j] == s[j + 1]);
    }
}

proof fn lemma_lookup_absent(s: Seq<(Seq<u8>, Type)>, k: Seq<u8>)
    requires
        forall|i: int| 0 <= i < s.len() ==> #[trigger] s[i].0 != k,
    ensures
        entries_lookup(s, k) is None,
    decreases s.len(),
{
    if s.len() > 0 {
        assert(s[0].0 != k);
        assert forall|i: int| 0 <= i < s.drop_first().len() implies #[trigger] s.drop_first()[i].0
            != k by {
            assert(s.drop_first()[i] == s[i + 1]);
        }
        lemma_lookup_absent(s.drop_first(), k);
    }
}

/// In sorted entries, a lookup finds the entry holding the key, or nothing.
proof fn lemma_lookup_sorted(s: Seq<(Seq<u8>, Type)>, k: Seq<u8>)
    requires
        sorted_keys(s),
    ensures
        entries_lookup(s, k) == (if exists|i: int| 0 <= i < s.len() && #[trigger] s[i].0 == k {
            Some(s[choose|i: int| 0 <= i < s.len() && #[trigger] s[i].0 == k].1)
        } else {
            None
        }),
{
    if exists|i: int| 0 <= i < s.len() && #[trigger] s[i].0 == k {
        let i = choose|i: int| 0 <= i < s.len() && #[trigger] s[i].0 == k;
        lemma_lookup_present(s, i);
    } else {
        lemma_lookup_absent(s, k);
    }
}

proof fn lemma_lookup_update(s: Seq<(Seq<u8>, Type)>, i: int, sec: Type)
    requires
        sorted_keys(s),
        0 <= i < s.len(),
    ensures
        forall|k: Seq<u8>|
            #[trigger] entries_lookup(s.update(i, (s[i].0, sec)), k) == if k == s[i].0 {
                Some(sec)
            } else {
                entries_lookup(s, k)
            },
{
    let t = s.update(i, (s[i].0, sec));
    assert(sorted_keys(t)) by {
        assert forall|a: int, b: int| #![trigger t[a], t[b]] 0 <= a < b < t.len() implies bytes_lt(
            t[a].0,
            t[b].0,
        ) by {
            assert(t[a].0 == s[a].0 && t[b].0 == s[b].0);
        }
    }
    assert forall|k: Seq<u8>| #[trigger] entries_lookup(t, k) == if k == s[i].0 {
        Some(sec)
    } else {
        entries_lookup(s, k)
    } by {
        lemma_lookup_sorted(t, k);
        lemma_lookup_sorted(s, k);
        if k == s[i].0 {
            lemma_lookup_present(t, i);
        } else {
            assert forall|j: int| 0 <= j < s.len() implies (#[trigger] t[j].0 == k) == (s[j].0
                == k) by {}
            if exists|j: int| 0 <= j < s.len() && #[trigger] s[j].0 == k {
                let j = choose|j: int| 0 <= j < s.len() && #[trigger] s[j].0 == k;
                lemma_lookup_present(s, j);
                lemma_lookup_present(t, j);
            }
        }
    }
}

proof fn lemma_lookup_insert(s: Seq<(Seq<u8>, Type)>, i: int, key: Seq<u8>, sec: Type)
    requires
        sorted_keys(s),
        sorted_keys(s.insert(i, (key, sec))),
        0 <= i <= s.len(),
    ensures
        forall|k: Seq<u8>|
            #[trigger] entries_lookup(s.insert(i, (key, sec)), k) == if k == key {
                Some(sec)
            } else {
                entries_lookup(s, k)
            },
{
    let t = s.insert(i, (key, sec));
    assert forall|k: Seq<u8>| #[trigger] entries_lookup(t, k) == if k == key {
        Some(sec)
    } else {
        entries_lookup(s, k)
    } by {
        if k == key {
            lemma_lookup_present(t, i);
        } else {
            if exists|j: int| 0 <= j < s.len() && #[trigger] s[j].0 == k {
                let j = choose|j: int| 0 <= j < s.len() && #[trigger] s[j].0 == k;
                lemma_lookup_present(s, j);
                if j < i {
                    assert(t[j] == s[j]);
                    lemma_lookup_present(t, j);
                } else {
                    assert(t[j + 1] == s[j]);
                    lemma_lookup_present(t, j + 1);
                }
            } else {
                lemma_lookup_absent(s, k);
                assert forall|j: int| 0 <= j < t.len() implies #[trigger] t[j].0 != k by {
                    if j < i {
                        assert(t[j] == s[j]);
                    } else if j > i {
                        assert(t[j] == s[j - 1]);
                    }
                }
                lemma_lookup_absent(t, k);
            }
        }
    }
}

/// The block text of `entries`: for each rule in order, the rule, a tab, and
/// its section letter, lines joined by newlines.
pub fn write_block(entries: &RuleSet) -> (r: String)
    ensures
        encode_utf8(r@) == block_text(entries@),
{
    let ghost s = entries@;
    let n = entries.entries.len();
    let nl = "\n";
    let tb = "\t";
    let pl = "P";
    let il = "I";
    proof {
        reveal_strlit("\n");
        reveal_strlit("\t");
        reveal_strlit("P");
        reveal_strlit("I");
        lemma_ascii_literal_bytes(nl);
        lemma_ascii_literal_bytes(tb);
        lemma_ascii_literal_bytes(pl);
        lemma_ascii_literal_bytes(il);
        assert(nl.spec_bytes() =~= seq![newline()]);
        assert(tb.spec_bytes() =~= seq![tab()]);
        assert(pl.spec_bytes() =~= seq![80u8]);
        assert(il.spec_bytes() =~= seq![73u8]);
    }
    let mut out = String::new();
    let mut i: usize = 0;
    while i < n
        invariant
            s == entries@,
            n == s.len(),
            i <= n,
            nl.spec_bytes() == seq![newline()],
            tb.spec_bytes() == seq![tab()],
            pl.spec_bytes() == seq![80u8],
            il.spec_bytes() == seq![73u8],
            encode_utf8(out@) == block_text(s.take(i as int)),
        decreases n - i,
    {
        let ghost before = out@;
        let ghost e = s[i as int];
        proof {
            assert(s.take(i + 1).drop_last() == s.take(i as int));
            assert(s.take(i + 1).last() == e);
            assert(s[i as int].0 == encode_utf8(entries.entries@[i as int].0@));
        }
        if !out.as_str().is_empty() {
            out.append(nl);
        }
        let ghost mid = out@;
        out.append(entries.entries[i].0.as_str());
        out.append(tb);
        let letter = match entries.entries[i].1 {
            Type::Private => pl,
            Type::Icann => il,
        };
        out.append(letter);
        proof {
            lemma_encode_concat(mid, entries.entries@[i as int].0@);
            lemma_encode_concat(mid + entries.entries@[i as int].0@, tb@);
            lemma_encode_concat(mid + entries.entries@[i as int].0@ + tb@, letter@);
            assert(letter.spec_bytes() == seq![section_letter(e.1)]);
            if i == 0 {
                assert(before.len() == 0);
                assert(mid == before);
                assert(s.take(1).len() == 1);
                assert(encode_utf8(out@) =~= entry_line(e));
            } else {
                assert(block_text(s.take(i as int)).len() > 0);
                assert(before.len() > 0);
                lemma_encode_concat(before, nl@);
                assert(encode_utf8(out@) =~= block_text(s.take(i as int)) + seq![newline()]
                    + entry_line(e));
            }
        }
        i = i + 1;
    }
    proof {
        assert(s.take(n as int) == s);
    }
    out
}

proof fn lemma_block_text_nonempty(s: Seq<(Seq<u8>, Type)>)
    requires
        s.len() > 0,
    ensures
        block_text(s).len() > 0,
{
}

/// Splitting `a`, a newline, and a line `y` gives the lines of `a`, then `y`.
proof fn lemma_lines_append(a: Seq<u8>, y: Seq<u8>, st: int)
    requires
        0 <= st <= a.len(),
        !y.contains(newline()),
    ensures
        lines_from(a + seq![newline()] + y, st) == lines_from(a, st) + seq![y],
    decreases a.len() - st,
{
    let c = a + seq![newline()] + y;
    lemma_find_byte(a, newline(), st);
    let e = find_byte(a, newline(), st);
    if e < a.len() {
        assert forall|j: int| st <= j < e implies c[j] != newline() by {
            assert(c[j] == a[j]);
        }
        lemma_find_byte_unique(c, newline(), st, e);
        lemma_lines_append(a, y, e + 1);
        assert(c.subrange(st, e) == a.subrange(st, e));
        assert(lines_from(c, st) == seq![c.subrange(st, e)] + lines_from(c, e + 1));
        assert(lines_from(a, st) == seq![a.subrange(st, e)] + lines_from(a, e + 1));
    } else {
        let al = a.len() as int;
        assert forall|j: int| st <= j < a.len() implies c[j] != newline() by {
            assert(c[j] == a[j]);
        }
        lemma_find_byte_unique(c, newline(), st, a.len() as int);
        assert forall|j: int| a.len() + 1 <= j < c.len() implies c[j] != newline() by {
            assert(c[j] == y[j - a.len() - 1]);
        }
        lemma_find_byte_unique(c, newline(), al + 1, c.len() as int);
        assert(c.subrange(al + 1, c.len() as int) == y);
        assert(c.subrange(st, al) == a.subrange(st, al));
        assert(lines_from(c, al + 1) == seq![y]);
        assert(lines_from(c, st) == seq![c.subrange(st, al)] + lines_from(c, al + 1));
    }
}

proof fn lemma_entry_line(e: (Seq<u8>, Type))
    requires
        !e.0.contains(tab()),
        !e.0.contains(newline()),
    ensures
        !entry_line(e).contains(newline()),
        rule_of(entry_line(e)) == e.0,
        type_of(entry_line(e)) == e.1,
{
    let l = entry_line(e);
    assert forall|j: int| 0 <= j < e.0.len() implies l[j] != tab() by {
        assert(l[j] == e.0[j]);
    }
    lemma_find_byte_unique(l, tab(), 0, e.0.len() as int);
    assert(l.subrange(0, e.0.len() as int) == e.0);
    if l.contains(newline()) {
        let j = choose|j: int| 0 <= j < l.len() && l[j] == newline();
        if j < e.0.len() {
            assert(l[j] == e.0[j]);
        }
    }
}

/// The lines of a block text are the lines of its entries.
proof fn lemma_block_text_lines(s: Seq<(Seq<u8>, Type)>)
    requires
        clean_keys(s),
    ensures
        block_lines(block_text(s)) == s.map_values(|e: (Seq<u8>, Type)| entry_line(e)),
    decreases s.len(),
{
    if s.len() == 1 {
        lemma_entry_line(s[0]);
        let l = entry_line(s[0]);
        lemma_find_byte(l, newline(), 0);
        if find_byte(l, newline(), 0) < l.len() {
            assert(l.contains(newline()));
        }
        assert(l.subrange(0, l.len() as int) == l);
        assert(s.map_values(|e: (Seq<u8>, Type)| entry_line(e)) =~= seq![l]);
    } else if s.len() > 1 {
        let t = s.drop_last();
        assert(clean_keys(t)) by {
            assert forall|i: int| 0 <= i < t.len() implies !(#[trigger] t[i]).0.contains(tab())
                && !t[i].0.contains(newline()) by {
                assert(t[i] == s[i]);
            }
        }
        lemma_block_text_lines(t);
        lemma_entry_line(s.last());
        lemma_block_text_nonempty(t);
        lemma_lines_append(block_text(t), entry_line(s.last()), 0);
        assert(s.map_values(|e: (Seq<u8>, Type)| entry_line(e)) =~= t.map_values(
            |e: (Seq<u8>, Type)| entry_line(e),
        ).push(entry_line(s.last())));
    } else {
        assert(s.map_values(|e: (Seq<u8>, Type)| entry_line(e)) =~= Seq::<Seq<u8>>::empty());
    }
}

proof fn lemma_find_rule_entries(s: Seq<(Seq<u8>, Type)>, k: Seq<u8>)
    requires
        clean_keys(s),
    ensures
        find_rule(s.map_values(|e: (Seq<u8>, Type)| entry_line(e)), k) == entries_lookup(s, k),
    decreases s.len(),
{
    if s.len() > 0 {
        let ls = s.map_values(|e: (Seq<u8>, Type)| entry_line(e));
        lemma_entry_line(s[0]);
        let t = s.drop_first();
        assert(clean_keys(t)) by {
            assert forall|i: int| 0 <= i < t.len() implies !(#[trigger] t[i]).0.contains(tab())
                && !t[i].0.contains(newline()) by {
                assert(t[i] == s[i + 1]);
            }
        }
        assert(ls.drop_first() =~= t.map_values(|e: (Seq<u8>, Type)| entry_line(e)));
        lemma_find_rule_entries(t, k);
    }
}

/// What a written block gives back: a block written from sorted rules that
/// hold no tab or newline is well formed, and looking a key up in it gives
/// exactly the section the set gives that key.
pub proof fn law_written_block_reads_back(s: Seq<(Seq<u8>, Type)>)
    requires
        sorted_keys(s),
        clean_keys(s),
    ensures
        block_wf(block_text(s)),
        forall|k: Seq<u8>| #[trigger] block_lookup(block_text(s), k) == entries_lookup(s, k),
{
    lemma_block_text_lines(s);
    let ls = s.map_values(|e: (Seq<u8>, Type)| entry_line(e));
    assert(sorted_rules(ls)) by {
        assert forall|i: int, j: int| #![trigger ls[i], ls[j]] 0 <= i < j < ls.len() implies bytes_lt(
            rule_of(ls[i]),
            rule_of(ls[j]),
        ) by {
            lemma_entry_line(s[i]);
            lemma_entry_line(s[j]);
            assert(bytes_lt(s[i].0, s[j].0));
        }
    }
    assert forall|k: Seq<u8>| #[trigger] block_lookup(block_text(s), k) == entries_lookup(s, k) by {
        lemma_find_rule_entries(s, k);
    }
}

} // verus!
