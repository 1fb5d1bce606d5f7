//! Byte-string order and search, with the lemmas the lookup proofs rest on.
use vstd::prelude::*;
use vstd::string::StringSliceAdditionalSpecFns;
use vstd::utf8::{
    is_char_boundary, is_char_boundary_iff_not_is_continuation_byte,
    is_char_boundary_start_end_of_seq, length_of_first_scalar, pop_first_scalar, valid_utf8,
    encode_utf8_valid_utf8, encode_utf8, valid_utf8_concat, encode_scalar, has_width_1_encoding,
    has_width_2_encoding, has_width_3_encoding, leading_byte_width_1, leading_byte_width_2,
    leading_byte_width_3, leading_byte_width_4, last_continuation_byte,
    second_last_continuation_byte, third_last_continuation_byte, char_is_scalar,
};

verus! {

/// Strict lexicographic order on byte strings: the order of `<[u8]>::cmp`.
pub open spec fn bytes_lt(a: Seq<u8>, b: Seq<u8>) -> bool
    decreases a.len(),
{
    if a.len() == 0 {
        b.len() > 0
    } else if b.len() == 0 {
        false
    } else if a[0] != b[0] {
        a[0] < b[0]
    } else {
        bytes_lt(a.drop_first(), b.drop_first())
    }
}

/// The first index at or after `from` that holds `c`, or the length if none does.
pub open spec fn find_byte(b: Seq<u8>, c: u8, from: int) -> int
    decreases b.len() - from,
{
    if from < 0 || from >= b.len() {
        b.len() as int
    } else if b[from] == c {
        from
    } else {
        find_byte(b, c, from + 1)
    }
}

pub proof fn lemma_find_byte(b: Seq<u8>, c: u8, from: int)
    requires
        0 <= from <= b.len(),
    ensures
        from <= find_byte(b, c, from) <= b.len(),
        find_byte(b, c, from) < b.len() ==> b[find_byte(b, c, from)] == c,
        forall|k: int| from <= k < find_byte(b, c, from) ==> b[k] != c,
    decreases b.len() - from,
{
    if from < b.len() && b[from] != c {
        lemma_find_byte(b, c, from + 1);
    }
}

/// `find_byte` is characterised by its two properties.
pub proof fn lemma_find_byte_unique(b: Seq<u8>, c: u8, from: int, k: int)
    requires
        0 <= from <= k <= b.len(),
        k < b.len() ==> b[k] == c,
        forall|j: int| from <= j < k ==> b[j] != c,
    ensures
        find_byte(b, c, from) == k,
    decreases b.len() - from,
{
    if from < k {
        lemma_find_byte_unique(b, c, from + 1, k);
    }
}

pub proof fn lemma_bytes_lt_irrefl(a: Seq<u8>)
    ensures
        !bytes_lt(a, a),
    decreases a.len(),
{
    if a.len() > 0 {
        lemma_bytes_lt_irrefl(a.drop_first());
    }
}

pub proof fn lemma_bytes_lt_trans(a: Seq<u8>, b: Seq<u8>, c: Seq<u8>)
    requires
        bytes_lt(a, b),
        bytes_lt(b, c),
    ensures
        bytes_lt(a, c),
    decreases a.len(),
{
    if a.len() > 0 && b.len() > 0 && c.len() > 0 && a[0] == b[0] && b[0] == c[0] {
        lemma_bytes_lt_trans(a.drop_first(), b.drop_first(), c.drop_first());
    }
}

pub proof fn lemma_bytes_lt_total(a: Seq<u8>, b: Seq<u8>)
    ensures
        bytes_lt(a, b) || bytes_lt(b, a) || a == b,
        !(bytes_lt(a, b) && bytes_lt(b, a)),
        bytes_lt(a, b) ==> a != b,
    decreases a.len(),
{
    lemma_bytes_lt_irrefl(a);
    if a.len() > 0 && b.len() > 0 && a[0] == b[0] {
        lemma_bytes_lt_total(a.drop_first(), b.drop_first());
        if a.drop_first() == b.drop_first() {
            assert(a =~= seq![a[0]] + a.drop_first());
            assert(b =~= seq![b[0]] + b.drop_first());
        }
    } else if a.len() == 0 && b.len() == 0 {
        assert(a =~= b);
    }
}

/// The outcome of comparing two byte strings.
#[derive(Clone, Copy, Debug, PartialEq, Eq, Structural)]
pub enum ByteOrder {
    /// The first string sorts before the second.
    Less,
    /// The strings are equal.
    Equal,
    /// The first string sorts after the second.
    Greater,
}

/// Lexicographic three-way comparison of two byte strings.
pub fn compare_bytes(a: &[u8], b: &[u8]) -> (r: ByteOrder)
    ensures
        r == ByteOrder::Less <==> bytes_lt(a@, b@),
        r == ByteOrder::Equal <==> a@ == b@,
        r == ByteOrder::Greater <==> bytes_lt(b@, a@),
{
    proof {
        lemma_bytes_lt_total(a@, b@);
    }
    let mut i: usize = 0;
    while i < a.len() && i < b.len()
        invariant
            i <= a@.len(),
            i <= b@.len(),
            a@.subrange(0, i as int) == b@.subrange(0, i as int),
        decreases a@.len() - i,
    {
        if a[i] != b[i] {
            proof {
                lemma_bytes_lt_common_prefix(a@, b@, i as int);
                lemma_bytes_lt_common_prefix(b@, a@, i as int);
                lemma_bytes_lt_total(a@, b@);
            }
            if a[i] < b[i] {
                return ByteOrder::Less;
            } else {
                return ByteOrder::Greater;
            }
        }
        proof {
            assert(a@.subrange(0, i + 1) == a@.subrange(0, i as int).push(a@[i as int]));
            assert(b@.subrange(0, i + 1) == b@.subrange(0, i as int).push(b@[i as int]));
        }
        i = i + 1;
    }
    proof {
        lemma_bytes_lt_common_prefix(a@, b@, i as int);
        lemma_bytes_lt_common_prefix(b@, a@, i as int);
    }
    if a.len() < b.len() {
        ByteOrder::Less
    } else if a.len() > b.len() {
        ByteOrder::Greater
    } else {
        proof {
            assert(a@ == a@.subrange(0, i as int));
            assert(b@ == b@.subrange(0, i as int));
        }
        ByteOrder::Equal
    }
}

/// Two byte strings that agree on their first `i` bytes are ordered by what
/// follows.
pub proof fn lemma_bytes_lt_common_prefix(a: Seq<u8>, b: Seq<u8>, i: int)
    requires
        0 <= i <= a.len(),
        i <= b.len(),
        a.subrange(0, i) == b.subrange(0, i),
    ensures
        bytes_lt(a, b) == bytes_lt(a.subrange(i, a.len() as int), b.subrange(i, b.len() as int)),
    decreases i,
{
    if i > 0 {
        assert(a[0] == a.subrange(0, i)[0]);
        assert(b[0] == b.subrange(0, i)[0]);
        assert(a.drop_first().subrange(0, i - 1) == a.subrange(0, i).drop_first());
        assert(b.drop_first().subrange(0, i - 1) == b.subrange(0, i).drop_first());
        lemma_bytes_lt_common_prefix(a.drop_first(), b.drop_first(), i - 1);
        assert(a.drop_first().subrange(i - 1, a.len() - 1) == a.subrange(i, a.len() as int));
        assert(b.drop_first().subrange(i - 1, b.len() - 1) == b.subrange(i, b.len() as int));
    } else {
        assert(a.subrange(0, a.len() as int) == a);
        assert(b.subrange(0, b.len() as int) == b);
    }
}

/// In valid UTF-8, the position right after an ASCII byte starts a character.
pub proof fn lemma_boundary_after_ascii(b: Seq<u8>, k: int)
    requires
        valid_utf8(b),
        0 < k <= b.len(),
        b[k - 1] < 128,
    ensures
        is_char_boundary(b, k),
    decreases b.len(),
{
    let l = length_of_first_scalar(b);
    let rest = pop_first_scalar(b);
    assert(rest.len() == b.len() - l);
    if k - 1 < l {
        if l == 1 {
            assert(is_char_boundary(rest, 0));
        } else {
            assert(false);
        }
    } else {
        assert(rest[k - l - 1] == b[k - 1]);
        lemma_boundary_after_ascii(rest, k - l);
    }
}

/// A position that holds an ASCII byte (or the end) starts a character.
pub proof fn lemma_boundary_at_ascii(b: Seq<u8>, k: int)
    requires
        valid_utf8(b),
        0 <= k <= b.len(),
        k < b.len() ==> b[k] < 128,
    ensures
        is_char_boundary(b, k),
{
    is_char_boundary_start_end_of_seq(b);
    if 0 < k < b.len() {
        is_char_boundary_iff_not_is_continuation_byte(b, k);
    }
}

/// The part of `s` from byte `off` on; `off` must follow an ASCII byte.
pub fn str_tail<'a>(s: &'a str, off: usize) -> (r: &'a str)
    requires
        off <= s.spec_bytes().len(),
        off == 0 || s.spec_bytes()[off - 1] < 128,
    ensures
        r.spec_bytes() == s.spec_bytes().subrange(off as int, s.spec_bytes().len() as int),
{
    proof {
        encode_utf8_valid_utf8(s@);
        if off > 0 {
            lemma_boundary_after_ascii(s.spec_bytes(), off as int);
        }
    }
    s.split_at(off).1
}

/// The first `off` bytes of `s`; byte `off` must be ASCII (or the end).
pub fn str_head<'a>(s: &'a str, off: usize) -> (r: &'a str)
    requires
        off <= s.spec_bytes().len(),
        off < s.spec_bytes().len() ==> s.spec_bytes()[off as int] < 128,
    ensures
        r.spec_bytes() == s.spec_bytes().subrange(0, off as int),
{
    proof {
        encode_utf8_valid_utf8(s@);
        lemma_boundary_at_ascii(s.spec_bytes(), off as int);
    }
    s.split_at(off).0
}

/// UTF-8 encoding distributes over concatenation.
pub proof fn lemma_encode_concat(a: Seq<char>, b: Seq<char>)
    ensures
        encode_utf8(a + b) == encode_utf8(a) + encode_utf8(b),
    decreases a.len(),
{
    if a.len() == 0 {
        assert(a + b == b);
    } else {
        lemma_encode_concat(a.drop_first(), b);
        assert((a + b).drop_first() == a.drop_first() + b);
        assert((a + b)[0] == a[0]);
    }
}

/// The seam between two valid UTF-8 sequences is a character boundary.
pub proof fn lemma_boundary_at_seam(a: Seq<u8>, b: Seq<u8>)
    requires
        valid_utf8(a),
        valid_utf8(b),
    ensures
        is_char_boundary(a + b, a.len() as int),
    decreases a.len(),
{
    valid_utf8_concat(a, b);
    if a.len() > 0 {
        let l = length_of_first_scalar(a);
        assert((a + b)[0] == a[0]);
        assert(length_of_first_scalar(a + b) == l);
        assert(pop_first_scalar(a + b) == pop_first_scalar(a) + b);
        lemma_boundary_at_seam(pop_first_scalar(a), b);
    }
}

/// The first `i` bytes of `s`, where `i` is the length of the encoding of its
/// first `k` characters.
pub(crate) fn str_prefix_chars<'a>(s: &'a str, i: usize, Ghost(k): Ghost<int>) -> (r: &'a str)
    requires
        0 <= k <= s@.len(),
        i == encode_utf8(s@.take(k)).len(),
    ensures
        r@ == s@.take(k),
{
    proof {
        lemma_encode_concat(s@.take(k), s@.skip(k));
        assert(s@.take(k) + s@.skip(k) == s@);
        encode_utf8_valid_utf8(s@.take(k));
        encode_utf8_valid_utf8(s@.skip(k));
        lemma_boundary_at_seam(encode_utf8(s@.take(k)), encode_utf8(s@.skip(k)));
    }
    let r = s.split_at(i).0;
    proof {
        vstd::utf8::encode_utf8_decode_utf8(r@);
        vstd::utf8::encode_utf8_decode_utf8(s@.take(k));
        assert(r.spec_bytes() == encode_utf8(s@.take(k)));
    }
    r
}

/// The bytes of an ASCII string literal are its characters.
pub proof fn lemma_ascii_literal_bytes(s: &str)
    requires
        vstd::string::is_ascii(s),
    ensures
        s.spec_bytes().len() == s@.len(),
        forall|i: int| 0 <= i < s@.len() ==> #[trigger] s.spec_bytes()[i] == s@[i] as u8,
{
    vstd::string::is_ascii_spec_bytes(s);
}

/// An ASCII byte in the UTF-8 encoding of `c` is `c` itself, the whole
/// encoding: every byte of a longer encoding is at least 0x80.
pub proof fn lemma_scalar_ascii_byte(c: char, i: int)
    requires
        0 <= i < encode_scalar(c as u32).len(),
        encode_scalar(c as u32)[i] < 128,
    ensures
        encode_scalar(c as u32).len() == 1,
        encode_scalar(c as u32)[i] as u32 == c as u32,
{
    let v = c as u32;
    char_is_scalar(c);
    assert(forall|x: u32| #[trigger] leading_byte_width_2(x) >= 128) by (bit_vector);
    assert(forall|x: u32| #[trigger] leading_byte_width_3(x) >= 128) by (bit_vector);
    assert(forall|x: u32| #[trigger] leading_byte_width_4(x) >= 128) by (bit_vector);
    assert(forall|x: u32| #[trigger] last_continuation_byte(x) >= 128) by (bit_vector);
    assert(forall|x: u32| #[trigger] second_last_continuation_byte(x) >= 128) by (bit_vector);
    assert(forall|x: u32| #[trigger] third_last_continuation_byte(x) >= 128) by (bit_vector);
    if has_width_1_encoding(v) {
        assert(leading_byte_width_1(v) as u32 == v) by (bit_vector)
            requires
                has_width_1_encoding(v),
        ;
    }
}

/// The UTF-8 encoding of `s` holds the ASCII byte `x` only where `s` holds
/// the character `x`.
pub proof fn lemma_encode_avoids_byte(s: Seq<char>, x: u8)
    requires
        x < 128,
        forall|k: int| 0 <= k < s.len() ==> #[trigger] (s[k] as u32) != x as u32,
    ensures
        forall|i: int| 0 <= i < encode_utf8(s).len() ==> #[trigger] encode_utf8(s)[i] != x,
    decreases s.len(),
{
    if s.len() > 0 {
        let e = encode_scalar(s[0] as u32);
        let rest = s.drop_first();
        assert forall|k: int| 0 <= k < rest.len() implies #[trigger] (rest[k] as u32) != x as u32 by {
            assert(rest[k] == s[k + 1]);
        }
        lemma_encode_avoids_byte(rest, x);
        assert(encode_utf8(s) == e + encode_utf8(rest));
        assert forall|i: int| 0 <= i < encode_utf8(s).len() implies #[trigger] encode_utf8(s)[i] != x by {
            if i < e.len() {
                if e[i] == x {
                    lemma_scalar_ascii_byte(s[0], i);
                }
            } else {
                assert(encode_utf8(s)[i] == encode_utf8(rest)[i - e.len()]);
            }
        }
    }
}

} // verus!
