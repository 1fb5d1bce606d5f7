//! Turning arbitrary input into the hostname that the algorithm reads:
//! trimming, dropping a trailing dot, IDNA conversion, and the shape checks.
use vstd::prelude::*;
use vstd::string::StringSliceAdditionalSpecFns;
use vstd::utf8::{
    encode_utf8, encode_utf8_decode_utf8, encode_scalar, is_ascii_chars, is_ascii_chars_encode_utf8,
    last_continuation_byte, leading_byte_width_1, char_u32_cast,
};
use crate::bytes::{str_head, lemma_encode_concat};
use crate::matching::dot;
use crate::is_normalized;

verus! {

/// `c` has the Unicode White_Space property, which `char::is_whitespace`
/// (and so `str::trim`) tests.
pub open spec fn is_white_space(c: char) -> bool {
    ||| '\u{9}' <= c <= '\u{d}'
    ||| c == ' '
    ||| c == '\u{85}'
    ||| c == '\u{a0}'
    ||| c == '\u{1680}'
    ||| '\u{2000}' <= c <= '\u{200a}'
    ||| c == '\u{2028}'
    ||| c == '\u{2029}'
    ||| c == '\u{202f}'
    ||| c == '\u{205f}'
    ||| c == '\u{3000}'
}

/// `s` without its leading and trailing White_Space characters.
pub open spec fn trim_chars(s: Seq<char>) -> Seq<char>
    decreases s.len(),
{
    if s.len() > 0 && is_white_space(s[0]) {
        trim_chars(s.drop_first())
    } else if s.len() > 0 && is_white_space(s.last()) {
        trim_chars(s.drop_last())
    } else {
        s
    }
}

/// `b` without one trailing dot, if it ends in one.
pub open spec fn strip_dot(b: Seq<u8>) -> Seq<u8> {
    if b.len() > 0 && b.last() == dot() {
        b.drop_last()
    } else {
        b
    }
}

/// A usable hostname: non-empty, neither starting nor ending with a dot, and
/// with no two dots in a row (no empty label).
pub open spec fn hostname_shape(b: Seq<u8>) -> bool {
    &&& b.len() > 0
    &&& b[0] != dot()
    &&& b.last() != dot()
    &&& forall|i: int| 0 <= i < b.len() - 1 ==> !(#[trigger] b[i] == dot() && b[i + 1] == dot())
}

/// `c` with an ASCII capital letter replaced by its small letter.
pub open spec fn ascii_lower_char(c: char) -> char {
    if 'A' <= c <= 'Z' {
        ((c as u32) + 32) as char
    } else {
        c
    }
}

/// `s` with every ASCII capital letter replaced by its small letter.
pub open spec fn ascii_lower(s: Seq<char>) -> Seq<char> {
    Seq::new(s.len(), |i: int| ascii_lower_char(s[i]))
}

/// `s` is ASCII and holds no capital letter.
pub open spec fn is_lower_ascii(s: Seq<char>) -> bool {
    &&& is_ascii_chars(s)
    &&& forall|i: int| 0 <= i < s.len() ==> !('A' <= #[trigger] s[i] <= 'Z')
}

/// `s` without one trailing dot, if it ends in one.
pub open spec fn strip_dot_chars(s: Seq<char>) -> Seq<char> {
    if s.len() > 0 && s.last() == '.' {
        s.drop_last()
    } else {
        s
    }
}

/// A character of a plain label: a small letter, a digit, `-` or `_`.
pub open spec fn is_plain_char(c: char) -> bool {
    ('a' <= c <= 'z') || ('0' <= c <= '9') || c == '-' || c == '_'
}

/// A plain hostname: non-empty labels of plain characters joined by single
/// dots, no label starting with the Punycode prefix `xn--`.
pub open spec fn is_plain_host(s: Seq<char>) -> bool {
    &&& s.len() > 0
    &&& forall|i: int| 0 <= i < s.len() ==> is_plain_char(#[trigger] s[i]) || s[i] == '.'
    &&& s[0] != '.'
    &&& s.last() != '.'
    &&& forall|i: int| 0 <= i < s.len() - 1 ==> !(#[trigger] s[i] == '.' && s[i + 1] == '.')
    &&& forall|i: int|
        0 <= i && i + 4 <= s.len() && (i == 0 || s[i - 1] == '.') ==> !(#[trigger] s[i] == 'x'
            && s[i + 1] == 'n' && s[i + 2] == '-' && s[i + 3] == '-')
}

/// A plain hostname is a lowercase ASCII hostname of the shape `lookup`
/// accepts.
pub proof fn lemma_plain_host_normalized(s: Seq<char>)
    requires
        is_plain_host(s),
    ensures
        is_lower_ascii(s),
        is_normalized(encode_utf8(s)),
        hostname_shape(encode_utf8(s)),
{
    assert(is_ascii_chars(s)) by {
        assert forall|i: int| 0 <= i < s.len() implies '\0' <= #[trigger] s[i] <= '\u{7f}' by {
            assert(is_plain_char(s[i]) || s[i] == '.');
        }
    }
    assert forall|i: int| 0 <= i < s.len() implies !('A' <= #[trigger] s[i] <= 'Z') by {
        assert(is_plain_char(s[i]) || s[i] == '.');
    }
    is_ascii_chars_encode_utf8(s);
    let b = encode_utf8(s);
    assert forall|i: int| 0 <= i < b.len() implies (#[trigger] b[i] == dot()) == (s[i] == '.') by {
        assert(s[i] as u8 == b[i]);
        assert(is_plain_char(s[i]) || s[i] == '.');
    }
    assert(b[0] != dot());
    assert(b.last() != dot()) by {
        assert(b.last() == b[b.len() - 1]);
    }
    assert forall|i: int| 0 <= i < b.len() - 1 implies !(#[trigger] b[i] == dot() && b[i + 1]
        == dot()) by {
        assert(!(s[i] == '.' && s[i + 1] == '.'));
    }
    lemma_lower_ascii_shape(s);
}

/// The result of `idna::domain_to_ascii` on `domain`: the UTS #46 / WHATWG
/// "domain to ASCII" conversion, or `None` where it reports errors.
pub uninterp spec fn idna_domain_to_ascii(domain: Seq<char>) -> Option<Seq<char>>;

/// The input as handed to the IDNA conversion: trimmed, minus one trailing dot.
pub open spec fn prepared(domain: Seq<char>) -> Seq<char> {
    strip_dot_chars(trim_chars(domain))
}

/// The normalized (lowercase ASCII/punycode) form of `domain`, or `None` if
/// it is not a usable hostname.
///
/// The conversion is applied to the prepared input with its ASCII capitals
/// lowered; `idna::domain_to_ascii` gives the same answer with or without
/// that step (see `domain_to_ascii`).
pub open spec fn normalized_form(domain: Seq<char>) -> Option<Seq<char>> {
    let d = prepared(domain);
    if d.len() == 0 {
        None
    } else {
        match idna_domain_to_ascii(ascii_lower(d)) {
            Some(a) => if is_normalized(encode_utf8(a)) {
                Some(a)
            } else {
                None
            },
            None => None,
        }
    }
}

/// Removing a trailing dot commutes with UTF-8 encoding: the last byte of a
/// character's encoding is a dot only for the dot itself.
pub proof fn lemma_strip_dot_encode(t: Seq<char>)
    ensures
        strip_dot(encode_utf8(t)) == encode_utf8(strip_dot_chars(t)),
{
    if t.len() > 0 {
        let init = t.drop_last();
        let c = t.last();
        assert(init + seq![c] == t);
        lemma_encode_concat(init, seq![c]);
        assert(seq![c].drop_first() == Seq::<char>::empty());
        assert(encode_utf8(Seq::<char>::empty()) == Seq::<u8>::empty());
        assert(encode_utf8(seq![c]) == encode_scalar(c as u32) + Seq::<u8>::empty());
        assert(encode_utf8(seq![c]) == encode_scalar(c as u32));
        let e = encode_utf8(t);
        let es = encode_scalar(c as u32);
        assert(e.last() == es.last());
        let u = c as u32;
        if c == '.' {
            assert(es == seq![46u8]) by {
                assert((46u32 & 0x7F) as u8 == 46u8) by (bit_vector);
            }
            assert(e.drop_last() == encode_utf8(init));
        } else {
            assert(es.last() != 46u8) by {
                assert(forall|v: u32| #[trigger] last_continuation_byte(v) != 46u8) by (bit_vector);
                assert(forall|v: u32| v <= 0x7F && v != 46 ==> #[trigger] leading_byte_width_1(v) != 46u8)
                    by (bit_vector);
                if u == 46 {
                    char_u32_cast(c, u);
                    char_u32_cast('.', '.' as u32);
                }
            }
        }
    }
}

/// The encoding of a lowercase ASCII string is a hostname exactly when it is
/// normalized.
pub proof fn lemma_lower_ascii_shape(a: Seq<char>)
    requires
        is_lower_ascii(a),
    ensures
        hostname_shape(encode_utf8(a)) == is_normalized(encode_utf8(a)),
{
    is_ascii_chars_encode_utf8(a);
    let b = encode_utf8(a);
    assert forall|i: int| 0 <= i < b.len() implies #[trigger] b[i] < 128 && !(65 <= b[i] <= 90) by {
        assert(a[i] as u8 == b[i]);
        assert(!('A' <= a[i] <= 'Z'));
    }
}

/// Lowering ASCII capitals keeps White_Space characters and everything else
/// apart.
proof fn lemma_lower_char(c: char)
    ensures
        is_white_space(ascii_lower_char(c)) == is_white_space(c),
        (ascii_lower_char(c) == '.') == (c == '.'),
{
    if 'A' <= c <= 'Z' {
        let l = ascii_lower_char(c);
        assert('a' <= l <= 'z');
    }
}

/// Trimming a run of White_Space leaves nothing.
pub proof fn lemma_trim_all_white(w: Seq<char>)
    requires
        forall|i: int| 0 <= i < w.len() ==> is_white_space(#[trigger] w[i]),
    ensures
        trim_chars(w).len() == 0,
    decreases w.len(),
{
    if w.len() > 0 {
        assert(is_white_space(w[0]));
        assert forall|i: int| 0 <= i < w.drop_first().len() implies is_white_space(
            #[trigger] w.drop_first()[i],
        ) by {
            assert(w.drop_first()[i] == w[i + 1]);
        }
        lemma_trim_all_white(w.drop_first());
    }
}

/// Leading White_Space is trimmed away.
pub proof fn lemma_trim_leading(l: Seq<char>, m: Seq<char>)
    requires
        forall|i: int| 0 <= i < l.len() ==> is_white_space(#[trigger] l[i]),
    ensures
        trim_chars(l + m) == trim_chars(if l.len() > 0 { l.drop_first() + m } else { m }),
        m.len() == 0 || !is_white_space(m[0]) ==> trim_chars(l + m) == trim_chars(m),
    decreases l.len(),
{
    if l.len() > 0 {
        assert((l + m)[0] == l[0]);
        assert((l + m).drop_first() == l.drop_first() + m);
        assert forall|i: int| 0 <= i < l.drop_first().len() implies is_white_space(
            #[trigger] l.drop_first()[i],
        ) by {
            assert(l.drop_first()[i] == l[i + 1]);
        }
        lemma_trim_leading(l.drop_first(), m);
        if l.len() == 1 {
            assert(l.drop_first() + m == m);
        }
    } else {
        assert(l + m == m);
    }
}

/// Trailing White_Space is trimmed away from text that starts and ends with
/// something else.
pub proof fn lemma_trim_trailing(m: Seq<char>, r: Seq<char>)
    requires
        forall|i: int| 0 <= i < r.len() ==> is_white_space(#[trigger] r[i]),
        m.len() > 0,
        !is_white_space(m[0]),
        !is_white_space(m.last()),
    ensures
        trim_chars(m + r) == m,
    decreases r.len(),
{
    if r.len() > 0 {
        let s = m + r;
        assert(s[0] == m[0]);
        assert(s.last() == r.last());
        assert(s.drop_last() == m + r.drop_last());
        lemma_trim_trailing(m, r.drop_last());
    } else {
        assert(m + r == m);
    }
}

/// Lowering ASCII capitals commutes with trimming.
pub proof fn lemma_lower_trim(s: Seq<char>)
    ensures
        ascii_lower(trim_chars(s)) == trim_chars(ascii_lower(s)),
    decreases s.len(),
{
    let l = ascii_lower(s);
    if s.len() > 0 {
        lemma_lower_char(s[0]);
        lemma_lower_char(s.last());
        assert(l[0] == ascii_lower_char(s[0]));
        assert(l.last() == ascii_lower_char(s.last()));
    }
    if s.len() > 0 && is_white_space(s[0]) {
        assert(ascii_lower(s.drop_first()) == l.drop_first());
        lemma_lower_trim(s.drop_first());
    } else if s.len() > 0 && is_white_space(s.last()) {
        assert(ascii_lower(s.drop_last()) == l.drop_last());
        lemma_lower_trim(s.drop_last());
    }
}

/// Lowering ASCII capitals commutes with preparing the input.
pub proof fn lemma_lower_prepared(s: Seq<char>)
    ensures
        ascii_lower(prepared(s)) == prepared(ascii_lower(s)),
{
    let t = trim_chars(s);
    lemma_lower_trim(s);
    if t.len() > 0 {
        lemma_lower_char(t.last());
        assert(ascii_lower(t).last() == ascii_lower_char(t.last()));
        assert(ascii_lower(t.drop_last()) == ascii_lower(t).drop_last());
    }
}

#[verifier::external_type_specification]
#[verifier::external_body]
pub struct ExIdnaErrors(idna::Errors);

/// Calls `idna::domain_to_ascii`. Claimed: the call returns `Ok` exactly when
/// `idna_domain_to_ascii` of the input is `Some`, and then with that string;
/// the result is ASCII with no capital letter (the documentation: "the ASCII
/// representation of a domain name, normalizing characters (upper-case to
/// lower-case ...)"); and, since that mapping of capitals to small letters is
/// the conversion's first step, the input with its ASCII capitals lowered
/// converts alike; and a plain hostname (see `is_plain_host`) comes back
/// unchanged: its labels are ASCII and not Punycode, so the conversion maps
/// each character to itself, and with the empty ASCII deny list this
/// function uses (`AsciiDenyList::EMPTY`), no hyphen check and no length
/// check, nothing in them is refused. Nothing else is claimed of the
/// conversion.
#[verifier::external_body]
fn domain_to_ascii(domain: &str) -> (r: Result<String, idna::Errors>)
    ensures
        match r {
            Ok(s) => {
                &&& idna_domain_to_ascii(domain@) == Some(s@)
                &&& idna_domain_to_ascii(ascii_lower(domain@)) == Some(s@)
                &&& is_lower_ascii(s@)
                &&& is_plain_host(domain@) ==> s@ == domain@
            },
            Err(_) => {
                &&& idna_domain_to_ascii(domain@) is None
                &&& idna_domain_to_ascii(ascii_lower(domain@)) is None
                &&& !is_plain_host(domain@)
            },
        },
{
    idna::domain_to_ascii(domain)
}

/// Calls `str::trim`. Claimed: the result is the input without its leading
/// and trailing White_Space characters.
#[verifier::external_body]
pub(crate) fn trim(s: &str) -> (r: &str)
    ensures
        r@ == trim_chars(s@),
{
    s.trim()
}

/// The IDNA conversion of `domain`, or `None` where it fails. A plain
/// hostname comes back unchanged.
pub fn to_ascii(domain: &str) -> (r: Option<String>)
    ensures
        is_plain_host(domain@) ==> (r matches Some(s) && s@ == domain@),
        match r {
            Some(s) => {
                &&& idna_domain_to_ascii(domain@) == Some(s@)
                &&& idna_domain_to_ascii(ascii_lower(domain@)) == Some(s@)
                &&& is_lower_ascii(s@)
            },
            None => {
                &&& idna_domain_to_ascii(domain@) is None
                &&& idna_domain_to_ascii(ascii_lower(domain@)) is None
            },
        },
{
    match domain_to_ascii(domain) {
        Ok(s) => Some(s),
        Err(_) => None,
    }
}

/// `s` without one trailing dot, if it ends in one.
pub fn strip_trailing_dot(s: &str) -> (r: &str)
    ensures
        r.spec_bytes() == strip_dot(s.spec_bytes()),
{
    let b = s.as_bytes();
    if b.len() > 0 && b[b.len() - 1] == 46u8 {
        let r = str_head(s, b.len() - 1);
        proof {
            assert(r.spec_bytes() == s.spec_bytes().drop_last());
        }
        r
    } else {
        s
    }
}

/// `true` if `b` has the shape of a hostname (see `hostname_shape`).
pub fn has_hostname_shape(s: &str) -> (r: bool)
    ensures
        r == hostname_shape(s.spec_bytes()),
{
    let b = s.as_bytes();
    if b.len() == 0 || b[0] == 46u8 || b[b.len() - 1] == 46u8 {
        return false;
    }
    let mut i: usize = 0;
    while i < b.len() - 1
        invariant
            b@ == s.spec_bytes(),
            b@.len() > 0,
            i < b@.len(),
            forall|j: int| 0 <= j < i ==> !(#[trigger] b@[j] == dot() && b@[j + 1] == dot()),
        decreases b@.len() - i,
    {
        if b[i] == 46u8 && b[i + 1] == 46u8 {
            return false;
        }
        i = i + 1;
    }
    true
}

/// Normalize an input hostname to lowercase ASCII/punycode, or `None` if it is
/// not a usable hostname.
pub fn normalize(domain: &str) -> (r: Option<String>)
    ensures
        is_plain_host(prepared(domain@)) ==> (r matches Some(s) && s@ == prepared(domain@)
            && normalized_form(domain@) == Some(prepared(domain@))),
        match r {
            Some(s) => normalized_form(domain@) == Some(s@) && is_normalized(encode_utf8(s@)),
            None => normalized_form(domain@) is None,
        },
{
    let t = trim(domain);
    let d = strip_trailing_dot(t);
    proof {
        lemma_strip_dot_encode(t@);
        encode_utf8_decode_utf8(d@);
        encode_utf8_decode_utf8(prepared(domain@));
        assert(d@ == prepared(domain@));
    }
    if d.is_empty() {
        return None;
    }
    let ascii = match to_ascii(d) {
        Some(a) => a,
        None => return None,
    };
    proof {
        lemma_lower_ascii_shape(ascii@);
        if is_plain_host(d@) {
            lemma_plain_host_normalized(d@);
            assert(ascii_lower(d@) == d@);
        }
    }
    if !has_hostname_shape(ascii.as_str()) {
        return None;
    }
    Some(ascii)
}

} // verus!
