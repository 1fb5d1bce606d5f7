//! A thin API shaped like the `psl` crate's: it operates on `&[u8]` and
//! returns a `Domain` that *is* the registrable domain, with a nested
//! `Suffix`.
//!
//! This API is allocation-free, borrows from its input, and is
//! **case-sensitive**: it expects already-lowercased ASCII/punycode and falls
//! back to the implicit `*` rule for anything it does not match (rather than
//! normalizing). For Unicode input or automatic normalization, use
//! [`crate::analyze`] instead.
use vstd::prelude::*;
use vstd::slice::slice_subrange;
use vstd::string::StringSliceAdditionalSpecFns;
use vstd::utf8::{valid_utf8, valid_utf8_concat};
use crate::matching::{compute, dot, psl_parts, suffix_of, registrable_of, lemma_parts_shape, Parts};
use crate::bytes::str_head;
use crate::is_normalized;

pub use crate::Type;

verus! {

/// Calls `core::str::from_utf8`. Claimed: the call succeeds exactly on valid
/// UTF-8, and then gives a string with the same bytes.
#[verifier::external_body]
fn str_from_utf8(bytes: &[u8]) -> (r: Option<&str>)
    ensures
        match r {
            Some(s) => valid_utf8(bytes@) && s.spec_bytes() == bytes@,
            None => !valid_utf8(bytes@),
        },
{
    core::str::from_utf8(bytes).ok()
}

/// The public suffix of a domain name.
#[derive(Clone, Copy, Debug, PartialEq, Eq)]
pub struct Suffix<'a> {
    bytes: &'a [u8],
    typ: Option<Type>,
    fqdn: bool,
}

impl<'a> View for Suffix<'a> {
    /// The suffix's bytes, its section, and whether the input was fully
    /// qualified.
    type V = (Seq<u8>, Option<Type>, bool);

    closed spec fn view(&self) -> (Seq<u8>, Option<Type>, bool) {
        (self.bytes@, self.typ, self.fqdn)
    }
}

impl<'a> Suffix<'a> {
    /// The public suffix as bytes (without any fully-qualifying trailing dot).
    pub fn as_bytes(&self) -> (r: &'a [u8])
        ensures
            r@ == self@.0,
    {
        self.bytes
    }

    /// The section the suffix matched, or `None` for an unknown TLD (the
    /// implicit `*` rule).
    pub fn typ(&self) -> (r: Option<Type>)
        ensures
            r == self@.1,
    {
        self.typ
    }

    /// `true` if the suffix matched a real rule rather than the implicit `*`.
    pub fn is_known(&self) -> (r: bool)
        ensures
            r == (self@.1 is Some),
    {
        self.typ.is_some()
    }

    /// `true` if the input ended with a fully-qualifying dot.
    pub fn is_fqdn(&self) -> (r: bool)
        ensures
            r == self@.2,
    {
        self.fqdn
    }
}

/// A registrable domain name (its bytes are the eTLD + 1).
#[derive(Clone, Copy, Debug, PartialEq, Eq)]
pub struct Domain<'a> {
    bytes: &'a [u8],
    suffix: Suffix<'a>,
}

impl<'a> View for Domain<'a> {
    /// The registrable domain's bytes and the view of its suffix.
    type V = (Seq<u8>, (Seq<u8>, Option<Type>, bool));

    closed spec fn view(&self) -> (Seq<u8>, (Seq<u8>, Option<Type>, bool)) {
        (self.bytes@, self.suffix@)
    }
}

impl<'a> Domain<'a> {
    /// The registrable domain as bytes.
    pub fn as_bytes(&self) -> (r: &'a [u8])
        ensures
            r@ == self@.0,
    {
        self.bytes
    }

    /// The public suffix of this registrable domain.
    pub fn suffix(&self) -> (r: Suffix<'a>)
        ensures
            r@ == self@.1,
    {
        self.suffix
    }
}

/// How a name is read: valid UTF-8, non-empty, minus one fully-qualifying
/// dot, non-empty again; then the hostname, the algorithm's outcome on it,
/// and whether the name was fully qualified.
pub open spec fn parse_name(name: Seq<u8>) -> Option<(Seq<u8>, Parts, bool)> {
    if !valid_utf8(name) || name.len() == 0 {
        None
    } else {
        let fqdn = name.last() == dot();
        let host = if fqdn {
            name.drop_last()
        } else {
            name
        };
        if host.len() == 0 {
            None
        } else {
            Some((host, psl_parts(host), fqdn))
        }
    }
}

/// What [`suffix`] gives for `name`.
pub open spec fn suffix_view(name: Seq<u8>) -> Option<(Seq<u8>, Option<Type>, bool)> {
    match parse_name(name) {
        Some((h, p, f)) => Some((suffix_of(h, p), p.typ, f)),
        None => None,
    }
}

/// What [`domain`] gives for `name`.
pub open spec fn domain_view(name: Seq<u8>) -> Option<
    (Seq<u8>, (Seq<u8>, Option<Type>, bool)),
> {
    match parse_name(name) {
        Some((h, p, f)) => match p.domain_off {
            Some(d) => Some((h.subrange(d as int, h.len() as int), (suffix_of(h, p), p.typ, f))),
            None => None,
        },
        None => None,
    }
}

/// Parse `name` into the matching host string, its [`Parts`], and whether it
/// was fully qualified.
pub fn parse(name: &[u8]) -> (r: Option<(&str, Parts, bool)>)
    ensures
        match r {
            Some((h, p, f)) => parse_name(name@) == Some((h.spec_bytes(), p, f))
                && h.spec_bytes().len() <= usize::MAX,
            None => parse_name(name@) is None,
        },
{
    let s = match str_from_utf8(name) {
        Some(s) => s,
        None => return None,
    };
    let b = s.as_bytes();
    if b.len() == 0 {
        return None;
    }
    let fqdn = b[b.len() - 1] == 46u8;
    let host = if fqdn {
        str_head(s, b.len() - 1)
    } else {
        s
    };
    if host.as_bytes().len() == 0 {
        return None;
    }
    proof {
        if fqdn {
            assert(host.spec_bytes() == name@.drop_last());
        }
    }
    let parts = compute(host);
    Some((host, parts, fqdn))
}

/// Get the public suffix of a domain name (`psl`-compatible).
pub fn suffix(name: &[u8]) -> (r: Option<Suffix<'_>>)
    ensures
        match r {
            Some(s) => suffix_view(name@) == Some(s@),
            None => suffix_view(name@) is None,
        },
{
    let (host, parts, fqdn) = match parse(name) {
        Some(x) => x,
        None => return None,
    };
    proof {
        lemma_parts_shape(host.spec_bytes());
    }
    let hb = host.as_bytes();
    Some(Suffix { bytes: slice_subrange(hb, parts.suffix_off, hb.len()), typ: parts.typ, fqdn })
}

/// Get the public suffix of a domain name from a `&str` (`psl`-compatible).
pub fn suffix_str(name: &str) -> (r: Option<Suffix<'_>>)
    ensures
        match r {
            Some(s) => suffix_view(name.spec_bytes()) == Some(s@),
            None => suffix_view(name.spec_bytes()) is None,
        },
{
    suffix(name.as_bytes())
}

/// Get the registrable domain of a domain name (`psl`-compatible).
///
/// Returns `None` if `name` is invalid or is itself a public suffix (no
/// registrable domain).
pub fn domain(name: &[u8]) -> (r: Option<Domain<'_>>)
    ensures
        match r {
            Some(d) => domain_view(name@) == Some(d@),
            None => domain_view(name@) is None,
        },
{
    let (host, parts, fqdn) = match parse(name) {
        Some(x) => x,
        None => return None,
    };
    proof {
        lemma_parts_shape(host.spec_bytes());
    }
    let domain_off = match parts.domain_off {
        Some(d) => d,
        None => return None,
    };
    let hb = host.as_bytes();
    Some(
        Domain {
            bytes: slice_subrange(hb, domain_off, hb.len()),
            suffix: Suffix {
                bytes: slice_subrange(hb, parts.suffix_off, hb.len()),
                typ: parts.typ,
                fqdn,
            },
        },
    )
}

/// Get the registrable domain of a domain name from a `&str`
/// (`psl`-compatible).
pub fn domain_str(name: &str) -> (r: Option<Domain<'_>>)
    ensures
        match r {
            Some(d) => domain_view(name.spec_bytes()) == Some(d@),
            None => domain_view(name.spec_bytes()) is None,
        },
{
    domain(name.as_bytes())
}

/// ASCII bytes are valid UTF-8.
proof fn lemma_ascii_valid_utf8(b: Seq<u8>)
    requires
        forall|i: int| 0 <= i < b.len() ==> #[trigger] b[i] < 128,
    ensures
        valid_utf8(b),
    decreases b.len(),
{
    if b.len() > 0 {
        let c = b[0];
        assert((c & 0x7f) == c) by (bit_vector)
            requires
                c < 128,
        ;
        let rest = b.subrange(1, b.len() as int);
        assert forall|i: int| 0 <= i < rest.len() implies #[trigger] rest[i] < 128 by {
            assert(rest[i] == b[i + 1]);
        }
        lemma_ascii_valid_utf8(rest);
    }
}

/// On a normalized hostname, with or without a fully-qualifying dot, this
/// API reads the same hostname and the same outcome as [`crate::lookup`].
pub proof fn law_compat_agrees_with_lookup(h: Seq<u8>)
    requires
        is_normalized(h),
    ensures
        parse_name(h) == Some((h, psl_parts(h), false)),
        parse_name(h.push(dot())) == Some((h, psl_parts(h), true)),
{
    lemma_ascii_valid_utf8(h);
    lemma_ascii_valid_utf8(seq![dot()]);
    valid_utf8_concat(h, seq![dot()]);
    assert(h.push(dot()) == h + seq![dot()]);
    assert(h.push(dot()).drop_last() == h);
}

/// The public suffix read from a normalized hostname, with or without a
/// fully-qualifying dot, is the algorithm's suffix with the section of the
/// prevailing rule; only the flag tells the two apart.
pub proof fn law_compat_suffix(h: Seq<u8>)
    requires
        is_normalized(h),
    ensures
        suffix_view(h) == Some((suffix_of(h, psl_parts(h)), psl_parts(h).typ, false)),
        suffix_view(h.push(dot())) == Some((suffix_of(h, psl_parts(h)), psl_parts(h).typ, true)),
{
    law_compat_agrees_with_lookup(h);
}

/// The registrable domain read from a normalized hostname, with or without a
/// fully-qualifying dot, is the algorithm's registrable domain, with the
/// algorithm's suffix and section; there is one exactly when the algorithm
/// finds one.
pub proof fn law_compat_domain(h: Seq<u8>)
    requires
        is_normalized(h),
    ensures
        domain_view(h) is Some <==> psl_parts(h).domain_off is Some,
        domain_view(h.push(dot())) is Some <==> psl_parts(h).domain_off is Some,
        registrable_of(h, psl_parts(h)) matches Some(x) ==> domain_view(h) == Some(
            (x, (suffix_of(h, psl_parts(h)), psl_parts(h).typ, false)),
        ) && domain_view(h.push(dot())) == Some(
            (x, (suffix_of(h, psl_parts(h)), psl_parts(h).typ, true)),
        ),
{
    law_compat_agrees_with_lookup(h);
}

} // verus!
