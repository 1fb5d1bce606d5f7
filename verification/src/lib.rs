//! `psl2` — working with Mozilla's Public Suffix List.
//!
//! It answers the practical question *"is this hostname a registrable domain
//! (one that can own cookies), or is it a public suffix?"* — e.g. `example.jp`
//! is registrable, while `co.jp` is a public suffix.
//!
//! The core lookup ([`lookup`]) is allocation-free and borrows from its input;
//! [`analyze`] and the `String`-returning functions normalize any input first
//! (trimming, IDNA to ASCII/punycode).
use vstd::prelude::*;
use vstd::string::StringSliceAdditionalSpecFns;
use vstd::utf8::encode_utf8;

pub mod bytes;
pub mod table;
pub mod data;
pub mod matching;
pub mod normalize;
pub mod compat;
pub mod ruleset;
pub mod listfile;

use crate::bytes::{str_head, str_tail};
use crate::matching::{
    compute, dot, psl_parts, suffix_of, registrable_of, subdomain_of, lemma_parts_shape, Parts,
};
use crate::normalize::{
    normalize, normalized_form, strip_trailing_dot, strip_dot, ascii_lower, prepared, trim_chars,
    is_white_space, lemma_lower_prepared, is_plain_host, is_lower_ascii, hostname_shape,
    lemma_lower_ascii_shape, idna_domain_to_ascii, lemma_trim_all_white, lemma_trim_leading,
    lemma_trim_trailing,
};
use vstd::utf8::is_ascii_chars_encode_utf8;

verus! {

/// Which section of the Public Suffix List a rule comes from.
///
/// The ICANN section covers real registry TLDs; the PRIVATE section covers
/// suffixes delegated by private organizations (e.g. `github.io`,
/// `s3.amazonaws.com`).
#[derive(Clone, Copy, Debug, PartialEq, Eq, Hash, Structural)]
pub enum Type {
    /// A rule from the ICANN section of the list.
    Icann,
    /// A rule from the PRIVATE section of the list.
    Private,
}

/// A lowercase ASCII hostname with no empty labels, the input that [`lookup`]
/// accepts.
pub open spec fn is_normalized(b: Seq<u8>) -> bool {
    &&& b.len() > 0
    &&& b[0] != dot()
    &&& b.last() != dot()
    &&& forall|i: int| 0 <= i < b.len() ==> #[trigger] b[i] < 128 && !(65 <= b[i] <= 90)
    &&& forall|i: int| 0 <= i < b.len() - 1 ==> !(#[trigger] b[i] == dot() && b[i + 1] == dot())
}

/// `true` if `host` is a non-empty, lowercase, ASCII hostname with no empty
/// labels (the precondition for [`lookup`]).
pub fn is_normalized_ascii(host: &str) -> (r: bool)
    ensures
        r == is_normalized(host.spec_bytes()),
        host.spec_bytes().len() <= usize::MAX,
{
    let b = host.as_bytes();
    assert(b@.len() == b.len());
    if b.len() == 0 || b[0] == 46u8 || b[b.len() - 1] == 46u8 {
        return false;
    }
    let mut prev_dot = false;
    let mut i: usize = 0;
    while i < b.len()
        invariant
            b@ == host.spec_bytes(),
            b@.len() > 0,
            b@[0] != dot(),
            i <= b@.len(),
            prev_dot == (i > 0 && b@[i - 1] == dot()),
            forall|j: int| 0 <= j < i ==> #[trigger] b@[j] < 128 && !(65 <= b@[j] <= 90),
            forall|j: int| 0 <= j < i - 1 ==> !(#[trigger] b@[j] == dot() && b@[j + 1] == dot()),
        decreases b@.len() - i,
    {
        let c = b[i];
        if c >= 128 {
            return false;
        }
        if c == 46u8 {
            if prev_dot {
                return false;  // empty label
            }
            prev_dot = true;
        } else {
            if c >= 65 && c <= 90 {
                return false;  // must be pre-lowercased
            }
            prev_dot = false;
        }
        i = i + 1;
    }
    true
}

/// The result of an allocation-free [`lookup`], borrowing the input hostname.
///
/// All accessors return subslices of the hostname you passed to [`lookup`].
#[derive(Clone, Copy, Debug, PartialEq, Eq)]
pub struct Domain<'a> {
    input: &'a str,
    parts: Parts,
}

impl<'a> Domain<'a> {
    #[verifier::type_invariant]
    spec fn matches_input(self) -> bool {
        &&& psl_parts(self.input.spec_bytes()) == self.parts
        &&& self.input.spec_bytes().len() <= usize::MAX
    }

    /// The bytes of the analyzed hostname.
    pub closed spec fn host(self) -> Seq<u8> {
        self.input.spec_bytes()
    }

    /// The outcome of the algorithm on [`Domain::host`].
    pub closed spec fn parts(self) -> Parts {
        self.parts
    }

    /// The hostname this was derived from (the input minus any trailing dot).
    pub fn as_str(&self) -> (r: &'a str)
        ensures
            r.spec_bytes() == self.host(),
    {
        self.input
    }

    /// The public suffix ("effective TLD"), e.g. `co.uk` for
    /// `www.example.co.uk`.
    pub fn suffix(&self) -> (r: &'a str)
        ensures
            r.spec_bytes() == suffix_of(self.host(), self.parts()),
    {
        proof {
            use_type_invariant(self);
            lemma_parts_shape(self.input.spec_bytes());
        }
        str_tail(self.input, self.parts.suffix_off)
    }

    /// The registrable domain (public suffix plus one more label), e.g.
    /// `example.co.uk`. This is the domain that can set cookies.
    ///
    /// `None` when the input is itself a public suffix.
    pub fn registrable_domain(&self) -> (r: Option<&'a str>)
        ensures
            match r {
                Some(s) => registrable_of(self.host(), self.parts()) == Some(s.spec_bytes()),
                None => registrable_of(self.host(), self.parts()) is None,
            },
    {
        proof {
            use_type_invariant(self);
            lemma_parts_shape(self.input.spec_bytes());
        }
        match self.parts.domain_off {
            Some(o) => Some(str_tail(self.input, o)),
            None => None,
        }
    }

    /// The subdomain: the labels left of the registrable domain, e.g. `www`
    /// for `www.example.co.uk`. `None` if there is none.
    pub fn subdomain(&self) -> (r: Option<&'a str>)
        ensures
            match r {
                Some(s) => subdomain_of(self.host(), self.parts()) == Some(s.spec_bytes()),
                None => subdomain_of(self.host(), self.parts()) is None,
            },
    {
        proof {
            use_type_invariant(self);
            lemma_parts_shape(self.input.spec_bytes());
        }
        match self.parts.domain_off {
            Some(d) => if d > 0 {
                Some(str_head(self.input, d - 1))
            } else {
                None
            },
            None => None,
        }
    }

    /// `true` if the input is itself a public suffix (no registrable domain).
    pub fn is_public_suffix(&self) -> (r: bool)
        ensures
            r == (self.parts().domain_off is None),
    {
        self.parts.domain_off.is_none()
    }

    /// The section of the matched rule, or `None` for the implicit default
    /// rule (an unknown TLD).
    pub fn typ(&self) -> (r: Option<Type>)
        ensures
            r == self.parts().typ,
    {
        self.parts.typ
    }

    /// `true` if the suffix matched a rule in the ICANN section.
    pub fn is_icann(&self) -> (r: bool)
        ensures
            r == (self.parts().typ == Some(Type::Icann)),
    {
        self.parts.typ == Some(Type::Icann)
    }

    /// `true` if the suffix matched a rule in the PRIVATE section.
    pub fn is_private(&self) -> (r: bool)
        ensures
            r == (self.parts().typ == Some(Type::Private)),
    {
        self.parts.typ == Some(Type::Private)
    }

    /// `true` if a real rule matched (not the implicit `*` default).
    pub fn is_known(&self) -> (r: bool)
        ensures
            r == (self.parts().typ is Some),
    {
        self.parts.typ.is_some()
    }
}

/// Look up an **already-normalized** hostname against the Public Suffix List,
/// without allocating.
///
/// `host` must be lowercase ASCII/punycode with no empty labels (a single
/// trailing dot is accepted and ignored). Returns `None` otherwise.
pub fn lookup(host: &str) -> (r: Option<Domain<'_>>)
    ensures
        r is Some <==> is_normalized(strip_dot(host.spec_bytes())),
        r matches Some(d) ==> d.host() == strip_dot(host.spec_bytes()) && psl_parts(d.host())
            == d.parts(),
{
    let host = strip_trailing_dot(host);
    if !is_normalized_ascii(host) {
        return None;
    }
    let parts = compute(host);
    Some(Domain { input: host, parts })
}

/// The normalized form of `domain` and the outcome of the algorithm on it,
/// or `None` when `domain` cannot be normalized into a hostname.
pub open spec fn analysis(domain: Seq<char>) -> Option<(Seq<char>, Parts)> {
    match normalized_form(domain) {
        Some(a) => Some((a, psl_parts(encode_utf8(a)))),
        None => None,
    }
}

/// The result of [`analyze`], owning the normalized hostname.
///
/// Accessors return slices of the normalized (lowercased, ASCII/punycode) form,
/// retrievable via [`Info::as_ascii`].
#[derive(Debug)]
pub struct Info {
    ascii: String,
    parts: Parts,
}

impl Info {
    #[verifier::type_invariant]
    spec fn matches_ascii(self) -> bool {
        &&& is_normalized(encode_utf8(self.ascii@))
        &&& psl_parts(encode_utf8(self.ascii@)) == self.parts
        &&& encode_utf8(self.ascii@).len() <= usize::MAX
    }

    /// The normalized hostname.
    pub closed spec fn ascii(self) -> Seq<char> {
        self.ascii@
    }

    /// The bytes of the normalized hostname.
    pub open spec fn host(self) -> Seq<u8> {
        encode_utf8(self.ascii())
    }

    /// The outcome of the algorithm on [`Info::host`].
    pub closed spec fn parts(self) -> Parts {
        self.parts
    }

    fn borrow(&self) -> (r: Domain<'_>)
        ensures
            r.host() == self.host(),
            r.parts() == self.parts(),
    {
        proof {
            use_type_invariant(self);
        }
        Domain { input: self.ascii.as_str(), parts: self.parts }
    }

    /// Analyze a hostname that has already been converted to ASCII/punycode
    /// (as `idna::domain_to_ascii` returns it): `None` unless it is a
    /// normalized hostname (see [`is_normalized`]).
    pub fn from_ascii(ascii: String) -> (r: Option<Info>)
        ensures
            match r {
                Some(i) => {
                    &&& is_normalized(encode_utf8(ascii@))
                    &&& i.ascii() == ascii@
                    &&& psl_parts(encode_utf8(ascii@)) == i.parts()
                },
                None => !is_normalized(encode_utf8(ascii@)),
            },
    {
        if !is_normalized_ascii(ascii.as_str()) {
            return None;
        }
        let parts = compute(ascii.as_str());
        Some(Info { ascii, parts })
    }

    /// The fully normalized (lowercased, ASCII/punycode) form of the input.
    pub fn as_ascii(&self) -> (r: &str)
        ensures
            r@ == self.ascii(),
            r.spec_bytes() == self.host(),
            is_normalized(r.spec_bytes()),
            psl_parts(r.spec_bytes()) == self.parts(),
    {
        proof {
            use_type_invariant(self);
        }
        self.ascii.as_str()
    }

    /// The public suffix ("effective TLD").
    pub fn suffix(&self) -> (r: &str)
        ensures
            r.spec_bytes() == suffix_of(self.host(), self.parts()),
    {
        self.borrow().suffix()
    }

    /// The registrable domain (eTLD + 1), or `None` if the input is itself a
    /// public suffix.
    pub fn registrable_domain(&self) -> (r: Option<&str>)
        ensures
            match r {
                Some(s) => registrable_of(self.host(), self.parts()) == Some(s.spec_bytes()),
                None => registrable_of(self.host(), self.parts()) is None,
            },
    {
        self.borrow().registrable_domain()
    }

    /// The subdomain, or `None` if there is none.
    pub fn subdomain(&self) -> (r: Option<&str>)
        ensures
            match r {
                Some(s) => subdomain_of(self.host(), self.parts()) == Some(s.spec_bytes()),
                None => subdomain_of(self.host(), self.parts()) is None,
            },
    {
        self.borrow().subdomain()
    }

    /// `true` if the input is itself a public suffix.
    pub fn is_public_suffix(&self) -> (r: bool)
        ensures
            r == (self.parts().domain_off is None),
    {
        self.borrow().is_public_suffix()
    }

    /// The section of the matched rule, or `None` for the default rule.
    pub fn typ(&self) -> (r: Option<Type>)
        ensures
            r == self.parts().typ,
    {
        self.parts.typ
    }

    /// `true` if the suffix matched a rule in the ICANN section.
    pub fn is_icann(&self) -> (r: bool)
        ensures
            r == (self.parts().typ == Some(Type::Icann)),
    {
        self.borrow().is_icann()
    }

    /// `true` if the suffix matched a rule in the PRIVATE section.
    pub fn is_private(&self) -> (r: bool)
        ensures
            r == (self.parts().typ == Some(Type::Private)),
    {
        self.borrow().is_private()
    }

    /// `true` if a real rule matched (not the implicit `*` default).
    pub fn is_known(&self) -> (r: bool)
        ensures
            r == (self.parts().typ is Some),
    {
        self.borrow().is_known()
    }
}

impl Clone for Info {
    fn clone(&self) -> (r: Self)
        ensures
            r.ascii() == self.ascii(),
            r.parts() == self.parts(),
    {
        proof {
            use_type_invariant(self);
        }
        Info { ascii: self.ascii.clone(), parts: self.parts }
    }
}

/// Analyze any hostname against the Public Suffix List, normalizing it first.
///
/// Returns `None` only if the input cannot be normalized into a hostname
/// (empty, malformed, or rejected by the IDNA conversion).
pub fn analyze(domain: &str) -> (r: Option<Info>)
    ensures
        is_plain_host(prepared(domain@)) ==> analysis(domain@) == Some(
            (prepared(domain@), psl_parts(encode_utf8(prepared(domain@)))),
        ),
        r is Some <==> normalized_form(domain@) is Some,
        match r {
            Some(i) => analysis(domain@) == Some((i.ascii(), i.parts())),
            None => analysis(domain@) is None,
        },
{
    match normalize(domain) {
        Some(ascii) => Info::from_ascii(ascii),
        None => None,
    }
}

/// The public suffix of a hostname, e.g. `co.uk` for `www.example.co.uk`.
pub fn suffix(domain: &str) -> (r: Option<String>)
    ensures
        is_plain_host(prepared(domain@)) ==> analysis(domain@) == Some(
            (prepared(domain@), psl_parts(encode_utf8(prepared(domain@)))),
        ),
        match analysis(domain@) {
            Some((a, p)) => r matches Some(s) && encode_utf8(s@) == suffix_of(encode_utf8(a), p),
            None => r is None,
        },
{
    match analyze(domain) {
        Some(i) => Some(i.suffix().to_owned()),
        None => None,
    }
}

/// The registrable domain (eTLD + 1) of a hostname, e.g. `example.co.uk`.
///
/// `None` if the input is not a usable hostname, or is itself a public suffix.
pub fn registrable_domain(domain: &str) -> (r: Option<String>)
    ensures
        is_plain_host(prepared(domain@)) ==> analysis(domain@) == Some(
            (prepared(domain@), psl_parts(encode_utf8(prepared(domain@)))),
        ),
        match analysis(domain@) {
            Some((a, p)) => match registrable_of(encode_utf8(a), p) {
                Some(x) => r matches Some(s) && encode_utf8(s@) == x,
                None => r is None,
            },
            None => r is None,
        },
{
    match analyze(domain) {
        Some(i) => match i.registrable_domain() {
            Some(s) => Some(s.to_owned()),
            None => None,
        },
        None => None,
    }
}

/// The subdomain (the labels left of the registrable domain) of a hostname,
/// e.g. `www` for `www.example.co.uk`.
pub fn subdomain(domain: &str) -> (r: Option<String>)
    ensures
        is_plain_host(prepared(domain@)) ==> analysis(domain@) == Some(
            (prepared(domain@), psl_parts(encode_utf8(prepared(domain@)))),
        ),
        match analysis(domain@) {
            Some((a, p)) => match subdomain_of(encode_utf8(a), p) {
                Some(x) => r matches Some(s) && encode_utf8(s@) == x,
                None => r is None,
            },
            None => r is None,
        },
{
    match analyze(domain) {
        Some(i) => match i.subdomain() {
            Some(s) => Some(s.to_owned()),
            None => None,
        },
        None => None,
    }
}

/// `true` if `domain` is itself a public suffix (and so cannot own cookies).
///
/// Returns `false` for inputs that are not usable hostnames.
pub fn is_public_suffix(domain: &str) -> (r: bool)
    ensures
        is_plain_host(prepared(domain@)) ==> analysis(domain@) == Some(
            (prepared(domain@), psl_parts(encode_utf8(prepared(domain@)))),
        ),
        r == (analysis(domain@) matches Some((_, p)) && p.domain_off is None),
{
    match analyze(domain) {
        Some(i) => i.is_public_suffix(),
        None => false,
    }
}

/// A single trailing dot is ignored: a hostname and the same hostname fully
/// qualified are looked up alike.
pub proof fn law_trailing_dot_ignored(h: Seq<u8>)
    requires
        h.len() == 0 || h.last() != dot(),
    ensures
        strip_dot(h.push(dot())) == strip_dot(h),
{
    assert(h.push(dot()).drop_last() == h);
}

/// A hostname is a public suffix exactly when it has no registrable domain.
pub proof fn law_public_suffix_has_no_registrable_domain(domain: Seq<char>)
    requires
        analysis(domain) is Some,
    ensures
        ({
            let (a, p) = analysis(domain)->0;
            (p.domain_off is None) <==> registrable_of(encode_utf8(a), p) is None
        }),
{
}

/// Letter case does not matter: two inputs that differ only in ASCII capitals
/// normalize alike, and so get the same suffix, registrable domain and
/// subdomain.
pub proof fn law_case_does_not_matter(d1: Seq<char>, d2: Seq<char>)
    requires
        ascii_lower(d1) == ascii_lower(d2),
    ensures
        normalized_form(d1) == normalized_form(d2),
        analysis(d1) == analysis(d2),
{
    lemma_lower_prepared(d1);
    lemma_lower_prepared(d2);
    assert(prepared(d1).len() == ascii_lower(prepared(d1)).len());
    assert(prepared(d2).len() == ascii_lower(prepared(d2)).len());
}

/// An input that is already a lowercase ASCII hostname, with no White_Space
/// at its ends, and that the IDNA conversion keeps as it is, is its own
/// normalized form, whether or not it holds a dot; the analysis is the
/// algorithm's outcome on it.
pub proof fn law_normalized_name_is_kept(d: Seq<char>)
    requires
        is_lower_ascii(d),
        hostname_shape(encode_utf8(d)),
        !is_white_space(d[0]),
        !is_white_space(d.last()),
        idna_domain_to_ascii(d) == Some(d),
    ensures
        normalized_form(d) == Some(d),
        analysis(d) == Some((d, psl_parts(encode_utf8(d)))),
{
    lemma_lower_ascii_shape(d);
    is_ascii_chars_encode_utf8(d);
    let b = encode_utf8(d);
    assert(trim_chars(d) == d);
    assert(d.last() != '.') by {
        assert(b[b.len() - 1] == d[d.len() - 1] as u8);
    }
    assert(prepared(d) == d);
    assert(ascii_lower(d) == d);
}

/// What normalization accepts: exactly the inputs whose prepared form
/// (trimmed, one trailing dot dropped) is non-empty and converts, its ASCII
/// capitals lowered, to a normalized hostname; that hostname is the result.
pub proof fn law_normalized_form_accepts(domain: Seq<char>)
    ensures
        normalized_form(domain) is Some <==> (prepared(domain).len() > 0 && (idna_domain_to_ascii(
            ascii_lower(prepared(domain)),
        ) matches Some(a) && is_normalized(encode_utf8(a)))),
        normalized_form(domain) matches Some(a) ==> idna_domain_to_ascii(
            ascii_lower(prepared(domain)),
        ) == Some(a),
{
}

/// White_Space around a hostname does not matter: it normalizes as the
/// hostname alone.
pub proof fn law_white_space_does_not_matter(l: Seq<char>, d: Seq<char>, r: Seq<char>)
    requires
        forall|i: int| 0 <= i < l.len() ==> is_white_space(#[trigger] l[i]),
        forall|i: int| 0 <= i < r.len() ==> is_white_space(#[trigger] r[i]),
        d.len() == 0 || (!is_white_space(d[0]) && !is_white_space(d.last())),
    ensures
        normalized_form(l + d + r) == normalized_form(d),
        analysis(l + d + r) == analysis(d),
{
    if d.len() == 0 {
        let w = l + d + r;
        assert forall|i: int| 0 <= i < w.len() implies is_white_space(#[trigger] w[i]) by {
            if i < l.len() {
                assert(w[i] == l[i]);
            } else {
                assert(w[i] == r[i - l.len()]);
            }
        }
        lemma_trim_all_white(w);
        assert(trim_chars(d) == d);
        assert(prepared(l + d + r).len() == 0);
    } else {
        assert(l + d + r == l + (d + r));
        assert((d + r)[0] == d[0]);
        lemma_trim_leading(l, d + r);
        lemma_trim_trailing(d, r);
        assert(trim_chars(d) == d);
    }
}

/// One trailing dot does not matter: a trimmed hostname and the same hostname
/// with a dot appended normalize alike.
pub proof fn law_trailing_dot_does_not_matter(h: Seq<char>)
    requires
        h.len() == 0 || (!is_white_space(h[0]) && !is_white_space(h.last())),
        h.len() == 0 || h.last() != '.',
    ensures
        normalized_form(h.push('.')) == normalized_form(h),
        analysis(h.push('.')) == analysis(h),
{
    let hd = h.push('.');
    assert(hd[0] == if h.len() == 0 { '.' } else { h[0] });
    assert(trim_chars(hd) == hd);
    assert(trim_chars(h) == h);
    assert(hd.drop_last() == h);
}

/// What [`analyze`] reports is what [`lookup`] reports on the normalized
/// form: that form is a normalized hostname with no trailing dot, and the
/// algorithm's outcome on it is the one analyzed.
pub proof fn law_analysis_is_lookup(domain: Seq<char>)
    requires
        analysis(domain) is Some,
    ensures
        ({
            let (a, p) = analysis(domain)->0;
            &&& is_normalized(encode_utf8(a))
            &&& strip_dot(encode_utf8(a)) == encode_utf8(a)
            &&& psl_parts(encode_utf8(a)) == p
        }),
{
}

/// The version of the embedded rule data.
pub fn psl_version() -> (r: &'static str)
    ensures
        r@ == data::PSL_VERSION@,
{
    data::PSL_VERSION
}

} // verus!
