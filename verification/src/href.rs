//! Classification of `href`-style reference strings, and handling of the
//! `href` / `xlink:href` attribute pair.
//!
//! A reference string is split on its last `#`: no `#` gives a plain URI,
//! a leading `#` gives a fragment-only reference, and anything else gives a
//! URI together with a fragment identifier.  Neither component may be empty.

use crate::strutil::str_eq;
use vstd::prelude::*;
use vstd::string::*;

verus! {

/// The shape of a parsed reference: its components as character sequences.
pub enum HrefShape {
    PlainUri(Seq<char>),
    FragmentId(Seq<char>),
    UriWithFragmentId(Seq<char>, Seq<char>),
}

/// A possibly non-canonical URI with an optional fragment identifier.
///
/// Element references must distinguish a resource reference (`foo.png`),
/// a reference into the current document (`#bar`), and a reference into
/// an external document (`foo.svg#bar`).
#[derive(Debug, PartialEq, Clone)]
pub enum Href {
    PlainUri(String),
    FragmentId(String),
    UriWithFragmentId(String, String),
}

/// Errors returned when creating an `Href` out of a string.
#[derive(Debug, PartialEq, Eq, Structural, Clone, Copy)]
pub enum HrefError {
    /// The reference has an empty component.
    ParseError,
    /// A fragment identifier is not allowed here.
    FragmentForbidden,
    /// A fragment identifier was required but not found.
    FragmentRequired,
}

impl View for Href {
    type V = HrefShape;

    open spec fn view(&self) -> HrefShape {
        match self {
            Href::PlainUri(u) => HrefShape::PlainUri(u@),
            Href::FragmentId(f) => HrefShape::FragmentId(f@),
            Href::UriWithFragmentId(u, f) => HrefShape::UriWithFragmentId(u@, f@),
        }
    }
}

/// Index of the last `#` in `s`, or `-1` when there is none.
pub open spec fn last_hash(s: Seq<char>) -> int
    decreases s.len(),
{
    if s.len() == 0 {
        -1
    } else if s.last() == '#' {
        s.len() - 1
    } else {
        last_hash(s.drop_last())
    }
}

/// What parsing a reference string yields: the string split on its last `#`,
/// with an error whenever a component comes out empty.
pub open spec fn spec_parse(s: Seq<char>) -> Result<HrefShape, HrefError> {
    let p = last_hash(s);
    if p == -1 {
        if s.len() == 0 {
            Err(HrefError::ParseError)
        } else {
            Ok(HrefShape::PlainUri(s))
        }
    } else if p == 0 {
        if s.len() == 1 {
            Err(HrefError::ParseError)
        } else {
            Ok(HrefShape::FragmentId(s.subrange(1, s.len() as int)))
        }
    } else {
        if p == s.len() - 1 {
            Err(HrefError::ParseError)
        } else {
            Ok(HrefShape::UriWithFragmentId(s.subrange(0, p), s.subrange(p + 1, s.len() as int)))
        }
    }
}

/// A shape is well formed when no component is empty and the fragment part
/// carries no `#` of its own (nor does a plain or fragment-only reference).
pub open spec fn href_wf(h: HrefShape) -> bool {
    match h {
        HrefShape::PlainUri(u) => u.len() > 0 && !u.contains('#'),
        HrefShape::FragmentId(f) => f.len() > 0 && !f.contains('#'),
        HrefShape::UriWithFragmentId(u, f) => u.len() > 0 && f.len() > 0 && !f.contains('#'),
    }
}

/// The serialized form of a reference: `uri`, `#fragment` or `uri#fragment`.
pub open spec fn spec_serialize(h: HrefShape) -> Seq<char> {
    match h {
        HrefShape::PlainUri(u) => u,
        HrefShape::FragmentId(f) => seq!['#'] + f,
        HrefShape::UriWithFragmentId(u, f) => u + seq!['#'] + f,
    }
}

proof fn lemma_last_hash_none(s: Seq<char>)
    requires
        forall|k: int| 0 <= k < s.len() ==> s[k] != '#',
    ensures
        last_hash(s) == -1,
    decreases s.len(),
{
    if s.len() > 0 {
        lemma_last_hash_none(s.drop_last());
    }
}

proof fn lemma_last_hash_at(s: Seq<char>, p: int)
    requires
        0 <= p < s.len(),
        s[p] == '#',
        forall|k: int| p < k < s.len() ==> s[k] != '#',
    ensures
        last_hash(s) == p,
    decreases s.len(),
{
    if s.len() - 1 != p {
        lemma_last_hash_at(s.drop_last(), p);
    }
}

proof fn lemma_last_hash_props(s: Seq<char>)
    ensures
        -1 <= last_hash(s) < s.len(),
        last_hash(s) >= 0 ==> s[last_hash(s)] == '#',
        forall|k: int| last_hash(s) < k < s.len() ==> s[k] != '#',
    decreases s.len(),
{
    if s.len() > 0 && s.last() != '#' {
        lemma_last_hash_props(s.drop_last());
        assert forall|k: int| last_hash(s) < k < s.len() implies s[k] != '#' by {
            if k < s.len() - 1 {
                assert(s.drop_last()[k] != '#');
            }
        }
    }
}

impl Href {
    /// Parses a string into an `Href`, or returns an error.
    ///
    /// The string is split on its last `#`; any empty component is a
    /// `ParseError`.
    pub fn parse(href: &str) -> (r: Result<Href, HrefError>)
        ensures
            match r {
                Ok(h) => spec_parse(href@) == Ok::<HrefShape, HrefError>(h@),
                Err(e) => spec_parse(href@) == Err::<HrefShape, HrefError>(e),
            },
    {
        let n = href.unicode_len();
        let mut i: usize = n;
        let mut pos: usize = 0;
        let mut found: bool = false;
        while i > 0
            invariant_except_break
                i <= n,
                n == href@.len(),
                !found,
                forall|k: int| i <= k < n ==> href@[k] != '#',
            ensures
                !found ==> forall|k: int| 0 <= k < n ==> href@[k] != '#',
                found ==> pos < n && href@[pos as int] == '#' && forall|k: int|
                    pos < k < n ==> href@[k] != '#',
            decreases i,
        {
            let c = href.get_char(i - 1);
            if c == '#' {
                found = true;
                pos = i - 1;
                break ;
            }
            i = i - 1;
        }
        if !found {
            proof {
                lemma_last_hash_none(href@);
            }
            if n == 0 {
                Err(HrefError::ParseError)
            } else {
                Ok(Href::PlainUri(href.to_owned()))
            }
        } else {
            proof {
                lemma_last_hash_at(href@, pos as int);
            }
            if pos == 0 {
                if n == 1 {
                    Err(HrefError::ParseError)
                } else {
                    let f = href.substring_char(1, n).to_owned();
                    Ok(Href::FragmentId(f))
                }
            } else {
                if pos == n - 1 {
                    Err(HrefError::ParseError)
                } else {
                    let u = href.substring_char(0, pos).to_owned();
                    let f = href.substring_char(pos + 1, n).to_owned();
                    Ok(Href::UriWithFragmentId(u, f))
                }
            }
        }
    }

    /// Like `parse`, but succeeds only on a plain URI; any reference that
    /// carries a fragment identifier fails with `FragmentForbidden`.
    pub fn without_fragment(href: &str) -> (r: Result<Href, HrefError>)
        ensures
            match r {
                Ok(h) => spec_parse(href@) == Ok::<HrefShape, HrefError>(h@) && h@ is PlainUri,
                Err(e) => match spec_parse(href@) {
                    Ok(m) => !(m is PlainUri) && e == HrefError::FragmentForbidden,
                    Err(pe) => e == pe,
                },
            },
    {
        let h = match Href::parse(href) {
            Ok(h) => h,
            Err(e) => {
                return Err(e);
            },
        };
        match &h {
            Href::PlainUri(_) => Ok(h),
            _ => Err(HrefError::FragmentForbidden),
        }
    }

    /// Like `parse`, but requires a fragment identifier; a plain URI fails
    /// with `FragmentRequired`.
    pub fn with_fragment(href: &str) -> (r: Result<Href, HrefError>)
        ensures
            match r {
                Ok(h) => spec_parse(href@) == Ok::<HrefShape, HrefError>(h@) && !(h@ is PlainUri),
                Err(e) => match spec_parse(href@) {
                    Ok(m) => m is PlainUri && e == HrefError::FragmentRequired,
                    Err(pe) => e == pe,
                },
            },
    {
        let h = match Href::parse(href) {
            Ok(h) => h,
            Err(e) => {
                return Err(e);
            },
        };
        match &h {
            Href::PlainUri(_) => Err(HrefError::FragmentRequired),
            _ => Ok(h),
        }
    }

    /// Writes the reference back as a string: `uri`, `#fragment` or
    /// `uri#fragment`.
    pub fn serialize(&self) -> (r: String)
        ensures
            r@ == spec_serialize(self@),
    {
        match self {
            Href::PlainUri(u) => {
                let r = u.clone();
                r
            },
            Href::FragmentId(f) => {
                let mut r = String::from_str("#");
                r.append(f.as_str());
                proof {
                    reveal_strlit("#");
                    assert(r@ =~= spec_serialize(self@));
                }
                r
            },
            Href::UriWithFragmentId(u, f) => {
                let mut r = u.clone();
                r.append("#");
                r.append(f.as_str());
                proof {
                    reveal_strlit("#");
                    assert(r@ =~= spec_serialize(self@));
                }
                r
            },
        }
    }
}

/// A string without `#` parses to a plain URI holding the whole string.
/// (The empty string is the one exception: it is rejected.)
pub proof fn lemma_parse_plain(s: Seq<char>)
    requires
        s.len() > 0,
        !s.contains('#'),
    ensures
        spec_parse(s) == Ok::<HrefShape, HrefError>(HrefShape::PlainUri(s)),
{
    assert forall|k: int| 0 <= k < s.len() implies s[k] != '#' by {
        if s[k] == '#' {
            assert(s.contains('#'));
        }
    }
    lemma_last_hash_none(s);
}

/// `#` followed by a non-empty, hash-free fragment parses to that fragment.
pub proof fn lemma_parse_fragment(f: Seq<char>)
    requires
        f.len() > 0,
        !f.contains('#'),
    ensures
        spec_parse(seq!['#'] + f) == Ok::<HrefShape, HrefError>(HrefShape::FragmentId(f)),
{
    let s = seq!['#'] + f;
    assert forall|k: int| 0 < k < s.len() implies s[k] != '#' by {
        if s[k] == '#' {
            assert(f[k - 1] == '#');
            assert(f.contains('#'));
        }
    }
    lemma_last_hash_at(s, 0);
    assert(s.subrange(1, s.len() as int) =~= f);
}

/// A non-empty URI, `#`, and a non-empty hash-free fragment parse back to
/// exactly those two components.
pub proof fn lemma_parse_uri_fragment(u: Seq<char>, f: Seq<char>)
    requires
        u.len() > 0,
        f.len() > 0,
        !f.contains('#'),
    ensures
        spec_parse(u + seq!['#'] + f) == Ok::<HrefShape, HrefError>(
            HrefShape::UriWithFragmentId(u, f),
        ),
{
    let s = u + seq!['#'] + f;
    let p = u.len() as int;
    assert(s[p] == '#');
    assert forall|k: int| p < k < s.len() implies s[k] != '#' by {
        if s[k] == '#' {
            assert(f[k - p - 1] == '#');
            assert(f.contains('#'));
        }
    }
    lemma_last_hash_at(s, p);
    assert(s.subrange(0, p) =~= u);
    assert(s.subrange(p + 1, s.len() as int) =~= f);
}

/// Parsing fails exactly on the empty string and on strings that end in
/// `#`; the error is always `ParseError`.
pub proof fn lemma_parse_err_iff(s: Seq<char>)
    ensures
        spec_parse(s) is Err <==> (s.len() == 0 || s[s.len() - 1] == '#'),
        spec_parse(s) is Err ==> spec_parse(s) == Err::<HrefShape, HrefError>(
            HrefError::ParseError,
        ),
{
    lemma_last_hash_props(s);
}

/// Every successfully parsed reference is well formed: no component is
/// empty, and the fragment (or a hash-free whole) carries no `#`.
pub proof fn lemma_parse_wf(s: Seq<char>)
    ensures
        spec_parse(s) matches Ok(h) ==> href_wf(h),
{
    lemma_last_hash_props(s);
    let p = last_hash(s);
    if spec_parse(s) is Ok {
        if p == -1 {
            assert(!s.contains('#')) by {
                if s.contains('#') {
                    let k = choose|k: int| 0 <= k < s.len() && s[k] == '#';
                    assert(s[k] != '#');
                }
            }
        } else if p == 0 {
            let f = s.subrange(1, s.len() as int);
            assert(!f.contains('#')) by {
                if f.contains('#') {
                    let k = choose|k: int| 0 <= k < f.len() && f[k] == '#';
                    assert(s[k + 1] != '#');
                }
            }
        } else {
            let f = s.subrange(p + 1, s.len() as int);
            assert(!f.contains('#')) by {
                if f.contains('#') {
                    let k = choose|k: int| 0 <= k < f.len() && f[k] == '#';
                    assert(s[k + p + 1] != '#');
                }
            }
        }
    }
}

/// Round trip: re-parsing the serialized form of a well-formed reference
/// reproduces it exactly.
pub proof fn lemma_serialize_parse_round_trip(h: HrefShape)
    requires
        href_wf(h),
    ensures
        spec_parse(spec_serialize(h)) == Ok::<HrefShape, HrefError>(h),
{
    match h {
        HrefShape::PlainUri(u) => {
            lemma_parse_plain(u);
        },
        HrefShape::FragmentId(f) => {
            lemma_parse_fragment(f);
        },
        HrefShape::UriWithFragmentId(u, f) => {
            lemma_parse_uri_fragment(u, f);
        },
    }
}

/// The `xlink` namespace URL, as used by `xlink:href` attributes.
pub open spec fn spec_xlink_ns() -> Seq<char> {
    "http://www.w3.org/1999/xlink"@
}

/// Whether an expanded attribute name, given as namespace URL plus local
/// name, is either of `xlink:href` or plain `href`.
pub open spec fn spec_is_href(ns: Seq<char>, local: Seq<char>) -> bool {
    (ns == spec_xlink_ns() || ns.len() == 0) && local == "href"@
}

/// Whether the name is exactly `xlink:href`.
pub open spec fn spec_is_xlink_href(ns: Seq<char>, local: Seq<char>) -> bool {
    ns == spec_xlink_ns() && local == "href"@
}

/// Returns whether the attribute name is either of `xlink:href` or `href`.
pub fn is_href(ns: &str, local: &str) -> (r: bool)
    ensures
        r == spec_is_href(ns@, local@),
{
    (str_eq(ns, "http://www.w3.org/1999/xlink") || ns.unicode_len() == 0) && str_eq(local, "href")
}

/// Sets an `href` attribute value in preference over an `xlink:href` one:
/// a plain `href` always wins, while `xlink:href` fills the slot only when
/// nothing set it before.
pub fn set_href<T>(ns: &str, local: &str, dest: &mut Option<T>, href: T)
    ensures
        (*old(dest) is None || !spec_is_xlink_href(ns@, local@)) ==> *final(dest) == Some(href),
        !(*old(dest) is None || !spec_is_xlink_href(ns@, local@)) ==> *final(dest) == *old(dest),
{
    if dest.is_none() || !(str_eq(ns, "http://www.w3.org/1999/xlink") && str_eq(local, "href")) {
        *dest = Some(href);
    }
}

} // verus!
