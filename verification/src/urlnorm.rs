//! URL canonicalization.
//!
//! Parsing and reference resolution are delegated to the `url` crate
//! through two trusted wrappers that hand back plain strings; everything
//! built on top of them — the canonical serialized form, origin and host
//! extraction, and the scheme filter — is verified here.
//!
//! The canonical form of a URL is
//! `scheme "://" host [":" port] path' ["?" query]` where `path'` is the
//! path with one trailing `/` removed; the fragment is always dropped.

use vstd::prelude::*;
use vstd::string::StrSliceExecFns;
use vstd::string::StringExecFns;
use vstd::string::string_is_ascii;

verus! {

/// Whether `url::Url::parse` accepts the string.
pub uninterp spec fn spec_url_ok(s: Seq<char>) -> bool;

/// The scheme of the parsed URL, as `url::Url::scheme` returns it.
pub uninterp spec fn spec_url_scheme(s: Seq<char>) -> Seq<char>;

/// The host of the parsed URL (`url::Url::host_str`), or empty when none.
pub uninterp spec fn spec_url_host(s: Seq<char>) -> Seq<char>;

/// The explicit port of the parsed URL (`url::Url::port`), in decimal.
pub uninterp spec fn spec_url_port(s: Seq<char>) -> Option<Seq<char>>;

/// The path of the parsed URL, as `url::Url::path` returns it.
pub uninterp spec fn spec_url_path(s: Seq<char>) -> Seq<char>;

/// The query of the parsed URL (`url::Url::query`), without the `?`.
pub uninterp spec fn spec_url_query(s: Seq<char>) -> Option<Seq<char>>;

/// The pieces of a parsed URL that the crawler reads, as plain strings.
pub struct UrlParts {
    pub scheme: String,
    pub host: String,
    pub port: Option<String>,
    pub path: String,
    pub query: Option<String>,
}

/// Relies on `url::Url::parse` and the accessors `scheme`, `host_str`,
/// `port`, `path` and `query`: parsing is deterministic, `scheme` is
/// lower-case ASCII, and `path` is a percent-encoded ASCII string (its
/// documentation says so), which the last clause records.
#[verifier::external_body]
pub(crate) fn parse_url_parts(s: &str) -> (r: Option<UrlParts>)
    ensures
        r is Some <==> spec_url_ok(s@),
        r matches Some(p) ==> {
            &&& p.scheme@ == spec_url_scheme(s@)
            &&& p.host@ == spec_url_host(s@)
            &&& p.port.deep_view() == spec_url_port(s@)
            &&& p.path@ == spec_url_path(s@)
            &&& p.query.deep_view() == spec_url_query(s@)
            &&& p.path.is_ascii()
        },
{
    match url::Url::parse(s) {
        Ok(u) => Some(
            UrlParts {
                scheme: u.scheme().to_string(),
                host: u.host_str().unwrap_or("").to_string(),
                port: u.port().map(|p| p.to_string()),
                path: u.path().to_string(),
                query: u.query().map(|q| q.to_string()),
            },
        ),
        Err(_) => None,
    }
}

/// Whether resolving `href` against the absolute URL `base` succeeds,
/// i.e. `Url::parse(base)` and then `Url::join(href)` both return `Ok`.
pub uninterp spec fn spec_join_ok(base: Seq<char>, href: Seq<char>) -> bool;

/// The serialization of the resolved URL when `spec_join_ok` holds.
pub uninterp spec fn spec_joined(base: Seq<char>, href: Seq<char>) -> Seq<char>;

/// Relies on `url::Url::parse`, `Url::join` and `Url::as_str`: reference
/// resolution is deterministic in the two strings.
#[verifier::external_body]
pub(crate) fn resolve_url(base: &str, href: &str) -> (r: Option<String>)
    ensures
        r is Some <==> spec_join_ok(base@, href@),
        r matches Some(j) ==> j@ == spec_joined(base@, href@),
{
    match url::Url::parse(base) {
        Ok(b) => match b.join(href) {
            Ok(j) => Some(j.as_str().to_string()),
            Err(_) => None,
        },
        Err(_) => None,
    }
}

/// String equality on views, without any ASCII assumption.
pub fn str_eq(a: &str, b: &str) -> (r: bool)
    ensures
        r == (a@ == b@),
{
    let x: String = a.to_owned();
    let y: String = b.to_owned();
    x == y
}

/// A scheme the crawler follows.
pub open spec fn spec_is_http_scheme(scheme: Seq<char>) -> bool {
    scheme == "http"@ || scheme == "https"@
}

/// `s` with one trailing `/` removed.
pub open spec fn spec_trim_slash(s: Seq<char>) -> Seq<char> {
    if s.len() > 0 && s.last() == '/' {
        s.drop_last()
    } else {
        s
    }
}

/// The optional piece `pre + v`, or nothing.
pub open spec fn spec_opt_piece(pre: Seq<char>, o: Option<Seq<char>>) -> Seq<char> {
    match o {
        Some(v) => pre + v,
        None => Seq::empty(),
    }
}

/// The canonical serialized form built from URL pieces.
pub open spec fn spec_canonical(
    scheme: Seq<char>,
    host: Seq<char>,
    port: Option<Seq<char>>,
    path: Seq<char>,
    query: Option<Seq<char>>,
) -> Seq<char> {
    scheme + "://"@ + host + spec_opt_piece(":"@, port) + spec_trim_slash(path) + spec_opt_piece(
        "?"@,
        query,
    )
}

/// The canonical form of the URL string `s`, assuming it parses.
pub open spec fn spec_canonical_of(s: Seq<char>) -> Seq<char> {
    spec_canonical(
        spec_url_scheme(s),
        spec_url_host(s),
        spec_url_port(s),
        spec_url_path(s),
        spec_url_query(s),
    )
}

/// `s` is accepted by the normalizer: it parses and has an http(s) scheme.
pub open spec fn spec_norm_ok(s: Seq<char>) -> bool {
    spec_url_ok(s) && spec_is_http_scheme(spec_url_scheme(s))
}

/// A string that the normalizer could have produced.  Every URL the
/// crawler stores satisfies this.
pub open spec fn is_canonical_url(c: Seq<char>) -> bool {
    exists|s: Seq<char>| spec_norm_ok(s) && c == spec_canonical_of(s)
}

/// Build the canonical serialized form from parsed pieces.
pub(crate) fn canonical_from_parts(p: &UrlParts) -> (r: String)
    requires
        string_is_ascii(&p.path),
    ensures
        r@ == spec_canonical(p.scheme@, p.host@, p.port.deep_view(), p.path@, p.query.deep_view()),
{
    let mut out = String::new();
    out.append(p.scheme.as_str());
    out.append("://");
    out.append(p.host.as_str());
    match &p.port {
        Some(port) => {
            out.append(":");
            out.append(port.as_str());
        },
        None => {},
    }
    let path: &str = p.path.as_str();
    proof {
        vstd::string::is_ascii_spec_bytes(path);
    }
    let plen = path.unicode_len();
    if plen > 0 && path.get_ascii(plen - 1) == 47 {
        proof {
            assert(path@.last() as u8 == 47);
            assert('\0' <= path@.last() <= '\u{7f}');
            assert(path@.last() == 47 as char);
            assert(path@.subrange(0, plen - 1) =~= path@.drop_last());
        }
        let trimmed = path.substring_ascii(0, plen - 1);
        out.append(trimmed);
    } else {
        proof {
            if path@.len() > 0 {
                assert('\0' <= path@.last() <= '\u{7f}');
                assert(path@.last() as u8 != 47 ==> path@.last() != '/');
            }
        }
        out.append(path);
    }
    match &p.query {
        Some(q) => {
            out.append("?");
            out.append(q.as_str());
        },
        None => {},
    }
    out
}

/// Canonicalize a URL string: parse it, keep only http(s), drop the
/// fragment, keep the query, and trim one trailing `/` from the path.
pub fn normalize_url(s: &str) -> (r: Option<String>)
    ensures
        r is Some <==> spec_norm_ok(s@),
        r matches Some(c) ==> c@ == spec_canonical_of(s@) && is_canonical_url(c@),
{
    match parse_url_parts(s) {
        None => None,
        Some(p) => {
            let http = str_eq(p.scheme.as_str(), "http");
            let https = str_eq(p.scheme.as_str(), "https");
            if http || https {
                let c = canonical_from_parts(&p);
                proof {
                    assert(spec_norm_ok(s@) && c@ == spec_canonical_of(s@));
                }
                Some(c)
            } else {
                None
            }
        },
    }
}

/// The host of `s`, or the empty string when `s` does not parse or has
/// no host.
pub open spec fn spec_host_or_empty(s: Seq<char>) -> Seq<char> {
    if spec_url_ok(s) {
        spec_url_host(s)
    } else {
        Seq::empty()
    }
}

/// Extract the host of a URL, defaulting to the empty string.
pub fn host_or_empty(s: &str) -> (r: String)
    ensures
        r@ == spec_host_or_empty(s@),
{
    match parse_url_parts(s) {
        Some(p) => p.host,
        None => String::new(),
    }
}

/// The origin `scheme "://" host` of `s`, when `s` parses.
pub open spec fn spec_origin_of(s: Seq<char>) -> Seq<char> {
    spec_url_scheme(s) + "://"@ + spec_url_host(s)
}

/// Extract the origin `scheme://host` that keys the robots cache.
pub fn origin_of(s: &str) -> (r: Option<String>)
    ensures
        r is Some <==> spec_url_ok(s@),
        r matches Some(o) ==> o@ == spec_origin_of(s@),
{
    match parse_url_parts(s) {
        Some(p) => {
            let mut out = String::new();
            out.append(p.scheme.as_str());
            out.append("://");
            out.append(p.host.as_str());
            Some(out)
        },
        None => None,
    }
}

/// Trimming the path piece is a fixed point on already-canonical pieces:
/// unless the path ends in a double slash, re-canonicalizing the pieces
/// of a canonical URL changes nothing.
pub proof fn lemma_canonical_idempotent(
    scheme: Seq<char>,
    host: Seq<char>,
    port: Option<Seq<char>>,
    path: Seq<char>,
    query: Option<Seq<char>>,
)
    requires
        !(path.len() >= 2 && path[path.len() - 1] == '/' && path[path.len() - 2] == '/'),
    ensures
        spec_canonical(scheme, host, port, spec_trim_slash(path), query) == spec_canonical(
            scheme,
            host,
            port,
            path,
            query,
        ),
{
    if path.len() > 0 && path.last() == '/' {
        if spec_trim_slash(path).len() > 0 {
            assert(spec_trim_slash(path).last() == path[path.len() - 2]);
        }
    }
}

} // verus!
