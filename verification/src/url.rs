//! URL handling: the parsed components this client works with, scheme
//! defaults, and redirect target resolution.

use vstd::prelude::*;
use vstd::slice::slice_subrange;
use vstd::string::StringSliceAdditionalSpecFns;
use crate::codec::{chars_bytes, SharedResponseHandler};
use crate::error::RequestError;
use crate::response::bytes_to_string;

verus! {

/// The schemes this client accepts.
#[derive(Clone, Copy, Debug, PartialEq, Eq, Structural)]
pub enum Scheme {
    /// Plain HTTP.
    Http,
    /// HTTP over TLS.
    Https,
    /// Plain WebSocket.
    Ws,
    /// WebSocket over TLS.
    Wss,
}

impl Scheme {
    /// Whether the transport must run TLS.
    pub open spec fn spec_is_tls(self) -> bool {
        self == Scheme::Https || self == Scheme::Wss
    }

    /// Whether the transport must run TLS.
    pub fn is_tls(&self) -> (r: bool)
        ensures
            r == self.spec_is_tls(),
    {
        match self {
            Scheme::Https => true,
            Scheme::Wss => true,
            _ => false,
        }
    }

    /// The port used when the URL names none: 80 in the clear, 443 on TLS.
    pub open spec fn spec_default_port(self) -> u16 {
        if self.spec_is_tls() {
            443
        } else {
            80
        }
    }

    /// The port used when the URL names none.
    pub fn default_port(&self) -> (r: u16)
        ensures
            r == self.spec_default_port(),
    {
        if self.is_tls() {
            443
        } else {
            80
        }
    }
}

/// A URL reduced to what a request needs: scheme, host, port, path, query.
#[derive(Debug)]
pub struct Url {
    /// The scheme.
    pub scheme: Scheme,
    /// The host name or address text; never empty.
    pub host: String,
    /// The port, explicit or the scheme's default.
    pub port: u16,
    /// The path; never empty, `/` at least.
    pub path: String,
    /// The query, without its leading `?`, when one is present.
    pub query: Option<String>,
}

impl Url {
    /// The host is named and the path starts at the root.
    pub open spec fn wf(&self) -> bool {
        &&& self.host@.len() > 0
        &&& self.path@.len() > 0
    }

    /// The path with the query appended after `?`, as sent on the wire.
    pub fn full_path(&self) -> (r: String)
        ensures
            match self.query {
                Some(q) => r@ == self.path@ + "?"@ + q@,
                None => r@ == self.path@,
            },
    {
        let mut out: String = self.path.clone();
        match &self.query {
            Some(q) => {
                out.append("?");
                out.append(q.as_str());
                out
            },
            None => out,
        }
    }
}

/// The components the outside parser hands back, as plain values.
pub struct RawUrlParts {
    /// The scheme text, lowercased by the parser.
    pub protocol: String,
    /// The host, when the URL names one.
    pub host: Option<String>,
    /// The port, when the URL names one.
    pub port: Option<u16>,
    /// The path, when the URL names one.
    pub path: Option<String>,
    /// The query, when the URL names one.
    pub query: Option<String>,
}

/// The text of an optional string.
pub open spec fn opt_text(o: Option<String>) -> Option<Seq<char>> {
    match o {
        Some(s) => Some(s@),
        None => None,
    }
}

/// What the outside URL parser yields for a text: scheme token, host, port,
/// path and query, or nothing for text that is not a URL; the result
/// depends on the text alone.
pub uninterp spec fn url_parts_of(url: Seq<char>) -> Option<
    (Seq<char>, Option<Seq<char>>, Option<u16>, Option<Seq<char>>, Option<Seq<char>>),
>;

/// Relies on `http_type::HttpUrlComponents::parse` (the `url` crate
/// underneath): splits a URL string into scheme, host, port, path, query
/// and fragment, deterministically, or reports that the text is not a URL.
#[verifier::external_body]
fn parse_url_components(url: &str) -> (r: Option<RawUrlParts>)
    ensures
        match r {
            Some(p) => url_parts_of(url@) == Some(
                (p.protocol@, opt_text(p.host), p.port, opt_text(p.path), opt_text(p.query)),
            ),
            None => url_parts_of(url@) is None,
        },
{
    match http_type::HttpUrlComponents::parse(url) {
        Ok(c) => Some(
            RawUrlParts {
                protocol: c.protocol,
                host: c.host,
                port: c.port,
                path: c.path,
                query: c.query,
            },
        ),
        Err(_) => None,
    }
}

/// The scheme a protocol token names, if this client accepts it.
pub open spec fn spec_scheme_of(s: Seq<char>) -> Option<Scheme> {
    if s == "http"@ {
        Some(Scheme::Http)
    } else if s == "https"@ {
        Some(Scheme::Https)
    } else if s == "ws"@ {
        Some(Scheme::Ws)
    } else if s == "wss"@ {
        Some(Scheme::Wss)
    } else {
        None
    }
}

/// The scheme a protocol token names.
fn scheme_of(token: &str) -> (r: Option<Scheme>)
    ensures
        r == spec_scheme_of(token@),
{
    let t: String = String::from_str(token);
    if t == String::from_str("http") {
        Some(Scheme::Http)
    } else if t == String::from_str("https") {
        Some(Scheme::Https)
    } else if t == String::from_str("ws") {
        Some(Scheme::Ws)
    } else if t == String::from_str("wss") {
        Some(Scheme::Wss)
    } else {
        None
    }
}

/// Normalizes parsed components: the scheme must be one this client speaks,
/// the host must be named and non-empty; a missing port becomes the scheme
/// default, and a missing or empty path becomes `/`.
pub fn normalize_url(parts: RawUrlParts) -> (r: Result<Url, RequestError>)
    ensures
        match r {
            Ok(u) => {
                &&& u.wf()
                &&& spec_scheme_of(parts.protocol@) == Some(u.scheme)
                &&& match parts.host {
                    Some(h) => h@.len() > 0 && u.host@ == h@,
                    None => false,
                }
                &&& u.port == (match parts.port {
                    Some(p) => p,
                    None => u.scheme.spec_default_port(),
                })
                &&& u.path@ == (match parts.path {
                    Some(p) => if p@.len() > 0 {
                        p@
                    } else {
                        "/"@
                    },
                    None => "/"@,
                })
                &&& u.query == parts.query
            },
            Err(e) => {
                &&& e == RequestError::InvalidUrl
                &&& {
                    ||| spec_scheme_of(parts.protocol@) is None
                    ||| parts.host is None
                    ||| (parts.host matches Some(h) && h@.len() == 0)
                }
            },
        },
{
    let scheme: Scheme = match scheme_of(parts.protocol.as_str()) {
        Some(s) => s,
        None => {
            return Err(RequestError::InvalidUrl);
        },
    };
    let host: String = match parts.host {
        Some(h) => h,
        None => {
            return Err(RequestError::InvalidUrl);
        },
    };
    if host.as_str().as_bytes().len() == 0 {
        proof {
            assert(host@.len() == 0) by {
                if host@.len() > 0 {
                    crate::codec::lemma_chars_bytes_nonempty(host@);
                }
            }
        }
        return Err(RequestError::InvalidUrl);
    }
    proof {
        assert(host@.len() > 0) by {
            if host@.len() == 0 {
                assert(chars_bytes(host@).len() == 0);
            }
        }
    }
    let port: u16 = match parts.port {
        Some(p) => p,
        None => scheme.default_port(),
    };
    let path: String = match parts.path {
        Some(p) => {
            if p.as_str().as_bytes().len() == 0 {
                proof {
                    assert(p@.len() == 0) by {
                        if p@.len() > 0 {
                            crate::codec::lemma_chars_bytes_nonempty(p@);
                        }
                    }
                }
                String::from_str("/")
            } else {
                proof {
                    assert(p@.len() > 0) by {
                        if p@.len() == 0 {
                            assert(chars_bytes(p@).len() == 0);
                        }
                    }
                }
                p
            }
        },
        None => String::from_str("/"),
    };
    proof {
        reveal_strlit("/");
    }
    Ok(Url { scheme, host, port, path, query: parts.query })
}

/// What parsing a URL text yields once normalized: a scheme this client
/// speaks, a non-empty host, the defaulted port and path, and the query; or
/// nothing when the text is no URL or fails those checks.
pub open spec fn spec_parse_url(url: Seq<char>) -> Option<
    (Scheme, Seq<char>, u16, Seq<char>, Option<Seq<char>>),
> {
    match url_parts_of(url) {
        Some((protocol, host, port, path, query)) => match spec_scheme_of(protocol) {
            Some(scheme) => match host {
                Some(h) => if h.len() > 0 {
                    Some(
                        (
                            scheme,
                            h,
                            match port {
                                Some(p) => p,
                                None => scheme.spec_default_port(),
                            },
                            match path {
                                Some(p) => if p.len() > 0 {
                                    p
                                } else {
                                    "/"@
                                },
                                None => "/"@,
                            },
                            query,
                        ),
                    )
                } else {
                    None
                },
                None => None,
            },
            None => None,
        },
        None => None,
    }
}

/// Parses a URL string: the outside parser splits it, and normalization
/// checks scheme and host and fills the defaults; the result is exactly
/// what `spec_parse_url` names, and every failure is `InvalidUrl`.
pub fn parse_url(url: &str) -> (r: Result<Url, RequestError>)
    ensures
        match r {
            Ok(u) => u.wf() && spec_parse_url(url@) == Some(
                (u.scheme, u.host@, u.port, u.path@, opt_text(u.query)),
            ),
            Err(e) => e == RequestError::InvalidUrl && spec_parse_url(url@) is None,
        },
{
    match parse_url_components(url) {
        Some(parts) => normalize_url(parts),
        None => Err(RequestError::InvalidUrl),
    }
}

/// A location target starts with a scheme this client accepts.
pub open spec fn spec_is_absolute(loc: Seq<u8>) -> bool {
    ||| is_prefix(chars_bytes("http://"@), loc)
    ||| is_prefix(chars_bytes("https://"@), loc)
    ||| is_prefix(chars_bytes("ws://"@), loc)
    ||| is_prefix(chars_bytes("wss://"@), loc)
}

/// `p` is a prefix of `s`.
pub open spec fn is_prefix(p: Seq<u8>, s: Seq<u8>) -> bool {
    p.len() <= s.len() && s.subrange(0, p.len() as int) == p
}

/// Whether `p` is a prefix of `s`.
fn starts_with(s: &[u8], p: &[u8]) -> (r: bool)
    ensures
        r == is_prefix(p@, s@),
{
    if s.len() < p.len() {
        return false;
    }
    let head: &[u8] = slice_subrange(s, 0, p.len());
    crate::split::slices_equal(head, p)
}

/// The cut after the last slash of a path's bytes: everything before it is
/// kept when a relative target replaces the last segment.
pub open spec fn last_slash_cut(b: Seq<u8>) -> int
    decreases b.len()
{
    if b.len() == 0 {
        0
    } else if b.last() == 47 {
        b.len() as int
    } else {
        last_slash_cut(b.drop_last())
    }
}

/// Where a target's path part ends: at its first `?`, or at its end.
pub open spec fn spec_path_end(loc: Seq<u8>) -> int {
    match crate::codec::find_byte_from(loc, 63, 0) {
        Some(i) => i,
        None => loc.len() as int,
    }
}

/// The path a relative target resolves to against a base path: the target's
/// own path part when it starts at the root, otherwise the base up to and
/// including its last slash with the part appended; never empty.
pub open spec fn spec_merged_path(base: Seq<char>, loc: Seq<u8>) -> Seq<u8> {
    let pb = loc.subrange(0, spec_path_end(loc));
    if pb.len() > 0 && pb[0] == 47 {
        pb
    } else {
        chars_bytes(base).subrange(0, last_slash_cut(chars_bytes(base))) + pb
    }
}

pub open spec fn spec_resolved_path(base: Seq<char>, loc: Seq<u8>) -> Seq<u8> {
    let merged = spec_merged_path(base, loc);
    if merged.len() == 0 {
        chars_bytes("/"@)
    } else {
        merged
    }
}

/// The query a target carries: the bytes after its first `?`, if any.
pub open spec fn spec_resolved_query(loc: Seq<u8>) -> Option<Seq<u8>> {
    match crate::codec::find_byte_from(loc, 63, 0) {
        Some(i) => Some(loc.subrange(i + 1, loc.len() as int)),
        None => None,
    }
}

/// What resolving a `Location` target against `current` yields: the parse
/// of an absolute target, or the current endpoint with the resolved path
/// and query of a relative one; nothing when the target cannot be taken.
pub open spec fn spec_resolve(current: &Url, loc: Seq<u8>) -> Option<
    (Scheme, Seq<char>, u16, Seq<char>, Option<Seq<char>>),
> {
    if spec_is_absolute(loc) {
        if vstd::utf8::valid_utf8(loc) {
            spec_parse_url(vstd::utf8::decode_utf8(loc))
        } else {
            None
        }
    } else {
        let pb = spec_resolved_path(current.path@, loc);
        let query_ok = match spec_resolved_query(loc) {
            Some(qb) => vstd::utf8::valid_utf8(qb),
            None => true,
        };
        if vstd::utf8::valid_utf8(pb) && query_ok {
            Some(
                (
                    current.scheme,
                    current.host@,
                    current.port,
                    vstd::utf8::decode_utf8(pb),
                    match spec_resolved_query(loc) {
                        Some(qb) => Some(vstd::utf8::decode_utf8(qb)),
                        None => None,
                    },
                ),
            )
        } else {
            None
        }
    }
}

/// Resolves a `Location` target against the URL that was just requested:
/// an absolute target is parsed afresh; any other target replaces path and
/// query, split at its first `?`, a non-rooted path first replacing the
/// last segment of the current one. The result is exactly what
/// `spec_resolve` names, and every failure is `InvalidUrl`.
pub fn resolve_redirect(current: &Url, location: &[u8]) -> (r: Result<Url, RequestError>)
    requires
        current.wf(),
    ensures
        match r {
            Ok(u) => u.wf() && spec_resolve(current, location@) == Some(
                (u.scheme, u.host@, u.port, u.path@, opt_text(u.query)),
            ),
            Err(e) => e == RequestError::InvalidUrl && spec_resolve(current, location@) is None,
        },
{
    let ghost loc = location@;
    if starts_with(location, "http://".as_bytes()) || starts_with(location, "https://".as_bytes())
        || starts_with(location, "ws://".as_bytes()) || starts_with(
        location,
        "wss://".as_bytes(),
    ) {
        let text: String = match bytes_to_string(vstd::slice::slice_to_vec(location)) {
            Some(s) => {
                proof {
                    vstd::utf8::encode_utf8_valid_utf8(s@);
                    vstd::utf8::encode_utf8_decode_utf8(s@);
                }
                s
            },
            None => {
                return Err(RequestError::InvalidUrl);
            },
        };
        return parse_url(text.as_str());
    }
    let n: usize = location.len();
    let q_split: usize = match SharedResponseHandler::find_byte(location, 63, 0) {
        Some(i) => {
            proof {
                crate::codec::lemma_find_byte_from_char(loc, 63, 0);
            }
            i
        },
        None => n,
    };
    let path_bytes: &[u8] = slice_subrange(location, 0, q_split);
    proof {
        assert(path_bytes@ =~= loc.subrange(0, spec_path_end(loc)));
    }
    let query: Option<String> = if q_split < n {
        match bytes_to_string(vstd::slice::slice_to_vec(slice_subrange(location, q_split + 1, n))) {
            Some(s) => {
                proof {
                    vstd::utf8::encode_utf8_valid_utf8(s@);
                    vstd::utf8::encode_utf8_decode_utf8(s@);
                }
                Some(s)
            },
            None => {
                return Err(RequestError::InvalidUrl);
            },
        }
    } else {
        None
    };
    let merged: Vec<u8> = if path_bytes.len() > 0 && path_bytes[0] == 47 {
        let v: Vec<u8> = vstd::slice::slice_to_vec(path_bytes);
        proof {
            assert(v@ == spec_merged_path(current.path@, loc));
        }
        v
    } else {
        // Merge with the current path: keep everything up to and including
        // its last slash, then append the target.
        let base_bytes: Vec<u8> = vstd::slice::slice_to_vec(current.path.as_str().as_bytes());
        let ghost bb = base_bytes@;
        let mut cut: usize = 0;
        let bn: usize = base_bytes.len();
        let mut i: usize = 0;
        proof {
            assert(bb.take(0) =~= Seq::<u8>::empty());
        }
        while i < bn
            invariant
                bb == base_bytes@,
                bn == bb.len(),
                0 <= i <= bn,
                cut == last_slash_cut(bb.take(i as int)),
                cut <= i,
            decreases bn - i,
        {
            proof {
                assert(bb.take(i + 1).drop_last() =~= bb.take(i as int));
                assert(bb.take(i + 1).last() == bb[i as int]);
            }
            if base_bytes[i] == 47 {
                cut = i + 1;
            }
            i = i + 1;
        }
        proof {
            assert(bb.take(bn as int) =~= bb);
        }
        let mut out: Vec<u8> = Vec::new();
        let head: &[u8] = slice_subrange(base_bytes.as_slice(), 0, cut);
        out.extend_from_slice(head);
        out.extend_from_slice(path_bytes);
        proof {
            assert(bb == chars_bytes(current.path@));
            assert(out@ == spec_merged_path(current.path@, loc));
        }
        out
    };
    let path: String = if merged.len() == 0 {
        proof {
            reveal_strlit("/");
            vstd::utf8::is_ascii_chars_encode_utf8("/"@);
        }
        String::from_str("/")
    } else {
        proof {
            assert(merged@ == spec_resolved_path(current.path@, loc));
        }
        match bytes_to_string(merged) {
            Some(s) => s,
            None => {
                return Err(RequestError::InvalidUrl);
            },
        }
    };
    proof {
        assert(chars_bytes(path@) == spec_resolved_path(current.path@, loc));
        vstd::utf8::encode_utf8_valid_utf8(path@);
        vstd::utf8::encode_utf8_decode_utf8(path@);
        assert(path@.len() > 0) by {
            if path@.len() == 0 {
                assert(chars_bytes(path@).len() == 0);
                crate::codec::lemma_chars_bytes_nonempty("/"@);
            }
        }
    }
    Ok(
        Url {
            scheme: current.scheme,
            host: current.host.clone(),
            port: current.port,
            path,
            query,
        },
    )
}

/// The decimal digits of `v`, most significant first.
pub open spec fn dec_bytes(v: int) -> Seq<u8>
    decreases v when v >= 0
{
    if v < 10 {
        seq![(48 + v) as u8]
    } else {
        dec_bytes(v / 10) + seq![(48 + v % 10) as u8]
    }
}

/// Formats a port number as decimal text.
pub fn u16_to_string(v: u16) -> (r: String)
    ensures
        chars_bytes(r@) == dec_bytes(v as int),
{
    let mut digits: Vec<u8> = Vec::new();
    push_dec(&mut digits, v);
    proof {
        lemma_dec_bytes_ascii(v as int);
        crate::base64::lemma_ascii_valid_utf8(digits@);
    }
    match bytes_to_string(digits) {
        Some(s) => s,
        None => {
            // dec_bytes yields ASCII, so the conversion always succeeds.
            proof {
                assert(false);
            }
            String::new()
        },
    }
}

/// Formats a length as decimal text.
pub fn usize_to_string(v: usize) -> (r: String)
    ensures
        chars_bytes(r@) == dec_bytes(v as int),
{
    let mut digits: Vec<u8> = Vec::new();
    push_dec_usize(&mut digits, v);
    proof {
        lemma_dec_bytes_ascii(v as int);
        crate::base64::lemma_ascii_valid_utf8(digits@);
    }
    match bytes_to_string(digits) {
        Some(s) => s,
        None => {
            // dec_bytes yields ASCII, so the conversion always succeeds.
            proof {
                assert(false);
            }
            String::new()
        },
    }
}

/// Appends the decimal digits of `v`.
fn push_dec_usize(out: &mut Vec<u8>, v: usize)
    ensures
        final(out)@ == old(out)@ + dec_bytes(v as int),
    decreases v,
{
    if v < 10 {
        out.push(48 + (v as u8));
        proof {
            assert(out@ =~= old(out)@ + dec_bytes(v as int));
        }
    } else {
        push_dec_usize(out, v / 10);
        out.push(48 + ((v % 10) as u8));
        proof {
            assert(out@ =~= old(out)@ + dec_bytes(v as int));
        }
    }
}

/// Appends the decimal digits of `v`.
fn push_dec(out: &mut Vec<u8>, v: u16)
    ensures
        final(out)@ == old(out)@ + dec_bytes(v as int),
    decreases v,
{
    if v < 10 {
        out.push(48 + (v as u8));
        proof {
            assert(out@ =~= old(out)@ + dec_bytes(v as int));
        }
    } else {
        let ghost mid = out@;
        push_dec(out, v / 10);
        out.push(48 + ((v % 10) as u8));
        proof {
            assert(out@ =~= old(out)@ + dec_bytes(v as int));
        }
    }
}

/// Every decimal digit byte is ASCII.
proof fn lemma_dec_bytes_ascii(v: int)
    requires
        v >= 0,
    ensures
        forall|k: int| 0 <= k < dec_bytes(v).len() ==> #[trigger] dec_bytes(v)[k] < 128,
    decreases v,
{
    if v >= 10 {
        lemma_dec_bytes_ascii(v / 10);
        assert forall|k: int| 0 <= k < dec_bytes(v).len() implies #[trigger] dec_bytes(v)[k]
            < 128 by {
            if k < dec_bytes(v / 10).len() {
                assert(dec_bytes(v)[k] == dec_bytes(v / 10)[k]);
            }
        }
    }
}

} // verus!
