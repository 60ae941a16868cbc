//! Response representations: a binary-bodied and a text-bodied view of one
//! HTTP response, conversions between them, parsing from raw bytes, and
//! decompression of the body.

use vstd::prelude::*;
use vstd::string::{StringSliceAdditionalSpecFns, StrSliceExecFns, StringExecFns};
use vstd::utf8::{decode_utf8, valid_utf8, is_ascii_chars};

use vstd::slice::{slice_subrange, slice_to_vec};

use crate::codec::{
    chars_bytes, crlf_bytes, find_byte_from, find_crlf_from, find_double_crlf_from,
    spec_status_code, SharedResponseHandler, CR, LF, SP,
};
use crate::headers::{insert_entry, spec_get, HeaderMap, SpecEntry};
use crate::split::{spec_split_multi_byte, split_multi_byte};

verus! {

/// The status line: everything before the first CRLF, or the whole input
/// when there is none.
pub open spec fn spec_head_line(raw: Seq<u8>) -> Seq<u8> {
    match find_crlf_from(raw, 0) {
        Some(e) => raw.subrange(0, e),
        None => raw,
    }
}

/// The version token: the status line up to its first space.
pub open spec fn spec_version_bytes(raw: Seq<u8>) -> Seq<u8> {
    let line = spec_head_line(raw);
    match find_byte_from(line, SP, 0) {
        Some(s1) => line.subrange(0, s1),
        None => line,
    }
}

/// The code token: between the first and second space of the status line.
pub open spec fn spec_code_bytes(raw: Seq<u8>) -> Seq<u8> {
    let line = spec_head_line(raw);
    match find_byte_from(line, SP, 0) {
        Some(s1) => match find_byte_from(line, SP, s1 + 1) {
            Some(s2) => line.subrange(s1 + 1, s2),
            None => line.subrange(s1 + 1, line.len() as int),
        },
        None => Seq::empty(),
    }
}

/// The reason phrase: the status line after its second space.
pub open spec fn spec_text_bytes(raw: Seq<u8>) -> Seq<u8> {
    let line = spec_head_line(raw);
    match find_byte_from(line, SP, 0) {
        Some(s1) => match find_byte_from(line, SP, s1 + 1) {
            Some(s2) => line.subrange(s2 + 1, line.len() as int),
            None => Seq::empty(),
        },
        None => Seq::empty(),
    }
}

/// Where the head ends: the first blank line, or the end of the input.
pub open spec fn spec_head_end(raw: Seq<u8>) -> int {
    match find_double_crlf_from(raw, 0) {
        Some(p) => p,
        None => raw.len() as int,
    }
}

/// The bytes between the status line and the blank line.
pub open spec fn spec_headers_region(raw: Seq<u8>) -> Seq<u8> {
    let he = spec_head_end(raw);
    match find_crlf_from(raw, 0) {
        Some(le) => if le + 2 <= he {
            raw.subrange(le + 2, he)
        } else {
            Seq::empty()
        },
        None => Seq::empty(),
    }
}

/// The body: everything after the blank line, or nothing without one.
pub open spec fn spec_body_bytes(raw: Seq<u8>) -> Seq<u8> {
    match find_double_crlf_from(raw, 0) {
        Some(p) => raw.subrange(p + 4, raw.len() as int),
        None => Seq::empty(),
    }
}

/// The UTF-8 decoding of `b`, or the empty text when `b` is not valid UTF-8.
pub open spec fn decoded_or_empty(b: Seq<u8>) -> Seq<char> {
    if valid_utf8(b) {
        decode_utf8(b)
    } else {
        Seq::empty()
    }
}

/// The entry a header line denotes: name before the first colon, value after
/// it (one leading space skipped), both as UTF-8 text; none without a colon
/// or with bytes that are not UTF-8.
pub open spec fn spec_header_entry(line: Seq<u8>) -> Option<SpecEntry> {
    match find_byte_from(line, 58, 0) {
        Some(c) => {
            let nb = line.subrange(0, c);
            let v0 = if c + 1 < line.len() && line[c + 1] == SP {
                c + 2
            } else {
                c + 1
            };
            let vb = line.subrange(v0, line.len() as int);
            if valid_utf8(nb) && valid_utf8(vb) {
                Some((decode_utf8(nb), decode_utf8(vb)))
            } else {
                None
            }
        },
        None => None,
    }
}

/// The header map denoted by a sequence of header lines, written in order.
pub open spec fn spec_fold_headers(lines: Seq<Seq<u8>>) -> Seq<SpecEntry>
    decreases lines.len()
{
    if lines.len() == 0 {
        Seq::empty()
    } else {
        let prev = spec_fold_headers(lines.drop_last());
        match spec_header_entry(lines.last()) {
            Some(e) => insert_entry(prev, e.0, e.1),
            None => prev,
        }
    }
}

/// The header map a raw response denotes.
pub open spec fn spec_response_headers(raw: Seq<u8>) -> Seq<SpecEntry> {
    spec_fold_headers(spec_split_multi_byte(spec_headers_region(raw), crlf_bytes()))
}

/// The HTTP versions a response can report.
#[derive(Clone, Copy, Debug, PartialEq, Eq, Structural)]
pub enum HttpVersion {
    /// HTTP/1.1, the version this client emits on the wire.
    Http1_1,
    /// HTTP/2, accepted in a peer's status line but never emitted.
    Http2,
    /// Anything else.
    Unknown,
}

/// The version named by a status-line token.
pub open spec fn spec_version_of(s: Seq<char>) -> HttpVersion {
    if s == "HTTP/1.1"@ {
        HttpVersion::Http1_1
    } else if s == "HTTP/2"@ {
        HttpVersion::Http2
    } else {
        HttpVersion::Unknown
    }
}

/// A response whose body is raw bytes.
pub struct HttpResponseBinary {
    /// The version token of the status line.
    pub http_version: String,
    /// The three-digit status code, or 0 when the status line is malformed.
    pub status_code: u16,
    /// The reason phrase of the status line.
    pub status_text: String,
    /// The response headers.
    pub headers: HeaderMap,
    /// The body bytes.
    pub body: Vec<u8>,
}

/// A response whose body is text.
pub struct HttpResponseText {
    /// The version token of the status line.
    pub http_version: String,
    /// The three-digit status code, or 0 when the status line is malformed.
    pub status_code: u16,
    /// The reason phrase of the status line.
    pub status_text: String,
    /// The response headers.
    pub headers: HeaderMap,
    /// The body text.
    pub body: String,
}

impl HttpResponseBinary {
    /// Parses a raw response: status line into version, code and reason,
    /// header lines into the header map, and everything after the blank line
    /// into the body.
    pub fn from(response: &[u8]) -> (r: HttpResponseBinary)
        ensures
            r.http_version@ == decoded_or_empty(spec_version_bytes(response@)),
            r.status_code == spec_status_code(spec_code_bytes(response@)),
            r.status_text@ == decoded_or_empty(spec_text_bytes(response@)),
            r.headers@ == spec_response_headers(response@),
            r.headers.wf(),
            r.body@ == spec_body_bytes(response@),
    {
        let ghost raw = response@;
        let n: usize = response.len();
        let line_end: usize = match SharedResponseHandler::find_crlf(response, 0) {
            Some(e) => {
                proof {
                    crate::codec::lemma_find_crlf_from_char(raw, 0);
                }
                e
            },
            None => n,
        };
        let line: &[u8] = slice_subrange(response, 0, line_end);
        proof {
            assert(line@ =~= spec_head_line(raw));
        }
        let ln: usize = line.len();
        let mut version_bytes: &[u8] = line;
        let mut code_bytes: &[u8] = slice_subrange(line, 0, 0);
        let mut text_bytes: &[u8] = slice_subrange(line, 0, 0);
        if let Some(s1) = SharedResponseHandler::find_byte(line, SP, 0) {
            proof {
                crate::codec::lemma_find_byte_from_char(line@, SP, 0);
            }
            version_bytes = slice_subrange(line, 0, s1);
            if let Some(s2) = SharedResponseHandler::find_byte(line, SP, s1 + 1) {
                proof {
                    crate::codec::lemma_find_byte_from_char(line@, SP, s1 + 1);
                }
                code_bytes = slice_subrange(line, s1 + 1, s2);
                text_bytes = slice_subrange(line, s2 + 1, ln);
            } else {
                code_bytes = slice_subrange(line, s1 + 1, ln);
            }
        }
        proof {
            assert(version_bytes@ =~= spec_version_bytes(raw));
            assert(code_bytes@ =~= spec_code_bytes(raw));
            assert(text_bytes@ =~= spec_text_bytes(raw));
            assert(Seq::<u8>::empty() =~= line@.subrange(0, 0));
        }
        let http_version: String = string_or_empty(version_bytes);
        let status_code: u16 = SharedResponseHandler::parse_status_code(code_bytes);
        let status_text: String = string_or_empty(text_bytes);
        let head_end: usize = match SharedResponseHandler::find_double_crlf(response, 0) {
            Some(p) => {
                proof {
                    crate::codec::lemma_find_double_crlf_from_char(raw, 0);
                }
                p
            },
            None => n,
        };
        let region: &[u8] = if line_end < n && line_end + 2 <= head_end {
            slice_subrange(response, line_end + 2, head_end)
        } else {
            slice_subrange(response, 0, 0)
        };
        proof {
            assert(region@ =~= spec_headers_region(raw));
        }
        let mut crlf_pat: Vec<u8> = Vec::new();
        crlf_pat.push(CR);
        crlf_pat.push(LF);
        proof {
            assert(crlf_pat@ =~= crlf_bytes());
        }
        let lines: Vec<&[u8]> = split_multi_byte(region, crlf_pat.as_slice());
        let ghost lines_v = lines.deep_view();
        let mut headers: HeaderMap = HeaderMap::new();
        let ln2: usize = lines.len();
        let mut i: usize = 0;
        proof {
            assert(lines_v.take(0) =~= Seq::<Seq<u8>>::empty());
        }
        while i < ln2
            invariant
                lines_v == lines.deep_view(),
                ln2 == lines_v.len(),
                ln2 == lines@.len(),
                0 <= i <= ln2,
                headers.wf(),
                headers@ == spec_fold_headers(lines_v.take(i as int)),
            decreases ln2 - i,
        {
            let line_i: &[u8] = lines[i];
            proof {
                assert(line_i@ == lines_v[i as int]);
            }
            let lil: usize = line_i.len();
            if let Some(c) = SharedResponseHandler::find_byte(line_i, 58, 0) {
                proof {
                    crate::codec::lemma_find_byte_from_char(line_i@, 58, 0);
                }
                let name_b: &[u8] = slice_subrange(line_i, 0, c);
                let v0: usize = if c + 1 < lil {
                    if line_i[c + 1] == SP {
                        c + 2
                    } else {
                        c + 1
                    }
                } else {
                    c + 1
                };
                let value_b: &[u8] = slice_subrange(line_i, v0, lil);
                let name_s: Option<String> = string_checked(name_b);
                let value_s: Option<String> = string_checked(value_b);
                if let (Some(name), Some(value)) = (name_s, value_s) {
                    headers.insert(name, value);
                }
            }
            proof {
                assert(lines_v.take(i + 1).drop_last() =~= lines_v.take(i as int));
                assert(lines_v.take(i + 1).last() == lines_v[i as int]);
            }
            i = i + 1;
        }
        proof {
            assert(lines_v.take(ln2 as int) =~= lines_v);
        }
        let body: Vec<u8> = if head_end < n {
            slice_to_vec(slice_subrange(response, head_end + 4, n))
        } else {
            Vec::new()
        };
        proof {
            assert(body@ =~= spec_body_bytes(raw));
        }
        HttpResponseBinary { http_version, status_code, status_text, headers, body }
    }

    /// The text view of the same response: the body is decoded as UTF-8, and
    /// replaced by the empty string when it is not valid UTF-8.
    pub fn text(&self) -> (r: HttpResponseText)
        ensures
            r.http_version@ == self.http_version@,
            r.status_code == self.status_code,
            r.status_text@ == self.status_text@,
            r.headers@ == self.headers@,
            valid_utf8(self.body@) ==> r.body@ == decode_utf8(self.body@),
            !valid_utf8(self.body@) ==> r.body@ == Seq::<char>::empty(),
    {
        let body: String = match bytes_to_string(self.body.clone()) {
            Some(s) => {
                proof {
                    vstd::utf8::encode_utf8_valid_utf8(s@);
                    vstd::utf8::encode_utf8_decode_utf8(s@);
                }
                s
            },
            None => String::new(),
        };
        HttpResponseText {
            http_version: self.http_version.clone(),
            status_code: self.status_code,
            status_text: self.status_text.clone(),
            headers: self.headers.clone(),
            body,
        }
    }

    /// A response with the body decompressed as its `Content-Encoding`
    /// header dictates; without that header the body is untouched, so
    /// decoding an already-decoded response changes nothing.
    pub fn decode(&self, buffer_size: usize) -> (r: HttpResponseBinary)
        ensures
            r.http_version@ == self.http_version@,
            r.status_code == self.status_code,
            r.status_text@ == self.status_text@,
            r.headers@ == self.headers@,
            match spec_get(self.headers@, "content-encoding"@) {
                Some(enc) => r.body@ == decoded_of(enc, self.body@),
                None => r.body@ == self.body@,
            },
    {
        let body: Vec<u8> = match self.headers.get("content-encoding") {
            Some(enc) => decompress(enc.as_str(), self.body.as_slice(), buffer_size),
            None => self.body.clone(),
        };
        HttpResponseBinary {
            http_version: self.http_version.clone(),
            status_code: self.status_code,
            status_text: self.status_text.clone(),
            headers: self.headers.clone(),
            body,
        }
    }

    /// The binary view: a field-for-field copy.
    pub fn binary(&self) -> (r: HttpResponseBinary)
        ensures
            r.http_version@ == self.http_version@,
            r.status_code == self.status_code,
            r.status_text@ == self.status_text@,
            r.headers@ == self.headers@,
            r.body@ == self.body@,
    {
        HttpResponseBinary {
            http_version: self.http_version.clone(),
            status_code: self.status_code,
            status_text: self.status_text.clone(),
            headers: self.headers.clone(),
            body: self.body.clone(),
        }
    }

    /// The HTTP version named by the status line.
    pub fn get_http_version(&self) -> (r: HttpVersion)
        ensures
            r == spec_version_of(self.http_version@),
    {
        version_of_token(self.http_version.as_str())
    }

    /// The status code.
    pub fn get_status_code(&self) -> (r: u16)
        ensures
            r == self.status_code,
    {
        self.status_code
    }

    /// The reason phrase.
    pub fn get_status_text(&self) -> (r: String)
        ensures
            r@ == self.status_text@,
    {
        self.status_text.clone()
    }

    /// A copy of the headers.
    pub fn get_headers(&self) -> (r: HeaderMap)
        ensures
            r@ == self.headers@,
    {
        self.headers.clone()
    }

    /// A copy of the body bytes.
    pub fn get_body(&self) -> (r: Vec<u8>)
        ensures
            r@ == self.body@,
    {
        self.body.clone()
    }
}

impl HttpResponseText {
    /// Parses a raw response, as the binary form does, and decodes the body
    /// as UTF-8 (an invalid body becomes the empty string).
    pub fn from(response: &[u8]) -> (r: HttpResponseText)
        ensures
            r.http_version@ == decoded_or_empty(spec_version_bytes(response@)),
            r.status_code == spec_status_code(spec_code_bytes(response@)),
            r.status_text@ == decoded_or_empty(spec_text_bytes(response@)),
            r.headers@ == spec_response_headers(response@),
            r.headers.wf(),
            r.body@ == decoded_or_empty(spec_body_bytes(response@)),
    {
        HttpResponseBinary::from(response).text()
    }

    /// The text view: a field-for-field copy.
    pub fn text(&self) -> (r: HttpResponseText)
        ensures
            r.http_version@ == self.http_version@,
            r.status_code == self.status_code,
            r.status_text@ == self.status_text@,
            r.headers@ == self.headers@,
            r.body@ == self.body@,
    {
        HttpResponseText {
            http_version: self.http_version.clone(),
            status_code: self.status_code,
            status_text: self.status_text.clone(),
            headers: self.headers.clone(),
            body: self.body.clone(),
        }
    }

    /// A response with the body decompressed as its `Content-Encoding`
    /// header dictates; without that header the body is its UTF-8 bytes,
    /// untouched.
    pub fn decode(&self, buffer_size: usize) -> (r: HttpResponseBinary)
        ensures
            r.http_version@ == self.http_version@,
            r.status_code == self.status_code,
            r.status_text@ == self.status_text@,
            r.headers@ == self.headers@,
            match spec_get(self.headers@, "content-encoding"@) {
                Some(enc) => r.body@ == decoded_of(enc, chars_bytes(self.body@)),
                None => r.body@ == chars_bytes(self.body@),
            },
    {
        let raw: Vec<u8> = self.body.as_str().as_bytes_vec();
        let body: Vec<u8> = match self.headers.get("content-encoding") {
            Some(enc) => decompress(enc.as_str(), raw.as_slice(), buffer_size),
            None => raw,
        };
        HttpResponseBinary {
            http_version: self.http_version.clone(),
            status_code: self.status_code,
            status_text: self.status_text.clone(),
            headers: self.headers.clone(),
            body,
        }
    }

    /// The binary view of the same response: the body becomes its UTF-8
    /// bytes.
    pub fn binary(&self) -> (r: HttpResponseBinary)
        ensures
            r.http_version@ == self.http_version@,
            r.status_code == self.status_code,
            r.status_text@ == self.status_text@,
            r.headers@ == self.headers@,
            r.body@ == chars_bytes(self.body@),
    {
        HttpResponseBinary {
            http_version: self.http_version.clone(),
            status_code: self.status_code,
            status_text: self.status_text.clone(),
            headers: self.headers.clone(),
            body: self.body.as_str().as_bytes_vec(),
        }
    }

    /// The HTTP version named by the status line.
    pub fn get_http_version(&self) -> (r: HttpVersion)
        ensures
            r == spec_version_of(self.http_version@),
    {
        version_of_token(self.http_version.as_str())
    }

    /// The status code.
    pub fn get_status_code(&self) -> (r: u16)
        ensures
            r == self.status_code,
    {
        self.status_code
    }

    /// The reason phrase.
    pub fn get_status_text(&self) -> (r: String)
        ensures
            r@ == self.status_text@,
    {
        self.status_text.clone()
    }

    /// A copy of the headers.
    pub fn get_headers(&self) -> (r: HeaderMap)
        ensures
            r@ == self.headers@,
    {
        self.headers.clone()
    }

    /// A copy of the body text.
    pub fn get_body(&self) -> (r: String)
        ensures
            r@ == self.body@,
    {
        self.body.clone()
    }
}

impl Default for HttpResponseText {
    /// An empty response: unknown version, code 0 with the unknown status's
    /// text, nothing held.
    fn default() -> (r: Self)
        ensures
            r.http_version@ == Seq::<char>::empty(),
            r.status_code == 0,
            r.status_text@ == "Unknown"@,
            r.headers@ == Seq::<crate::headers::SpecEntry>::empty(),
            r.body@ == Seq::<char>::empty(),
    {
        HttpResponseText {
            http_version: String::new(),
            status_code: 0,
            status_text: String::from_str("Unknown"),
            headers: HeaderMap::new(),
            body: String::new(),
        }
    }
}

/// Maps a status-line token to the version it names.
fn version_of_token(token: &str) -> (r: HttpVersion)
    ensures
        r == spec_version_of(token@),
{
    let one: String = String::from_str("HTTP/1.1");
    let two: String = String::from_str("HTTP/2");
    let t: String = String::from_str(token);
    if t == one {
        HttpVersion::Http1_1
    } else if t == two {
        HttpVersion::Http2
    } else {
        HttpVersion::Unknown
    }
}

/// What decompression yields for a `Content-Encoding` token and a body; the
/// result depends on those two alone.
pub uninterp spec fn decoded_of(encoding: Seq<char>, data: Seq<u8>) -> Seq<u8>;

/// Relies on `http_compress::Compress`: `FromStr` maps an encoding token to
/// the algorithm it names (anything unrecognized to `Unknown`, without ever
/// failing), and `decode` yields the decompressed bytes, returning the input
/// unchanged for `Unknown`; the buffer size only paces the streams inside.
#[verifier::external_body]
fn decompress(encoding: &str, data: &[u8], buffer_size: usize) -> (r: Vec<u8>)
    ensures
        r@ == decoded_of(encoding@, data@),
        is_ascii_chars(encoding@) && !known_encoding(encoding@) ==> r@ == data@,
{
    let algorithm: http_type::Compress = encoding.parse().unwrap_or_default();
    algorithm.decode(data, buffer_size).into_owned()
}

/// An encoding token this client's decompressor acts on, compared ASCII-
/// case-insensitively.
pub open spec fn known_encoding(enc: Seq<char>) -> bool {
    ||| crate::headers::name_eq(enc, "gzip"@)
    ||| crate::headers::name_eq(enc, "deflate"@)
    ||| crate::headers::name_eq(enc, "br"@)
}

/// The UTF-8 string a byte slice holds, or the empty string when it is not
/// valid UTF-8.
fn string_or_empty(b: &[u8]) -> (r: String)
    ensures
        r@ == decoded_or_empty(b@),
{
    match string_checked(b) {
        Some(s) => s,
        None => String::new(),
    }
}

/// The UTF-8 string a byte slice holds, exactly when it holds one.
fn string_checked(b: &[u8]) -> (r: Option<String>)
    ensures
        match r {
            Some(s) => valid_utf8(b@) && s@ == decode_utf8(b@),
            None => !valid_utf8(b@),
        },
{
    match bytes_to_string(slice_to_vec(b)) {
        Some(s) => {
            proof {
                vstd::utf8::encode_utf8_valid_utf8(s@);
                vstd::utf8::encode_utf8_decode_utf8(s@);
            }
            Some(s)
        },
        None => None,
    }
}

/// Relies on `String::from_utf8`: on success the returned string's UTF-8
/// bytes are exactly the input, and valid UTF-8 input always succeeds.
#[verifier::external_body]
pub(crate) fn bytes_to_string(v: Vec<u8>) -> (r: Option<String>)
    ensures
        match r {
            Some(s) => chars_bytes(s@) == v@,
            None => true,
        },
        valid_utf8(v@) ==> r is Some,
{
    match String::from_utf8(v) {
        Ok(s) => Some(s),
        Err(_) => None,
    }
}


/// One serialized header line parses back to its own name and value.
proof fn lemma_entry_line_parses(e: SpecEntry)
    requires
        crate::headers::clean_header_name(e.0),
        crate::headers::clean_header_value(e.1),
    ensures
        spec_header_entry(crate::headers::entry_line(e)) == Some((e.0, e.1)),
{
    let nb = chars_bytes(e.0);
    let vb = chars_bytes(e.1);
    let line = crate::headers::entry_line(e);
    let c = nb.len() as int;
    assert(line[c] == 58);
    assert forall|k: int| 0 <= k < c implies line[k] != 58 by {
        assert(line[k] == nb[k]);
    }
    crate::codec::lemma_find_byte_first(line, 58, 0, c);
    assert(line[c + 1] == SP);
    assert(line.subrange(0, c) =~= nb);
    assert(line.subrange(c + 2, line.len() as int) =~= vb);
    vstd::utf8::encode_utf8_valid_utf8(e.0);
    vstd::utf8::encode_utf8_valid_utf8(e.1);
    vstd::utf8::encode_utf8_decode_utf8(e.0);
    vstd::utf8::encode_utf8_decode_utf8(e.1);
}

/// Folding the serialized lines of a well-formed map rebuilds that map.
proof fn lemma_fold_lines(m: Seq<SpecEntry>)
    requires
        crate::headers::map_wf(m),
        forall|i: int| 0 <= i < m.len() ==> crate::headers::clean_header_name(#[trigger] m[i].0)
            && crate::headers::clean_header_value(m[i].1),
    ensures
        spec_fold_headers(crate::headers::lines_of(m)) == m,
    decreases m.len(),
{
    let lines = crate::headers::lines_of(m);
    if m.len() == 0 {
        assert(lines =~= Seq::<Seq<u8>>::empty());
        assert(spec_fold_headers(lines) =~= m);
    } else {
        let ml = m.drop_last();
        assert(lines.drop_last() =~= crate::headers::lines_of(ml));
        assert(lines.last() == crate::headers::entry_line(m.last()));
        lemma_fold_lines(ml);
        lemma_entry_line_parses(m.last());
        crate::headers::lemma_find_key_char(ml, m.last().0);
        assert(crate::headers::find_key(ml, m.last().0) is None) by {
            if crate::headers::find_key(ml, m.last().0) is Some {
                let j = crate::headers::find_key(ml, m.last().0)->Some_0;
                assert(crate::headers::name_eq(m[j].0, m[m.len() - 1].0));
            }
        }
        assert(ml.push((m.last().0, m.last().1)) =~= m);
    }
}

/// The header map round trip: the serialized lines of a well-formed map
/// whose names and values fit the wire, read back as a response head's
/// header lines are read, rebuild exactly that map.
pub proof fn lemma_header_wire_round_trip(m: Seq<SpecEntry>)
    requires
        crate::headers::map_wf(m),
        forall|i: int| 0 <= i < m.len() ==> crate::headers::clean_header_name(#[trigger] m[i].0)
            && crate::headers::clean_header_value(m[i].1),
    ensures
        spec_fold_headers(
            crate::split::spec_split_multi_byte(crate::headers::wire_of(m), crlf_bytes()),
        ) == m,
{
    crate::headers::lemma_split_lines(m);
    lemma_fold_lines(m);
}

/// The wire round trip for a whole request: a message built from clean
/// parts and a well-formed header map parses back to the same method, path
/// and version, a header block that rebuilds the same map, and the same
/// body.
pub proof fn lemma_request_map_round_trip(
    method: Seq<u8>,
    path: Seq<u8>,
    m: Seq<SpecEntry>,
    body: Option<Seq<u8>>,
    version: Seq<u8>,
)
    requires
        method.len() > 0,
        path.len() > 0,
        version.len() > 0,
        forall|i: int| 0 <= i < method.len() ==> #[trigger] method[i] != SP && method[i] != CR
            && method[i] != LF,
        forall|i: int| 0 <= i < path.len() ==> #[trigger] path[i] != SP && path[i] != CR && path[i]
            != LF,
        forall|i: int| 0 <= i < version.len() ==> #[trigger] version[i] != CR && version[i] != LF,
        crate::headers::map_wf(m),
        forall|i: int| 0 <= i < m.len() ==> crate::headers::clean_header_name(#[trigger] m[i].0)
            && crate::headers::clean_header_value(m[i].1),
    ensures
        match crate::codec::spec_parse_request(
            crate::codec::spec_request_bytes(method, path, crate::headers::wire_of(m), body, version),
        ) {
            Some(parts) => {
                &&& parts.0 == method
                &&& parts.1 == path
                &&& parts.2 == version
                &&& spec_fold_headers(
                    crate::split::spec_split_multi_byte(parts.3, crlf_bytes()),
                ) == m
                &&& parts.4 == crate::codec::opt_bytes(body)
            },
            None => false,
        },
{
    crate::headers::lemma_wire_headers_ok(m);
    crate::codec::lemma_request_round_trip(method, path, crate::headers::wire_of(m), body, version);
    lemma_header_wire_round_trip(m);
}

} // verus!
