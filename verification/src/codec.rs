//! The wire codec: pure byte-level functions that build request messages and
//! pick apart response framing (status line, header fields, `Content-Length`,
//! CRLF delimiters), together with the specification functions that say
//! exactly what each one computes.

use vstd::prelude::*;
use vstd::slice::{slice_subrange, slice_to_vec};
use vstd::string::StringSliceAdditionalSpecFns;

use crate::error::RequestError;

verus! {

/// Carriage return.
pub const CR: u8 = 13;

/// Line feed.
pub const LF: u8 = 10;

/// ASCII space.
pub const SP: u8 = 32;

/// ASCII horizontal tab.
pub const HT: u8 = 9;

/// ASCII lowercasing of a single byte.
pub open spec fn lower(b: u8) -> u8 {
    if 65 <= b && b <= 90 {
        (b + 32) as u8
    } else {
        b
    }
}

/// The needle `n` occurs at offset `i` of `h`, compared ASCII-case-insensitively.
pub open spec fn ci_match_at(h: Seq<u8>, n: Seq<u8>, i: int) -> bool {
    &&& 0 <= i
    &&& i + n.len() <= h.len()
    &&& forall|j: int| 0 <= j < n.len() ==> lower(h[i + j]) == lower(#[trigger] n[j])
}

/// The first offset at or after `i` where `n` occurs case-insensitively in `h`.
pub open spec fn find_ci_from(h: Seq<u8>, n: Seq<u8>, i: int) -> Option<int>
    decreases h.len() - i when 0 <= i && n.len() > 0
{
    if i + n.len() > h.len() {
        None
    } else if ci_match_at(h, n, i) {
        Some(i)
    } else {
        find_ci_from(h, n, i + 1)
    }
}

/// What `find_pattern_case_insensitive` returns: no offset for an empty
/// needle or one longer than the haystack, else the first match.
pub open spec fn spec_find_ci(h: Seq<u8>, n: Seq<u8>) -> Option<int> {
    if n.len() == 0 || h.len() < n.len() {
        None
    } else {
        find_ci_from(h, n, 0)
    }
}

/// A CRLF pair starts at offset `i` of `d`.
pub open spec fn crlf_at(d: Seq<u8>, i: int) -> bool {
    &&& 0 <= i
    &&& i + 2 <= d.len()
    &&& d[i] == CR
    &&& d[i + 1] == LF
}

/// A double CRLF (blank line) starts at offset `i` of `d`.
pub open spec fn double_crlf_at(d: Seq<u8>, i: int) -> bool {
    &&& 0 <= i
    &&& i + 4 <= d.len()
    &&& d[i] == CR
    &&& d[i + 1] == LF
    &&& d[i + 2] == CR
    &&& d[i + 3] == LF
}

/// The first offset at or after `i` where a CRLF pair starts.
pub open spec fn find_crlf_from(d: Seq<u8>, i: int) -> Option<int>
    decreases d.len() - i when 0 <= i
{
    if i + 2 > d.len() {
        None
    } else if crlf_at(d, i) {
        Some(i)
    } else {
        find_crlf_from(d, i + 1)
    }
}

/// The first offset at or after `i` where a double CRLF starts.
pub open spec fn find_double_crlf_from(d: Seq<u8>, i: int) -> Option<int>
    decreases d.len() - i when 0 <= i
{
    if i + 4 > d.len() {
        None
    } else if double_crlf_at(d, i) {
        Some(i)
    } else {
        find_double_crlf_from(d, i + 1)
    }
}

/// The first offset at or after `i` where byte `b` occurs.
pub open spec fn find_byte_from(d: Seq<u8>, b: u8, i: int) -> Option<int>
    decreases d.len() - i when 0 <= i
{
    if i >= d.len() {
        None
    } else if d[i] == b {
        Some(i)
    } else {
        find_byte_from(d, b, i + 1)
    }
}

/// ASCII decimal digit.
pub open spec fn is_digit(b: u8) -> bool {
    48 <= b && b <= 57
}

/// Space or horizontal tab.
pub open spec fn is_ws(b: u8) -> bool {
    b == SP || b == HT
}

/// Length of the run of whitespace bytes starting at `i`.
pub open spec fn ws_run(s: Seq<u8>, i: int) -> int
    decreases s.len() - i when 0 <= i <= s.len()
{
    if i == s.len() || !is_ws(s[i]) {
        0
    } else {
        1 + ws_run(s, i + 1)
    }
}

/// Length of the run of decimal digits starting at `i`.
pub open spec fn digit_run(s: Seq<u8>, i: int) -> int
    decreases s.len() - i when 0 <= i <= s.len()
{
    if i == s.len() || !is_digit(s[i]) {
        0
    } else {
        1 + digit_run(s, i + 1)
    }
}

/// The number denoted by a sequence of decimal digit bytes, most significant
/// first, as an unbounded integer.
pub open spec fn digits_value(s: Seq<u8>) -> int
    decreases s.len()
{
    if s.len() == 0 {
        0
    } else {
        digits_value(s.drop_last()) * 10 + (s.last() - 48)
    }
}

/// Saturation of an unbounded integer into `usize`.
pub open spec fn sat_usize(v: int) -> int {
    if v > usize::MAX {
        usize::MAX as int
    } else {
        v
    }
}

/// What `parse_decimal_bytes` returns: skip leading whitespace, read the run
/// of digits that follows, and saturate its value into `usize`; anything else
/// ends the number (an empty digit run denotes 0).
pub open spec fn spec_parse_decimal(s: Seq<u8>) -> int {
    let j = ws_run(s, 0);
    sat_usize(digits_value(s.subrange(j, j + digit_run(s, j))))
}

/// What `parse_status_code` returns: the number held by exactly three ASCII
/// digits, and 0 for every other input.
pub open spec fn spec_status_code(s: Seq<u8>) -> int {
    if s.len() == 3 && is_digit(s[0]) && is_digit(s[1]) && is_digit(s[2]) {
        (s[0] - 48) * 100 + (s[1] - 48) * 10 + (s[2] - 48)
    } else {
        0
    }
}

/// The byte pattern `Content-Length:`.
pub open spec fn cl_pattern() -> Seq<u8> {
    seq![67u8, 111u8, 110u8, 116u8, 101u8, 110u8, 116u8, 45u8, 76u8, 101u8, 110u8, 103u8, 116u8, 104u8, 58u8]
}

/// What `get_content_length` returns: find `Content-Length:` case-
/// insensitively, skip one optional space after the colon, and parse the
/// decimal that runs to the next CRLF; 0 when anything is missing.
pub open spec fn spec_content_length(resp: Seq<u8>) -> int {
    match spec_find_ci(resp, cl_pattern()) {
        Some(pos) => {
            let v0 = pos + cl_pattern().len();
            let v = if v0 < resp.len() && resp[v0] == SP {
                v0 + 1
            } else {
                v0
            };
            match find_crlf_from(resp, v) {
                Some(e) => spec_parse_decimal(resp.subrange(v, e)),
                None => 0,
            }
        },
        None => 0,
    }
}

/// What `calculate_buffer_capacity` returns, with every overflow saturated:
/// 0 when the current capacity already holds `len + n` bytes; otherwise at
/// least 1024 when starting from nothing, a doubling while that suffices, and
/// one-and-a-half times the need, rounded up, beyond that.
pub open spec fn spec_buffer_capacity(len: int, n: int, cap: int) -> int {
    let needed = sat_usize(len + n);
    if needed <= cap {
        0
    } else if cap == 0 {
        if needed >= 1024 {
            needed
        } else {
            1024
        }
    } else if needed <= sat_usize(2 * cap) {
        sat_usize(2 * cap)
    } else {
        sat_usize(3 * needed + 1) / 2
    }
}

/// The UTF-8 bytes of a character sequence, as a string's `as_bytes` yields
/// them.
pub open spec fn chars_bytes(s: Seq<char>) -> Seq<u8> {
    vstd::utf8::encode_utf8(s)
}

/// A non-empty text has non-empty UTF-8 bytes.
pub proof fn lemma_chars_bytes_nonempty(s: Seq<char>)
    requires
        s.len() > 0,
    ensures
        chars_bytes(s).len() > 0,
{
    assert(vstd::utf8::encode_scalar(s[0] as u32).len() >= 1);
    assert(chars_bytes(s) == vstd::utf8::encode_scalar(s[0] as u32) + vstd::utf8::encode_utf8(
        s.drop_first(),
    ));
}

/// The two-byte CRLF sequence.
pub open spec fn crlf_bytes() -> Seq<u8> {
    seq![CR, LF]
}

/// The bytes of an `Option`al body: the body itself, or nothing.
pub open spec fn opt_bytes(b: Option<Seq<u8>>) -> Seq<u8> {
    match b {
        Some(s) => s,
        None => Seq::empty(),
    }
}

/// The full request message: `METHOD SP path SP VERSION CRLF headers CRLF [body]`.
pub open spec fn spec_request_bytes(
    method: Seq<u8>,
    path: Seq<u8>,
    headers: Seq<u8>,
    body: Option<Seq<u8>>,
    version: Seq<u8>,
) -> Seq<u8> {
    method + seq![SP] + path + seq![SP] + version + crlf_bytes() + headers + crlf_bytes()
        + opt_bytes(body)
}

/// What `parse_response_headers` stores into its redirect slot: the bytes
/// between the `Location` pattern and the next CRLF, but only when the three
/// digits after the HTTP version read as a 3xx status.
pub open spec fn spec_redirect_url(
    headers: Seq<u8>,
    version: Seq<u8>,
    location_key: Seq<u8>,
) -> Option<Seq<u8>> {
    match spec_find_ci(headers, version) {
        Some(vp) => {
            let scs = vp + version.len() + 1;
            if scs + 3 <= headers.len() {
                let code = spec_status_code(headers.subrange(scs, scs + 3));
                if 300 <= code && code <= 399 {
                    match spec_find_ci(headers, location_key) {
                        Some(lp) => {
                            let start = lp + location_key.len();
                            match find_crlf_from(headers, start) {
                                Some(e) => Some(headers.subrange(start, e)),
                                None => None,
                            }
                        },
                        None => None,
                    }
                } else {
                    None
                }
            } else {
                None
            }
        },
        None => None,
    }
}

/// Shared helpers that assemble complete HTTP/1.1 request messages.
pub struct SharedRequestBuilder;

/// Shared helpers that take apart HTTP/1.1 response framing.
pub struct SharedResponseHandler;

impl SharedRequestBuilder {
    /// Assembles the complete request message
    /// `METHOD SP path SP VERSION CRLF headers CRLF [body]`.
    pub fn build_http_request(
        method: &str,
        path: String,
        header_bytes: Vec<u8>,
        body_bytes: Option<Vec<u8>>,
        http_version_str: String,
    ) -> (r: Vec<u8>)
        ensures
            r@ == spec_request_bytes(
                chars_bytes(method@),
                chars_bytes(path@),
                header_bytes@,
                body_bytes.deep_view(),
                chars_bytes(http_version_str@),
            ),
    {
        let ghost spec_total = spec_request_bytes(
            chars_bytes(method@),
            chars_bytes(path@),
            header_bytes@,
            body_bytes.deep_view(),
            chars_bytes(http_version_str@),
        );
        let method_bytes: &[u8] = method.as_bytes();
        let path_str: &str = path.as_str();
        let path_bytes: &[u8] = path_str.as_bytes();
        let version_str: &str = http_version_str.as_str();
        let version_bytes: &[u8] = version_str.as_bytes();
        let body_size: usize = match &body_bytes {
            Some(b) => b.len(),
            None => 0,
        };
        let request_line_size: usize = method_bytes.len().saturating_add(1).saturating_add(
            path_bytes.len(),
        ).saturating_add(1).saturating_add(version_bytes.len());
        let total_size: usize = request_line_size.saturating_add(2).saturating_add(
            header_bytes.len(),
        ).saturating_add(2).saturating_add(body_size);
        let mut request: Vec<u8> = Vec::with_capacity(total_size);
        request.extend_from_slice(method_bytes);
        request.push(SP);
        request.extend_from_slice(path_bytes);
        request.push(SP);
        request.extend_from_slice(version_bytes);
        request.push(CR);
        request.push(LF);
        request.extend_from_slice(header_bytes.as_slice());
        request.push(CR);
        request.push(LF);
        if let Some(body) = &body_bytes {
            request.extend_from_slice(body.as_slice());
        }
        proof {
            assert(request@ =~= spec_total);
        }
        request
    }

    /// Assembles a GET request message: the common form with no body.
    pub fn build_get_request(path: String, header_bytes: Vec<u8>, http_version_str: String) -> (r:
        Vec<u8>)
        ensures
            r@ == spec_request_bytes(
                chars_bytes("GET"@),
                chars_bytes(path@),
                header_bytes@,
                None,
                chars_bytes(http_version_str@),
            ),
    {
        Self::build_http_request("GET", path, header_bytes, None, http_version_str)
    }

    /// Assembles a POST request message carrying `body_bytes`.
    pub fn build_post_request(
        path: String,
        header_bytes: Vec<u8>,
        body_bytes: Vec<u8>,
        http_version_str: String,
    ) -> (r: Vec<u8>)
        ensures
            r@ == spec_request_bytes(
                chars_bytes("POST"@),
                chars_bytes(path@),
                header_bytes@,
                Some(body_bytes@),
                chars_bytes(http_version_str@),
            ),
    {
        Self::build_http_request("POST", path, header_bytes, Some(body_bytes), http_version_str)
    }
}

impl SharedResponseHandler {
    /// The first position in `haystack` where `needle` occurs, compared
    /// ASCII-case-insensitively; none for an empty needle or one longer than
    /// the haystack.
    pub fn find_pattern_case_insensitive(haystack: &[u8], needle: &[u8]) -> (r: Option<usize>)
        ensures
            match r {
                Some(i) => spec_find_ci(haystack@, needle@) == Some(i as int),
                None => spec_find_ci(haystack@, needle@) is None,
            },
    {
        if needle.len() == 0 || haystack.len() < needle.len() {
            return None;
        }
        let hay_len: usize = haystack.len();
        let needle_len: usize = needle.len();
        let search_len: usize = hay_len - needle_len + 1;
        let mut i: usize = 0;
        while i < search_len
            invariant
                needle@.len() > 0,
                hay_len == haystack@.len(),
                needle_len == needle@.len(),
                hay_len >= needle_len,
                search_len == hay_len - needle_len + 1,
                0 <= i <= search_len,
                find_ci_from(haystack@, needle@, 0) == find_ci_from(haystack@, needle@, i as int),
            decreases search_len - i,
        {
            let mut j: usize = 0;
            let mut hit: bool = true;
            while j < needle_len
                invariant
                    hay_len == haystack@.len(),
                    needle_len == needle@.len(),
                    i + needle_len <= hay_len,
                    0 <= j <= needle_len,
                    hit ==> forall|l: int| 0 <= l < j ==> lower(haystack@[i + l]) == lower(#[trigger] needle@[l]),
                    !hit ==> !ci_match_at(haystack@, needle@, i as int),
                decreases needle_len - j,
            {
                if byte_lower(haystack[i + j]) != byte_lower(needle[j]) {
                    hit = false;
                    j = needle_len;
                } else {
                    j = j + 1;
                }
            }
            if hit {
                assert(ci_match_at(haystack@, needle@, i as int));
                return Some(i);
            }
            assert(find_ci_from(haystack@, needle@, i as int) == find_ci_from(
                haystack@,
                needle@,
                i + 1,
            ));
            i = i + 1;
        }
        assert(find_ci_from(haystack@, needle@, i as int) is None);
        None
    }

    /// The offset at or after `start` of the first occurrence of `b`.
    pub fn find_byte(data: &[u8], b: u8, start: usize) -> (r: Option<usize>)
        requires
            start <= data@.len(),
        ensures
            match r {
                Some(i) => find_byte_from(data@, b, start as int) == Some(i as int),
                None => find_byte_from(data@, b, start as int) is None,
            },
    {
        let n: usize = data.len();
        let mut i: usize = start;
        while i < n
            invariant
                n == data@.len(),
                start <= i <= n,
                find_byte_from(data@, b, start as int) == find_byte_from(data@, b, i as int),
            decreases n - i,
        {
            if data[i] == b {
                return Some(i);
            }
            i = i + 1;
        }
        None
    }

    /// The offset at or after `start` where the first `\r\n` begins.
    pub fn find_crlf(data: &[u8], start: usize) -> (r: Option<usize>)
        requires
            start <= data@.len(),
        ensures
            match r {
                Some(i) => find_crlf_from(data@, start as int) == Some(i as int),
                None => find_crlf_from(data@, start as int) is None,
            },
    {
        let n: usize = data.len();
        let mut i: usize = start;
        while n >= 2 && i <= n - 2
            invariant
                n == data@.len(),
                start <= i <= n,
                find_crlf_from(data@, start as int) == find_crlf_from(data@, i as int),
            decreases n - i,
        {
            if data[i] == CR && data[i + 1] == LF {
                return Some(i);
            }
            i = i + 1;
        }
        None
    }

    /// The offset at or after `start` where the first `\r\n\r\n` begins.
    pub fn find_double_crlf(data: &[u8], start: usize) -> (r: Option<usize>)
        requires
            start <= data@.len(),
        ensures
            match r {
                Some(i) => find_double_crlf_from(data@, start as int) == Some(i as int),
                None => find_double_crlf_from(data@, start as int) is None,
            },
    {
        let n: usize = data.len();
        let mut i: usize = start;
        while n >= 4 && i <= n - 4
            invariant
                n == data@.len(),
                start <= i <= n,
                find_double_crlf_from(data@, start as int) == find_double_crlf_from(data@, i as int),
            decreases n - i,
        {
            if data[i] == CR && data[i + 1] == LF && data[i + 2] == CR && data[i + 3] == LF {
                return Some(i);
            }
            i = i + 1;
        }
        None
    }

    /// Skip leading whitespace, then accumulate decimal digits until the
    /// first non-digit, saturating at `usize::MAX`.
    pub fn parse_decimal_bytes(bytes: &[u8]) -> (r: usize)
        ensures
            r == spec_parse_decimal(bytes@),
    {
        let ghost s = bytes@;
        let ghost j = ws_run(s, 0);
        let n: usize = bytes.len();
        let mut result: usize = 0;
        let mut started: bool = false;
        let mut i: usize = 0;
        proof {
            lemma_ws_run_char(s, 0);
        }
        while i < n
            invariant
                s == bytes@,
                n == s.len(),
                j == ws_run(s, 0),
                0 <= j <= s.len(),
                0 <= i <= n,
                !started ==> i <= j && result == 0,
                started ==> j < i && i - j <= digit_run(s, j) && result == sat_usize(
                    digits_value(s.subrange(j, i as int)),
                ),
            decreases n - i,
        {
            proof {
                lemma_ws_run_char(s, 0);
                lemma_digit_run_char(s, j);
            }
            let byte: u8 = bytes[i];
            if 48 <= byte && byte <= 57 {
                proof {
                    if !started {
                        // a digit is not whitespace, so the whitespace run ends here
                        assert(i == j);
                        assert(digit_run(s, j) >= 1);
                        assert(s.subrange(j, j + 1).drop_last() =~= Seq::<u8>::empty());
                    } else {
                        // were the run already over, this byte would not be a digit
                        assert(i - j < digit_run(s, j));
                    }
                    let pre = s.subrange(j, i as int);
                    let post = s.subrange(j, i + 1);
                    assert(post.drop_last() =~= pre);
                    assert(forall|l: int| 0 <= l < pre.len() ==> is_digit(#[trigger] pre[l]));
                    lemma_digits_value_nonneg(pre);
                    lemma_sat_step(digits_value(pre), (byte - 48) as int);
                }
                started = true;
                result = saturating_mul_10_add(result, byte - 48);
            } else if (byte == SP || byte == HT) && !started {
                proof {
                    assert(i < j);
                }
            } else {
                proof {
                    if !started {
                        assert(i == j);
                        assert(digit_run(s, j) == 0);
                        assert(s.subrange(j, j) =~= Seq::<u8>::empty());
                    } else {
                        assert(digit_run(s, j) == i - j);
                    }
                }
                return result;
            }
            i = i + 1;
        }
        proof {
            lemma_ws_run_char(s, 0);
            lemma_digit_run_char(s, j);
            if !started {
                assert(j == s.len());
                assert(digit_run(s, j) == 0);
                assert(s.subrange(j, j) =~= Seq::<u8>::empty());
            } else {
                assert(digit_run(s, j) == i - j);
            }
        }
        result
    }

    /// The number held by exactly three ASCII digits; 0 for any other input.
    pub fn parse_status_code(status_bytes: &[u8]) -> (r: u16)
        ensures
            r == spec_status_code(status_bytes@),
            r <= 999,
    {
        if status_bytes.len() != 3 {
            return 0;
        }
        let b0: u8 = status_bytes[0];
        let b1: u8 = status_bytes[1];
        let b2: u8 = status_bytes[2];
        if b0 < 48 || b0 > 57 || b1 < 48 || b1 > 57 || b2 < 48 || b2 > 57 {
            return 0;
        }
        ((b0 - 48) as u16) * 100 + ((b1 - 48) as u16) * 10 + ((b2 - 48) as u16)
    }

    /// The recommended new capacity for a response buffer that holds
    /// `response_bytes` and must take `n` more bytes; 0 when the current
    /// capacity already suffices.
    pub fn calculate_buffer_capacity(response_bytes: &[u8], n: usize, current_capacity: usize) -> (r:
        usize)
        ensures
            r == spec_buffer_capacity(response_bytes@.len() as int, n as int, current_capacity as int),
    {
        let len: usize = response_bytes.len();
        let needed: usize = len.saturating_add(n);
        if needed <= current_capacity {
            return 0;
        }
        if current_capacity == 0 {
            if needed >= 1024 {
                needed
            } else {
                1024
            }
        } else {
            let doubled: usize = sat_mul(current_capacity, 2);
            if needed <= doubled {
                doubled
            } else {
                sat_mul(needed, 3).saturating_add(1) / 2
            }
        }
    }

    /// The 15 bytes of `Content-Length:`.
    pub fn content_length_pattern() -> (r: Vec<u8>)
        ensures
            r@ == cl_pattern(),
    {
        let mut v: Vec<u8> = Vec::with_capacity(15);
        v.push(67);
        v.push(111);
        v.push(110);
        v.push(116);
        v.push(101);
        v.push(110);
        v.push(116);
        v.push(45);
        v.push(76);
        v.push(101);
        v.push(110);
        v.push(103);
        v.push(116);
        v.push(104);
        v.push(58);
        proof {
            assert(v@ =~= cl_pattern());
        }
        v
    }

    /// The value of the first `Content-Length:` header in `response_bytes`,
    /// located case-insensitively; 0 when the header or its line end is
    /// missing.
    pub fn get_content_length(response_bytes: &[u8]) -> (r: usize)
        ensures
            r == spec_content_length(response_bytes@),
    {
        let pattern: Vec<u8> = Self::content_length_pattern();
        let n: usize = response_bytes.len();
        if let Some(pos) = Self::find_pattern_case_insensitive(response_bytes, pattern.as_slice()) {
            proof {
                lemma_find_ci_from_char(response_bytes@, cl_pattern(), 0);
                assert(pos + cl_pattern().len() <= n);
            }
            let mut value_start: usize = pos + pattern.len();
            if value_start < response_bytes.len() {
                if response_bytes[value_start] == SP {
                    value_start = value_start + 1;
                }
            }
            if let Some(end_pos) = Self::find_crlf(response_bytes, value_start) {
                proof {
                    lemma_find_crlf_from_char(response_bytes@, value_start as int);
                }
                let value_bytes: &[u8] = slice_subrange(response_bytes, value_start, end_pos);
                return Self::parse_decimal_bytes(value_bytes);
            }
            return 0;
        }
        0
    }

    /// Reads the framing facts out of a response head: always stores the
    /// `Content-Length` value, and stores the `Location` target only when the
    /// three digits after the HTTP version read as a 3xx status; an absent
    /// target leaves the slot as it was.
    pub fn parse_response_headers(
        headers_bytes: &[u8],
        http_version_bytes: &[u8],
        location_sign_key: &[u8],
        content_length: &mut usize,
        redirect_url: &mut Option<Vec<u8>>,
    ) -> (r: Result<(), RequestError>)
        ensures
            r is Ok,
            *final(content_length) == spec_content_length(headers_bytes@),
            match spec_redirect_url(headers_bytes@, http_version_bytes@, location_sign_key@) {
                Some(u) => match *final(redirect_url) {
                    Some(v) => v@ == u,
                    None => false,
                },
                None => *final(redirect_url) == *old(redirect_url),
            },
    {
        if http_version_bytes.len() > 0 {
            if let Some(status_pos) = Self::find_pattern_case_insensitive(
                headers_bytes,
                http_version_bytes,
            ) {
                let hlen: usize = headers_bytes.len();
                proof {
                    lemma_find_ci_from_char(headers_bytes@, http_version_bytes@, 0);
                    assert(status_pos + http_version_bytes@.len() <= hlen);
                }
                let after_version: usize = status_pos + http_version_bytes.len();
                if headers_bytes.len() - after_version >= 4 {
                    let status_code_start: usize = after_version + 1;
                    let status_code_end: usize = status_code_start + 3;
                    let status_code: u16 = Self::parse_status_code(
                        slice_subrange(headers_bytes, status_code_start, status_code_end),
                    );
                    if 300 <= status_code && status_code <= 399 {
                        if location_sign_key.len() > 0 {
                            if let Some(location_pos) = Self::find_pattern_case_insensitive(
                                headers_bytes,
                                location_sign_key,
                            ) {
                                proof {
                                    lemma_find_ci_from_char(
                                        headers_bytes@,
                                        location_sign_key@,
                                        0,
                                    );
                                }
                                let start: usize = location_pos + location_sign_key.len();
                                if let Some(end_pos) = Self::find_crlf(headers_bytes, start) {
                                    proof {
                                        lemma_find_crlf_from_char(headers_bytes@, start as int);
                                    }
                                    let url_vec: Vec<u8> = slice_to_vec(
                                        slice_subrange(headers_bytes, start, end_pos),
                                    );
                                    *redirect_url = Some(url_vec);
                                }
                            }
                        }
                    }
                }
            }
        }
        *content_length = Self::get_content_length(headers_bytes);
        Ok(())
    }
}

/// ASCII lowercasing of one byte, as `lower` describes.
pub fn byte_lower(b: u8) -> (r: u8)
    ensures
        r == lower(b),
{
    if 65 <= b && b <= 90 {
        b + 32
    } else {
        b
    }
}

/// Multiplication that saturates at `usize::MAX`.
fn sat_mul(a: usize, b: usize) -> (r: usize)
    ensures
        r == sat_usize(a * b),
{
    match a.checked_mul(b) {
        Some(v) => v,
        None => usize::MAX,
    }
}

/// One step of decimal accumulation, saturating at `usize::MAX`.
fn saturating_mul_10_add(acc: usize, d: u8) -> (r: usize)
    requires
        d <= 9,
    ensures
        r == sat_usize(sat_usize(acc * 10) + d),
{
    sat_mul(acc, 10).saturating_add(d as usize)
}

/// Saturated accumulation computes the saturated value of the whole number.
proof fn lemma_sat_step(v: int, d: int)
    requires
        v >= 0,
        0 <= d <= 9,
    ensures
        sat_usize(sat_usize(sat_usize(v) * 10) + d) == sat_usize(v * 10 + d),
{
    if v > usize::MAX {
        assert(v * 10 + d > usize::MAX) by (nonlinear_arith)
            requires v > usize::MAX && d >= 0;
        assert(usize::MAX * 10 > usize::MAX) by (nonlinear_arith);
    } else {
        if v * 10 > usize::MAX {
            assert(v * 10 + d > usize::MAX);
        }
    }
}

/// The value of a string of digits is never negative.
pub proof fn lemma_digits_value_nonneg(s: Seq<u8>)
    requires
        forall|l: int| 0 <= l < s.len() ==> is_digit(#[trigger] s[l]),
    ensures
        digits_value(s) >= 0,
    decreases s.len(),
{
    if s.len() > 0 {
        lemma_digits_value_nonneg(s.drop_last());
        assert(digits_value(s.drop_last()) * 10 >= 0) by (nonlinear_arith)
            requires digits_value(s.drop_last()) >= 0;
    }
}

/// The whitespace run from `i`: every byte inside it is whitespace, and the
/// byte just past it (if any) is not.
proof fn lemma_ws_run_char(s: Seq<u8>, i: int)
    requires
        0 <= i <= s.len(),
    ensures
        0 <= ws_run(s, i),
        i + ws_run(s, i) <= s.len(),
        forall|l: int| i <= l < i + ws_run(s, i) ==> is_ws(#[trigger] s[l]),
        i + ws_run(s, i) == s.len() || !is_ws(s[i + ws_run(s, i)]),
    decreases s.len() - i,
{
    if i < s.len() && is_ws(s[i]) {
        lemma_ws_run_char(s, i + 1);
    }
}

/// The digit run from `i`: every byte inside it is a digit, and the byte just
/// past it (if any) is not.
proof fn lemma_digit_run_char(s: Seq<u8>, i: int)
    requires
        0 <= i <= s.len(),
    ensures
        0 <= digit_run(s, i),
        i + digit_run(s, i) <= s.len(),
        forall|l: int| i <= l < i + digit_run(s, i) ==> is_digit(#[trigger] s[l]),
        i + digit_run(s, i) == s.len() || !is_digit(s[i + digit_run(s, i)]),
    decreases s.len() - i,
{
    if i < s.len() && is_digit(s[i]) {
        lemma_digit_run_char(s, i + 1);
    }
}


/// Characterization of `find_ci_from`: the returned offset is the first
/// case-insensitive match at or after `i`, and absence means there is none.
pub proof fn lemma_find_ci_from_char(h: Seq<u8>, n: Seq<u8>, i: int)
    requires
        0 <= i,
        n.len() > 0,
    ensures
        match find_ci_from(h, n, i) {
            Some(p) => i <= p && ci_match_at(h, n, p) && forall|k: int|
                i <= k < p ==> !ci_match_at(h, n, k),
            None => forall|k: int| i <= k ==> !ci_match_at(h, n, k),
        },
    decreases h.len() - i,
{
    if i + n.len() > h.len() {
    } else if ci_match_at(h, n, i) {
    } else {
        lemma_find_ci_from_char(h, n, i + 1);
    }
}

/// Characterization of `find_byte_from`: the first occurrence of `b` at or
/// after `i`.
pub proof fn lemma_find_byte_from_char(d: Seq<u8>, b: u8, i: int)
    requires
        0 <= i,
    ensures
        match find_byte_from(d, b, i) {
            Some(p) => i <= p < d.len() && d[p] == b && forall|k: int| i <= k < p ==> d[k] != b,
            None => forall|k: int| i <= k < d.len() ==> d[k] != b,
        },
    decreases d.len() - i,
{
    if i < d.len() && d[i] != b {
        lemma_find_byte_from_char(d, b, i + 1);
    }
}

/// Characterization of `find_crlf_from`: the first CRLF at or after `i`.
pub proof fn lemma_find_crlf_from_char(d: Seq<u8>, i: int)
    requires
        0 <= i,
    ensures
        match find_crlf_from(d, i) {
            Some(p) => i <= p && crlf_at(d, p) && forall|k: int| i <= k < p ==> !crlf_at(d, k),
            None => forall|k: int| i <= k ==> !crlf_at(d, k),
        },
    decreases d.len() - i,
{
    if i + 2 > d.len() {
    } else if crlf_at(d, i) {
    } else {
        lemma_find_crlf_from_char(d, i + 1);
    }
}

/// Characterization of `find_double_crlf_from`: the first blank line at or
/// after `i`.
pub proof fn lemma_find_double_crlf_from_char(d: Seq<u8>, i: int)
    requires
        0 <= i,
    ensures
        match find_double_crlf_from(d, i) {
            Some(p) => i <= p && double_crlf_at(d, p) && forall|k: int|
                i <= k < p ==> !double_crlf_at(d, k),
            None => forall|k: int| i <= k ==> !double_crlf_at(d, k),
        },
    decreases d.len() - i,
{
    if i + 4 > d.len() {
    } else if double_crlf_at(d, i) {
    } else {
        lemma_find_double_crlf_from_char(d, i + 1);
    }
}


/// When `b` occurs at `e` and nowhere earlier, the search from `i` finds
/// exactly `e`.
pub proof fn lemma_find_byte_first(d: Seq<u8>, b: u8, i: int, e: int)
    requires
        0 <= i <= e < d.len(),
        d[e] == b,
        forall|k: int| i <= k < e ==> d[k] != b,
    ensures
        find_byte_from(d, b, i) == Some(e),
{
    lemma_find_byte_from_char(d, b, i);
    match find_byte_from(d, b, i) {
        Some(p) => {
            if p < e {
            } else if p > e {
                assert(d[e] != b);
            }
        },
        None => {
            assert(d[e] != b);
        },
    }
}

/// When a CRLF starts at `e` and nowhere earlier, the search from `i` finds
/// exactly `e`.
pub proof fn lemma_find_crlf_first(d: Seq<u8>, i: int, e: int)
    requires
        0 <= i <= e,
        crlf_at(d, e),
        forall|k: int| i <= k < e ==> !crlf_at(d, k),
    ensures
        find_crlf_from(d, i) == Some(e),
{
    lemma_find_crlf_from_char(d, i);
    match find_crlf_from(d, i) {
        Some(p) => {
            if p > e {
                assert(!crlf_at(d, e));
            }
        },
        None => {
            assert(!crlf_at(d, e));
        },
    }
}

/// When a blank line starts at `e` and nowhere earlier, the search from `i`
/// finds exactly `e`.
pub proof fn lemma_find_double_crlf_first(d: Seq<u8>, i: int, e: int)
    requires
        0 <= i <= e,
        double_crlf_at(d, e),
        forall|k: int| i <= k < e ==> !double_crlf_at(d, k),
    ensures
        find_double_crlf_from(d, i) == Some(e),
{
    lemma_find_double_crlf_from_char(d, i);
    match find_double_crlf_from(d, i) {
        Some(p) => {
            if p > e {
                assert(!double_crlf_at(d, e));
            }
        },
        None => {
            assert(!double_crlf_at(d, e));
        },
    }
}

/// Case-insensitive search finds the needle exactly when an ASCII-case-
/// equivalent substring occurs, and then at the first such offset.
pub proof fn lemma_find_pattern_iff(h: Seq<u8>, n: Seq<u8>)
    requires
        n.len() > 0,
    ensures
        (spec_find_ci(h, n) is Some) <==> exists|i: int| ci_match_at(h, n, i),
        match spec_find_ci(h, n) {
            Some(p) => ci_match_at(h, n, p) && forall|k: int| 0 <= k < p ==> !ci_match_at(h, n, k),
            None => true,
        },
{
    if h.len() < n.len() {
        assert forall|i: int| !ci_match_at(h, n, i) by {}
    } else {
        lemma_find_ci_from_char(h, n, 0);
        match find_ci_from(h, n, 0) {
            Some(p) => {
                assert(ci_match_at(h, n, p));
            },
            None => {
                assert forall|i: int| !ci_match_at(h, n, i) by {
                    if i >= 0 {
                        assert(!ci_match_at(h, n, i));
                    }
                }
            },
        }
    }
}

/// Buffer growth never recommends less than the bytes held plus the bytes
/// needed, and recommends nothing exactly when the capacity already
/// suffices.
pub proof fn lemma_buffer_capacity_monotone(len: int, n: int, cap: int)
    requires
        0 <= len,
        0 <= n,
        0 <= cap <= usize::MAX,
        len + n <= usize::MAX / 2,
    ensures
        (spec_buffer_capacity(len, n, cap) == 0) <==> (len + n <= cap),
        spec_buffer_capacity(len, n, cap) != 0 ==> spec_buffer_capacity(len, n, cap) >= len + n,
{
    let needed = len + n;
    assert(sat_usize(needed) == needed);
    if needed > cap {
        if cap == 0 {
        } else if needed <= sat_usize(2 * cap) {
            assert(2 * cap >= 0) by (nonlinear_arith)
                requires cap >= 0;
        } else {
            if 3 * needed + 1 > usize::MAX {
                assert(sat_usize(3 * needed + 1) / 2 == usize::MAX as int / 2);
            } else {
                assert((3 * needed + 1) / 2 >= needed) by (nonlinear_arith)
                    requires needed >= 0;
            }
        }
    }
}

/// When the first case-insensitive `Content-Length:` is followed by an
/// optional space, the decimal digits of `k`, and a CRLF, the parsed
/// content length is exactly `k`.
pub proof fn lemma_content_length_value(
    resp: Seq<u8>,
    pos: int,
    space: bool,
    digits: Seq<u8>,
    k: int,
)
    requires
        spec_find_ci(resp, cl_pattern()) == Some(pos),
        digits.len() > 0,
        forall|l: int| 0 <= l < digits.len() ==> is_digit(#[trigger] digits[l]),
        digits_value(digits) == k,
        0 <= k <= usize::MAX,
        space ==> pos + 15 < resp.len() && resp[pos + 15] == SP,
        resp.subrange(
            pos + 15 + if space {
                1int
            } else {
                0int
            },
            pos + 15 + if space {
                1int
            } else {
                0int
            } + digits.len(),
        ) == digits,
        crlf_at(
            resp,
            pos + 15 + (if space {
                1int
            } else {
                0int
            }) + digits.len(),
        ),
    ensures
        spec_content_length(resp) == k,
{
    let v0 = pos + 15;
    let v = v0 + if space {
        1int
    } else {
        0int
    };
    lemma_find_ci_from_char(resp, cl_pattern(), 0);
    assert(v0 <= resp.len());
    if !space {
        assert(resp[v0] == resp.subrange(v, v + digits.len())[0]);
        assert(resp[v0] != SP);
    }
    let e = v + digits.len();
    assert forall|j: int| v <= j < e implies !crlf_at(resp, j) by {
        assert(resp[j] == resp.subrange(v, e)[j - v]);
        assert(is_digit(resp[j]));
    }
    lemma_find_crlf_first(resp, v, e);
    let dd = resp.subrange(v, e);
    assert(ws_run(dd, 0) == 0);
    lemma_digit_run_char(dd, 0);
    assert(digit_run(dd, 0) == dd.len()) by {
        if digit_run(dd, 0) < dd.len() {
            assert(!is_digit(dd[digit_run(dd, 0)]));
        }
    }
    assert(dd.subrange(0, dd.len() as int) =~= dd);
    assert(spec_parse_decimal(dd) == sat_usize(digits_value(dd)));
    assert(sat_usize(k) == k);
}

/// A parse of a request message: the method, path and version of its first
/// line, the header block between that line and the blank line, and the
/// body after the blank line.
pub open spec fn spec_parse_request(r: Seq<u8>) -> Option<
    (Seq<u8>, Seq<u8>, Seq<u8>, Seq<u8>, Seq<u8>),
> {
    match find_crlf_from(r, 0) {
        None => None,
        Some(le) => {
            let line = r.subrange(0, le);
            match find_byte_from(line, SP, 0) {
                None => None,
                Some(s1) => match find_byte_from(line, SP, s1 + 1) {
                    None => None,
                    Some(s2) => match find_double_crlf_from(r, le) {
                        None => None,
                        Some(he) => Some(
                            (
                                line.subrange(0, s1),
                                line.subrange(s1 + 1, s2),
                                line.subrange(s2 + 1, line.len() as int),
                                r.subrange(le + 2, he + 2),
                                r.subrange(he + 4, r.len() as int),
                            ),
                        ),
                    },
                },
            }
        },
    }
}

/// A header block shaped like serialized header lines: empty, or ending in
/// CRLF without starting with one, and holding no blank line.
pub open spec fn wire_headers_ok(headers: Seq<u8>) -> bool {
    &&& forall|i: int| !double_crlf_at(headers, i)
    &&& (headers.len() > 0 ==> headers.len() >= 2 && headers[0] != CR && headers[
        headers.len() - 2
    ] == CR && headers[headers.len() - 1] == LF)
}

/// The wire round trip: a request message built from a method, path and
/// version free of CR, LF and spaces, a well-shaped header block, and any
/// body parses back to exactly those parts.
pub proof fn lemma_request_round_trip(
    method: Seq<u8>,
    path: Seq<u8>,
    headers: Seq<u8>,
    body: Option<Seq<u8>>,
    version: Seq<u8>,
)
    requires
        method.len() > 0,
        path.len() > 0,
        version.len() > 0,
        forall|i: int| 0 <= i < method.len() ==> #[trigger] method[i] != SP && method[i] != CR
            && method[i] != LF,
        forall|i: int| 0 <= i < path.len() ==> #[trigger] path[i] != SP && path[i] != CR && path[i]
            != LF,
        forall|i: int| 0 <= i < version.len() ==> #[trigger] version[i] != CR && version[i] != LF,
        wire_headers_ok(headers),
    ensures
        spec_parse_request(spec_request_bytes(method, path, headers, body, version)) == Some(
            (method, path, version, headers, opt_bytes(body)),
        ),
{
    let r = spec_request_bytes(method, path, headers, body, version);
    let m = method.len() as int;
    let p = path.len() as int;
    let v = version.len() as int;
    let hl = headers.len() as int;
    let le = m + 1 + p + 1 + v;
    let he = le + hl;
    let b = opt_bytes(body);
    assert(r.len() == le + 4 + hl + b.len());
    assert forall|k: int| 0 <= k < r.len() implies r[k] == line_byte(
        method,
        path,
        headers,
        b,
        version,
        k,
    ) by {
        lemma_request_byte(method, path, headers, body, version, k);
    }
    // The first CRLF ends the request line.
    assert(crlf_at(r, le));
    assert forall|k: int| 0 <= k < le implies !crlf_at(r, k) by {
        assert(r[k] == line_byte(method, path, headers, b, version, k));
    }
    lemma_find_crlf_first(r, 0, le);
    let line = r.subrange(0, le);
    assert(line =~= method + seq![SP] + path + seq![SP] + version);
    // The first space ends the method, the second ends the path.
    assert(line[m] == SP);
    assert forall|k: int| 0 <= k < m implies line[k] != SP by {
        assert(line[k] == method[k]);
    }
    lemma_find_byte_first(line, SP, 0, m);
    assert(line[m + 1 + p] == SP);
    assert forall|k: int| m + 1 <= k < m + 1 + p implies line[k] != SP by {
        assert(line[k] == path[k - m - 1]);
    }
    lemma_find_byte_first(line, SP, m + 1, m + 1 + p);
    // The first blank line at or after the request line ends the headers.
    assert(double_crlf_at(r, he));
    assert forall|k: int| le <= k < he implies !double_crlf_at(r, k) by {
        if k == le {
            assert(r[k + 2] == headers[0]);
        } else if k == le + 1 {
            assert(r[k] == LF);
        } else {
            let j = k - le - 2;
            if j + 4 <= hl {
                assert(!double_crlf_at(headers, j));
                assert(r[k] == headers[j] && r[k + 1] == headers[j + 1] && r[k + 2] == headers[
                    j + 2
                ] && r[k + 3] == headers[j + 3]);
            } else if j + 4 == hl + 1 {
                assert(r[k + 3] == CR);
            } else {
                assert(j + 4 == hl + 2);
                assert(k == he);
            }
        }
    }
    lemma_find_double_crlf_first(r, le, he);
    assert(line.subrange(0, m) =~= method);
    assert(line.subrange(m + 1, m + 1 + p) =~= path);
    assert(line.subrange(m + 1 + p + 1, line.len() as int) =~= version);
    assert(r.subrange(le + 2, he + 2) =~= headers);
    assert(r.subrange(he + 4, r.len() as int) =~= b);
}

/// The byte at offset `k` of a request message, region by region.
pub open spec fn line_byte(
    method: Seq<u8>,
    path: Seq<u8>,
    headers: Seq<u8>,
    body: Seq<u8>,
    version: Seq<u8>,
    k: int,
) -> u8 {
    let m = method.len() as int;
    let p = path.len() as int;
    let v = version.len() as int;
    let hl = headers.len() as int;
    let le = m + 1 + p + 1 + v;
    if k < m {
        method[k]
    } else if k == m {
        SP
    } else if k < m + 1 + p {
        path[k - m - 1]
    } else if k == m + 1 + p {
        SP
    } else if k < le {
        version[k - m - p - 2]
    } else if k == le {
        CR
    } else if k == le + 1 {
        LF
    } else if k < le + 2 + hl {
        headers[k - le - 2]
    } else if k == le + 2 + hl {
        CR
    } else if k == le + 3 + hl {
        LF
    } else {
        body[k - le - 4 - hl]
    }
}

/// Each byte of a built request message comes from the region the offset
/// falls in.
proof fn lemma_request_byte(
    method: Seq<u8>,
    path: Seq<u8>,
    headers: Seq<u8>,
    body: Option<Seq<u8>>,
    version: Seq<u8>,
    k: int,
)
    requires
        0 <= k < spec_request_bytes(method, path, headers, body, version).len(),
    ensures
        spec_request_bytes(method, path, headers, body, version)[k] == line_byte(
            method,
            path,
            headers,
            opt_bytes(body),
            version,
            k,
        ),
{
}

} // verus!
