//! One request in flight, as a state machine: a transport driver asks what
//! to do next, performs the I/O, and reports what happened; every decision
//! between those reports is made and verified here, including header
//! composition, response completion, and the redirect policy.

use vstd::prelude::*;
use vstd::string::StringSliceAdditionalSpecFns;
use vstd::utf8::decode_utf8;

use crate::chunked::{dechunk, dechunk_from, ChunkSpec, DechunkOutcome};
use crate::codec::{
    chars_bytes, find_double_crlf_from, spec_find_ci, spec_content_length, spec_status_code,
    SharedRequestBuilder, SharedResponseHandler,
};
use crate::engine::{
    spec_body_wire, spec_redirect_decision, Body, BodyView, ConfigView, Method, RedirectAction,
    RequestConfig,
};
use crate::error::RequestError;
use crate::headers::{insert_entry, name_eq, spec_get, HeaderMap, SpecEntry};
use crate::response::{decoded_of, spec_code_bytes, spec_response_headers, HttpResponseBinary};
use crate::url::{dec_bytes, resolve_redirect, u16_to_string, usize_to_string, Url};

verus! {

/// The host header value: the host alone on the scheme's default port, and
/// `host:port` otherwise.
pub open spec fn spec_host_header(host: Seq<char>, port: u16, default_port: u16) -> Seq<char> {
    if port == default_port {
        host
    } else {
        host + ":"@ + decode_utf8(dec_bytes(port as int))
    }
}

/// The composed request headers: the caller's map with `Host`, `Accept` and
/// `User-Agent` filled in when absent, `Content-Length` on POST,
/// `Content-Type` for a structured body, and `Accept-Encoding` when
/// automatic decompression is on; a caller-provided equivalent name always
/// wins.
pub open spec fn spec_compose_headers(
    h0: Seq<SpecEntry>,
    method: Method,
    body: BodyView,
    auto_decode: bool,
    host: Seq<char>,
    port: u16,
    default_port: u16,
) -> Seq<SpecEntry> {
    let m1 = if spec_get(h0, "host"@) is None {
        insert_entry(h0, "Host"@, spec_host_header(host, port, default_port))
    } else {
        h0
    };
    let m2 = if spec_get(m1, "accept"@) is None {
        insert_entry(m1, "Accept"@, "*/*"@)
    } else {
        m1
    };
    let m3 = if spec_get(m2, "user-agent"@) is None {
        insert_entry(m2, "User-Agent"@, "http-request-client"@)
    } else {
        m2
    };
    let m4 = if method == Method::Post && spec_get(m3, "content-length"@) is None {
        insert_entry(m3, "Content-Length"@, decode_utf8(dec_bytes(spec_body_wire(body).len() as int)))
    } else {
        m3
    };
    let m5 = if body is Json && spec_get(m4, "content-type"@) is None {
        insert_entry(m4, "Content-Type"@, "application/json"@)
    } else {
        m4
    };
    if auto_decode && spec_get(m5, "accept-encoding"@) is None {
        insert_entry(m5, "Accept-Encoding"@, "gzip, deflate, br"@)
    } else {
        m5
    }
}

/// Composes the headers one attempt sends.
pub fn compose_headers(config: &RequestConfig, url: &Url) -> (r: HeaderMap)
    requires
        config.wf(),
    ensures
        r.wf(),
        r@ == spec_compose_headers(
            config.headers@,
            config.method,
            config.body@,
            config.auto_decode,
            url.host@,
            url.port,
            url.scheme.spec_default_port(),
        ),
{
    let mut map: HeaderMap = config.headers.clone();
    if !map.contains_key("host") {
        let default_port: u16 = url.scheme.default_port();
        let value: String = if url.port == default_port {
            url.host.clone()
        } else {
            let mut v: String = url.host.clone();
            v.append(":");
            let ps: String = u16_to_string(url.port);
            proof {
                vstd::utf8::encode_utf8_decode_utf8(ps@);
            }
            v.append(ps.as_str());
            v
        };
        map.insert(String::from_str("Host"), value);
    }
    if !map.contains_key("accept") {
        map.insert(String::from_str("Accept"), String::from_str("*/*"));
    }
    if !map.contains_key("user-agent") {
        map.insert(String::from_str("User-Agent"), String::from_str("http-request-client"));
    }
    let is_post: bool = matches!(config.method, Method::Post);
    if is_post && !map.contains_key("content-length") {
        let blen: usize = body_wire_len(&config.body);
        let ls: String = usize_to_string(blen);
        proof {
            vstd::utf8::encode_utf8_decode_utf8(ls@);
        }
        map.insert(String::from_str("Content-Length"), ls);
    }
    let is_json: bool = matches!(config.body, Body::Json(_));
    if is_json && !map.contains_key("content-type") {
        map.insert(String::from_str("Content-Type"), String::from_str("application/json"));
    }
    if config.auto_decode && !map.contains_key("accept-encoding") {
        map.insert(String::from_str("Accept-Encoding"), String::from_str("gzip, deflate, br"));
    }
    map
}

/// The body bytes one attempt sends.
pub fn body_wire_bytes(body: &Body) -> (r: Vec<u8>)
    ensures
        r@ == spec_body_wire(body@),
{
    match body {
        Body::Empty => Vec::new(),
        Body::Raw(b) => b.clone(),
        Body::Text(t) => t.as_str().as_bytes_vec(),
        Body::Json(b) => b.clone(),
    }
}

/// The length of the body bytes one attempt sends.
fn body_wire_len(body: &Body) -> (r: usize)
    ensures
        r == spec_body_wire(body@).len(),
{
    match body {
        Body::Empty => 0,
        Body::Raw(b) => b.len(),
        Body::Text(t) => t.as_str().as_bytes().len(),
        Body::Json(b) => b.len(),
    }
}

/// The complete request message one attempt writes: request line over the
/// composed headers, and the body except on GET.
pub open spec fn spec_request_for(cfg: ConfigView, url: &Url) -> Seq<u8> {
    let composed = spec_compose_headers(
        cfg.headers,
        cfg.method,
        cfg.body,
        cfg.auto_decode,
        url.host@,
        url.port,
        url.scheme.spec_default_port(),
    );
    let full_path = match url.query {
        Some(q) => url.path@ + "?"@ + q@,
        None => url.path@,
    };
    let body = if cfg.method == Method::Get {
        None
    } else {
        Some(spec_body_wire(cfg.body))
    };
    crate::codec::spec_request_bytes(
        chars_bytes(if cfg.method == Method::Get {
            "GET"@
        } else {
            "POST"@
        }),
        chars_bytes(full_path),
        crate::headers::wire_of(composed),
        body,
        chars_bytes("HTTP/1.1"@),
    )
}

/// Builds the request message for one attempt.
pub fn build_request_for(config: &RequestConfig, url: &Url) -> (r: Vec<u8>)
    requires
        config.wf(),
    ensures
        r@ == spec_request_for(config@, url),
{
    let composed: HeaderMap = compose_headers(config, url);
    let header_bytes: Vec<u8> = composed.to_wire_bytes();
    let path: String = url.full_path();
    let version: String = String::from_str("HTTP/1.1");
    match config.method {
        Method::Get => SharedRequestBuilder::build_get_request(path, header_bytes, version),
        Method::Post => SharedRequestBuilder::build_post_request(
            path,
            header_bytes,
            body_wire_bytes(&config.body),
            version,
        ),
    }
}

/// Whether a response head declares chunked transfer coding.
pub open spec fn spec_is_chunked(raw: Seq<u8>) -> bool {
    match spec_get(spec_response_headers(raw), "transfer-encoding"@) {
        Some(v) => spec_find_ci(chars_bytes(v), chars_bytes("chunked"@)) is Some,
        None => false,
    }
}

/// How far along a buffered response is.
pub enum BodyStatus {
    /// The head or body is still arriving.
    NeedMore,
    /// The response is complete, with these body bytes.
    Ready(Seq<u8>),
    /// The chunked framing is broken.
    Broken,
}

/// Whether the buffer holds a complete response: the head must have ended,
/// and the body must run to its `Content-Length`, or to the terminal chunk
/// under chunked transfer coding.
pub open spec fn spec_body_status(buf: Seq<u8>) -> BodyStatus {
    match find_double_crlf_from(buf, 0) {
        None => BodyStatus::NeedMore,
        Some(he) => {
            if spec_is_chunked(buf) {
                match dechunk_from(buf, he + 4) {
                    ChunkSpec::Done(b) => BodyStatus::Ready(b),
                    ChunkSpec::More => BodyStatus::NeedMore,
                    ChunkSpec::Bad => BodyStatus::Broken,
                }
            } else {
                let cl = spec_content_length(buf.subrange(0, he + 4));
                if buf.len() >= he + 4 + cl {
                    BodyStatus::Ready(buf.subrange(he + 4, he + 4 + cl))
                } else {
                    BodyStatus::NeedMore
                }
            }
        },
    }
}

/// The checked completion state, executably.
pub enum BodyCheck {
    /// More bytes are needed.
    NeedMore,
    /// Complete, with the body bytes.
    Ready(Vec<u8>),
    /// Broken chunked framing.
    Broken,
}

/// Checks whether `buf` holds a complete response.
pub fn check_body_status(buf: &Vec<u8>) -> (r: BodyCheck)
    ensures
        match r {
            BodyCheck::NeedMore => spec_body_status(buf@) is NeedMore,
            BodyCheck::Ready(b) => spec_body_status(buf@) == BodyStatus::Ready(b@),
            BodyCheck::Broken => spec_body_status(buf@) is Broken,
        },
{
    let n: usize = buf.len();
    let he: usize = match SharedResponseHandler::find_double_crlf(buf.as_slice(), 0) {
        Some(p) => {
            proof {
                crate::codec::lemma_find_double_crlf_from_char(buf@, 0);
                assert(p + 4 <= n);
            }
            p
        },
        None => {
            return BodyCheck::NeedMore;
        },
    };
    let parsed: HttpResponseBinary = HttpResponseBinary::from(buf.as_slice());
    let chunked: bool = match parsed.headers.get("transfer-encoding") {
        Some(v) => {
            let found: Option<usize> = SharedResponseHandler::find_pattern_case_insensitive(
                v.as_str().as_bytes(),
                "chunked".as_bytes(),
            );
            matches!(found, Some(_))
        },
        None => false,
    };
    if chunked {
        match dechunk(buf.as_slice(), he + 4) {
            DechunkOutcome::Complete(b) => BodyCheck::Ready(b),
            DechunkOutcome::Incomplete => BodyCheck::NeedMore,
            DechunkOutcome::Malformed => BodyCheck::Broken,
        }
    } else {
        let head: &[u8] = vstd::slice::slice_subrange(buf.as_slice(), 0, he + 4);
        let cl: usize = SharedResponseHandler::get_content_length(head);
        if n - he - 4 >= cl {
            let body: Vec<u8> = vstd::slice::slice_to_vec(
                vstd::slice::slice_subrange(buf.as_slice(), he + 4, he + 4 + cl),
            );
            BodyCheck::Ready(body)
        } else {
            BodyCheck::NeedMore
        }
    }
}

/// What finishing one attempt leaves behind: with the buffered response
/// `buf` and body bytes `body`, the redirect decision over the parsed
/// status, `Location` header, and the session's bound dictates the next
/// state; a followed target is resolved against the attempt's URL, and one
/// that cannot be resolved fails the request.
pub open spec fn spec_completed(
    old_cfg: ConfigView,
    old_url: Url,
    old_taken: u32,
    buf: Seq<u8>,
    body: Seq<u8>,
    new: HttpSession,
) -> bool {
    let status = spec_status_code(spec_code_bytes(buf));
    let headers = spec_response_headers(buf);
    let has_loc = spec_get(headers, "location"@) is Some;
    let action = spec_redirect_decision(
        status,
        has_loc,
        old_cfg.follow_redirects,
        old_taken as int,
        old_cfg.max_redirects as int,
        old_cfg.method,
    );
    match action {
        RedirectAction::Complete => {
            &&& new.phase matches Phase::Finished(resp) && resp.status_code == status
                && resp.http_version@ == crate::response::decoded_or_empty(
                crate::response::spec_version_bytes(buf),
            ) && resp.status_text@ == crate::response::decoded_or_empty(
                crate::response::spec_text_bytes(buf),
            ) && resp.headers@ == headers && resp.body@ == (if old_cfg.auto_decode {
                match spec_get(headers, "content-encoding"@) {
                    Some(enc) => decoded_of(enc, body),
                    None => body,
                }
            } else {
                body
            })
            &&& new.config@ == old_cfg
            &&& new.redirects_taken == old_taken
        },
        RedirectAction::TooMany => new.phase == Phase::Failed(RequestError::TooManyRedirects),
        RedirectAction::Follow { next_method, drop_body } => {
            let target = match spec_get(headers, "location"@) {
                Some(l) => crate::url::spec_resolve(&old_url, chars_bytes(l)),
                None => None,
            };
            match target {
                None => new.phase == Phase::Failed(RequestError::InvalidUrl),
                Some((scheme, host, port, path, query)) => {
                    &&& new.phase is Connecting
                    &&& new.redirects_taken == old_taken + 1
                    &&& new.url.scheme == scheme
                    &&& new.url.host@ == host
                    &&& new.url.port == port
                    &&& new.url.path@ == path
                    &&& crate::url::opt_text(new.url.query) == query
                    &&& new.config@.method == next_method
                    &&& (drop_body ==> new.config@.body is Empty)
                    &&& (!drop_body ==> new.config@.body == old_cfg.body)
                    &&& new.url.wf()
                    &&& new.config@.follow_redirects == old_cfg.follow_redirects
                    &&& new.config@.max_redirects == old_cfg.max_redirects
                    &&& new.config@.auto_decode == old_cfg.auto_decode
                    &&& new.config@.buffer_size == old_cfg.buffer_size
                    &&& new.config@.timeout_ms == old_cfg.timeout_ms
                    &&& forall|k: Seq<char>| !name_eq(k, "host"@) && !name_eq(k, "authorization"@)
                        ==> spec_get(new.config@.headers, k) == spec_get(old_cfg.headers, k)
                },
            }
        },
    }
}

/// Where one request stands.
pub enum Phase {
    /// The transport must be opened.
    Connecting,
    /// The request message must be written.
    Sending(Vec<u8>),
    /// Response bytes must be read.
    Receiving(Vec<u8>),
    /// The response is in hand.
    Finished(HttpResponseBinary),
    /// The request failed.
    Failed(RequestError),
}

/// What the driver must do next.
pub enum SendAction {
    /// Open the transport to this host and port, with TLS when asked, going
    /// through the configured proxy.
    Connect {
        /// The target host.
        host: String,
        /// The target port.
        port: u16,
        /// Whether the connection runs TLS.
        tls: bool,
    },
    /// Write these bytes.
    Write(Vec<u8>),
    /// Read more bytes, up to the configured buffer size.
    Read,
    /// Nothing: the session has finished or failed.
    Done,
}

/// One request in flight.
pub struct HttpSession {
    /// The configuration, with method and body adjusted across redirects.
    pub config: RequestConfig,
    /// The URL of the current attempt.
    pub url: Url,
    /// How many redirects have been followed.
    pub redirects_taken: u32,
    /// Where the attempt stands.
    pub phase: Phase,
}

impl HttpSession {
    /// The session's standing invariant.
    pub open spec fn wf(&self) -> bool {
        &&& self.config.wf()
        &&& self.url.wf()
    }

    /// Starts a session: the URL text must parse and name a host, exactly
    /// as `spec_parse_url` says.
    pub fn start(config: RequestConfig) -> (r: Result<HttpSession, RequestError>)
        requires
            config.wf(),
        ensures
            match r {
                Ok(s) => {
                    &&& s.wf()
                    &&& s.config@ == config@
                    &&& s.redirects_taken == 0
                    &&& s.phase is Connecting
                    &&& crate::url::spec_parse_url(config.url_text@) == Some(
                        (
                            s.url.scheme,
                            s.url.host@,
                            s.url.port,
                            s.url.path@,
                            crate::url::opt_text(s.url.query),
                        ),
                    )
                },
                Err(e) => e == RequestError::InvalidUrl && crate::url::spec_parse_url(
                    config.url_text@,
                ) is None,
            },
    {
        let url: Url = match crate::url::parse_url(config.url_text.as_str()) {
            Ok(u) => u,
            Err(e) => {
                return Err(e);
            },
        };
        Ok(HttpSession { config, url, redirects_taken: 0, phase: Phase::Connecting })
    }

    /// What the driver must do next, given where the session stands.
    pub fn next_action(&self) -> (r: SendAction)
        requires
            self.wf(),
        ensures
            self.phase is Connecting ==> (r matches SendAction::Connect { host, port, tls } && host@
                == self.url.host@ && port == self.url.port && tls
                == self.url.scheme.spec_is_tls()),
            self.phase matches Phase::Sending(b) ==> (r matches SendAction::Write(w) && w@ == b@),
            self.phase is Receiving ==> r is Read,
            self.phase is Finished ==> r is Done,
            self.phase is Failed ==> r is Done,
    {
        match &self.phase {
            Phase::Connecting => SendAction::Connect {
                host: self.url.host.clone(),
                port: self.url.port,
                tls: self.url.scheme.is_tls(),
            },
            Phase::Sending(b) => SendAction::Write(b.clone()),
            Phase::Receiving(_) => SendAction::Read,
            Phase::Finished(_) => SendAction::Done,
            Phase::Failed(_) => SendAction::Done,
        }
    }

    /// The transport is open: the attempt's request message is built and
    /// queued for writing.
    pub fn on_connected(&mut self)
        requires
            old(self).wf(),
            old(self).phase is Connecting,
        ensures
            final(self).wf(),
            final(self).config@ == old(self).config@,
            final(self).url == old(self).url,
            final(self).redirects_taken == old(self).redirects_taken,
            final(self).phase matches Phase::Sending(b) && b@ == spec_request_for(
                old(self).config@,
                &old(self).url,
            ),
    {
        let request: Vec<u8> = build_request_for(&self.config, &self.url);
        self.phase = Phase::Sending(request);
    }

    /// The transport could not be opened, or failed while in use: the
    /// session fails with the reported error.
    pub fn on_io_error(&mut self, error: RequestError)
        requires
            old(self).wf(),
        ensures
            final(self).wf(),
            final(self).config@ == old(self).config@,
            final(self).url == old(self).url,
            final(self).redirects_taken == old(self).redirects_taken,
            final(self).phase == Phase::Failed(error),
    {
        self.phase = Phase::Failed(error);
    }

    /// The request message has been written: reading begins.
    pub fn on_sent(&mut self)
        requires
            old(self).wf(),
            old(self).phase is Sending,
        ensures
            final(self).wf(),
            final(self).config@ == old(self).config@,
            final(self).url == old(self).url,
            final(self).redirects_taken == old(self).redirects_taken,
            final(self).phase matches Phase::Receiving(b) && b@ == Seq::<u8>::empty(),
    {
        self.phase = Phase::Receiving(Vec::new());
    }

    /// The stream ended: a response whose head never completed is a
    /// protocol error; otherwise what has arrived is taken as the complete
    /// body.
    pub fn on_eof(&mut self)
        requires
            old(self).wf(),
            old(self).phase is Receiving,
        ensures
            final(self).wf(),
            final(self).config.wf(),
            (final(self).phase is Finished || final(self).phase is Failed || final(self).phase
                is Connecting),
            (match old(self).phase {
                Phase::Receiving(b) => match find_double_crlf_from(b@, 0) {
                    None => final(self).phase == Phase::Failed(RequestError::Protocol),
                    Some(he) => spec_completed(
                        old(self).config@,
                        old(self).url,
                        old(self).redirects_taken,
                        b@,
                        b@.subrange(he + 4, b@.len() as int),
                        *final(self),
                    ),
                },
                _ => true,
            }),
    {
        let buf: Vec<u8> = match &self.phase {
            Phase::Receiving(b) => b.clone(),
            _ => {
                self.phase = Phase::Failed(RequestError::Protocol);
                return ;
            },
        };
        let he: usize = match SharedResponseHandler::find_double_crlf(buf.as_slice(), 0) {
            Some(p) => {
                proof {
                    crate::codec::lemma_find_double_crlf_from_char(buf@, 0);
                }
                p
            },
            None => {
                self.phase = Phase::Failed(RequestError::Protocol);
                return ;
            },
        };
        let body: Vec<u8> = vstd::slice::slice_to_vec(
            vstd::slice::slice_subrange(buf.as_slice(), he + 4, buf.len()),
        );
        self.complete_response(buf, body);
    }

    /// More bytes arrived: they are appended, and when they complete the
    /// response, the redirect decision runs: a final response is handed
    /// over, an exhausted bound fails, and a followed redirect rewinds the
    /// session to connect to the resolved target, switching a 301/302/303
    /// POST to a bodyless GET.
    pub fn on_data(&mut self, data: &[u8])
        requires
            old(self).wf(),
            old(self).phase is Receiving,
        ensures
            final(self).wf(),
            ({
                let buf2 = (match old(self).phase {
                    Phase::Receiving(b) => b@,
                    _ => Seq::empty(),
                }) + data@;
                match spec_body_status(buf2) {
                    BodyStatus::NeedMore => final(self).phase matches Phase::Receiving(nb) && nb@
                        == buf2 && final(self).config@ == old(self).config@ && final(self).url
                        == old(self).url && final(self).redirects_taken == old(
                        self,
                    ).redirects_taken,
                    BodyStatus::Broken => final(self).phase == Phase::Failed(
                        RequestError::Protocol,
                    ),
                    BodyStatus::Ready(body) => spec_completed(
                        old(self).config@,
                        old(self).url,
                        old(self).redirects_taken,
                        buf2,
                        body,
                        *final(self),
                    ),
                }
            }),
    {
        let mut buf: Vec<u8> = match &self.phase {
            Phase::Receiving(b) => vstd::slice::slice_to_vec(b.as_slice()),
            _ => {
                self.phase = Phase::Failed(RequestError::Protocol);
                return ;
            },
        };
        buf.extend_from_slice(data);
        proof {
            assert(buf@ == (match old(self).phase {
                Phase::Receiving(b) => b@,
                _ => Seq::empty(),
            }) + data@);
        }
        match check_body_status(&buf) {
            BodyCheck::NeedMore => {
                self.phase = Phase::Receiving(buf);
            },
            BodyCheck::Broken => {
                self.phase = Phase::Failed(RequestError::Protocol);
            },
            BodyCheck::Ready(body) => {
                self.complete_response(buf, body);
            },
        }
    }

    /// Finishes one attempt whose raw response is `buf` and whose body
    /// bytes are `body`: the redirect decision either hands the response
    /// over (decompressed when configured), fails on a spent bound, or
    /// rewinds to connect to the resolved target.
    fn complete_response(&mut self, buf: Vec<u8>, body: Vec<u8>)
        requires
            old(self).wf(),
        ensures
            final(self).wf(),
            spec_completed(
                old(self).config@,
                old(self).url,
                old(self).redirects_taken,
                buf@,
                body@,
                *final(self),
            ),
    {
        let parsed: HttpResponseBinary = HttpResponseBinary::from(buf.as_slice());
        let has_location: bool = parsed.headers.contains_key("location");
        let action = crate::engine::redirect_decision(
            parsed.status_code,
            has_location,
            self.config.follow_redirects,
            self.redirects_taken,
            self.config.max_redirects,
            self.config.method,
        );
        match action {
            RedirectAction::Complete => {
                let assembled = HttpResponseBinary {
                    http_version: parsed.http_version,
                    status_code: parsed.status_code,
                    status_text: parsed.status_text,
                    headers: parsed.headers,
                    body,
                };
                let response: HttpResponseBinary = if self.config.auto_decode {
                    assembled.decode(self.config.buffer_size)
                } else {
                    assembled
                };
                self.phase = Phase::Finished(response);
            },
            RedirectAction::TooMany => {
                self.phase = Phase::Failed(RequestError::TooManyRedirects);
            },
            RedirectAction::Follow { next_method, drop_body } => {
                let location: String = match parsed.headers.get("location") {
                    Some(l) => l,
                    None => {
                        self.phase = Phase::Failed(RequestError::InvalidUrl);
                        return ;
                    },
                };
                let target: Url = match resolve_redirect(&self.url, location.as_str().as_bytes()) {
                    Ok(u) => u,
                    Err(_) => {
                        self.phase = Phase::Failed(RequestError::InvalidUrl);
                        return ;
                    },
                };
                let same_host: bool = crate::split::slices_equal(
                    target.host.as_str().as_bytes(),
                    self.url.host.as_str().as_bytes(),
                );
                if !same_host {
                    self.config.headers.remove("host");
                    self.config.headers.remove("authorization");
                }
                self.config.method = next_method;
                if drop_body {
                    self.config.body = Body::Empty;
                }
                self.url = target;
                self.redirects_taken = self.redirects_taken + 1;
                self.phase = Phase::Connecting;
            },
        }
    }

    /// The session's final answer, once the phase is terminal.
    pub fn outcome(&self) -> (r: Option<Result<HttpResponseBinary, RequestError>>)
        ensures
            match self.phase {
                Phase::Finished(_) => r matches Some(v) && v is Ok,
                Phase::Failed(e) => r == Some(Result::<HttpResponseBinary, RequestError>::Err(e)),
                _ => r is None,
            },
            (match (r, self.phase) {
                (Some(Ok(out)), Phase::Finished(resp)) => out.status_code == resp.status_code
                    && out.http_version@ == resp.http_version@ && out.status_text@
                    == resp.status_text@ && out.headers@ == resp.headers@ && out.body@
                    == resp.body@,
                _ => true,
            }),
    {
        match &self.phase {
            Phase::Finished(resp) => Some(Ok(resp.binary())),
            Phase::Failed(e) => Some(Err(*e)),
            _ => None,
        }
    }
}

} // verus!
