//! The request engine's configuration: the fluent builder, the validated
//! per-request settings, and the redirect policy.

use vstd::prelude::*;
use vstd::string::StringSliceAdditionalSpecFns;

use crate::headers::{HeaderMap, SpecEntry};
use crate::response::HttpVersion;

verus! {

/// The request methods this client issues.
#[derive(Clone, Copy, Debug, PartialEq, Eq, Structural)]
pub enum Method {
    /// GET: no request body.
    Get,
    /// POST: a request body may be carried.
    Post,
}

/// The request body: absent, raw bytes, text, or a serialized structured
/// value; one of these at a time.
pub enum Body {
    /// No body.
    Empty,
    /// Raw bytes.
    Raw(Vec<u8>),
    /// Text.
    Text(String),
    /// A structured value already serialized to JSON bytes.
    Json(Vec<u8>),
}

/// The specification-level image of a body.
pub enum BodyView {
    /// No body.
    Empty,
    /// Raw bytes.
    Raw(Seq<u8>),
    /// Text.
    Text(Seq<char>),
    /// JSON bytes.
    Json(Seq<u8>),
}

impl View for Body {
    type V = BodyView;

    open spec fn view(&self) -> BodyView {
        match self {
            Body::Empty => BodyView::Empty,
            Body::Raw(b) => BodyView::Raw(b@),
            Body::Text(t) => BodyView::Text(t@),
            Body::Json(b) => BodyView::Json(b@),
        }
    }
}

/// The bytes a body puts on the wire.
pub open spec fn spec_body_wire(b: BodyView) -> Seq<u8> {
    match b {
        BodyView::Empty => Seq::empty(),
        BodyView::Raw(s) => s,
        BodyView::Text(t) => crate::codec::chars_bytes(t),
        BodyView::Json(s) => s,
    }
}

/// Basic credentials for a proxy.
pub struct ProxyAuth {
    /// The user name.
    pub username: String,
    /// The password.
    pub password: String,
}

/// The proxy a connection goes through, if any.
pub enum Proxy {
    /// A direct connection.
    NoProxy,
    /// An HTTP CONNECT proxy.
    Http {
        /// The proxy host.
        host: String,
        /// The proxy port.
        port: u16,
        /// Credentials, when the proxy wants Basic authentication.
        auth: Option<ProxyAuth>,
    },
    /// An HTTPS CONNECT proxy.
    Https {
        /// The proxy host.
        host: String,
        /// The proxy port.
        port: u16,
        /// Credentials, when the proxy wants Basic authentication.
        auth: Option<ProxyAuth>,
    },
    /// A SOCKS5 proxy.
    Socks5 {
        /// The proxy host.
        host: String,
        /// The proxy port.
        port: u16,
        /// Credentials, for username/password sub-negotiation.
        auth: Option<ProxyAuth>,
    },
}

/// The specification-level image of a proxy setting.
pub enum ProxyView {
    /// A direct connection.
    NoProxy,
    /// An HTTP CONNECT proxy.
    Http { host: Seq<char>, port: u16, auth: Option<(Seq<char>, Seq<char>)> },
    /// An HTTPS CONNECT proxy.
    Https { host: Seq<char>, port: u16, auth: Option<(Seq<char>, Seq<char>)> },
    /// A SOCKS5 proxy.
    Socks5 { host: Seq<char>, port: u16, auth: Option<(Seq<char>, Seq<char>)> },
}

/// The image of optional credentials.
pub open spec fn auth_view(a: Option<ProxyAuth>) -> Option<(Seq<char>, Seq<char>)> {
    match a {
        Some(p) => Some((p.username@, p.password@)),
        None => None,
    }
}

impl View for Proxy {
    type V = ProxyView;

    open spec fn view(&self) -> ProxyView {
        match self {
            Proxy::NoProxy => ProxyView::NoProxy,
            Proxy::Http { host, port, auth } => ProxyView::Http {
                host: host@,
                port: *port,
                auth: auth_view(*auth),
            },
            Proxy::Https { host, port, auth } => ProxyView::Https {
                host: host@,
                port: *port,
                auth: auth_view(*auth),
            },
            Proxy::Socks5 { host, port, auth } => ProxyView::Socks5 {
                host: host@,
                port: *port,
                auth: auth_view(*auth),
            },
        }
    }
}

/// Everything one request needs to run.
pub struct RequestConfig {
    /// GET or POST.
    pub method: Method,
    /// The URL text, parsed when a send begins.
    pub url_text: String,
    /// Caller-supplied headers.
    pub headers: HeaderMap,
    /// The body.
    pub body: Body,
    /// Per-I/O timeout in milliseconds.
    pub timeout_ms: u64,
    /// The read buffer size; at least 1.
    pub buffer_size: usize,
    /// Whether 3xx responses are followed.
    pub follow_redirects: bool,
    /// How many redirects may be followed.
    pub max_redirects: u32,
    /// Whether the response body is decompressed automatically.
    pub auto_decode: bool,
    /// The version hint; the wire always carries HTTP/1.1 framing.
    pub http_version: HttpVersion,
    /// The proxy to connect through.
    pub proxy: Proxy,
}

/// The specification-level image of a configuration.
pub struct ConfigView {
    /// GET or POST.
    pub method: Method,
    /// The URL text.
    pub url_text: Seq<char>,
    /// Caller-supplied headers.
    pub headers: Seq<SpecEntry>,
    /// The body.
    pub body: BodyView,
    /// Per-I/O timeout in milliseconds.
    pub timeout_ms: u64,
    /// The read buffer size.
    pub buffer_size: usize,
    /// Whether 3xx responses are followed.
    pub follow_redirects: bool,
    /// How many redirects may be followed.
    pub max_redirects: u32,
    /// Whether the response body is decompressed automatically.
    pub auto_decode: bool,
    /// The version hint.
    pub http_version: HttpVersion,
    /// The proxy to connect through.
    pub proxy: ProxyView,
}

impl View for RequestConfig {
    type V = ConfigView;

    open spec fn view(&self) -> ConfigView {
        ConfigView {
            method: self.method,
            url_text: self.url_text@,
            headers: self.headers@,
            body: self.body@,
            timeout_ms: self.timeout_ms,
            buffer_size: self.buffer_size,
            follow_redirects: self.follow_redirects,
            max_redirects: self.max_redirects,
            auto_decode: self.auto_decode,
            http_version: self.http_version,
            proxy: self.proxy@,
        }
    }
}

impl RequestConfig {
    /// The builder keeps these invariants: a positive buffer and a
    /// well-formed header map.
    pub open spec fn wf(&self) -> bool {
        &&& self.buffer_size >= 1
        &&& self.timeout_ms >= 1
        &&& crate::headers::map_wf(self.headers@)
    }
}

/// The fluent accumulator that produces a request configuration.
pub struct RequestBuilder {
    /// The settings gathered so far.
    pub config: RequestConfig,
}

impl RequestBuilder {
    /// A builder with the defaults: GET, no URL, no headers, no body, a
    /// 30-second timeout, a 1024-byte buffer, redirects off with a bound of
    /// 8, no automatic decompression, HTTP/1.1, no proxy.
    pub fn new() -> (r: RequestBuilder)
        ensures
            r.config.wf(),
            r.config@ == (ConfigView {
                method: Method::Get,
                url_text: Seq::<char>::empty(),
                headers: Seq::<SpecEntry>::empty(),
                body: BodyView::Empty,
                timeout_ms: 30000u64,
                buffer_size: 1024usize,
                follow_redirects: false,
                max_redirects: 8u32,
                auto_decode: false,
                http_version: HttpVersion::Http1_1,
                proxy: ProxyView::NoProxy,
            }),
    {
        RequestBuilder {
            config: RequestConfig {
                method: Method::Get,
                url_text: String::new(),
                headers: HeaderMap::new(),
                body: Body::Empty,
                timeout_ms: 30000,
                buffer_size: 1024,
                follow_redirects: false,
                max_redirects: 8,
                auto_decode: false,
                http_version: HttpVersion::Http1_1,
                proxy: Proxy::NoProxy,
            },
        }
    }

    /// Selects GET and the target URL.
    pub fn get(self, url: &str) -> (r: RequestBuilder)
        requires
            self.config.wf(),
        ensures
            r.config.wf(),
            r.config@ == (ConfigView { method: Method::Get, url_text: url@, ..self.config@ }),
    {
        let mut config = self.config;
        config.method = Method::Get;
        config.url_text = String::from_str(url);
        RequestBuilder { config }
    }

    /// Selects POST and the target URL.
    pub fn post(self, url: &str) -> (r: RequestBuilder)
        requires
            self.config.wf(),
        ensures
            r.config.wf(),
            r.config@ == (ConfigView { method: Method::Post, url_text: url@, ..self.config@ }),
    {
        let mut config = self.config;
        config.method = Method::Post;
        config.url_text = String::from_str(url);
        RequestBuilder { config }
    }

    /// Merges a header map over what is held: a case-differing name
    /// overwrites, everything else stays.
    pub fn headers(self, map: &HeaderMap) -> (r: RequestBuilder)
        requires
            self.config.wf(),
            map.wf(),
        ensures
            r.config.wf(),
            r.config@ == (ConfigView { headers: r.config@.headers, ..self.config@ }),
            forall|k: Seq<char>| crate::headers::spec_get(map@, k) is Some
                ==> crate::headers::spec_get(r.config@.headers, k) == crate::headers::spec_get(
                map@,
                k,
            ),
            forall|k: Seq<char>| crate::headers::spec_get(map@, k) is None
                ==> crate::headers::spec_get(r.config@.headers, k) == crate::headers::spec_get(
                self.config@.headers,
                k,
            ),
    {
        let mut config = self.config;
        config.headers.merge(map);
        RequestBuilder { config }
    }

    /// Sets a raw byte body.
    pub fn body(self, bytes: &[u8]) -> (r: RequestBuilder)
        requires
            self.config.wf(),
        ensures
            r.config.wf(),
            r.config@ == (ConfigView { body: BodyView::Raw(bytes@), ..self.config@ }),
    {
        let mut config = self.config;
        config.body = Body::Raw(vstd::slice::slice_to_vec(bytes));
        RequestBuilder { config }
    }

    /// Sets a text body.
    pub fn text(self, text: &str) -> (r: RequestBuilder)
        requires
            self.config.wf(),
        ensures
            r.config.wf(),
            r.config@ == (ConfigView { body: BodyView::Text(text@), ..self.config@ }),
    {
        let mut config = self.config;
        config.body = Body::Text(String::from_str(text));
        RequestBuilder { config }
    }

    /// Sets a structured body: the value is serialized to JSON bytes here,
    /// and `Content-Type: application/json` is added at send time unless the
    /// caller supplied that header.
    pub fn json(self, value: serde_json::Value) -> (r: RequestBuilder)
        requires
            self.config.wf(),
        ensures
            r.config.wf(),
            r.config@ == (ConfigView {
                body: BodyView::Json(json_bytes_of(value)),
                ..self.config@
            }),
    {
        let mut config = self.config;
        config.body = Body::Json(json_to_bytes(&value));
        RequestBuilder { config }
    }

    /// Sets the per-I/O timeout in milliseconds; 0 is lifted to 1.
    pub fn timeout(self, ms: u64) -> (r: RequestBuilder)
        requires
            self.config.wf(),
        ensures
            r.config.wf(),
            r.config@ == (ConfigView {
                timeout_ms: if ms >= 1 {
                    ms
                } else {
                    1u64
                },
                ..self.config@
            }),
    {
        let mut config = self.config;
        config.timeout_ms = if ms >= 1 {
            ms
        } else {
            1
        };
        RequestBuilder { config }
    }

    /// Sets the read buffer size; 0 is lifted to 1.
    pub fn buffer(self, n: usize) -> (r: RequestBuilder)
        requires
            self.config.wf(),
        ensures
            r.config.wf(),
            r.config@ == (ConfigView {
                buffer_size: if n >= 1 {
                    n
                } else {
                    1usize
                },
                ..self.config@
            }),
    {
        let mut config = self.config;
        config.buffer_size = if n >= 1 {
            n
        } else {
            1
        };
        RequestBuilder { config }
    }

    /// Turns redirect following on.
    pub fn redirect(self) -> (r: RequestBuilder)
        requires
            self.config.wf(),
        ensures
            r.config.wf(),
            r.config@ == (ConfigView { follow_redirects: true, ..self.config@ }),
    {
        let mut config = self.config;
        config.follow_redirects = true;
        RequestBuilder { config }
    }

    /// Turns redirect following off.
    pub fn unredirect(self) -> (r: RequestBuilder)
        requires
            self.config.wf(),
        ensures
            r.config.wf(),
            r.config@ == (ConfigView { follow_redirects: false, ..self.config@ }),
    {
        let mut config = self.config;
        config.follow_redirects = false;
        RequestBuilder { config }
    }

    /// Bounds how many redirects a send may follow.
    pub fn max_redirect_times(self, n: u32) -> (r: RequestBuilder)
        requires
            self.config.wf(),
        ensures
            r.config.wf(),
            r.config@ == (ConfigView { max_redirects: n, ..self.config@ }),
    {
        let mut config = self.config;
        config.max_redirects = n;
        RequestBuilder { config }
    }

    /// Turns automatic response decompression on.
    pub fn decode(self) -> (r: RequestBuilder)
        requires
            self.config.wf(),
        ensures
            r.config.wf(),
            r.config@ == (ConfigView { auto_decode: true, ..self.config@ }),
    {
        let mut config = self.config;
        config.auto_decode = true;
        RequestBuilder { config }
    }

    /// Pins the version hint to HTTP/1.1.
    pub fn http1_1_only(self) -> (r: RequestBuilder)
        requires
            self.config.wf(),
        ensures
            r.config.wf(),
            r.config@ == (ConfigView { http_version: HttpVersion::Http1_1, ..self.config@ }),
    {
        let mut config = self.config;
        config.http_version = HttpVersion::Http1_1;
        RequestBuilder { config }
    }

    /// Records an HTTP/2 preference; the wire still carries HTTP/1.1
    /// framing.
    pub fn http2_only(self) -> (r: RequestBuilder)
        requires
            self.config.wf(),
        ensures
            r.config.wf(),
            r.config@ == (ConfigView { http_version: HttpVersion::Http2, ..self.config@ }),
    {
        let mut config = self.config;
        config.http_version = HttpVersion::Http2;
        RequestBuilder { config }
    }

    /// Routes the connection through an HTTP CONNECT proxy.
    pub fn http_proxy(self, host: &str, port: u16) -> (r: RequestBuilder)
        requires
            self.config.wf(),
        ensures
            r.config.wf(),
            r.config@ == (ConfigView {
                proxy: ProxyView::Http { host: host@, port, auth: None },
                ..self.config@
            }),
    {
        let mut config = self.config;
        config.proxy = Proxy::Http { host: String::from_str(host), port, auth: None };
        RequestBuilder { config }
    }

    /// Routes the connection through an HTTP CONNECT proxy with Basic
    /// credentials.
    pub fn http_proxy_auth(self, host: &str, port: u16, username: &str, password: &str) -> (r:
        RequestBuilder)
        requires
            self.config.wf(),
        ensures
            r.config.wf(),
            r.config@ == (ConfigView {
                proxy: ProxyView::Http { host: host@, port, auth: Some((username@, password@)) },
                ..self.config@
            }),
    {
        let mut config = self.config;
        config.proxy = Proxy::Http {
            host: String::from_str(host),
            port,
            auth: Some(
                ProxyAuth {
                    username: String::from_str(username),
                    password: String::from_str(password),
                },
            ),
        };
        RequestBuilder { config }
    }

    /// Routes the connection through an HTTPS CONNECT proxy.
    pub fn https_proxy(self, host: &str, port: u16) -> (r: RequestBuilder)
        requires
            self.config.wf(),
        ensures
            r.config.wf(),
            r.config@ == (ConfigView {
                proxy: ProxyView::Https { host: host@, port, auth: None },
                ..self.config@
            }),
    {
        let mut config = self.config;
        config.proxy = Proxy::Https { host: String::from_str(host), port, auth: None };
        RequestBuilder { config }
    }

    /// Routes the connection through an HTTPS CONNECT proxy with Basic
    /// credentials.
    pub fn https_proxy_auth(self, host: &str, port: u16, username: &str, password: &str) -> (r:
        RequestBuilder)
        requires
            self.config.wf(),
        ensures
            r.config.wf(),
            r.config@ == (ConfigView {
                proxy: ProxyView::Https { host: host@, port, auth: Some((username@, password@)) },
                ..self.config@
            }),
    {
        let mut config = self.config;
        config.proxy = Proxy::Https {
            host: String::from_str(host),
            port,
            auth: Some(
                ProxyAuth {
                    username: String::from_str(username),
                    password: String::from_str(password),
                },
            ),
        };
        RequestBuilder { config }
    }

    /// Routes the connection through a SOCKS5 proxy.
    pub fn socks5_proxy(self, host: &str, port: u16) -> (r: RequestBuilder)
        requires
            self.config.wf(),
        ensures
            r.config.wf(),
            r.config@ == (ConfigView {
                proxy: ProxyView::Socks5 { host: host@, port, auth: None },
                ..self.config@
            }),
    {
        let mut config = self.config;
        config.proxy = Proxy::Socks5 { host: String::from_str(host), port, auth: None };
        RequestBuilder { config }
    }

    /// Routes the connection through a SOCKS5 proxy with username/password
    /// sub-negotiation.
    pub fn socks5_proxy_auth(self, host: &str, port: u16, username: &str, password: &str) -> (r:
        RequestBuilder)
        requires
            self.config.wf(),
        ensures
            r.config.wf(),
            r.config@ == (ConfigView {
                proxy: ProxyView::Socks5 { host: host@, port, auth: Some((username@, password@)) },
                ..self.config@
            }),
    {
        let mut config = self.config;
        config.proxy = Proxy::Socks5 {
            host: String::from_str(host),
            port,
            auth: Some(
                ProxyAuth {
                    username: String::from_str(username),
                    password: String::from_str(password),
                },
            ),
        };
        RequestBuilder { config }
    }

    /// Finishes the builder: the configuration a blocking driver runs.
    pub fn build_sync(self) -> (r: RequestConfig)
        requires
            self.config.wf(),
        ensures
            r.wf(),
            r@ == self.config@,
    {
        self.config
    }
}

/// What the engine does once a complete response is in hand.
#[derive(Clone, Copy, Debug, PartialEq, Eq, Structural)]
pub enum RedirectAction {
    /// The response is final: hand it to the caller.
    Complete,
    /// Follow the redirect with this method, dropping the body when asked.
    Follow {
        /// The method of the follow-up request.
        next_method: Method,
        /// Whether the follow-up drops the request body.
        drop_body: bool,
    },
    /// The redirect bound is spent: fail with `TooManyRedirects`.
    TooMany,
}

/// The redirect decision: a response is followed exactly when its status is
/// 3xx, it names a target, and following is on; the bound spends one
/// redirect per follow, and a 301, 302 or 303 turns POST into a bodyless
/// GET while 307 and 308 keep method and body.
pub open spec fn spec_redirect_decision(
    status: int,
    has_location: bool,
    follow: bool,
    taken: int,
    max: int,
    method: Method,
) -> RedirectAction {
    if !(300 <= status <= 399) || !has_location || !follow {
        RedirectAction::Complete
    } else if taken >= max {
        RedirectAction::TooMany
    } else if (status == 301 || status == 302 || status == 303) && method == Method::Post {
        RedirectAction::Follow { next_method: Method::Get, drop_body: true }
    } else {
        RedirectAction::Follow { next_method: method, drop_body: false }
    }
}

/// Decides what to do with a complete response.
pub fn redirect_decision(
    status: u16,
    has_location: bool,
    follow: bool,
    taken: u32,
    max: u32,
    method: Method,
) -> (r: RedirectAction)
    ensures
        r == spec_redirect_decision(
            status as int,
            has_location,
            follow,
            taken as int,
            max as int,
            method,
        ),
{
    if !(300 <= status && status <= 399) || !has_location || !follow {
        RedirectAction::Complete
    } else if taken >= max {
        RedirectAction::TooMany
    } else if (status == 301 || status == 302 || status == 303) && matches!(method, Method::Post) {
        RedirectAction::Follow { next_method: Method::Get, drop_body: true }
    } else {
        RedirectAction::Follow { next_method: method, drop_body: false }
    }
}

/// A server that answers every request with a redirect exhausts the bound
/// after exactly `max + 1` requests: the k-th response (counting from zero)
/// is followed while `k < max`, and the response to request number
/// `max + 1` fails with the bound spent.
pub proof fn lemma_redirect_bound(status: int, k: int, max: int, method: Method)
    requires
        300 <= status <= 399,
        0 <= k,
        0 <= max,
    ensures
        k < max ==> spec_redirect_decision(status, true, true, k, max, method) is Follow,
        k >= max ==> spec_redirect_decision(status, true, true, k, max, method)
            == RedirectAction::TooMany,
{
}

/// A 303 (and a 301 or 302) turns a followed POST into a bodyless GET,
/// while 307 and 308 preserve method and body.
pub proof fn lemma_redirect_method(status: int, k: int, max: int, method: Method)
    requires
        0 <= k < max,
    ensures
        (status == 301 || status == 302 || status == 303) ==> spec_redirect_decision(
            status,
            true,
            true,
            k,
            max,
            Method::Post,
        ) == (RedirectAction::Follow { next_method: Method::Get, drop_body: true }),
        (status == 307 || status == 308) ==> spec_redirect_decision(
            status,
            true,
            true,
            k,
            max,
            method,
        ) == (RedirectAction::Follow { next_method: method, drop_body: false }),
{
}

/// The declaration that lets JSON values pass through signatures.
#[verifier::external_type_specification]
#[verifier::external_body]
pub struct ExJsonValue(serde_json::Value);

/// The textual JSON bytes of a value; they depend on the value alone.
pub uninterp spec fn json_bytes_of(v: serde_json::Value) -> Seq<u8>;

/// Relies on `serde_json::to_vec`: serializes a JSON value to its textual
/// bytes, deterministically; a plain value cannot fail to serialize, and a
/// failure here would yield empty bytes.
#[verifier::external_body]
fn json_to_bytes(value: &serde_json::Value) -> (r: Vec<u8>)
    ensures
        r@ == json_bytes_of(*value),
{
    serde_json::to_vec(value).unwrap_or_default()
}

} // verus!
