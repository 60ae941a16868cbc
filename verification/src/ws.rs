//! The WebSocket engine: the Upgrade handshake check and the frame codec,
//! with a small state machine that a transport driver feeds bytes into.

use vstd::prelude::*;
use vstd::slice::{slice_subrange, slice_to_vec};
use vstd::string::StringSliceAdditionalSpecFns;
use vstd::utf8::{decode_utf8, valid_utf8};

use crate::base64::{base64_encode, spec_base64};
use crate::codec::chars_bytes;
use crate::error::RequestError;
use crate::headers::{name_eq, spec_get};
use crate::response::{spec_code_bytes, spec_response_headers, HttpResponseBinary};
use crate::sha1::{sha1, spec_sha1};
use crate::engine::{Proxy, ProxyView};
use crate::headers::{insert_entry, HeaderMap, SpecEntry};
use crate::split::slices_equal;
use crate::url::{parse_url, Url};

verus! {

/// The fixed GUID that the accept key binds the client key to.
pub open spec fn ws_guid_bytes() -> Seq<u8> {
    chars_bytes("258EAFA5-E914-47DA-95CA-C5AB0DC85B11"@)
}

/// The accept value a server must echo for a client key: the Base64 of the
/// SHA-1 of the key followed by the fixed GUID.
pub open spec fn spec_accept_key(key: Seq<char>) -> Seq<u8> {
    spec_base64(spec_sha1(chars_bytes(key) + ws_guid_bytes()))
}

/// Computes the accept value for a client key.
pub fn accept_key_for(key: &str) -> (r: Vec<u8>)
    ensures
        r@ == spec_accept_key(key@),
{
    let mut input: Vec<u8> = slice_to_vec(key.as_bytes());
    input.extend_from_slice("258EAFA5-E914-47DA-95CA-C5AB0DC85B11".as_bytes());
    proof {
        assert(input@ =~= chars_bytes(key@) + ws_guid_bytes());
    }
    let digest: Vec<u8> = sha1(input.as_slice());
    base64_encode(digest.as_slice())
}

/// A handshake response is accepted exactly when its status is 101, its
/// `Upgrade` header equals `websocket` case-insensitively, its `Connection`
/// header contains `upgrade` case-insensitively, and its accept header
/// equals the value computed from the client key.
pub open spec fn spec_handshake_ok(raw: Seq<u8>, key: Seq<char>) -> bool {
    let headers = spec_response_headers(raw);
    &&& crate::codec::spec_status_code(spec_code_bytes(raw)) == 101
    &&& match spec_get(headers, "upgrade"@) {
        Some(v) => name_eq(v, "websocket"@),
        None => false,
    }
    &&& match spec_get(headers, "connection"@) {
        Some(v) => crate::codec::spec_find_ci(chars_bytes(v), chars_bytes("upgrade"@)) is Some,
        None => false,
    }
    &&& match spec_get(headers, "sec-websocket-accept"@) {
        Some(v) => chars_bytes(v) == spec_accept_key(key),
        None => false,
    }
}

/// Checks a raw handshake response head against the client key.
pub fn check_handshake_response(raw: &[u8], key: &str) -> (r: Result<(), RequestError>)
    ensures
        r is Ok <==> spec_handshake_ok(raw@, key@),
        r is Err ==> r == Err::<(), RequestError>(RequestError::HandshakeFailed),
{
    let parsed: HttpResponseBinary = HttpResponseBinary::from(raw);
    if parsed.status_code != 101 {
        return Err(RequestError::HandshakeFailed);
    }
    let upgrade_ok: bool = match parsed.headers.get("upgrade") {
        Some(v) => crate::headers::names_equivalent(v.as_str(), "websocket"),
        None => false,
    };
    if !upgrade_ok {
        return Err(RequestError::HandshakeFailed);
    }
    let connection_ok: bool = match parsed.headers.get("connection") {
        Some(v) => {
            let found: Option<usize> =
                crate::codec::SharedResponseHandler::find_pattern_case_insensitive(
                v.as_str().as_bytes(),
                "upgrade".as_bytes(),
            );
            match found {
                Some(_) => true,
                None => false,
            }
        },
        None => false,
    };
    if !connection_ok {
        return Err(RequestError::HandshakeFailed);
    }
    let expected: Vec<u8> = accept_key_for(key);
    let accept_ok: bool = match parsed.headers.get("sec-websocket-accept") {
        Some(v) => slices_equal(v.as_str().as_bytes(), expected.as_slice()),
        None => false,
    };
    if !accept_ok {
        return Err(RequestError::HandshakeFailed);
    }
    Ok(())
}

/// The payload with the four-byte mask applied.
pub open spec fn spec_masked(payload: Seq<u8>, mask: Seq<u8>) -> Seq<u8> {
    Seq::new(payload.len(), |i: int| payload[i] ^ mask[i % 4])
}

/// A client frame: FIN plus opcode, the mask bit with the 7/7+16/7+64
/// length, the four mask bytes, and the masked payload.
pub open spec fn spec_client_frame(opcode: u8, payload: Seq<u8>, mask: Seq<u8>) -> Seq<u8> {
    let head = seq![(128 + opcode) as u8];
    let lenf = if payload.len() < 126 {
        seq![(128 + payload.len()) as u8]
    } else if payload.len() < 65536 {
        seq![
            254u8,
            ((payload.len() as int / 256) % 256) as u8,
            (payload.len() as int % 256) as u8,
        ]
    } else {
        seq![
            255u8,
            0u8,
            0u8,
            0u8,
            ((payload.len() as int / 0x100000000) % 256) as u8,
            ((payload.len() as int / 0x1000000) % 256) as u8,
            ((payload.len() as int / 0x10000) % 256) as u8,
            ((payload.len() as int / 256) % 256) as u8,
            (payload.len() as int % 256) as u8,
        ]
    };
    head + lenf + mask + spec_masked(payload, mask)
}

/// Builds a masked client frame carrying `payload` under `opcode`.
pub fn encode_frame(opcode: u8, payload: &[u8], mask: &[u8]) -> (r: Vec<u8>)
    requires
        mask@.len() == 4,
        opcode < 16,
    ensures
        r@ == spec_client_frame(opcode, payload@, mask@),
{
    let ghost p = payload@;
    let ghost m = mask@;
    let n: usize = payload.len();
    let mut out: Vec<u8> = Vec::new();
    out.push(128 + opcode);
    if n < 126 {
        out.push(128 + (n as u8));
    } else if n < 65536 {
        out.push(254);
        out.push(((n / 256) % 256) as u8);
        out.push((n % 256) as u8);
    } else {
        out.push(255);
        out.push(0);
        out.push(0);
        out.push(0);
        let big: u64 = n as u64;
        out.push(((big / 0x100000000) % 256) as u8);
        out.push(((big / 0x1000000) % 256) as u8);
        out.push(((big / 0x10000) % 256) as u8);
        out.push(((big / 256) % 256) as u8);
        out.push((big % 256) as u8);
    }
    out.push(mask[0]);
    out.push(mask[1]);
    out.push(mask[2]);
    out.push(mask[3]);
    let ghost header = out@;
    proof {
        assert(header =~= seq![(128 + opcode) as u8] + (if p.len() < 126 {
            seq![(128 + p.len()) as u8]
        } else if p.len() < 65536 {
            seq![254u8, ((p.len() as int / 256) % 256) as u8, (p.len() as int % 256) as u8]
        } else {
            seq![
                255u8,
                0u8,
                0u8,
                0u8,
                ((p.len() as int / 0x100000000) % 256) as u8,
                ((p.len() as int / 0x1000000) % 256) as u8,
                ((p.len() as int / 0x10000) % 256) as u8,
                ((p.len() as int / 256) % 256) as u8,
                (p.len() as int % 256) as u8,
            ]
        }) + m);
    }
    let mut i: usize = 0;
    while i < n
        invariant
            p == payload@,
            m == mask@,
            m.len() == 4,
            n == p.len(),
            0 <= i <= n,
            out@ == header + spec_masked(p, m).take(i as int),
        decreases n - i,
    {
        out.push(payload[i] ^ mask[i % 4]);
        proof {
            assert(out@ =~= header + spec_masked(p, m).take(i + 1));
        }
        i = i + 1;
    }
    proof {
        assert(spec_masked(p, m).take(n as int) =~= spec_masked(p, m));
        assert(out@ =~= spec_client_frame(opcode, p, m));
    }
    out
}

/// One parsed frame at the front of a buffer.
pub enum FrameParse {
    /// A complete frame: final-fragment flag, opcode, unmasked payload, and
    /// how many buffer bytes it occupied.
    Frame { fin: bool, opcode: u8, payload: Seq<u8>, consumed: int },
    /// The buffer holds only part of a frame.
    Incomplete,
    /// The bytes cannot be a frame.
    Invalid,
}

/// Parses the frame at the front of `d`: FIN and opcode from the first
/// byte (reserved bits must be clear), the mask bit and length form from the
/// second, then the optional extended length, optional mask, and payload,
/// which is unmasked when the mask bit was set.
pub open spec fn spec_parse_frame(d: Seq<u8>) -> FrameParse {
    if d.len() < 2 {
        FrameParse::Incomplete
    } else if d[0] & 0x70 != 0 {
        FrameParse::Invalid
    } else {
        let fin = (d[0] & 0x80) == 0x80;
        let opcode = (d[0] & 0x0f) as u8;
        let masked = (d[1] & 0x80) == 0x80;
        let len7 = (d[1] & 0x7f) as int;
        let hdr: int = if len7 == 126 {
            4
        } else if len7 == 127 {
            10
        } else {
            2
        };
        if d.len() < hdr {
            FrameParse::Incomplete
        } else {
            let plen: int = if len7 == 126 {
                d[2] * 256 + d[3]
            } else if len7 == 127 {
                ((((((d[2] * 256 + d[3]) * 256 + d[4]) * 256 + d[5]) * 256 + d[6]) * 256 + d[7])
                    * 256 + d[8]) * 256 + d[9]
            } else {
                len7
            };
            let mask_len: int = if masked {
                4
            } else {
                0
            };
            let total: int = hdr + mask_len + plen;
            if d.len() < total {
                FrameParse::Incomplete
            } else {
                let raw = d.subrange(hdr + mask_len, total);
                let payload = if masked {
                    spec_masked(raw, d.subrange(hdr, hdr + 4))
                } else {
                    raw
                };
                FrameParse::Frame { fin, opcode, payload, consumed: total }
            }
        }
    }
}

/// A decoded frame, executably.
pub struct DecodedFrame {
    /// Whether this fragment ends its message.
    pub fin: bool,
    /// The frame's opcode.
    pub opcode: u8,
    /// The unmasked payload.
    pub payload: Vec<u8>,
    /// How many bytes of the buffer the frame occupied.
    pub consumed: usize,
}

/// Parses the frame at the front of `data`.
pub fn decode_frame(data: &[u8]) -> (r: Result<Option<DecodedFrame>, RequestError>)
    ensures
        match r {
            Ok(Some(f)) => spec_parse_frame(data@) == (FrameParse::Frame {
                fin: f.fin,
                opcode: f.opcode,
                payload: f.payload@,
                consumed: f.consumed as int,
            }),
            Ok(None) => spec_parse_frame(data@) is Incomplete,
            Err(e) => spec_parse_frame(data@) is Invalid && e == RequestError::Protocol,
        },
{
    let ghost d = data@;
    let n: usize = data.len();
    if n < 2 {
        return Ok(None);
    }
    if data[0] & 0x70 != 0 {
        return Err(RequestError::Protocol);
    }
    let fin: bool = (data[0] & 0x80) == 0x80;
    let opcode: u8 = data[0] & 0x0f;
    let masked: bool = (data[1] & 0x80) == 0x80;
    let len7: u8 = data[1] & 0x7f;
    let hdr: usize = if len7 == 126 {
        4
    } else if len7 == 127 {
        10
    } else {
        2
    };
    if n < hdr {
        return Ok(None);
    }
    let plen_big: u64 = if len7 == 126 {
        (data[2] as u64) * 256 + (data[3] as u64)
    } else if len7 == 127 {
        ((((((((data[2] as u64) * 256 + (data[3] as u64)) * 256 + (data[4] as u64)) * 256 + (
        data[5] as u64)) * 256 + (data[6] as u64)) * 256 + (data[7] as u64)) * 256 + (
        data[8] as u64)) * 256) + (data[9] as u64)
    } else {
        len7 as u64
    };
    let mask_len: usize = if masked {
        4
    } else {
        0
    };
    if n - hdr < mask_len {
        return Ok(None);
    }
    if plen_big > (n as u64) || (plen_big as usize) > n - hdr - mask_len {
        return Ok(None);
    }
    let plen: usize = plen_big as usize;
    let total: usize = hdr + mask_len + plen;
    let raw: &[u8] = slice_subrange(data, hdr + mask_len, total);
    let payload: Vec<u8> = if masked {
        let mask: &[u8] = slice_subrange(data, hdr, hdr + 4);
        let mut out: Vec<u8> = Vec::new();
        let mut i: usize = 0;
        while i < plen
            invariant
                raw@ == d.subrange(hdr + mask_len, total as int),
                mask@ == d.subrange(hdr as int, hdr + 4),
                mask@.len() == 4,
                plen == raw@.len(),
                0 <= i <= plen,
                out@ == spec_masked(raw@, mask@).take(i as int),
            decreases plen - i,
        {
            out.push(raw[i] ^ mask[i % 4]);
            proof {
                assert(out@ =~= spec_masked(raw@, mask@).take(i + 1));
            }
            i = i + 1;
        }
        proof {
            assert(spec_masked(raw@, mask@).take(plen as int) =~= spec_masked(raw@, mask@));
        }
        out
    } else {
        slice_to_vec(raw)
    };
    Ok(
        Some(
            DecodedFrame {
                fin,
                opcode,
                payload,
                consumed: total,
            },
        ),
    )
}


/// The advertised subprotocol names, as text.
pub open spec fn protocols_view(ps: &Vec<String>) -> Seq<Seq<char>> {
    Seq::new(ps@.len(), |i: int| ps@[i]@)
}

/// The subprotocol names joined by a comma and a space.
pub open spec fn spec_join_protocols(ps: Seq<Seq<char>>) -> Seq<char>
    decreases ps.len()
{
    if ps.len() == 0 {
        Seq::empty()
    } else if ps.len() == 1 {
        ps[0]
    } else {
        spec_join_protocols(ps.drop_last()) + ", "@ + ps.last()
    }
}

/// The headers an upgrade request carries: the caller's extras, a `Host`
/// when they gave none, and the fixed upgrade fields with the key and the
/// joined subprotocols.
pub open spec fn spec_ws_headers(
    h0: Seq<SpecEntry>,
    protocols: Seq<Seq<char>>,
    host: Seq<char>,
    port: u16,
    default_port: u16,
    key: Seq<char>,
) -> Seq<SpecEntry> {
    let m1 = if crate::headers::spec_get(h0, "host"@) is None {
        insert_entry(h0, "Host"@, crate::session::spec_host_header(host, port, default_port))
    } else {
        h0
    };
    let m2 = insert_entry(m1, "Upgrade"@, "websocket"@);
    let m3 = insert_entry(m2, "Connection"@, "Upgrade"@);
    let m4 = insert_entry(m3, "Sec-WebSocket-Version"@, "13"@);
    let m5 = insert_entry(m4, "Sec-WebSocket-Key"@, key);
    if protocols.len() > 0 {
        insert_entry(m5, "Sec-WebSocket-Protocol"@, spec_join_protocols(protocols))
    } else {
        m5
    }
}

/// The lifecycle of a WebSocket.
#[derive(Clone, Copy, Debug, PartialEq, Eq, Structural)]
pub enum WsState {
    /// The upgrade has not been accepted yet.
    Handshaking,
    /// Messages flow.
    Open,
    /// The peer asked to close.
    Closing,
    /// This side closed.
    Closed,
}

/// A message surfaced to the caller.
pub enum WebSocketMessage {
    /// A text message.
    Text(String),
    /// A binary message.
    Binary(Vec<u8>),
    /// A ping, with its payload.
    Ping(Vec<u8>),
    /// A pong, with its payload.
    Pong(Vec<u8>),
    /// The peer closed the connection.
    Close,
}

/// The fluent accumulator that produces a WebSocket.
pub struct WebSocketBuilder {
    /// The target URL text.
    pub url_text: String,
    /// Extra handshake headers.
    pub headers: HeaderMap,
    /// Per-I/O timeout in milliseconds.
    pub timeout_ms: u64,
    /// The read buffer size.
    pub buffer_size: usize,
    /// Subprotocols to advertise, in order.
    pub protocols: Vec<String>,
    /// The proxy to connect through.
    pub proxy: Proxy,
}

impl WebSocketBuilder {
    /// A builder with the defaults: no URL, no headers, a 30-second
    /// timeout, a 1024-byte buffer, no subprotocols, no proxy.
    pub fn new() -> (r: WebSocketBuilder)
        ensures
            r.url_text@ == Seq::<char>::empty(),
            r.headers@ == Seq::<SpecEntry>::empty(),
            r.headers.wf(),
            r.timeout_ms == 30000,
            r.buffer_size == 1024,
            r.protocols@.len() == 0,
            r.proxy@ is NoProxy,
    {
        WebSocketBuilder {
            url_text: String::new(),
            headers: HeaderMap::new(),
            timeout_ms: 30000,
            buffer_size: 1024,
            protocols: Vec::new(),
            proxy: Proxy::NoProxy,
        }
    }

    /// Names the target URL.
    pub fn connect(self, url: &str) -> (r: WebSocketBuilder)
        ensures
            r.url_text@ == url@,
            r.headers == self.headers,
            r.timeout_ms == self.timeout_ms,
            r.buffer_size == self.buffer_size,
            r.protocols == self.protocols,
            r.proxy == self.proxy,
    {
        WebSocketBuilder { url_text: String::from_str(url), ..self }
    }

    /// Merges extra handshake headers, case-insensitively.
    pub fn headers(self, map: &HeaderMap) -> (r: WebSocketBuilder)
        requires
            self.headers.wf(),
            map.wf(),
        ensures
            r.headers.wf(),
            r.url_text == self.url_text,
            r.timeout_ms == self.timeout_ms,
            r.buffer_size == self.buffer_size,
            r.protocols == self.protocols,
            r.proxy == self.proxy,
    {
        let mut headers = self.headers;
        headers.merge(map);
        WebSocketBuilder { headers, ..self }
    }

    /// Sets the per-I/O timeout in milliseconds.
    pub fn timeout(self, ms: u64) -> (r: WebSocketBuilder)
        ensures
            r.timeout_ms == ms,
            r.url_text == self.url_text,
            r.headers == self.headers,
            r.buffer_size == self.buffer_size,
            r.protocols == self.protocols,
            r.proxy == self.proxy,
    {
        WebSocketBuilder { timeout_ms: ms, ..self }
    }

    /// Sets the read buffer size.
    pub fn buffer(self, n: usize) -> (r: WebSocketBuilder)
        ensures
            r.buffer_size == n,
            r.url_text == self.url_text,
            r.headers == self.headers,
            r.timeout_ms == self.timeout_ms,
            r.protocols == self.protocols,
            r.proxy == self.proxy,
    {
        WebSocketBuilder { buffer_size: n, ..self }
    }

    /// Advertises subprotocols, joined by a comma and space on the wire.
    pub fn protocols(self, names: &[&str]) -> (r: WebSocketBuilder)
        ensures
            r.protocols@.len() == names@.len(),
            forall|i: int| 0 <= i < names@.len() ==> (#[trigger] r.protocols@[i])@ == names@[i]@,
            r.url_text == self.url_text,
            r.headers == self.headers,
            r.timeout_ms == self.timeout_ms,
            r.buffer_size == self.buffer_size,
            r.proxy == self.proxy,
    {
        let mut protocols: Vec<String> = Vec::new();
        let n: usize = names.len();
        let mut i: usize = 0;
        while i < n
            invariant
                n == names@.len(),
                0 <= i <= n,
                protocols@.len() == i,
                forall|j: int| 0 <= j < i ==> (#[trigger] protocols@[j])@ == names@[j]@,
            decreases n - i,
        {
            protocols.push(String::from_str(names[i]));
            i = i + 1;
        }
        WebSocketBuilder { protocols, ..self }
    }

    /// Routes the connection through an HTTP CONNECT proxy.
    pub fn http_proxy(self, host: &str, port: u16) -> (r: WebSocketBuilder)
        ensures
            r.proxy@ == (ProxyView::Http { host: host@, port, auth: None }),
            r.url_text == self.url_text,
            r.headers == self.headers,
            r.timeout_ms == self.timeout_ms,
            r.buffer_size == self.buffer_size,
            r.protocols == self.protocols,
    {
        WebSocketBuilder {
            proxy: Proxy::Http { host: String::from_str(host), port, auth: None },
            ..self
        }
    }

    /// Routes the connection through an HTTP CONNECT proxy with Basic
    /// credentials.
    pub fn http_proxy_auth(self, host: &str, port: u16, username: &str, password: &str) -> (r:
        WebSocketBuilder)
        ensures
            r.proxy@ == (ProxyView::Http { host: host@, port, auth: Some((username@, password@)) }),
            r.url_text == self.url_text,
            r.headers == self.headers,
            r.timeout_ms == self.timeout_ms,
            r.buffer_size == self.buffer_size,
            r.protocols == self.protocols,
    {
        WebSocketBuilder {
            proxy: Proxy::Http {
                host: String::from_str(host),
                port,
                auth: Some(
                    crate::engine::ProxyAuth {
                        username: String::from_str(username),
                        password: String::from_str(password),
                    },
                ),
            },
            ..self
        }
    }

    /// Routes the connection through an HTTPS CONNECT proxy.
    pub fn https_proxy(self, host: &str, port: u16) -> (r: WebSocketBuilder)
        ensures
            r.proxy@ == (ProxyView::Https { host: host@, port, auth: None }),
            r.url_text == self.url_text,
            r.headers == self.headers,
            r.timeout_ms == self.timeout_ms,
            r.buffer_size == self.buffer_size,
            r.protocols == self.protocols,
    {
        WebSocketBuilder {
            proxy: Proxy::Https { host: String::from_str(host), port, auth: None },
            ..self
        }
    }

    /// Routes the connection through an HTTPS CONNECT proxy with Basic
    /// credentials.
    pub fn https_proxy_auth(self, host: &str, port: u16, username: &str, password: &str) -> (r:
        WebSocketBuilder)
        ensures
            r.proxy@ == (ProxyView::Https {
                host: host@,
                port,
                auth: Some((username@, password@)),
            }),
            r.url_text == self.url_text,
            r.headers == self.headers,
            r.timeout_ms == self.timeout_ms,
            r.buffer_size == self.buffer_size,
            r.protocols == self.protocols,
    {
        WebSocketBuilder {
            proxy: Proxy::Https {
                host: String::from_str(host),
                port,
                auth: Some(
                    crate::engine::ProxyAuth {
                        username: String::from_str(username),
                        password: String::from_str(password),
                    },
                ),
            },
            ..self
        }
    }

    /// Routes the connection through a SOCKS5 proxy.
    pub fn socks5_proxy(self, host: &str, port: u16) -> (r: WebSocketBuilder)
        ensures
            r.proxy@ == (ProxyView::Socks5 { host: host@, port, auth: None }),
            r.url_text == self.url_text,
            r.headers == self.headers,
            r.timeout_ms == self.timeout_ms,
            r.buffer_size == self.buffer_size,
            r.protocols == self.protocols,
    {
        WebSocketBuilder {
            proxy: Proxy::Socks5 { host: String::from_str(host), port, auth: None },
            ..self
        }
    }

    /// Routes the connection through a SOCKS5 proxy with username/password
    /// sub-negotiation.
    pub fn socks5_proxy_auth(self, host: &str, port: u16, username: &str, password: &str) -> (r:
        WebSocketBuilder)
        ensures
            r.proxy@ == (ProxyView::Socks5 {
                host: host@,
                port,
                auth: Some((username@, password@)),
            }),
            r.url_text == self.url_text,
            r.headers == self.headers,
            r.timeout_ms == self.timeout_ms,
            r.buffer_size == self.buffer_size,
            r.protocols == self.protocols,
    {
        WebSocketBuilder {
            proxy: Proxy::Socks5 {
                host: String::from_str(host),
                port,
                auth: Some(
                    crate::engine::ProxyAuth {
                        username: String::from_str(username),
                        password: String::from_str(password),
                    },
                ),
            },
            ..self
        }
    }

    /// Finishes the builder: a socket awaiting its handshake.
    pub fn build_sync(self) -> (r: WebSocket)
        requires
            self.headers.wf(),
        ensures
            r.builder.url_text == self.url_text,
            r.builder.headers == self.headers,
            r.builder.timeout_ms == self.timeout_ms,
            r.builder.buffer_size == self.buffer_size,
            r.builder.protocols == self.protocols,
            r.builder.proxy == self.proxy,
            r.state == WsState::Handshaking,
            r.recv_buf@ == Seq::<u8>::empty(),
            r.fragment@ == Seq::<u8>::empty(),
            r.wf(),
    {
        WebSocket {
            builder: self,
            state: WsState::Handshaking,
            recv_buf: Vec::new(),
            fragment: Vec::new(),
            fragment_opcode: 0,
        }
    }
}

/// An open (or opening) WebSocket: the configuration, the lifecycle state,
/// and the bytes received but not yet consumed.
pub struct WebSocket {
    /// The configuration it was built from.
    pub builder: WebSocketBuilder,
    /// Where the lifecycle stands.
    pub state: WsState,
    /// Received bytes not yet consumed.
    pub recv_buf: Vec<u8>,
    /// Reassembled fragments of the message in progress.
    pub fragment: Vec<u8>,
    /// The opcode of the message in progress; 0 when none is.
    pub fragment_opcode: u8,
}

/// Whether the frame at hand finishes a text message: a final text frame,
/// or a final continuation of a text message in progress.
pub open spec fn spec_step_is_text(opcode: u8, fragment_opcode: u8) -> bool {
    opcode == 1 || (opcode == 0 && fragment_opcode == 1)
}

/// The message bytes a finishing frame surfaces: its own payload, or the
/// fragments so far with the payload appended for a continuation.
pub open spec fn spec_step_assembled(opcode: u8, payload: Seq<u8>, fragment: Seq<u8>) -> Seq<u8> {
    if opcode == 0 {
        fragment + payload
    } else {
        payload
    }
}

/// One receive step rejects the buffer exactly when its leading frame is
/// malformed: broken framing, an opcode this client does not speak, a
/// fragmented ping, or a finished text message whose bytes are not UTF-8.
pub open spec fn spec_step_rejects(buf: Seq<u8>, fragment: Seq<u8>, fragment_opcode: u8) -> bool {
    match spec_parse_frame(buf) {
        FrameParse::Invalid => true,
        FrameParse::Incomplete => false,
        FrameParse::Frame { fin, opcode, payload, consumed } => {
            if opcode == 9 {
                !fin
            } else if opcode == 8 || opcode == 10 {
                false
            } else if opcode == 1 || opcode == 2 || opcode == 0 {
                fin && spec_step_is_text(opcode, fragment_opcode) && !valid_utf8(
                    spec_step_assembled(opcode, payload, fragment),
                )
            } else {
                true
            }
        },
    }
}

/// One receive step asks for more bytes exactly when the buffer holds no
/// whole frame, or its frame is a non-final fragment of a message.
pub open spec fn spec_step_defers(buf: Seq<u8>) -> bool {
    match spec_parse_frame(buf) {
        FrameParse::Invalid => false,
        FrameParse::Incomplete => true,
        FrameParse::Frame { fin, opcode, payload, consumed } => (opcode == 1 || opcode == 2
            || opcode == 0) && !fin,
    }
}

/// What one step over the receive buffer produced.
pub enum WsStep {
    /// A whole message.
    Message(WebSocketMessage),
    /// A ping arrived: write this pong frame, then call again.
    ReplyPong(Vec<u8>),
    /// The buffer holds no complete frame; read more bytes.
    NeedMore,
}

impl WebSocket {
    /// The socket's standing invariant.
    pub open spec fn wf(&self) -> bool {
        self.builder.headers.wf()
    }

    /// The upgrade request for this socket aimed at `url`: a GET carrying
    /// the upgrade headers over the caller's extras — `Host` only when the
    /// caller gave none, then `Upgrade`, `Connection`, the version, the
    /// given key, and the advertised subprotocols joined by `, `.
    pub fn handshake_request(&self, url: &Url, key: &str) -> (r: Vec<u8>)
        requires
            self.wf(),
        ensures
            r@ == crate::codec::spec_request_bytes(
                chars_bytes("GET"@),
                chars_bytes(
                    match url.query {
                        Some(q) => url.path@ + "?"@ + q@,
                        None => url.path@,
                    },
                ),
                crate::headers::wire_of(
                    spec_ws_headers(
                        self.builder.headers@,
                        protocols_view(&self.builder.protocols),
                        url.host@,
                        url.port,
                        url.scheme.spec_default_port(),
                        key@,
                    ),
                ),
                None,
                chars_bytes("HTTP/1.1"@),
            ),
    {
        let mut map: HeaderMap = self.builder.headers.clone();
        if !map.contains_key("host") {
            let default_port: u16 = url.scheme.default_port();
            let value: String = if url.port == default_port {
                url.host.clone()
            } else {
                let mut v: String = url.host.clone();
                v.append(":");
                let ps: String = crate::url::u16_to_string(url.port);
                proof {
                    vstd::utf8::encode_utf8_decode_utf8(ps@);
                }
                v.append(ps.as_str());
                v
            };
            map.insert(String::from_str("Host"), value);
        }
        map.insert(String::from_str("Upgrade"), String::from_str("websocket"));
        map.insert(String::from_str("Connection"), String::from_str("Upgrade"));
        map.insert(String::from_str("Sec-WebSocket-Version"), String::from_str("13"));
        map.insert(String::from_str("Sec-WebSocket-Key"), String::from_str(key));
        let pn: usize = self.builder.protocols.len();
        if pn > 0 {
            let ghost pv = protocols_view(&self.builder.protocols);
            let mut joined: String = String::new();
            let mut i: usize = 0;
            while i < pn
                invariant
                    pn == self.builder.protocols@.len(),
                    pv == protocols_view(&self.builder.protocols),
                    pn == pv.len(),
                    0 < pn,
                    0 <= i <= pn,
                    joined@ == spec_join_protocols(pv.take(i as int)),
                decreases pn - i,
            {
                if i > 0 {
                    joined.append(", ");
                }
                let p: String = self.builder.protocols[i].clone();
                joined.append(p.as_str());
                proof {
                    assert(pv.take(i + 1).drop_last() =~= pv.take(i as int));
                    assert(pv.take(i + 1).last() == pv[i as int]);
                    if i == 0 {
                        assert(pv.take(1) =~= seq![pv[0]]);
                    }
                }
                i = i + 1;
            }
            proof {
                assert(pv.take(pn as int) =~= pv);
            }
            map.insert(String::from_str("Sec-WebSocket-Protocol"), joined);
        }
        let header_bytes: Vec<u8> = map.to_wire_bytes();
        let path: String = url.full_path();
        crate::codec::SharedRequestBuilder::build_get_request(
            path,
            header_bytes,
            String::from_str("HTTP/1.1"),
        )
    }

    /// Checks the server's answer to the upgrade: on acceptance the socket
    /// opens, and on anything else it stays closed to traffic.
    pub fn on_handshake_response(&mut self, raw: &[u8], key: &str) -> (r: Result<
        (),
        RequestError,
    >)
        requires
            old(self).wf(),
            old(self).state == WsState::Handshaking,
        ensures
            final(self).wf(),
            r is Ok <==> spec_handshake_ok(raw@, key@),
            r is Ok <==> final(self).state == WsState::Open,
            r is Err ==> r == Err::<(), RequestError>(RequestError::HandshakeFailed) && final(self).state == WsState::Handshaking,
            final(self).builder == old(self).builder,
            final(self).recv_buf == old(self).recv_buf,
    {
        match check_handshake_response(raw, key) {
            Ok(_) => {
                self.state = WsState::Open;
                Ok(())
            },
            Err(e) => Err(e),
        }
    }

    /// A text frame to send: final, masked, opcode 1; only an open socket
    /// may send.
    pub fn send_text(&mut self, text: &str, mask: &[u8]) -> (r: Result<Vec<u8>, RequestError>)
        requires
            old(self).wf(),
            mask@.len() == 4,
        ensures
            *final(self) == *old(self),
            match r {
                Ok(frame) => (old(self).state == WsState::Open || old(self).state
                    == WsState::Closing) && frame@ == spec_client_frame(
                    1,
                    chars_bytes(text@),
                    mask@,
                ),
                Err(e) => e == RequestError::Closed && old(self).state != WsState::Open && old(self).state != WsState::Closing,
            },
    {
        if !(matches!(self.state, WsState::Open) || matches!(self.state, WsState::Closing)) {
            return Err(RequestError::Closed);
        }
        Ok(encode_frame(1, text.as_bytes(), mask))
    }

    /// A binary frame to send: final, masked, opcode 2; only an open socket
    /// may send.
    pub fn send_binary(&mut self, data: &[u8], mask: &[u8]) -> (r: Result<Vec<u8>, RequestError>)
        requires
            old(self).wf(),
            mask@.len() == 4,
        ensures
            *final(self) == *old(self),
            match r {
                Ok(frame) => (old(self).state == WsState::Open || old(self).state
                    == WsState::Closing) && frame@ == spec_client_frame(2, data@, mask@),
                Err(e) => e == RequestError::Closed && old(self).state != WsState::Open && old(self).state != WsState::Closing,
            },
    {
        if !(matches!(self.state, WsState::Open) || matches!(self.state, WsState::Closing)) {
            return Err(RequestError::Closed);
        }
        Ok(encode_frame(2, data, mask))
    }

    /// The close frame to send; the socket is closed afterwards, and
    /// closing twice is an error.
    pub fn close(&mut self, mask: &[u8]) -> (r: Result<Vec<u8>, RequestError>)
        requires
            old(self).wf(),
            mask@.len() == 4,
        ensures
            final(self).wf(),
            final(self).builder == old(self).builder,
            match r {
                Ok(frame) => old(self).state != WsState::Closed && frame@ == spec_client_frame(
                    8,
                    Seq::empty(),
                    mask@,
                ) && final(self).state == WsState::Closed,
                Err(e) => e == RequestError::Closed && old(self).state == WsState::Closed && final(self).state == WsState::Closed,
            },
    {
        if matches!(self.state, WsState::Closed) {
            return Err(RequestError::Closed);
        }
        self.state = WsState::Closed;
        let empty: Vec<u8> = Vec::new();
        let frame: Vec<u8> = encode_frame(8, empty.as_slice(), mask);
        proof {
            assert(empty@ =~= Seq::<u8>::empty());
        }
        Ok(frame)
    }

    /// More bytes from the transport.
    pub fn feed(&mut self, data: &[u8])
        requires
            old(self).wf(),
        ensures
            final(self).wf(),
            final(self).recv_buf@ == old(self).recv_buf@ + data@,
            final(self).state == old(self).state,
            final(self).builder == old(self).builder,
            final(self).fragment == old(self).fragment,
            final(self).fragment_opcode == old(self).fragment_opcode,
    {
        self.recv_buf.extend_from_slice(data);
    }

    /// Takes one step over the received bytes: a complete data frame
    /// surfaces a message (reassembling fragments first), a ping asks for a
    /// pong carrying the same payload, a close frame surfaces `Close` and
    /// moves the socket to `Closing`, and a short buffer or an unfinished
    /// fragment asks for more bytes; a malformed or unknown frame, a
    /// fragmented ping, or finished text that is not UTF-8 is a protocol
    /// error, and nothing else is. The consumed frame leaves the buffer.
    pub fn receive_step(&mut self, pong_mask: &[u8]) -> (r: Result<WsStep, RequestError>)
        requires
            old(self).wf(),
            pong_mask@.len() == 4,
            old(self).state == WsState::Open || old(self).state == WsState::Closing,
        ensures
            final(self).wf(),
            final(self).builder == old(self).builder,
            r is Err <==> spec_step_rejects(
                old(self).recv_buf@,
                old(self).fragment@,
                old(self).fragment_opcode,
            ),
            (r matches Ok(s) && s is NeedMore) <==> (!spec_step_rejects(
                old(self).recv_buf@,
                old(self).fragment@,
                old(self).fragment_opcode,
            ) && spec_step_defers(old(self).recv_buf@)),
            match r {
                Ok(step) => match step {
                    WsStep::NeedMore => true,
                    WsStep::ReplyPong(frame) => exists|payload: Seq<u8>, consumed: int|
                        spec_parse_frame(old(self).recv_buf@) == (FrameParse::Frame {
                            fin: true,
                            opcode: 9,
                            payload,
                            consumed,
                        }) && frame@ == spec_client_frame(10, payload, pong_mask@) && final(self).recv_buf@ == old(self).recv_buf@.skip(consumed),
                    WsStep::Message(msg) => exists|fin: bool, opcode: u8, payload: Seq<u8>, consumed: int|
                        spec_parse_frame(old(self).recv_buf@) == (FrameParse::Frame {
                            fin,
                            opcode,
                            payload,
                            consumed,
                        }) && final(self).recv_buf@ == old(self).recv_buf@.skip(consumed) && (
                        match msg {
                            WebSocketMessage::Close => opcode == 8 && final(self).state
                                == WsState::Closing,
                            WebSocketMessage::Pong(p) => opcode == 10 && p@ == payload,
                            WebSocketMessage::Text(t) => fin && spec_step_is_text(
                                opcode,
                                old(self).fragment_opcode,
                            ) && t@ == decode_utf8(
                                spec_step_assembled(opcode, payload, old(self).fragment@),
                            ),
                            WebSocketMessage::Binary(b) => fin && (opcode == 1 || opcode == 2
                                || opcode == 0) && !spec_step_is_text(
                                opcode,
                                old(self).fragment_opcode,
                            ) && b@ == spec_step_assembled(opcode, payload, old(self).fragment@),
                            WebSocketMessage::Ping(_) => false,
                        }),
                },
                Err(e) => e == RequestError::Protocol,
            },
    {
        let parsed: Option<DecodedFrame> = match decode_frame(self.recv_buf.as_slice()) {
            Ok(p) => p,
            Err(e) => {
                return Err(e);
            },
        };
        let frame: DecodedFrame = match parsed {
            Some(f) => f,
            None => {
                return Ok(WsStep::NeedMore);
            },
        };
        let consumed: usize = frame.consumed;
        proof {
            assert(consumed <= self.recv_buf@.len());
        }
        let rest: Vec<u8> = vstd::slice::slice_to_vec(
            vstd::slice::slice_subrange(self.recv_buf.as_slice(), consumed, self.recv_buf.len()),
        );
        self.recv_buf = rest;
        if frame.opcode == 9 {
            if !frame.fin {
                // A fragmented control frame breaks the framing rules.
                return Err(RequestError::Protocol);
            }
            let pong: Vec<u8> = encode_frame(10, frame.payload.as_slice(), pong_mask);
            return Ok(WsStep::ReplyPong(pong));
        }
        if frame.opcode == 10 {
            return Ok(WsStep::Message(WebSocketMessage::Pong(frame.payload)));
        }
        if frame.opcode == 8 {
            self.state = WsState::Closing;
            return Ok(WsStep::Message(WebSocketMessage::Close));
        }
        if frame.opcode == 1 || frame.opcode == 2 || frame.opcode == 0 {
            let ghost assembled = spec_step_assembled(
                frame.opcode,
                frame.payload@,
                old(self).fragment@,
            );
            if frame.opcode != 0 {
                // A fresh message: any unfinished fragments are discarded.
                self.fragment = frame.payload;
                self.fragment_opcode = frame.opcode;
            } else {
                self.fragment.extend_from_slice(frame.payload.as_slice());
            }
            proof {
                assert(self.fragment@ == assembled);
            }
            if !frame.fin {
                return Ok(WsStep::NeedMore);
            }
            let whole: Vec<u8> = vstd::slice::slice_to_vec(self.fragment.as_slice());
            let kind: u8 = self.fragment_opcode;
            self.fragment = Vec::new();
            self.fragment_opcode = 0;
            if kind == 1 {
                match crate::response::bytes_to_string(whole) {
                    Some(s) => {
                        proof {
                            vstd::utf8::encode_utf8_valid_utf8(s@);
                            vstd::utf8::encode_utf8_decode_utf8(s@);
                        }
                        return Ok(WsStep::Message(WebSocketMessage::Text(s)));
                    },
                    None => {
                        return Err(RequestError::Protocol);
                    },
                }
            }
            return Ok(WsStep::Message(WebSocketMessage::Binary(whole)));
        }
        Err(RequestError::Protocol)
    }
}

} // verus!
