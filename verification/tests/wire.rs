//! Wire-codec and engine tests: exact bytes for built requests, the parsing
//! primitives on concrete inputs, buffer growth, chunked bodies, the
//! redirect policy, and the error taxonomy.

use http_request::{
    parse_url, HeaderMap, HttpResponseBinary, HttpResponseText, HttpSession, Method, Phase,
    RequestBuilder, RequestError, SendAction, SharedRequestBuilder, SharedResponseHandler,
};
use http_type::Compress;

fn drive_to_response(session: &mut HttpSession, raw: &[u8]) {
    match session.next_action() {
        SendAction::Connect { .. } => session.on_connected(),
        _ => panic!("expected a connect step"),
    }
    match session.next_action() {
        SendAction::Write(_) => session.on_sent(),
        _ => panic!("expected a write step"),
    }
    match session.next_action() {
        SendAction::Read => session.on_data(raw),
        _ => panic!("expected a read step"),
    }
}

#[test]
fn get_request_first_and_last_bytes() {
    let config = RequestBuilder::new().get("http://h/").build_sync();
    let url = parse_url("http://h/").unwrap();
    let bytes = http_request::session::build_request_for(&config, &url);
    assert_eq!(&bytes[..4], b"GET ");
    let text = String::from_utf8(bytes).unwrap();
    assert!(text.ends_with("\r\n\r\n"));
    assert!(text.contains("Host: h\r\n"));
    assert!(text.starts_with("GET / HTTP/1.1\r\n"));
}

#[test]
fn post_json_request_body_and_headers() {
    let mut m = serde_json::Map::new();
    m.insert("a".to_string(), serde_json::Value::from(1));
    let config = RequestBuilder::new()
        .post("http://h/")
        .text("hello")
        .json(serde_json::Value::Object(m))
        .build_sync();
    let url = parse_url("http://h/").unwrap();
    let bytes = http_request::session::build_request_for(&config, &url);
    let text = String::from_utf8(bytes).unwrap();
    // The JSON body, set last, replaced the text body.
    assert!(text.ends_with("\r\n\r\n{\"a\":1}"));
    assert!(text.contains("Content-Type: application/json\r\n"));
    assert!(text.contains("Content-Length: 7\r\n"));
}

#[test]
fn redirect_with_spent_bound_fails() {
    let config = RequestBuilder::new()
        .get("http://h/")
        .redirect()
        .max_redirect_times(0)
        .build_sync();
    let mut session = HttpSession::start(config).unwrap();
    drive_to_response(
        &mut session,
        b"HTTP/1.1 301 Moved\r\nLocation: /x\r\nContent-Length: 0\r\n\r\n",
    );
    match session.outcome() {
        Some(Err(RequestError::TooManyRedirects)) => {}
        other => panic!("expected TooManyRedirects, got {:?}", other.is_some()),
    }
}

#[test]
fn redirect_followed_within_bound() {
    let config = RequestBuilder::new()
        .post("http://h/a/b")
        .text("payload")
        .redirect()
        .max_redirect_times(8)
        .build_sync();
    let mut session = HttpSession::start(config).unwrap();
    drive_to_response(
        &mut session,
        b"HTTP/1.1 303 See Other\r\nLocation: /next\r\nContent-Length: 0\r\n\r\n",
    );
    // A 303 turns the POST into a bodyless GET aimed at the new path.
    assert!(matches!(session.phase, Phase::Connecting));
    assert_eq!(session.redirects_taken, 1);
    assert!(matches!(session.config.method, Method::Get));
    assert!(matches!(session.config.body, http_request::Body::Empty));
    assert_eq!(session.url.path.as_str(), "/next");

    // The follow-up response completes the exchange.
    drive_to_response(&mut session, b"HTTP/1.1 200 OK\r\nContent-Length: 2\r\n\r\nok");
    match session.outcome() {
        Some(Ok(resp)) => assert_eq!(resp.get_body(), b"ok".to_vec()),
        _ => panic!("expected a response"),
    }
}

#[test]
fn redirect_307_preserves_method_and_body() {
    let config = RequestBuilder::new()
        .post("http://h/a")
        .text("payload")
        .redirect()
        .max_redirect_times(8)
        .build_sync();
    let mut session = HttpSession::start(config).unwrap();
    drive_to_response(
        &mut session,
        b"HTTP/1.1 307 Temporary Redirect\r\nLocation: /b\r\nContent-Length: 0\r\n\r\n",
    );
    assert!(matches!(session.phase, Phase::Connecting));
    assert!(matches!(session.config.method, Method::Post));
    match &session.config.body {
        http_request::Body::Text(t) => assert_eq!(t.as_str(), "payload"),
        _ => panic!("the body must be preserved on 307"),
    }
}

#[test]
fn chunked_body_reassembles() {
    let config = RequestBuilder::new().get("http://h/").build_sync();
    let mut session = HttpSession::start(config).unwrap();
    drive_to_response(
        &mut session,
        b"HTTP/1.1 200 OK\r\nTransfer-Encoding: chunked\r\n\r\n5\r\nhello\r\n0\r\n\r\n",
    );
    match session.outcome() {
        Some(Ok(resp)) => assert_eq!(resp.get_body(), b"hello".to_vec()),
        _ => panic!("expected a response"),
    }
}

#[test]
fn broken_chunked_body_is_protocol_error() {
    let config = RequestBuilder::new().get("http://h/").build_sync();
    let mut session = HttpSession::start(config).unwrap();
    drive_to_response(
        &mut session,
        b"HTTP/1.1 200 OK\r\nTransfer-Encoding: chunked\r\n\r\nzz\r\nhello\r\n0\r\n\r\n",
    );
    assert!(matches!(
        session.outcome(),
        Some(Err(RequestError::Protocol))
    ));
}

#[test]
fn response_arriving_in_pieces() {
    let config = RequestBuilder::new().get("http://h/").build_sync();
    let mut session = HttpSession::start(config).unwrap();
    session.next_action();
    session.on_connected();
    session.on_sent();
    session.on_data(b"HTTP/1.1 200 OK\r\nContent-");
    assert!(matches!(session.phase, Phase::Receiving(_)));
    session.on_data(b"Length: 5\r\n\r\nhel");
    assert!(matches!(session.phase, Phase::Receiving(_)));
    session.on_data(b"lo");
    match session.outcome() {
        Some(Ok(resp)) => {
            assert_eq!(resp.get_status_code(), 200);
            assert_eq!(resp.get_body(), b"hello".to_vec());
            assert_eq!(resp.get_status_text(), "OK".to_string());
        }
        _ => panic!("expected a response"),
    }
}

#[test]
fn truncated_head_at_eof_is_protocol_error() {
    let config = RequestBuilder::new().get("http://h/").build_sync();
    let mut session = HttpSession::start(config).unwrap();
    session.next_action();
    session.on_connected();
    session.on_sent();
    session.on_data(b"HTTP/1.1 200 OK\r\nContent-");
    session.on_eof();
    assert!(matches!(
        session.outcome(),
        Some(Err(RequestError::Protocol))
    ));
}

#[test]
fn invalid_url_is_rejected() {
    let config = RequestBuilder::new().get("not a url").build_sync();
    assert!(matches!(
        HttpSession::start(config),
        Err(RequestError::InvalidUrl)
    ));
    let config2 = RequestBuilder::new().get("mailto:nobody@example.test").build_sync();
    assert!(matches!(
        HttpSession::start(config2),
        Err(RequestError::InvalidUrl)
    ));
}

#[test]
fn io_errors_pass_through() {
    for err in [RequestError::Timeout, RequestError::Tls, RequestError::Io] {
        let config = RequestBuilder::new().get("http://h/").build_sync();
        let mut session = HttpSession::start(config).unwrap();
        session.on_io_error(err);
        match session.outcome() {
            Some(Err(e)) => assert_eq!(e, err),
            _ => panic!("expected the reported error"),
        }
    }
}

#[test]
fn find_pattern_case_insensitive_cases() {
    let hay = b"Content-Type: text/html";
    assert_eq!(
        SharedResponseHandler::find_pattern_case_insensitive(hay, b"content-type"),
        Some(0)
    );
    assert_eq!(
        SharedResponseHandler::find_pattern_case_insensitive(hay, b"TEXT"),
        Some(14)
    );
    assert_eq!(
        SharedResponseHandler::find_pattern_case_insensitive(hay, b"json"),
        None
    );
    assert_eq!(SharedResponseHandler::find_pattern_case_insensitive(hay, b""), None);
    assert_eq!(
        SharedResponseHandler::find_pattern_case_insensitive(b"ab", b"abc"),
        None
    );
}

#[test]
fn find_crlf_positions() {
    let data = b"a\r\nb\r\n\r\nrest";
    assert_eq!(SharedResponseHandler::find_crlf(data, 0), Some(1));
    assert_eq!(SharedResponseHandler::find_crlf(data, 2), Some(4));
    assert_eq!(SharedResponseHandler::find_double_crlf(data, 0), Some(4));
    assert_eq!(SharedResponseHandler::find_crlf(b"none", 0), None);
    assert_eq!(SharedResponseHandler::find_double_crlf(b"a\r\nb", 0), None);
}

#[test]
fn content_length_parsing_cases() {
    assert_eq!(
        SharedResponseHandler::get_content_length(b"HTTP/1.1 200 OK\r\nContent-Length: 42\r\n\r\n"),
        42
    );
    assert_eq!(
        SharedResponseHandler::get_content_length(b"HTTP/1.1 200 OK\r\ncontent-LENGTH:7\r\n\r\n"),
        7
    );
    assert_eq!(
        SharedResponseHandler::get_content_length(
            b"HTTP/1.1 200 OK\r\nCONTENT-LENGTH: 1000000000\r\n\r\n"
        ),
        1000000000
    );
    assert_eq!(SharedResponseHandler::get_content_length(b"HTTP/1.1 200 OK\r\n\r\n"), 0);
    assert_eq!(
        SharedResponseHandler::get_content_length(b"Content-Length: oops\r\n\r\n"),
        0
    );
}

#[test]
fn parse_decimal_bytes_cases() {
    assert_eq!(SharedResponseHandler::parse_decimal_bytes(b"123"), 123);
    assert_eq!(SharedResponseHandler::parse_decimal_bytes(b"  \t42xyz"), 42);
    assert_eq!(SharedResponseHandler::parse_decimal_bytes(b"abc"), 0);
    assert_eq!(SharedResponseHandler::parse_decimal_bytes(b""), 0);
    assert_eq!(
        SharedResponseHandler::parse_decimal_bytes(b"999999999999999999999999999999"),
        usize::MAX
    );
}

#[test]
fn parse_status_code_cases() {
    assert_eq!(SharedResponseHandler::parse_status_code(b"200"), 200);
    assert_eq!(SharedResponseHandler::parse_status_code(b"404"), 404);
    assert_eq!(SharedResponseHandler::parse_status_code(b"99"), 0);
    assert_eq!(SharedResponseHandler::parse_status_code(b"2000"), 0);
    assert_eq!(SharedResponseHandler::parse_status_code(b"2x0"), 0);
    assert_eq!(SharedResponseHandler::parse_status_code(b""), 0);
}

#[test]
fn buffer_capacity_growth() {
    // No growth needed.
    assert_eq!(SharedResponseHandler::calculate_buffer_capacity(b"abcd", 4, 16), 0);
    // From nothing: at least 1024.
    assert_eq!(SharedResponseHandler::calculate_buffer_capacity(b"abcd", 4, 0), 1024);
    assert_eq!(
        SharedResponseHandler::calculate_buffer_capacity(&[0u8; 2000], 48, 0),
        2048
    );
    // Doubling while that suffices.
    assert_eq!(SharedResponseHandler::calculate_buffer_capacity(&[0u8; 10], 2, 8), 16);
    // One-and-a-half times the need, rounded up, beyond a doubling.
    assert_eq!(SharedResponseHandler::calculate_buffer_capacity(&[0u8; 100], 0, 8), 150);
    assert_eq!(SharedResponseHandler::calculate_buffer_capacity(&[0u8; 5], 0, 2), 8);
    // Never below what is needed when growth happens.
    for (len, n, cap) in [(5usize, 7usize, 3usize), (0, 1, 0), (100, 200, 150)] {
        let grown = SharedResponseHandler::calculate_buffer_capacity(&vec![0u8; len], n, cap);
        assert!(grown >= len + n);
    }
}

#[test]
fn build_http_request_exact_bytes() {
    let bytes = SharedRequestBuilder::build_http_request(
        "GET",
        "/x".to_string(),
        b"A: b\r\n".to_vec(),
        None,
        "HTTP/1.1".to_string(),
    );
    assert_eq!(bytes, b"GET /x HTTP/1.1\r\nA: b\r\n\r\n".to_vec());
    let with_body = SharedRequestBuilder::build_post_request(
        "/y".to_string(),
        b"".to_vec(),
        b"hello".to_vec(),
        "HTTP/1.1".to_string(),
    );
    assert_eq!(with_body, b"POST /y HTTP/1.1\r\n\r\nhello".to_vec());
}

#[test]
fn parse_response_headers_extracts_redirect_target() {
    let head = b"HTTP/1.1 302 Found\r\nLocation: /next\r\nContent-Length: 3\r\n\r\n";
    let mut content_length: usize = 0;
    let mut redirect_url: Option<Vec<u8>> = None;
    let r = SharedResponseHandler::parse_response_headers(
        head,
        b"HTTP/1.1",
        b"Location: ",
        &mut content_length,
        &mut redirect_url,
    );
    assert!(r.is_ok());
    assert_eq!(content_length, 3);
    assert_eq!(redirect_url, Some(b"/next".to_vec()));

    // A 2xx answer leaves the redirect slot untouched.
    let head2 = b"HTTP/1.1 200 OK\r\nLocation: /ignored\r\nContent-Length: 9\r\n\r\n";
    let mut redirect2: Option<Vec<u8>> = None;
    SharedResponseHandler::parse_response_headers(
        head2,
        b"HTTP/1.1",
        b"Location: ",
        &mut content_length,
        &mut redirect2,
    )
    .unwrap();
    assert_eq!(content_length, 9);
    assert_eq!(redirect2, None);
}

#[test]
fn response_views_share_fields() {
    let raw = b"HTTP/1.1 200 OK\r\nContent-Type: text/plain\r\n\r\nhello";
    let binary = HttpResponseBinary::from(raw);
    assert_eq!(binary.get_status_code(), 200);
    assert_eq!(binary.get_status_text(), "OK".to_string());
    assert_eq!(binary.get_http_version(), http_request::HttpVersion::Http1_1);
    assert_eq!(binary.get_body(), b"hello".to_vec());
    assert_eq!(binary.get_headers().get("CONTENT-TYPE"), Some("text/plain".to_string()));

    let text: HttpResponseText = binary.text();
    assert_eq!(text.get_body(), "hello".to_string());
    assert_eq!(text.get_status_code(), 200);
    let back = text.binary();
    assert_eq!(back.get_body(), b"hello".to_vec());

    let empty = HttpResponseText::default();
    assert_eq!(empty.get_status_code(), 0);
    assert_eq!(empty.get_status_text(), "Unknown".to_string());
    assert_eq!(empty.get_body(), String::new());
}

#[test]
fn decode_decompresses_gzip_body() {
    let compressed = Compress::Gzip.encode(b"hello hello hello", 1024).into_owned();
    let mut raw: Vec<u8> = b"HTTP/1.1 200 OK\r\nContent-Encoding: gzip\r\n\r\n".to_vec();
    raw.extend_from_slice(&compressed);
    let binary = HttpResponseBinary::from(&raw);
    let decoded = binary.decode(1024);
    assert_eq!(decoded.get_body(), b"hello hello hello".to_vec());
    // Without the header the body is untouched: decoding twice is a no-op.
    let again = decoded_without_header(&decoded);
    assert_eq!(again.get_body(), b"hello hello hello".to_vec());
}

fn decoded_without_header(r: &HttpResponseBinary) -> HttpResponseBinary {
    let plain = HttpResponseBinary {
        http_version: "HTTP/1.1".to_string(),
        status_code: r.status_code,
        status_text: r.status_text.clone(),
        headers: HeaderMap::new(),
        body: r.get_body(),
    };
    plain.decode(1024)
}

#[test]
fn auto_decode_applies_to_session_response() {
    let compressed = Compress::Gzip.encode(b"payload", 1024).into_owned();
    let mut raw: Vec<u8> =
        format!("HTTP/1.1 200 OK\r\nContent-Encoding: gzip\r\nContent-Length: {}\r\n\r\n", compressed.len())
            .into_bytes();
    raw.extend_from_slice(&compressed);
    let config = RequestBuilder::new().get("http://h/").decode().build_sync();
    let mut session = HttpSession::start(config).unwrap();
    drive_to_response(&mut session, &raw);
    match session.outcome() {
        Some(Ok(resp)) => assert_eq!(resp.get_body(), b"payload".to_vec()),
        _ => panic!("expected a response"),
    }
}

#[test]
fn split_whitespace_cases() {
    let parts = http_request::split_whitespace(b"GET /path  HTTP/1.1");
    assert_eq!(parts, vec![&b"GET"[..], &b"/path"[..], &b"HTTP/1.1"[..]]);
    let empty: Vec<&[u8]> = http_request::split_whitespace(b"  \t ");
    assert!(empty.is_empty());
}

#[test]
fn split_multi_byte_cases() {
    let parts = http_request::split_multi_byte(b"a\r\nbb\r\nc", b"\r\n");
    assert_eq!(parts, vec![&b"a"[..], &b"bb"[..], &b"c"[..]]);
    let edges = http_request::split_multi_byte(b"\r\nx\r\n", b"\r\n");
    assert_eq!(edges, vec![&b""[..], &b"x"[..]]);
}

#[test]
fn header_merge_precedence() {
    let mut a = HeaderMap::new();
    a.insert("Content-Type".to_string(), "text/plain".to_string());
    a.insert("X-One".to_string(), "1".to_string());
    let mut b = HeaderMap::new();
    b.insert("CONTENT-TYPE".to_string(), "application/json".to_string());
    b.insert("X-Two".to_string(), "2".to_string());
    a.merge(&b);
    assert_eq!(a.get("content-type"), Some("application/json".to_string()));
    assert_eq!(a.get("x-one"), Some("1".to_string()));
    assert_eq!(a.get("x-two"), Some("2".to_string()));
    assert_eq!(a.len(), 3);
}

#[test]
fn proxy_negotiation_bytes() {
    let connect = http_request::proxy::build_connect_request("h", 443, None);
    assert_eq!(
        String::from_utf8(connect).unwrap(),
        "CONNECT h:443 HTTP/1.1\r\nHost: h:443\r\n\r\n"
    );
    let with_auth = http_request::proxy::build_connect_request("h", 443, Some(("user", "pass")));
    assert_eq!(
        String::from_utf8(with_auth).unwrap(),
        "CONNECT h:443 HTTP/1.1\r\nHost: h:443\r\nProxy-Authorization: Basic dXNlcjpwYXNz\r\n\r\n"
    );
    assert!(http_request::proxy::check_connect_response(b"HTTP/1.1 200 OK\r\n\r\n").is_ok());
    assert_eq!(
        http_request::proxy::check_connect_response(b"HTTP/1.1 403 Forbidden\r\n\r\n"),
        Err(RequestError::ProxyHandshake)
    );

    assert_eq!(http_request::proxy::socks5_greeting(false), vec![5, 1, 0]);
    assert_eq!(http_request::proxy::socks5_greeting(true), vec![5, 2, 0, 2]);
    assert_eq!(http_request::proxy::socks5_check_greeting_reply(&[5, 0]), Ok(0));
    assert_eq!(
        http_request::proxy::socks5_check_greeting_reply(&[5, 0xff]),
        Err(RequestError::ProxyHandshake)
    );
    assert_eq!(
        http_request::proxy::socks5_auth_request("u", "p").unwrap(),
        vec![1, 1, b'u', 1, b'p']
    );
    assert_eq!(
        http_request::proxy::socks5_connect_request("h", 80).unwrap(),
        vec![5, 1, 0, 3, 1, b'h', 0, 80]
    );
    assert!(http_request::proxy::socks5_check_connect_reply(&[5, 0, 0, 1, 0, 0, 0, 0, 0, 80])
        .is_ok());
    assert_eq!(
        http_request::proxy::socks5_check_connect_reply(&[5, 5]),
        Err(RequestError::ProxyHandshake)
    );
}

#[test]
fn parsed_url_components() {
    let url = parse_url("https://example.test/a/b?q=1").unwrap();
    assert!(matches!(url.scheme, http_request::Scheme::Https));
    assert_eq!(url.host.as_str(), "example.test");
    assert_eq!(url.port, 443);
    assert_eq!(url.path.as_str(), "/a/b");
    assert_eq!(url.query.as_deref(), Some("q=1"));

    let plain = parse_url("http://example.test:8080").unwrap();
    assert_eq!(plain.port, 8080);
    assert_eq!(plain.path.as_str(), "/");

    let ws = parse_url("ws://example.test/chat").unwrap();
    assert!(matches!(ws.scheme, http_request::Scheme::Ws));
    assert_eq!(ws.port, 80);
}

#[test]
fn error_messages_name_each_kind() {
    let kinds = [
        RequestError::InvalidUrl,
        RequestError::ConnectionFailure,
        RequestError::Timeout,
        RequestError::Tls,
        RequestError::ProxyHandshake,
        RequestError::Protocol,
        RequestError::TooManyRedirects,
        RequestError::HandshakeFailed,
        RequestError::Closed,
        RequestError::Io,
    ];
    for (i, a) in kinds.iter().enumerate() {
        assert!(!a.message().is_empty());
        for b in kinds.iter().skip(i + 1) {
            assert_ne!(a.message(), b.message());
        }
    }
}

#[test]
fn request_round_trip_concrete() {
    // Build, then parse back by the same delimiters the codec defines.
    let bytes = SharedRequestBuilder::build_http_request(
        "POST",
        "/submit".to_string(),
        b"Host: h\r\nX: y\r\n".to_vec(),
        Some(b"data".to_vec()),
        "HTTP/1.1".to_string(),
    );
    let line_end = SharedResponseHandler::find_crlf(&bytes, 0).unwrap();
    assert_eq!(&bytes[..line_end], b"POST /submit HTTP/1.1");
    let head_end = SharedResponseHandler::find_double_crlf(&bytes, 0).unwrap();
    assert_eq!(&bytes[line_end + 2..head_end + 2], b"Host: h\r\nX: y\r\n");
    assert_eq!(&bytes[head_end + 4..], b"data");
}

#[test]
fn redirect_relative_path_resolves_against_current() {
    let config = RequestBuilder::new()
        .get("http://h/a/x")
        .redirect()
        .max_redirect_times(8)
        .build_sync();
    let mut session = HttpSession::start(config).unwrap();
    drive_to_response(
        &mut session,
        b"HTTP/1.1 302 Found\r\nLocation: b?q=2\r\nContent-Length: 0\r\n\r\n",
    );
    assert!(matches!(session.phase, Phase::Connecting));
    assert_eq!(session.url.path.as_str(), "/a/b");
    assert_eq!(session.url.query.as_deref(), Some("q=2"));
    assert_eq!(session.url.host.as_str(), "h");
}

#[test]
fn redirect_to_other_host_drops_host_specific_headers() {
    let mut header = HeaderMap::new();
    header.insert("Host".to_string(), "h".to_string());
    header.insert("Authorization".to_string(), "Basic Zm9v".to_string());
    header.insert("X-Keep".to_string(), "yes".to_string());
    let config = RequestBuilder::new()
        .get("http://h/")
        .headers(&header)
        .redirect()
        .max_redirect_times(8)
        .build_sync();
    let mut session = HttpSession::start(config).unwrap();
    drive_to_response(
        &mut session,
        b"HTTP/1.1 302 Found\r\nLocation: http://other/\r\nContent-Length: 0\r\n\r\n",
    );
    assert!(matches!(session.phase, Phase::Connecting));
    assert_eq!(session.url.host.as_str(), "other");
    assert_eq!(session.config.headers.get("host"), None);
    assert_eq!(session.config.headers.get("authorization"), None);
    assert_eq!(session.config.headers.get("x-keep"), Some("yes".to_string()));
}

#[test]
fn chunk_size_line_extensions_are_ignored() {
    let config = RequestBuilder::new().get("http://h/").build_sync();
    let mut session = HttpSession::start(config).unwrap();
    drive_to_response(
        &mut session,
        b"HTTP/1.1 200 OK\r\nTransfer-Encoding: chunked\r\n\r\n5;name=v\r\nhello\r\n0\r\n\r\n",
    );
    match session.outcome() {
        Some(Ok(resp)) => assert_eq!(resp.get_body(), b"hello".to_vec()),
        _ => panic!("expected a response"),
    }
}

#[test]
fn request_line_carries_the_query() {
    let config = RequestBuilder::new().get("http://h/p?x=1").build_sync();
    let url = parse_url("http://h/p?x=1").unwrap();
    let bytes = http_request::session::build_request_for(&config, &url);
    let text = String::from_utf8(bytes).unwrap();
    assert!(text.starts_with("GET /p?x=1 HTTP/1.1\r\n"));
}

#[test]
fn host_header_names_nonstandard_port() {
    let config = RequestBuilder::new().get("http://h:8080/").build_sync();
    let url = parse_url("http://h:8080/").unwrap();
    let composed = http_request::session::compose_headers(&config, &url);
    assert_eq!(composed.get("host"), Some("h:8080".to_string()));
    let plain = parse_url("http://h/").unwrap();
    let composed2 = http_request::session::compose_headers(&config, &plain);
    assert_eq!(composed2.get("host"), Some("h".to_string()));
}
