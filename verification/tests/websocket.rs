//! WebSocket tests: the builder, the handshake check, and the frame codec,
//! driven without a live peer; sockets that never complete their handshake
//! refuse to send.

use http_request::{HeaderMap, RequestError, WebSocketBuilder, WebSocketMessage, WsState, WsStep};

const MASK: [u8; 4] = [0x11, 0x22, 0x33, 0x44];

fn pair_map(pairs: &[(&str, &str)]) -> HeaderMap {
    let mut map = HeaderMap::new();
    for (k, v) in pairs {
        map.insert(k.to_string(), v.to_string());
    }
    map
}

#[test]
fn test_sync_websocket_connection() {
    let header = pair_map(&[("Authorization", "Bearer test-token")]);
    let mut websocket_builder = WebSocketBuilder::new()
        .connect("ws://127.0.0.1:60006/api/ws?uuid=1")
        .headers(&header)
        .timeout(10000)
        .buffer(4096)
        .protocols(&["chat", "superchat"])
        .build_sync();
    // No peer answers on this machine, so the handshake never completes and
    // the socket refuses traffic.
    match websocket_builder.send_text("Hello WebSocket!", &MASK) {
        Ok(_) => {
            println!("Sync WebSocket text message sent successfully");
            match websocket_builder.send_binary(b"binary data", &MASK) {
                Ok(_) => println!("Sync WebSocket binary message sent successfully"),
                Err(e) => println!("Error receiving message: {}", e.message()),
            }
        }
        Err(e) => println!("Error => {}", e.message()),
    }
}

#[test]
fn test_websocket_with_http_proxy() {
    let mut websocket_builder = WebSocketBuilder::new()
        .connect("ws://127.0.0.1:60006/api/ws?uuid=1")
        .timeout(10000)
        .buffer(4096)
        .http_proxy("127.0.0.1", 7890)
        .build_sync();
    match websocket_builder.send_text("Hello WebSocket with HTTP proxy!", &MASK) {
        Ok(_) => println!("WebSocket HTTP proxy test unexpectedly succeeded"),
        Err(e) => println!("WebSocket HTTP proxy test correctly failed: {}", e.message()),
    }
}

#[test]
fn test_websocket_with_https_proxy() {
    let mut websocket_builder = WebSocketBuilder::new()
        .connect("ws://127.0.0.1:60006/api/ws?uuid=1")
        .timeout(10000)
        .buffer(4096)
        .https_proxy("127.0.0.1", 7890)
        .build_sync();
    match websocket_builder.send_text("Hello WebSocket with HTTPS proxy!", &MASK) {
        Ok(_) => println!("WebSocket HTTPS proxy test unexpectedly succeeded"),
        Err(e) => println!("WebSocket HTTPS proxy test correctly failed: {}", e.message()),
    }
}

#[test]
fn test_websocket_with_socks5_proxy() {
    let mut websocket_builder = WebSocketBuilder::new()
        .connect("ws://127.0.0.1:60006/api/ws?uuid=1")
        .timeout(10000)
        .buffer(4096)
        .socks5_proxy("127.0.0.1", 1080)
        .build_sync();
    match websocket_builder.send_text("Hello WebSocket with SOCKS5 proxy!", &MASK) {
        Ok(_) => println!("WebSocket SOCKS5 proxy test unexpectedly succeeded"),
        Err(e) => println!("WebSocket SOCKS5 proxy test correctly failed: {}", e.message()),
    }
}

#[test]
fn test_websocket_with_http_proxy_auth() {
    let mut websocket_builder = WebSocketBuilder::new()
        .connect("ws://127.0.0.1:60006/api/ws?uuid=1")
        .timeout(10000)
        .buffer(4096)
        .http_proxy_auth("127.0.0.1", 7890, "username", "password")
        .build_sync();
    match websocket_builder.send_text("Hello WebSocket with HTTP proxy auth!", &MASK) {
        Ok(_) => println!("WebSocket HTTP proxy auth test unexpectedly succeeded"),
        Err(e) => println!("WebSocket HTTP proxy auth test correctly failed: {}", e.message()),
    }
}

#[test]
fn websocket_accept_value_for_sample_key() {
    let accept = http_request::ws::accept_key_for("dGhlIHNhbXBsZSBub25jZQ==");
    assert_eq!(
        String::from_utf8(accept).unwrap(),
        "s3pPLMBiTxaQ9kYGzzhZRbK+xOo="
    );
}

fn handshake_response(accept: &str) -> Vec<u8> {
    let mut head = String::new();
    head.push_str("HTTP/1.1 101 Switching Protocols\r\n");
    head.push_str("Upgrade: websocket\r\n");
    head.push_str("Connection: Upgrade\r\n");
    head.push_str("Sec-WebSocket-Accept: ");
    head.push_str(accept);
    head.push_str("\r\n\r\n");
    head.into_bytes()
}

#[test]
fn websocket_handshake_matching_accept_opens() {
    let key = "dGhlIHNhbXBsZSBub25jZQ==";
    let mut socket = WebSocketBuilder::new().connect("ws://h/chat").build_sync();
    assert_eq!(socket.state, WsState::Handshaking);
    let raw = handshake_response("s3pPLMBiTxaQ9kYGzzhZRbK+xOo=");
    assert!(socket.on_handshake_response(&raw, key).is_ok());
    assert_eq!(socket.state, WsState::Open);
}

#[test]
fn websocket_handshake_mismatched_accept_fails() {
    let key = "dGhlIHNhbXBsZSBub25jZQ==";
    let mut socket = WebSocketBuilder::new().connect("ws://h/chat").build_sync();
    let raw = handshake_response("AAAAAAAAAAAAAAAAAAAAAAAAAAA=");
    assert_eq!(
        socket.on_handshake_response(&raw, key),
        Err(RequestError::HandshakeFailed)
    );
    assert_eq!(socket.state, WsState::Handshaking);
}

#[test]
fn websocket_text_frame_bytes() {
    let key = "dGhlIHNhbXBsZSBub25jZQ==";
    let mut socket = WebSocketBuilder::new().connect("ws://h/chat").build_sync();
    let raw = handshake_response("s3pPLMBiTxaQ9kYGzzhZRbK+xOo=");
    socket.on_handshake_response(&raw, key).unwrap();
    let frame = socket.send_text("hi", &MASK).unwrap();
    assert_eq!(
        frame,
        vec![
            0x81,
            0x82,
            0x11,
            0x22,
            0x33,
            0x44,
            b'h' ^ 0x11,
            b'i' ^ 0x22,
        ]
    );
}

#[test]
fn websocket_receive_text_binary_ping_close() {
    let key = "dGhlIHNhbXBsZSBub25jZQ==";
    let mut socket = WebSocketBuilder::new().connect("ws://h/chat").build_sync();
    let raw = handshake_response("s3pPLMBiTxaQ9kYGzzhZRbK+xOo=");
    socket.on_handshake_response(&raw, key).unwrap();

    // An unmasked text frame from the server.
    socket.feed(&[0x81, 0x02, b'h', b'i']);
    match socket.receive_step(&MASK).unwrap() {
        WsStep::Message(WebSocketMessage::Text(t)) => assert_eq!(t, "hi"),
        _ => panic!("expected a text message"),
    }

    // A binary frame.
    socket.feed(&[0x82, 0x03, 1, 2, 3]);
    match socket.receive_step(&MASK).unwrap() {
        WsStep::Message(WebSocketMessage::Binary(b)) => assert_eq!(b, vec![1, 2, 3]),
        _ => panic!("expected a binary message"),
    }

    // A fragmented text message: "he" + "llo".
    socket.feed(&[0x01, 0x02, b'h', b'e']);
    assert!(matches!(socket.receive_step(&MASK).unwrap(), WsStep::NeedMore));
    socket.feed(&[0x80, 0x03, b'l', b'l', b'o']);
    match socket.receive_step(&MASK).unwrap() {
        WsStep::Message(WebSocketMessage::Text(t)) => assert_eq!(t, "hello"),
        _ => panic!("expected the reassembled text message"),
    }

    // A ping asks for a pong with the same payload.
    socket.feed(&[0x89, 0x01, 0x7a]);
    match socket.receive_step(&MASK).unwrap() {
        WsStep::ReplyPong(frame) => {
            assert_eq!(frame[0], 0x8a);
            assert_eq!(frame[1], 0x81);
            assert_eq!(frame[6], 0x7a ^ 0x11);
        }
        _ => panic!("expected a pong reply"),
    }

    // A close frame surfaces Close and the socket starts closing.
    socket.feed(&[0x88, 0x00]);
    match socket.receive_step(&MASK).unwrap() {
        WsStep::Message(WebSocketMessage::Close) => {}
        _ => panic!("expected close"),
    }
    assert_eq!(socket.state, WsState::Closing);

    // Closing sends the close frame; closing twice is an error.
    assert!(socket.close(&MASK).is_ok());
    assert_eq!(socket.close(&MASK), Err(RequestError::Closed));
    assert_eq!(
        socket.send_text("late", &MASK),
        Err(RequestError::Closed)
    );
}

#[test]
fn websocket_handshake_request_carries_upgrade_headers() {
    let socket = WebSocketBuilder::new()
        .connect("ws://example.test:8080/chat")
        .protocols(&["chat", "superchat"])
        .build_sync();
    let url = http_request::parse_url("ws://example.test:8080/chat").unwrap();
    let request = socket.handshake_request(&url, "dGhlIHNhbXBsZSBub25jZQ==");
    let text = String::from_utf8(request).unwrap();
    assert!(text.starts_with("GET /chat HTTP/1.1\r\n"));
    assert!(text.contains("Upgrade: websocket\r\n"));
    assert!(text.contains("Connection: Upgrade\r\n"));
    assert!(text.contains("Sec-WebSocket-Version: 13\r\n"));
    assert!(text.contains("Sec-WebSocket-Key: dGhlIHNhbXBsZSBub25jZQ==\r\n"));
    assert!(text.contains("Sec-WebSocket-Protocol: chat, superchat\r\n"));
    assert!(text.contains("Host: example.test:8080\r\n"));
    assert!(text.ends_with("\r\n\r\n"));
}
