//! The client-level tests: each builds a request through the fluent builder
//! and drives the session as a transport driver would; with no network
//! available, every connect attempt reports a connection failure.

use http_request::{
    HeaderMap, HttpResponseText, HttpSession, RequestBuilder, RequestConfig, RequestError,
    SendAction,
};

/// Drives a session the way a blocking driver would on a machine with no
/// usable network: the connect step fails at once.
fn run_without_network(config: RequestConfig) -> Result<HttpResponseText, RequestError> {
    let mut session = HttpSession::start(config)?;
    match session.next_action() {
        SendAction::Connect { .. } => {
            session.on_io_error(RequestError::ConnectionFailure);
        }
        _ => panic!("a fresh session must ask to connect"),
    }
    match session.outcome() {
        Some(Ok(resp)) => Ok(resp.text()),
        Some(Err(e)) => Err(e),
        None => panic!("the session must be finished after a failed connect"),
    }
}

fn pair_map(pairs: &[(&str, &str)]) -> HeaderMap {
    let mut map = HeaderMap::new();
    for (k, v) in pairs {
        map.insert(k.to_string(), v.to_string());
    }
    map
}

fn ide_json_body() -> serde_json::Value {
    let mut m = serde_json::Map::new();
    m.insert(
        "code".to_string(),
        serde_json::Value::String("fn main() {\r\n    println!(\"hello world\");\r\n}".to_string()),
    );
    m.insert("language".to_string(), serde_json::Value::String("rust".to_string()));
    m.insert("testin".to_string(), serde_json::Value::String("".to_string()));
    serde_json::Value::Object(m)
}

#[test]
fn test_http_post_request() {
    let header = pair_map(&[
        ("Accept", "*/*"),
        ("Content-Type", "application/json"),
        ("Connection", "keep-alive"),
        ("Accept-Encoding", "gzip, deflate"),
    ]);
    let config = RequestBuilder::new()
        .post("https://ide.ltpp.vip/?language=rust")
        .json(ide_json_body())
        .headers(&header)
        .timeout(6000)
        .redirect()
        .buffer(4096)
        .max_redirect_times(8)
        .http1_1_only()
        .build_sync();
    match run_without_network(config) {
        Ok(response) => println!("ResponseTrait => {:?}", response.get_body()),
        Err(e) => println!("Error => {}", e.message()),
    }
}

#[test]
fn test_http_get_request() {
    let header = pair_map(&[("header-key", "header-value")]);
    let config = RequestBuilder::new()
        .get("http://ide.ltpp.vip/?language=rust")
        .headers(&header)
        .timeout(6000)
        .redirect()
        .buffer(4096)
        .max_redirect_times(8)
        .http1_1_only()
        .build_sync();
    match run_without_network(config) {
        Ok(response) => println!("ResponseTrait => {:?}", response.get_body()),
        Err(e) => println!("Error => {}", e.message()),
    }
}

#[test]
fn test_https_post_request() {
    let header = pair_map(&[
        ("Accept", "*/*"),
        ("Content-Type", "application/json"),
        ("Connection", "keep-alive"),
        ("Accept-Encoding", "gzip, deflate"),
    ]);
    let config = RequestBuilder::new()
        .post("https://code.ltpp.vip/")
        .json(ide_json_body())
        .headers(&header)
        .timeout(4000)
        .redirect()
        .buffer(4096)
        .max_redirect_times(8)
        .http1_1_only()
        .build_sync();
    match run_without_network(config) {
        Ok(response) => println!("ResponseTrait => {:?}", response.get_body()),
        Err(e) => println!("Error => {}", e.message()),
    }
}

#[test]
fn test_https_get_request() {
    let header = pair_map(&[("header-key", "header-value")]);
    let config = RequestBuilder::new()
        .get("https://code.ltpp.vip/")
        .headers(&header)
        .timeout(4000)
        .redirect()
        .buffer(4096)
        .max_redirect_times(8)
        .http1_1_only()
        .build_sync();
    match run_without_network(config) {
        Ok(response) => println!("ResponseTrait => {:?}", response.get_body()),
        Err(e) => println!("Error => {}", e.message()),
    }
}

#[test]
fn test_http_post_text_request() {
    let header = pair_map(&[("Accept", "*/*"), ("Content-Type", "application/json")]);
    let config = RequestBuilder::new()
        .post("http://code.ltpp.vip")
        .text("hello")
        .headers(&header)
        .timeout(6000)
        .redirect()
        .buffer(4096)
        .max_redirect_times(8)
        .http1_1_only()
        .build_sync();
    match run_without_network(config) {
        Ok(response) => println!("ResponseTrait => {:?}", response.get_body()),
        Err(e) => println!("Error => {}", e.message()),
    }
}

#[test]
fn test_http_post_binary_request() {
    let header = pair_map(&[("Accept", "*/*"), ("Content-Type", "application/json")]);
    let config = RequestBuilder::new()
        .post("http://code.ltpp.vip")
        .body("hello".as_bytes())
        .headers(&header)
        .timeout(6000)
        .redirect()
        .buffer(4096)
        .max_redirect_times(8)
        .http1_1_only()
        .build_sync();
    match run_without_network(config) {
        Ok(response) => println!("ResponseTrait => {:?}", response.get_body()),
        Err(e) => println!("Error => {}", e.message()),
    }
}

#[test]
fn test_auto_gzip_get() {
    let config = RequestBuilder::new()
        .get("https://ide.ltpp.vip/?language=rust")
        .timeout(4000)
        .redirect()
        .max_redirect_times(8)
        .decode()
        .buffer(4096)
        .http1_1_only()
        .build_sync();
    match run_without_network(config) {
        Ok(response) => println!("ResponseTrait => {:?}", response.get_body()),
        Err(e) => println!("Error => {}", e.message()),
    }
}

#[test]
fn test_gzip_get() {
    let config = RequestBuilder::new()
        .get("https://ide.ltpp.vip/?language=rust")
        .timeout(4000)
        .redirect()
        .max_redirect_times(8)
        .buffer(4096)
        .http1_1_only()
        .build_sync();
    match run_without_network(config) {
        Ok(response) => println!("ResponseTrait => {:?}", response.decode(4096).text().get_body()),
        Err(e) => println!("Error => {}", e.message()),
    }
}

#[test]
fn test_unredirect_get() {
    let config = RequestBuilder::new()
        .post("https://ide.ltpp.vip/?language=rust")
        .timeout(4000)
        .max_redirect_times(8)
        .buffer(4096)
        .unredirect()
        .http1_1_only()
        .build_sync();
    match run_without_network(config) {
        Ok(response) => println!("ResponseTrait => {:?}", response.get_body()),
        Err(e) => println!("Error => {}", e.message()),
    }
}

#[test]
fn test_thread_https_get_request() {
    let num_rounds: i32 = 10;
    for _ in 0..num_rounds {
        let header = pair_map(&[("header-key", "header-value")]);
        let config = RequestBuilder::new()
            .get("https://code.ltpp.vip/")
            .headers(&header)
            .timeout(4000)
            .redirect()
            .buffer(4096)
            .max_redirect_times(8)
            .http1_1_only()
            .build_sync();
        match run_without_network(config) {
            Ok(response) => println!("ResponseTrait => {:?}", response.get_body()),
            Err(e) => println!("Error => {}", e.message()),
        }
    }
}

#[test]
fn test_thread_http_get_request() {
    let num_rounds: i32 = 10;
    for _ in 0..num_rounds {
        let config = RequestBuilder::new()
            .get("http://127.0.0.1:7890/")
            .timeout(10)
            .redirect()
            .buffer(100)
            .max_redirect_times(0)
            .http2_only()
            .build_sync();
        match run_without_network(config) {
            Ok(response) => println!("ResponseTrait => {:?}", response.get_body()),
            Err(e) => println!("Error => {}", e.message()),
        }
    }
}

#[test]
fn test_readme_sync_get_request() {
    let header = pair_map(&[("header-key", "header-value")]);
    let config = RequestBuilder::new()
        .get("https://ltpp.vip/")
        .headers(&header)
        .timeout(6000)
        .redirect()
        .max_redirect_times(8)
        .http1_1_only()
        .buffer(4096)
        .decode()
        .build_sync();
    match run_without_network(config) {
        Ok(response) => println!("{:?}", response.get_body()),
        Err(e) => println!("Error => {}", e.message()),
    }
}

#[test]
fn test_readme_sync_post_json_request() {
    let header = pair_map(&[("header-key", "header-value")]);
    let mut m = serde_json::Map::new();
    m.insert("test".to_string(), serde_json::Value::from(1));
    let body = serde_json::Value::Object(m);
    let config = RequestBuilder::new()
        .post("http://code.ltpp.vip")
        .json(body)
        .headers(&header)
        .timeout(6000)
        .redirect()
        .max_redirect_times(8)
        .http1_1_only()
        .buffer(4096)
        .build_sync();
    match run_without_network(config) {
        Ok(response) => println!("{:?}", response.decode(4096).text().get_body()),
        Err(e) => println!("Error => {}", e.message()),
    }
}

#[test]
fn test_readme_sync_post_text_request() {
    let header = pair_map(&[("header-key", "header-value")]);
    let config = RequestBuilder::new()
        .post("http://ide.ltpp.vip/?language=rust")
        .text("hello")
        .headers(&header)
        .timeout(6000)
        .redirect()
        .max_redirect_times(8)
        .http1_1_only()
        .buffer(4096)
        .decode()
        .build_sync();
    match run_without_network(config) {
        Ok(response) => println!("{:?}", response.get_body()),
        Err(e) => println!("Error => {}", e.message()),
    }
}

#[test]
fn test_readme_sync_post_binary_request() {
    let header = pair_map(&[("header-key", "header-value")]);
    let config = RequestBuilder::new()
        .post("http://ide.ltpp.vip/?language=rust")
        .body("hello".as_bytes())
        .headers(&header)
        .timeout(6000)
        .redirect()
        .max_redirect_times(8)
        .http1_1_only()
        .buffer(4096)
        .build_sync();
    match run_without_network(config) {
        Ok(response) => println!("{:?}", response.decode(4096).text().get_body()),
        Err(e) => println!("Error => {}", e.message()),
    }
}

#[test]
fn test_case_insensitive_header_matching() {
    let header1 = pair_map(&[("Content-Type", "application/json"), ("User-Agent", "test-agent")]);
    let header2 = pair_map(&[("content-type", "text/html"), ("HOST", "example.com")]);
    let builder = RequestBuilder::new()
        .get("http://ide.ltpp.vip/?language=rust")
        .headers(&header1)
        .headers(&header2);
    let config = builder.timeout(6000).build_sync();
    // The later writer wins under any case, and each name is held once.
    assert_eq!(config.headers.get("CONTENT-TYPE"), Some("text/html".to_string()));
    assert_eq!(config.headers.get("user-agent"), Some("test-agent".to_string()));
    assert_eq!(config.headers.get("host"), Some("example.com".to_string()));
    assert_eq!(config.headers.len(), 3);
    println!("Case insensitive header test completed");
}

#[test]
fn test_case_insensitive_required_headers() {
    let header = pair_map(&[
        ("host", "custom-host.com"),
        ("CONTENT-LENGTH", "100"),
        ("Accept", "application/xml"),
        ("user-agent", "custom-agent"),
    ]);
    let config = RequestBuilder::new()
        .get("http://ide.ltpp.vip/?language=rust")
        .headers(&header)
        .timeout(6000)
        .build_sync();
    // A caller-provided name under any case keeps the engine from replacing
    // the value with its own defaults.
    let url = http_request::parse_url("http://ide.ltpp.vip/?language=rust").unwrap();
    let composed = http_request::session::compose_headers(&config, &url);
    assert_eq!(composed.get("HOST"), Some("custom-host.com".to_string()));
    assert_eq!(composed.get("content-length"), Some("100".to_string()));
    assert_eq!(composed.get("ACCEPT"), Some("application/xml".to_string()));
    assert_eq!(composed.get("User-Agent"), Some("custom-agent".to_string()));
    println!("Case insensitive required headers test completed");
}

#[test]
fn test_http_proxy_get_request() {
    let header = pair_map(&[("header-key", "header-value")]);
    let config = RequestBuilder::new()
        .get("http://ide.ltpp.vip/?language=rust")
        .headers(&header)
        .timeout(10000)
        .redirect()
        .buffer(4096)
        .max_redirect_times(8)
        .http1_1_only()
        .http_proxy("127.0.0.1", 7890)
        .build_sync();
    match run_without_network(config) {
        Ok(response) => println!("HTTP Proxy GET Response => {:?}", response.get_body()),
        Err(e) => println!("HTTP Proxy GET Error (expected) => {}", e.message()),
    }
}

#[test]
fn test_http_proxy_auth_get_request() {
    let header = pair_map(&[("header-key", "header-value")]);
    let config = RequestBuilder::new()
        .get("http://ide.ltpp.vip/?language=rust")
        .headers(&header)
        .timeout(10000)
        .redirect()
        .buffer(4096)
        .max_redirect_times(8)
        .http1_1_only()
        .http_proxy_auth("127.0.0.1", 7890, "username", "password")
        .build_sync();
    match run_without_network(config) {
        Ok(response) => println!("HTTP Proxy Auth GET Response => {:?}", response.get_body()),
        Err(e) => println!("HTTP Proxy Auth GET Error (expected) => {}", e.message()),
    }
}

#[test]
fn test_socks5_proxy_get_request() {
    let header = pair_map(&[("header-key", "header-value")]);
    let config = RequestBuilder::new()
        .get("http://ide.ltpp.vip/?language=rust")
        .headers(&header)
        .timeout(10000)
        .redirect()
        .buffer(4096)
        .max_redirect_times(8)
        .http1_1_only()
        .socks5_proxy("127.0.0.1", 1080)
        .build_sync();
    match run_without_network(config) {
        Ok(response) => println!("SOCKS5 Proxy GET Response => {:?}", response.get_body()),
        Err(e) => println!("SOCKS5 Proxy GET Error (expected) => {}", e.message()),
    }
}

#[test]
fn test_https_over_http_proxy_sync() {
    let header = pair_map(&[("User-Agent", "test-agent")]);
    let config = RequestBuilder::new()
        .get("https://ide.ltpp.vip/?language=rust")
        .headers(&header)
        .timeout(10000)
        .http_proxy("127.0.0.1", 7890)
        .build_sync();
    match run_without_network(config) {
        Ok(response) => {
            println!("Sync HTTPS over HTTP proxy test passed: {}", response.get_status_code())
        }
        Err(e) => println!("Sync HTTPS over HTTP proxy test failed (expected): {}", e.message()),
    }
}

#[test]
fn test_https_over_socks5_proxy_sync() {
    let header = pair_map(&[("User-Agent", "test-agent")]);
    let config = RequestBuilder::new()
        .get("https://ide.ltpp.vip/?language=rust")
        .headers(&header)
        .timeout(10000)
        .socks5_proxy("127.0.0.1", 1080)
        .build_sync();
    match run_without_network(config) {
        Ok(response) => {
            println!("Sync HTTPS over SOCKS5 proxy test passed: {}", response.get_status_code())
        }
        Err(e) => println!("Sync HTTPS over SOCKS5 proxy test failed (expected): {}", e.message()),
    }
}
