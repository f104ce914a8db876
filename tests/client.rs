use esnode_core::client::{metrics_text_result, parse_http_response, AgentClient, ClientError};

#[test]
fn base_url_normalizes_without_scheme() {
    let c = AgentClient::new("localhost:9100");
    assert_eq!(c.base_url(), "http://localhost:9100");
}

#[test]
fn base_url_keeps_scheme() {
    let c = AgentClient::new("https://example.com");
    assert_eq!(c.base_url(), "https://example.com");
}

#[test]
fn base_url_drops_trailing_slashes() {
    let c = AgentClient::new("127.0.0.1:9100//");
    assert_eq!(c.base_url(), "http://127.0.0.1:9100");
}

#[test]
fn request_for_builds_get_with_host_and_port() {
    let c = AgentClient::new("127.0.0.1:9100");
    let t = match c.request_for("/metrics") {
        Ok(t) => t,
        Err(e) => panic!("unexpected {e:?}"),
    };
    assert_eq!(t.host, "127.0.0.1");
    assert_eq!(t.port, 9100);
    assert_eq!(t.path, "/metrics");
    assert_eq!(
        t.request,
        "GET /metrics HTTP/1.1\r\nHost: 127.0.0.1\r\nConnection: close\r\n\r\n"
    );
}

#[test]
fn request_for_uses_scheme_default_port() {
    let c = AgentClient::new("https://example.com");
    let t = match c.request_for("/status") {
        Ok(t) => t,
        Err(e) => panic!("unexpected {e:?}"),
    };
    assert_eq!(t.host, "example.com");
    assert_eq!(t.port, 443);
}

#[test]
fn request_for_rejects_invalid_url() {
    let c = AgentClient::new("http://exa mple.com");
    assert!(matches!(c.request_for("/status"), Err(ClientError::InvalidUrl)));
}

#[test]
fn response_is_split_at_first_blank_line() {
    let (status, body) = parse_http_response("HTTP/1.1 200 OK\r\nContent-Length: 5\r\n\r\nhello\r\n\r\nx");
    assert_eq!(status, 200);
    assert_eq!(body, "hello\r\n\r\nx");
}

#[test]
fn response_without_blank_line_has_no_body() {
    let (status, body) = parse_http_response("HTTP/1.1 404 Not Found");
    assert_eq!(status, 404);
    assert_eq!(body, "");
    let (status, _) = parse_http_response("garbage");
    assert_eq!(status, 0);
}

#[test]
fn metrics_text_maps_404_to_error() {
    assert!(matches!(metrics_text_result(404, String::from("x")), Err(ClientError::NotFound(p)) if p == "/metrics"));
    assert!(matches!(metrics_text_result(200, String::from("dummy 1")), Ok(b) if b == "dummy 1"));
}
