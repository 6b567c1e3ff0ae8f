use sniffcss::cdp::{CdpError, JsonRpcError, LaunchOptions};
use sniffcss::endpoint::{
    debugger_url, endpoint_target, parse_content_length, parse_http_authority, version_request,
    EndpointTarget, NO_DEBUGGER_URL,
};

#[test]
fn authority_parsing() {
    assert_eq!(
        parse_http_authority("127.0.0.1:9222").unwrap(),
        ("127.0.0.1".into(), 9222)
    );
    assert_eq!(
        parse_http_authority("http://host:9222").unwrap(),
        ("host".into(), 9222)
    );
    assert_eq!(parse_http_authority("host").unwrap(), ("host".into(), 9222));
    assert_eq!(
        parse_http_authority("http://host").unwrap(),
        ("host".into(), 9222)
    );
    assert_eq!(
        parse_http_authority("https://host").unwrap(),
        ("host".into(), 443)
    );
    assert_eq!(
        parse_http_authority("http://127.0.0.1:9222/json/version").unwrap(),
        ("127.0.0.1".into(), 9222)
    );
    assert_eq!(
        parse_http_authority("[::1]:9222").unwrap(),
        ("::1".into(), 9222)
    );
}

#[test]
fn authority_errors() {
    assert_eq!(
        parse_http_authority("[::1").unwrap_err().message(),
        "websocket connect failed: invalid endpoint `[::1`"
    );
    assert_eq!(
        parse_http_authority("host:99999").unwrap_err().message(),
        "websocket connect failed: invalid port in endpoint `host:99999`"
    );
    assert_eq!(
        parse_http_authority("https://[::1]/x").unwrap(),
        ("::1".into(), 443)
    );
    assert!(parse_http_authority("[::1]:x").is_err());
}

#[test]
fn content_length_is_parsed() {
    assert_eq!(
        parse_content_length("HTTP/1.1 200 OK\r\nContent-Length: 405\r\nConnection: close"),
        Some(405)
    );
    assert_eq!(
        parse_content_length("HTTP/1.1 200 OK\r\nContent-Type: application/json\r\n\r\n"),
        None
    );
    assert_eq!(parse_content_length("HTTP/1.1 200 OK\r\n"), None);
}

#[test]
fn content_length_rules() {
    assert_eq!(parse_content_length("Content-Length: 7\r\n"), None);
    assert_eq!(
        parse_content_length("HTTP/1.1 200 OK\nCONTENT-LENGTH :  12 \nContent-Length: 9"),
        Some(12)
    );
    assert_eq!(
        parse_content_length("HTTP/1.1 200 OK\r\nContent-Length: x\r\ncontent-length: 3\r\n"),
        Some(3)
    );
    assert_eq!(parse_content_length(""), None);
}

#[test]
fn transport_errors_convert_variant_by_variant() {
    let e = CdpError::from(JsonRpcError::Timeout("Page.navigate".into()));
    assert_eq!(e.message(), "timed out waiting for `Page.navigate`");
    let e = CdpError::from(JsonRpcError::Protocol {
        method: "DOM.x".into(),
        message: "nope".into(),
    });
    assert_eq!(e.message(), "CDP returned error for `DOM.x`: nope");
    assert_eq!(
        JsonRpcError::Protocol {
            method: "DOM.x".into(),
            message: "nope".into()
        }
        .message(),
        "protocol returned error for `DOM.x`: nope"
    );
    assert_eq!(CdpError::from(JsonRpcError::Closed).message(), "connection closed");
    let io = std::io::Error::new(std::io::ErrorKind::Other, "boom");
    assert_eq!(CdpError::from(JsonRpcError::Io(io)).message(), "boom");
}

#[test]
fn launch_options_default() {
    let o = LaunchOptions::default();
    assert!(o.headless);
    assert_eq!(o.launch_timeout_ms, 15_000);
    assert!(o.executable.is_none() && o.user_data_dir.is_none() && o.extra_args.is_empty());
}

#[test]
fn endpoints_resolve_to_a_websocket_or_an_http_origin() {
    assert_eq!(
        endpoint_target("  ws://127.0.0.1:9222/devtools/browser/abc ").unwrap(),
        EndpointTarget::WebSocket("ws://127.0.0.1:9222/devtools/browser/abc".into())
    );
    assert_eq!(
        endpoint_target("wss://remote/devtools").unwrap(),
        EndpointTarget::WebSocket("wss://remote/devtools".into())
    );
    assert_eq!(
        endpoint_target("http://localhost:9333/json").unwrap(),
        EndpointTarget::Http { host: "localhost".into(), port: 9333 }
    );
    assert_eq!(
        endpoint_target("localhost").unwrap(),
        EndpointTarget::Http { host: "localhost".into(), port: 9222 }
    );
    assert!(endpoint_target("host:99999").is_err());
}

#[test]
fn version_lookup_request_and_reply() {
    assert_eq!(
        version_request("localhost", 9222),
        "GET /json/version HTTP/1.1\r\nHost: localhost:9222\r\nConnection: close\r\nUser-Agent: sniffCSS/0.1\r\nAccept: application/json\r\n\r\n"
    );
    assert_eq!(debugger_url(Some("ws://x/y".into())).unwrap(), "ws://x/y");
    match debugger_url(None) {
        Err(CdpError::Connect(m)) => assert_eq!(m, NO_DEBUGGER_URL),
        other => panic!("unexpected {other:?}"),
    }
}
