use sniffcss::cdp::{
    chrome_args, event_matches, exception_error, protocol_error, route_frame, CdpError, FrameRoute,
    JsonRpcError,
};

#[test]
fn frames_route_by_id_then_method() {
    assert_eq!(route_frame(Some(7), true), FrameRoute::Response(7));
    assert_eq!(route_frame(Some(0), false), FrameRoute::Response(0));
    assert_eq!(route_frame(None, true), FrameRoute::Event);
    assert_eq!(route_frame(None, false), FrameRoute::Ignore);
}

#[test]
fn response_error_member_becomes_a_protocol_error() {
    assert!(protocol_error("Page.navigate", None).is_none());
    match protocol_error("Page.navigate", Some(Some("No target".into()))) {
        Some(JsonRpcError::Protocol { method, message }) => {
            assert_eq!(method, "Page.navigate");
            assert_eq!(message, "No target");
        }
        other => panic!("unexpected {other:?}"),
    }
    let e = protocol_error("DOM.getDocument", Some(None)).unwrap();
    assert_eq!(e.message(), "protocol returned error for `DOM.getDocument`: unknown protocol error");
}

#[test]
fn awaited_events_match_method_and_session() {
    assert!(event_matches("Page.loadEventFired", Some("S1"), "Page.loadEventFired", "S1"));
    assert!(!event_matches("Page.loadEventFired", Some("S2"), "Page.loadEventFired", "S1"));
    assert!(!event_matches("Page.loadEventFired", None, "Page.loadEventFired", "S1"));
    assert!(!event_matches("Page.frameNavigated", Some("S1"), "Page.loadEventFired", "S1"));
}

#[test]
fn script_exceptions_carry_text_and_description() {
    match exception_error(Some("Uncaught"), Some("ReferenceError: x is not defined")) {
        CdpError::Protocol { method, message } => {
            assert_eq!(method, "Runtime.evaluate");
            assert_eq!(message, "Uncaught: ReferenceError: x is not defined");
        }
        other => panic!("unexpected {other:?}"),
    }
    let e = exception_error(None, None);
    assert_eq!(e.message(), "CDP returned error for `Runtime.evaluate`: JS exception:");
}

#[test]
fn browser_command_line() {
    let args = chrome_args("/tmp/profile", true, &vec!["--lang=en".to_string()]);
    assert_eq!(args.len(), 15);
    assert_eq!(args[0], "--remote-debugging-port=0");
    assert_eq!(args[10], "--remote-debugging-address=127.0.0.1");
    assert_eq!(args[11], "--user-data-dir=/tmp/profile");
    assert_eq!(args[12], "about:blank");
    assert_eq!(args[13], "--headless=new");
    assert_eq!(args[14], "--lang=en");
    let headed = chrome_args("/p", false, &vec![]);
    assert_eq!(headed.len(), 13);
    assert_eq!(headed.last().map(String::as_str), Some("about:blank"));
}

fn route(frame: &str) -> FrameRoute {
    let v: serde_json::Value = serde_json::from_str(frame).unwrap();
    route_frame(
        v.get("id").and_then(serde_json::Value::as_u64),
        v.get("method").and_then(serde_json::Value::as_str).is_some(),
    )
}

#[test]
fn dispatch_routes_response_by_id() {
    assert_eq!(route(r#"{"id": 7, "result": {"ok": true}}"#), FrameRoute::Response(7));
}

#[test]
fn dispatch_routes_event_with_session() {
    let frame = r#"{"method": "Network.loadingFinished", "params": {"requestId": "r1"}, "sessionId": "s1"}"#;
    assert_eq!(route(frame), FrameRoute::Event);
    assert!(event_matches("Network.loadingFinished", Some("s1"), "Network.loadingFinished", "s1"));
}

#[test]
fn dispatch_ignores_unknown_frames() {
    assert_eq!(route("null"), FrameRoute::Ignore);
}
