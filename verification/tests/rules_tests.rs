use sniffcss::error::{is_transport_error, SniffError};
use sniffcss::rules::{summarize, CheckLine, RuleStatus};

fn line(check: &str, status: RuleStatus) -> CheckLine {
    CheckLine {
        check: check.into(),
        selector: "s".into(),
        tag: None,
        status,
        evidence: String::new(),
    }
}

#[test]
fn summary_counts_statuses() {
    let (pass, warn, fail) = summarize(&[
        line("a", RuleStatus::Pass),
        line("b", RuleStatus::Warn),
        line("c", RuleStatus::Fail),
    ]);
    assert_eq!((pass, warn, fail), (1, 1, 1));
}

#[test]
fn summary_of_many_lines() {
    let mut lines = Vec::new();
    for i in 0..10 {
        lines.push(line("x", if i % 3 == 0 { RuleStatus::Fail } else { RuleStatus::Pass }));
    }
    assert_eq!(summarize(&lines), (6, 0, 4));
    assert_eq!(summarize(&[]), (0, 0, 0));
}

#[test]
fn transport_errors_are_detected() {
    assert!(is_transport_error(&SniffError::Cdp(
        "websocket connection closed".into()
    )));
    assert!(is_transport_error(&SniffError::Browser(
        "connection lost during launch".into()
    )));
    assert!(!is_transport_error(&SniffError::NoMatch {
        selector: "x".into()
    }));
    assert!(!is_transport_error(&SniffError::Timeout("page".into())));
    assert!(!is_transport_error(&SniffError::Cdp(
        "invalid params".into()
    )));
}

#[test]
fn transport_detection_is_case_insensitive_and_kind_bound() {
    assert!(is_transport_error(&SniffError::Cdp("Unexpected EOF".into())));
    assert!(is_transport_error(&SniffError::Browser("Pipe CLOSED".into())));
    assert!(!is_transport_error(&SniffError::Other("websocket closed".into())));
}

#[test]
fn error_messages() {
    assert_eq!(
        SniffError::NoMatch { selector: ".x".into() }.message(),
        "no elements matched selector `.x`"
    );
    assert_eq!(SniffError::Other("plain".into()).message(), "plain");
    assert_eq!(SniffError::Cdp("c".into()).message(), "CDP error: c");
}
