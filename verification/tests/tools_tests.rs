use sniffcss::action::Action;
use sniffcss::wait::WaitStrategy;
use sniffcss::store::{ListSnapshotsRequest, SnapshotEntry};
use sniffcss::config::{OutputFormat, Viewport};
use sniffcss::tools::{
    action_from_input, build_sniff_config, default_categories, default_format, default_return_mode,
    default_true, default_viewport, page_reply, select_snapshots, tool_error, ActionInput, PageReply,
    SniffPageRequest, ToolErrorKind,
};
use sniffcss::error::SniffError;
use sniffcss::tools::{after_failed_attempt, PoolStep};

#[test]
fn action_from_input_rejects_unknown_and_missing_text() {
    let err = action_from_input(&ActionInput {
        action_type: "dblclick".into(),
        selector: "#x".into(),
        text: None,
        timeout_ms: None,
        settle_ms: None,
    })
    .unwrap_err();
    assert!(err.contains("unknown action type `dblclick`"), "got: {err}");

    let err = action_from_input(&ActionInput {
        action_type: "type".into(),
        selector: "#q".into(),
        text: None,
        timeout_ms: None,
        settle_ms: None,
    })
    .unwrap_err();
    assert!(err.contains("requires `text`"), "got: {err}");
}

#[test]
fn action_inputs_map_to_actions() {
    assert_eq!(
        action_from_input(&ActionInput {
            action_type: "hover".into(),
            selector: ".m".into(),
            text: None,
            timeout_ms: Some(5),
            settle_ms: None,
        }),
        Ok(Action::Hover {
            selector: ".m".into(),
            timeout_ms: 5,
            settle_ms: 150
        })
    );
    assert_eq!(
        action_from_input(&ActionInput {
            action_type: "type".into(),
            selector: "#q".into(),
            text: Some("hi".into()),
            timeout_ms: None,
            settle_ms: Some(1),
        }),
        Ok(Action::Type {
            selector: "#q".into(),
            text: "hi".into(),
            timeout_ms: 10_000,
            settle_ms: 1
        })
    );
}

#[test]
fn tool_argument_defaults() {
    assert_eq!(default_categories(), "all");
    assert!(default_true());
    assert_eq!(default_viewport(), "1366x768");
    assert_eq!(default_format(), "jsonl");
    assert_eq!(default_return_mode(), "summary");
}

fn entry(domain: &str, target: &str, at: &str) -> SnapshotEntry {
    SnapshotEntry {
        domain: domain.into(),
        target: target.into(),
        path: format!("{domain}/{at}-{target}.jsonl"),
        created_at: at.into(),
        size: 1,
    }
}

#[test]
fn snapshot_listing_filters_then_limits() {
    let all = vec![
        entry("a", "t1", "3"),
        entry("b", "t1", "2"),
        entry("a", "t2", "1"),
        entry("a", "t1", "0"),
    ];
    let only_a = select_snapshots(
        all.clone(),
        &ListSnapshotsRequest {
            domain: Some("a".into()),
            target: None,
            limit: None,
        },
    );
    assert_eq!(only_a, vec![all[0].clone(), all[2].clone(), all[3].clone()]);
    let a_t1_one = select_snapshots(
        all.clone(),
        &ListSnapshotsRequest {
            domain: Some("a".into()),
            target: Some("t1".into()),
            limit: Some(1),
        },
    );
    assert_eq!(a_t1_one, vec![all[0].clone()]);
    let everything = select_snapshots(
        all.clone(),
        &ListSnapshotsRequest {
            domain: None,
            target: None,
            limit: Some(10),
        },
    );
    assert_eq!(everything, all);
}

fn request() -> SniffPageRequest {
    SniffPageRequest {
        url: "https://example.com".into(),
        selector: ".card".into(),
        depth: 2,
        categories: default_categories(),
        compact: true,
        custom_props: true,
        stable_key: None,
        attributes: vec!["data-id".into()],
        pseudo: vec!["::before".into()],
        wait: vec![],
        actions: vec![],
        effects: false,
        effects_limit: None,
        viewport: default_viewport(),
        format: default_format(),
        stabilize: true,
        include_invisible: false,
        exclude: vec![".ad".into()],
        screenshot: false,
        screenshot_full_page: false,
        contrast: true,
        include_ax: false,
        ax_tree: false,
        full: false,
        persist: false,
        return_mode: default_return_mode(),
    }
}

#[test]
fn capture_request_maps_to_a_run_configuration() {
    let c = build_sniff_config(&request()).unwrap();
    assert_eq!(c.url, "https://example.com");
    assert_eq!(c.selector, ".card");
    assert_eq!(c.depth, 2);
    assert_eq!(c.viewport, Some(Viewport { width: 1366, height: 768 }));
    assert_eq!(c.output.format, OutputFormat::JsonLines);
    assert!(c.output.compact && c.output.include_contrast && !c.output.include_ax);
    assert!(c.include_custom_properties && c.stabilize);
    assert!(c.filter.visible);
    assert_eq!(c.filter.exclude_selectors, vec![".ad".to_string()]);
    assert_eq!(c.pseudo_elements, vec!["::before".to_string()]);
    assert_eq!(c.effects_limit, 10);
    assert!(c.headers.is_empty());

    let mut full = request();
    full.full = true;
    full.ax_tree = true;
    let f = build_sniff_config(&full).unwrap();
    assert!(!f.output.compact && !f.output.include_contrast && f.output.include_ax);
    assert!(!f.include_custom_properties && !f.stabilize);
}

#[test]
fn capture_request_errors_name_the_bad_argument() {
    let mut bad = request();
    bad.format = "xml".into();
    assert_eq!(build_sniff_config(&bad).unwrap_err(), "invalid output format: xml");
    let mut bad_action = request();
    bad_action.actions = vec![ActionInput {
        action_type: "drag".into(),
        selector: "#x".into(),
        text: None,
        timeout_ms: None,
        settle_ms: None,
    }];
    assert!(build_sniff_config(&bad_action).is_err());
}

#[test]
fn reply_mode_selection() {
    assert_eq!(page_reply("summary", false), Ok(PageReply::Summary));
    assert_eq!(page_reply("reference", true), Ok(PageReply::Reference));
    assert_eq!(
        page_reply("reference", false),
        Err("return=reference requires persist:true".to_string())
    );
    assert_eq!(page_reply("jsonl", false), Ok(PageReply::Jsonl));
}

#[test]
fn failed_captures_answer_by_kind() {
    assert_eq!(
        tool_error(&SniffError::NoMatch { selector: ".card".into() }),
        (ToolErrorKind::InvalidParams, "no element matched selector `.card`".to_string())
    );
    assert_eq!(
        tool_error(&SniffError::Timeout("network idle".into())),
        (ToolErrorKind::Internal, "timeout while waiting for network idle".to_string())
    );
    assert_eq!(
        tool_error(&SniffError::Browser("crashed".into())),
        (ToolErrorKind::Internal, "browser error: crashed".to_string())
    );
}

fn server_request() -> SniffPageRequest {
    SniffPageRequest {
        url: "http://localhost:3000".into(),
        selector: ".card".into(),
        depth: 0,
        categories: "all".into(),
        compact: true,
        custom_props: true,
        stable_key: Some("data-testid".into()),
        attributes: vec![],
        pseudo: vec![],
        wait: vec![],
        viewport: "1366x768".into(),
        format: "jsonl".into(),
        stabilize: true,
        include_invisible: false,
        exclude: vec![],
        screenshot: false,
        screenshot_full_page: false,
        contrast: true,
        include_ax: true,
        ax_tree: false,
        persist: true,
        return_mode: "reference".into(),
        full: false,
        actions: vec![],
        effects: true,
        effects_limit: None,
    }
}

fn input(kind: &str, selector: &str, text: Option<&str>, timeout_ms: Option<u64>, settle_ms: Option<u64>) -> ActionInput {
    ActionInput {
        action_type: kind.into(),
        selector: selector.into(),
        text: text.map(String::from),
        timeout_ms,
        settle_ms,
    }
}

#[test]
fn build_config_maps_defaults() {
    let cfg = build_sniff_config(&server_request()).unwrap();
    assert_eq!(cfg.url, "http://localhost:3000");
    assert_eq!(cfg.selector, ".card");
    assert_eq!(cfg.depth, 0);
    assert_eq!(cfg.stable_key.as_deref(), Some("data-testid"));
    assert!(cfg.output.compact);
    assert!(cfg.output.include_visibility);
    assert!(cfg.output.include_style_hash);
    assert!(cfg.output.include_aria);
    assert!(cfg.output.include_contrast);
    assert!(cfg.output.include_ax);
    assert!(cfg.include_custom_properties);
    assert!(cfg.stabilize);
    assert!(!cfg.ax_tree);
    assert!(cfg.filter.visible, "visible by default");
    assert_eq!(cfg.output.format, OutputFormat::JsonLines);
    assert_eq!(cfg.wait.len(), 3);
}

#[test]
fn include_invisible_and_filters_map_to_element_filter() {
    let mut req = server_request();
    req.include_invisible = true;
    req.exclude = vec![".skip".into()];
    let cfg = build_sniff_config(&req).unwrap();
    assert!(!cfg.filter.visible, "include_invisible flips visible off");
    assert_eq!(cfg.filter.exclude_selectors, vec![".skip"]);
}

#[test]
fn full_mode_disables_ai_optimizations() {
    let mut req = server_request();
    req.full = true;
    let cfg = build_sniff_config(&req).unwrap();
    assert!(!cfg.output.compact);
    assert!(!cfg.output.include_contrast);
    assert!(!cfg.output.include_ax);
    assert!(!cfg.include_custom_properties);
    assert!(!cfg.stabilize);
    assert!(cfg.output.include_visibility);
    assert!(cfg.output.include_style_hash);
    assert!(cfg.output.include_aria);
}

#[test]
fn ax_tree_implies_ax_in_full_mode() {
    let mut req = server_request();
    req.full = true;
    req.ax_tree = true;
    let cfg = build_sniff_config(&req).unwrap();
    assert!(cfg.output.include_ax, "ax_tree must imply include_ax");
    assert!(cfg.ax_tree);
}

#[test]
fn build_config_wires_new_flags() {
    let mut req = server_request();
    req.ax_tree = true;
    let cfg = build_sniff_config(&req).unwrap();
    assert!(cfg.stabilize);
    assert!(cfg.ax_tree);
    assert!(cfg.output.include_contrast);
    assert!(cfg.output.include_ax, "ax_tree implies include_ax");
}

#[test]
fn build_config_parses_wait_specs() {
    let mut req = server_request();
    req.wait = vec![
        "network-idle:1200:60000".into(),
        "element-ready:.card:visible,has-size:5000".into(),
    ];
    let cfg = build_sniff_config(&req).unwrap();
    assert_eq!(cfg.wait.len(), 2);
    assert!(matches!(cfg.wait[0], WaitStrategy::NetworkIdle { idle_ms: 1200, .. }));
}

#[test]
fn build_config_rejects_bad_input() {
    let mut req = server_request();
    req.viewport = "800".into();
    assert!(build_sniff_config(&req).is_err());
    let mut req = server_request();
    req.categories = "bogus".into();
    assert!(build_sniff_config(&req).is_err());
}

#[test]
fn build_config_maps_ordered_actions() {
    let mut req = server_request();
    req.actions = vec![
        input("click", "#open-modal", None, Some(5000), None),
        input("type", "#q", Some("shoes"), None, None),
        input("hover", ".submenu", None, None, Some(100)),
    ];
    let cfg = build_sniff_config(&req).unwrap();
    assert_eq!(cfg.actions.len(), 3);
    assert!(matches!(&cfg.actions[0], Action::Click { selector, timeout_ms, settle_ms }
        if selector == "#open-modal" && *timeout_ms == 5000 && *settle_ms == Action::DEFAULT_SETTLE_MS));
    assert!(matches!(&cfg.actions[1], Action::Type { text, .. } if text == "shoes"));
    assert!(matches!(&cfg.actions[2], Action::Hover { settle_ms, .. } if *settle_ms == 100));
}

#[test]
fn build_config_defaults_actions_empty() {
    let cfg = build_sniff_config(&server_request()).unwrap();
    assert!(cfg.actions.is_empty());
    assert!(cfg.effects);
    assert_eq!(cfg.effects_limit, 10);
}

#[test]
fn build_config_wires_effects_flags() {
    let mut req = server_request();
    req.effects = false;
    req.effects_limit = Some(3);
    let cfg = build_sniff_config(&req).unwrap();
    assert!(!cfg.effects);
    assert_eq!(cfg.effects_limit, 3);
}

#[test]
fn a_lost_browser_is_relaunched_once() {
    let lost = SniffError::Cdp("websocket connection closed".into());
    assert_eq!(after_failed_attempt(&lost, false), PoolStep::RelaunchAndRetry);
    assert_eq!(after_failed_attempt(&lost, true), PoolStep::Fail);
    assert_eq!(after_failed_attempt(&SniffError::Timeout("page".into()), false), PoolStep::Fail);
    assert_eq!(after_failed_attempt(&SniffError::Cdp("invalid params".into()), false), PoolStep::Fail);
}
