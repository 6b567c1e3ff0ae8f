use sniffcss::action::{parse_action, Action};
use sniffcss::config::{parse_categories, OutputConfig, OutputFormat, SniffConfig, Viewport};
use sniffcss::properties::StyleCategory;
use sniffcss::wait::{parse_wait_strategy, ReadyCondition, WaitStrategy};

#[test]
fn output_format_parse() {
    assert_eq!(
        OutputFormat::parse_cli("jsonl").unwrap(),
        OutputFormat::JsonLines
    );
    assert_eq!(
        OutputFormat::parse_cli("ndjson").unwrap(),
        OutputFormat::JsonLines
    );
    assert_eq!(
        OutputFormat::parse_cli("jsonl-flat").unwrap(),
        OutputFormat::JsonLinesFlat
    );
    assert_eq!(OutputFormat::parse_cli("json").unwrap(), OutputFormat::Json);
    assert_eq!(
        OutputFormat::parse_cli("summary").unwrap(),
        OutputFormat::Summary
    );
    assert!(OutputFormat::parse_cli("yaml").is_err());
}

#[test]
fn output_format_is_trimmed_and_case_insensitive() {
    assert_eq!(
        OutputFormat::parse_cli("  SLIM ").unwrap(),
        OutputFormat::Summary
    );
    assert_eq!(
        OutputFormat::parse_cli("NDJSON-Flat").unwrap(),
        OutputFormat::JsonLinesFlat
    );
    let err = OutputFormat::parse_cli(" YAML ").unwrap_err();
    assert_eq!(err.message(), "invalid output format: yaml");
}

#[test]
fn parse_categories_multiple() {
    let cats = parse_categories("box-model, layout, visual").unwrap();
    assert_eq!(
        cats,
        vec![
            StyleCategory::BoxModel,
            StyleCategory::Layout,
            StyleCategory::Visual
        ]
    );
}

#[test]
fn parse_categories_unknown_fails() {
    assert!(parse_categories("bogus").is_err());
}

#[test]
fn parse_categories_skips_empty_pieces_and_rejects_empty_lists() {
    assert_eq!(
        parse_categories(" ,typography,, all ").unwrap(),
        vec![StyleCategory::Typography, StyleCategory::All]
    );
    assert_eq!(
        parse_categories(" , ").unwrap_err().message(),
        "unknown style category:  , "
    );
    assert_eq!(
        parse_categories("layout, nope").unwrap_err().message(),
        "unknown style category: nope"
    );
}

#[test]
fn default_pipeline_is_sane() {
    let pipe = WaitStrategy::default_pipeline(".card");
    assert_eq!(pipe.len(), 3);
    assert!(matches!(pipe[0], WaitStrategy::Selector { .. }));
    assert!(matches!(pipe[1], WaitStrategy::NetworkIdle { .. }));
    assert!(matches!(pipe[2], WaitStrategy::ElementReady { .. }));
    match &pipe[0] {
        WaitStrategy::Selector { timeout_ms, .. } => assert_eq!(*timeout_ms, 10_000),
        _ => unreachable!(),
    }
    match &pipe[2] {
        WaitStrategy::ElementReady { timeout_ms, .. } => assert_eq!(*timeout_ms, 10_000),
        _ => unreachable!(),
    }
}

#[test]
fn malformed_ready_condition_error_hints_format() {
    let err = parse_wait_strategy("element-ready:.card:1000")
        .unwrap_err()
        .message();
    assert!(
        err.contains("expected one of: visible, has-size, opacity=<0..1>"),
        "got: {err}"
    );
    assert!(
        err.contains("element-ready:<selector>:<cond1,cond2>"),
        "got: {err}"
    );
    assert!(err.contains("1000"), "got: {err}");
}

#[test]
fn wait_strategy_errors_include_format_hint() {
    let err = parse_wait_strategy("delay").unwrap_err().message();
    assert!(err.contains("wait format: delay:<ms>"), "got: {err}");
    let err = parse_wait_strategy("bogus:1").unwrap_err().message();
    assert!(err.contains("wait format:"), "got: {err}");
}

#[test]
fn wait_strategy_error_messages_are_exact() {
    let hint = " — wait format: delay:<ms> | network-idle:<idle_ms>[:<timeout_ms>] | fonts-loaded[:<timeout_ms>] | selector:<sel>[:<timeout_ms>] | element-ready:<sel>:<visible,has-size[,opacity=N]>[:<timeout_ms>] | app-flag:<flag>[:<timeout_ms>]";
    assert_eq!(
        parse_wait_strategy(" delay ").unwrap_err().message(),
        format!("invalid wait strategy: missing delay for `delay` strategy{hint}")
    );
    assert_eq!(
        parse_wait_strategy("network-idle:soon").unwrap_err().message(),
        format!(
            "invalid wait strategy: invalid idle_ms (expected milliseconds) for `network-idle`{hint}"
        )
    );
    assert_eq!(
        parse_wait_strategy("element-ready:.card").unwrap_err().message(),
        format!("invalid wait strategy: missing conditions for `element-ready` strategy{hint}")
    );
    assert_eq!(
        parse_wait_strategy("element-ready:.card:,,").unwrap_err().message(),
        format!("invalid wait strategy: element-ready requires at least one condition{hint}")
    );
    assert_eq!(
        parse_wait_strategy("wat:1").unwrap_err().message(),
        format!("invalid wait strategy: unknown strategy `wat`{hint}")
    );
    assert_eq!(
        parse_wait_strategy("delay:99999999999999999999").unwrap_err().message(),
        format!("invalid wait strategy: invalid delay (expected milliseconds) for `delay`{hint}")
    );
}

#[test]
fn parse_wait_strategy_success_paths() {
    assert_eq!(
        parse_wait_strategy("delay:2000").unwrap(),
        WaitStrategy::Delay { ms: 2000 }
    );
    match parse_wait_strategy("network-idle:800:15000").unwrap() {
        WaitStrategy::NetworkIdle {
            idle_ms,
            timeout_ms,
        } => {
            assert_eq!(idle_ms, 800);
            assert_eq!(timeout_ms, 15_000);
        }
        other => panic!("unexpected: {other:?}"),
    }
    assert!(matches!(
        parse_wait_strategy("fonts-loaded:10000").unwrap(),
        WaitStrategy::FontsLoaded { timeout_ms: 10_000 }
    ));
    match parse_wait_strategy("selector:.card:5000").unwrap() {
        WaitStrategy::Selector {
            selector,
            timeout_ms,
        } => {
            assert_eq!(selector, ".card");
            assert_eq!(timeout_ms, 5000);
        }
        other => panic!("unexpected: {other:?}"),
    }
    match parse_wait_strategy("app-flag:__APP_READY__:20000").unwrap() {
        WaitStrategy::AppFlag { flag, timeout_ms } => {
            assert_eq!(flag, "__APP_READY__");
            assert_eq!(timeout_ms, 20_000);
        }
        other => panic!("unexpected: {other:?}"),
    }
    assert!(matches!(
        parse_wait_strategy("fonts-loaded").unwrap(),
        WaitStrategy::FontsLoaded { timeout_ms: 15_000 }
    ));
    assert!(matches!(
        parse_wait_strategy("app-flag:READY").unwrap(),
        WaitStrategy::AppFlag {
            timeout_ms: 15_000,
            ..
        }
    ));
}

#[test]
fn parse_element_ready_with_conditions() {
    match parse_wait_strategy("element-ready:.card:visible,has-size,opacity=0.9:5000").unwrap() {
        WaitStrategy::ElementReady {
            selector,
            conditions,
            timeout_ms,
        } => {
            assert_eq!(selector, ".card");
            assert_eq!(
                conditions,
                vec![
                    ReadyCondition::Visible,
                    ReadyCondition::HasSize,
                    ReadyCondition::Opacity("0.9".to_string())
                ]
            );
            assert_eq!(timeout_ms, 5000);
        }
        other => panic!("unexpected: {other:?}"),
    }
}

#[test]
fn opacity_thresholds_follow_the_float_grammar() {
    for ok in ["1", ".5", "5.", "1e-3", "+0.25E+1", "inf", "-Infinity", "NaN"] {
        match parse_wait_strategy(&format!("element-ready:.c:opacity={ok}")).unwrap() {
            WaitStrategy::ElementReady { conditions, .. } => {
                assert_eq!(conditions, vec![ReadyCondition::Opacity(ok.to_string())]);
                assert!(ok.parse::<f64>().is_ok());
            }
            other => panic!("unexpected: {other:?}"),
        }
    }
    for bad in [".", "1e", "e5", "1.2.3", "0x1", " 1", "one"] {
        let err = parse_wait_strategy(&format!("element-ready:.c:opacity={bad}"));
        assert!(err.is_err(), "{bad} must be rejected");
        assert!(bad.parse::<f64>().is_err() || bad.starts_with(' '));
    }
    let err = parse_wait_strategy("element-ready:.c:opacity=x").unwrap_err();
    assert_eq!(
        err.message(),
        "invalid ready condition: invalid opacity in `opacity=x` (expected opacity=<0..1>)"
    );
}

#[test]
fn parse_action_click_keeps_colons_in_selector() {
    assert_eq!(
        parse_action("click:#toolbar-content .btn-group:nth-child(2) .dropdown-toggle").unwrap(),
        Action::Click {
            selector: "#toolbar-content .btn-group:nth-child(2) .dropdown-toggle".into(),
            timeout_ms: Action::DEFAULT_TIMEOUT_MS,
            settle_ms: Action::DEFAULT_SETTLE_MS,
        }
    );
    assert_eq!(
        parse_action("click:#toolbar-content .btn-group:nth-child(2) .dropdown-toggle:3000")
            .unwrap(),
        Action::Click {
            selector: "#toolbar-content .btn-group:nth-child(2) .dropdown-toggle".into(),
            timeout_ms: 3000,
            settle_ms: Action::DEFAULT_SETTLE_MS,
        }
    );
    assert_eq!(
        parse_action("click:.btn-group:nth-child(2) .dropdown-toggle:3000").unwrap(),
        Action::Click {
            selector: ".btn-group:nth-child(2) .dropdown-toggle".into(),
            timeout_ms: 3000,
            settle_ms: Action::DEFAULT_SETTLE_MS,
        }
    );
    assert_eq!(
        parse_action("hover:li:nth-child(3) a:5000:250").unwrap(),
        Action::Hover {
            selector: "li:nth-child(3) a".into(),
            timeout_ms: 5000,
            settle_ms: 250,
        }
    );
    assert_eq!(
        parse_action("click:div:not(.x):2000:100").unwrap(),
        Action::Click {
            selector: "div:not(.x)".into(),
            timeout_ms: 2000,
            settle_ms: 100,
        }
    );
    let err = parse_action("click:.a:1:2:3").unwrap_err().message();
    assert!(err.contains("too many numeric options"), "got: {err}");
}

#[test]
fn parse_action_click_with_defaults() {
    assert_eq!(
        parse_action("click:#open-modal").unwrap(),
        Action::Click {
            selector: "#open-modal".into(),
            timeout_ms: Action::DEFAULT_TIMEOUT_MS,
            settle_ms: Action::DEFAULT_SETTLE_MS,
        }
    );
}

#[test]
fn parse_action_hover_with_timeout_and_settle() {
    assert_eq!(
        parse_action("hover:.menu:5000:300").unwrap(),
        Action::Hover {
            selector: ".menu".into(),
            timeout_ms: 5000,
            settle_ms: 300,
        }
    );
    assert_eq!(
        parse_action("hover:.menu:5000").unwrap(),
        Action::Hover {
            selector: ".menu".into(),
            timeout_ms: 5000,
            settle_ms: Action::DEFAULT_SETTLE_MS,
        }
    );
}

#[test]
fn parse_action_type_keeps_colons_in_text() {
    assert_eq!(
        parse_action("type:#q:filter https://x?a=b").unwrap(),
        Action::Type {
            selector: "#q".into(),
            text: "filter https://x?a=b".into(),
            timeout_ms: Action::DEFAULT_TIMEOUT_MS,
            settle_ms: Action::DEFAULT_SETTLE_MS,
        }
    );
}

#[test]
fn parse_action_upload_with_files() {
    assert_eq!(
        parse_action("upload:#file:img/a.jpg,img/b.png").unwrap(),
        Action::Upload {
            selector: "#file".into(),
            files: vec!["img/a.jpg".into(), "img/b.png".into()],
            timeout_ms: Action::DEFAULT_TIMEOUT_MS,
            settle_ms: Action::DEFAULT_SETTLE_MS,
        }
    );
}

#[test]
fn parse_action_upload_keeps_colons_in_paths() {
    assert_eq!(
        parse_action("upload:#file:/tmp/photo:v1.jpg").unwrap(),
        Action::Upload {
            selector: "#file".into(),
            files: vec!["/tmp/photo:v1.jpg".into()],
            timeout_ms: Action::DEFAULT_TIMEOUT_MS,
            settle_ms: Action::DEFAULT_SETTLE_MS,
        }
    );
}

#[test]
fn parse_action_upload_requires_files() {
    let err = parse_action("upload:#file:").unwrap_err().message();
    assert!(err.contains("missing files"), "got: {err}");
    let err = parse_action("upload").unwrap_err().message();
    assert!(err.contains("missing selector"), "got: {err}");
}

#[test]
fn parse_action_errors_hint_format() {
    let err = parse_action("click").unwrap_err().message();
    assert!(
        err.contains("action format: click:<selector>"),
        "got: {err}"
    );
    let err = parse_action("hover::5000").unwrap_err().message();
    assert!(err.contains("missing selector"), "got: {err}");
    let err = parse_action("type:#q:").unwrap_err().message();
    assert!(err.contains("missing text"), "got: {err}");
    let err = parse_action("dblclick:#x").unwrap_err().message();
    assert!(err.contains("unknown action `dblclick`"), "got: {err}");
    assert_eq!(parse_action("click:#x:abc").unwrap().selector(), "#x:abc");
    let err = parse_action("click:.a:1:2:3").unwrap_err().message();
    assert!(err.contains("too many numeric options"), "got: {err}");
}

#[test]
fn upload_files_are_trimmed_and_empty_ones_dropped() {
    assert_eq!(
        parse_action("upload: #file : a.png , ,b.png,").unwrap(),
        Action::Upload {
            selector: "#file".into(),
            files: vec!["a.png".into(), "b.png".into()],
            timeout_ms: 10_000,
            settle_ms: 150,
        }
    );
    let err = parse_action("click:.a:99999999999999999999").unwrap_err().message();
    assert!(
        err.starts_with("invalid action: invalid timeout_ms (expected milliseconds) for `click` action"),
        "got: {err}"
    );
}

#[test]
fn action_accessors_follow_the_variant() {
    let a = parse_action("type:#q:hello").unwrap();
    assert_eq!(a.kind(), "type");
    assert_eq!(a.selector(), "#q");
    assert_eq!(a.timeout_ms(), 10_000);
    assert_eq!(a.settle_ms(), 150);
    let h = parse_action("hover:.m:7:8").unwrap();
    assert_eq!(h.kind(), "hover");
    assert_eq!(h.timeout_ms(), 7);
    assert_eq!(h.settle_ms(), 8);
}

#[test]
fn viewport_parse_cli() {
    assert_eq!(
        Viewport::parse_cli("1280x720").unwrap(),
        Viewport {
            width: 1280,
            height: 720
        }
    );
    assert_eq!(Viewport::parse_cli("1920X1080").unwrap().width, 1920);
    assert!(Viewport::parse_cli("800").is_err());
    assert!(Viewport::parse_cli("0x0").is_err());
}

#[test]
fn viewport_errors_name_the_failing_part() {
    assert_eq!(
        Viewport::parse_cli("800").unwrap_err().message(),
        "invalid output format: invalid viewport `800`"
    );
    assert_eq!(
        Viewport::parse_cli("ax1").unwrap_err().message(),
        "invalid output format: invalid viewport width `ax1`"
    );
    assert_eq!(
        Viewport::parse_cli("1xb").unwrap_err().message(),
        "invalid output format: invalid viewport height `1xb`"
    );
    assert_eq!(
        Viewport::parse_cli("0x5").unwrap_err().message(),
        "invalid output format: viewport must be non-zero `0x5`"
    );
    assert_eq!(
        Viewport::parse_cli(" 640 x 480 ").unwrap(),
        Viewport {
            width: 640,
            height: 480
        }
    );
}

#[test]
fn default_has_no_actions() {
    let cfg = SniffConfig::default();
    assert!(cfg.actions.is_empty());
    assert!(cfg.effects);
    assert_eq!(cfg.effects_limit, 10);
}

#[test]
fn default_viewport_is_laptop() {
    let cfg = SniffConfig::default();
    assert_eq!(
        cfg.viewport,
        Some(Viewport {
            width: 1366,
            height: 768
        })
    );
}

#[test]
fn default_is_ai_optimized() {
    let cfg = SniffConfig::default();
    assert!(cfg.output.compact, "compact must be ON by default");
    assert!(cfg.output.include_contrast);
    assert!(cfg.output.include_ax);
    assert!(cfg.include_custom_properties);
    assert!(cfg.stabilize);
    assert!(cfg.output.include_visibility);
    assert!(cfg.output.include_style_hash);
    assert!(cfg.output.include_aria);
    assert!(!cfg.ax_tree);
    assert_eq!(cfg.output, OutputConfig::default());
    assert_eq!(cfg.categories, vec![StyleCategory::All]);
    assert_eq!(cfg.wait, WaitStrategy::default_pipeline(""));
}

#[test]
fn persisted_captures_take_the_format_extension() {
    assert_eq!(OutputFormat::Json.extension(), "json");
    assert_eq!(OutputFormat::JsonLines.extension(), "jsonl");
    assert_eq!(OutputFormat::JsonLinesFlat.extension(), "jsonl");
    assert_eq!(OutputFormat::Summary.extension(), "jsonl");
}
