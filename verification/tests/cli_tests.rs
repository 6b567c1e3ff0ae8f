use sniffcss::action::Action;
use sniffcss::cli::{default_headers, parse_header, Backend, Cli, DeviceChoice, DEVICE_HINT};
use sniffcss::config::{OutputFormat, Viewport};
use sniffcss::properties::StyleCategory;
use sniffcss::wait::{parse_wait_strategy, ReadyCondition, WaitStrategy};

fn cli(url: &str, selector: Option<&str>) -> Cli {
    Cli {
        url: url.into(),
        selector: selector.map(String::from),
        depth: 0,
        categories: "all".into(),
        props: vec![],
        pseudo: vec![],
        wait: vec![],
        actions: vec![],
        click: vec![],
        hover: vec![],
        type_specs: vec![],
        upload: vec![],
        header: vec![],
        storage_state: None,
        save_storage_state: None,
        backend: Backend::Auto,
        device: None,
        avd: None,
        project: None,
        target: "lib/main.dart".into(),
        attach: false,
        no_visible: false,
        exclude: vec![],
        output: "jsonl".into(),
        summary: false,
        no_summary: false,
        screenshot: None,
        fullpage_screenshot: false,
        persist: false,
        pretty: false,
        no_rect: false,
        no_path: false,
        no_metrics: false,
        no_normalize_colors: false,
        no_group: false,
        compact: true,
        no_compact: false,
        no_visibility: false,
        no_style_hash: false,
        no_aria: false,
        contrast: true,
        no_contrast: false,
        ax: true,
        no_ax: false,
        ax_tree: false,
        stabilize: true,
        no_stabilize: false,
        effects: true,
        no_effects: false,
        effects_limit: 10,
        chrome: None,
        connect: None,
        viewport: None,
        custom_props: true,
        no_custom_props: false,
        stable_key: None,
        attrs: vec![],
        full: false,
    }
}

#[test]
fn backend_is_inferred_from_the_url() {
    assert_eq!(cli("flutter://emulator-5554", None).effective_backend(), Backend::Flutter);
    assert_eq!(cli("http://localhost", None).effective_backend(), Backend::Web);
    let mut c = cli("flutter://x", None);
    c.backend = Backend::Web;
    assert_eq!(c.effective_backend(), Backend::Web);
    assert_eq!(
        cli("flutter://emulator-5554/home", None).flutter_device(),
        Some("emulator-5554".to_string())
    );
    assert_eq!(cli("flutter:///home", None).flutter_device(), None);
    assert_eq!(cli("http://x", None).flutter_device(), None);
}

#[test]
fn defaults_map_to_a_lean_configuration() {
    let cfg = cli("http://localhost:3000", Some(".card")).into_config(None).unwrap();
    assert_eq!(cfg.selector, ".card");
    assert_eq!(cfg.categories, vec![StyleCategory::All]);
    assert_eq!(cfg.wait, WaitStrategy::default_pipeline(".card"));
    assert_eq!(cfg.output.format, OutputFormat::JsonLines);
    assert!(cfg.output.compact && cfg.output.include_contrast && cfg.output.include_ax);
    assert_eq!(
        cfg.viewport,
        Some(Viewport {
            width: 1366,
            height: 768
        })
    );
    assert!(cfg.actions.is_empty() && cfg.headers.is_empty());
}

#[test]
fn web_backend_needs_a_selector() {
    let err = cli("http://localhost", None).into_config(None).unwrap_err();
    assert!(err.message().starts_with("web backend needs --selector"));
    let cfg = cli("flutter://dev", None).into_config(None).unwrap();
    assert_eq!(cfg.selector, "root");
}

#[test]
fn full_turns_off_the_lean_switches() {
    let mut c = cli("http://x", Some("a"));
    c.full = true;
    c.ax_tree = true;
    c.summary = true;
    let cfg = c.into_config(None).unwrap();
    assert!(!cfg.output.compact);
    assert!(!cfg.output.include_contrast);
    assert!(cfg.output.include_ax);
    assert!(!cfg.include_custom_properties);
    assert!(!cfg.stabilize);
    assert_eq!(cfg.output.format, OutputFormat::Summary);
}

#[test]
fn shorthand_actions_keep_group_order() {
    let mut c = cli("http://x", Some("a"));
    c.upload = vec!["#f:a.png".into()];
    c.type_specs = vec!["#q:hi".into()];
    c.hover = vec![".m".into()];
    c.click = vec!["#open:500".into()];
    let cfg = c.into_config(None).unwrap();
    let kinds: Vec<&str> = cfg.actions.iter().map(|a| a.kind()).collect();
    assert_eq!(kinds, vec!["click", "hover", "type", "upload"]);
    assert_eq!(cfg.actions[0].timeout_ms(), 500);

    let mut c = cli("http://x", Some("a"));
    c.actions = vec!["hover:.m".into(), "click:#b".into()];
    c.click = vec!["#ignored".into()];
    let cfg = c.into_config(None).unwrap();
    assert_eq!(
        cfg.actions,
        vec![
            Action::Hover {
                selector: ".m".into(),
                timeout_ms: 10_000,
                settle_ms: 150
            },
            Action::Click {
                selector: "#b".into(),
                timeout_ms: 10_000,
                settle_ms: 150
            }
        ]
    );
}

#[test]
fn explicit_headers_win_over_defaults() {
    let mut c = cli("http://x", Some("a"));
    c.header = vec!["X-Token: explicit".into(), "X-New: 1".into(), "X-New: 2".into()];
    let cfg = c
        .into_config(Some(r#"{"X-Token": "default", "X-Other": "o", "X-Num": 5}"#.into()))
        .unwrap();
    assert_eq!(
        cfg.headers,
        vec![
            ("X-Other".to_string(), "o".to_string()),
            ("X-Token".to_string(), "explicit".to_string()),
            ("X-New".to_string(), "2".to_string()),
        ]
    );
}

#[test]
fn header_and_default_header_errors() {
    assert_eq!(
        parse_header("X-A:  b ").unwrap(),
        ("X-A".to_string(), "b".to_string())
    );
    assert_eq!(
        parse_header("nocolon").unwrap_err().message(),
        "invalid header `nocolon` — expected `Name: Value` (e.g. `X-CMS-AI-Token: <token>`)"
    );
    assert_eq!(
        parse_header("X-A: ").unwrap_err().message(),
        "invalid header `X-A: ` — both name and value must be non-empty"
    );
    assert!(default_headers(Some("  ".into())).unwrap().is_empty());
    assert!(default_headers(None).unwrap().is_empty());
    let err = default_headers(Some("[1]".into())).unwrap_err().message();
    assert!(
        err.starts_with("invalid SNIFF_DEFAULT_HEADERS (expected a JSON object): "),
        "got: {err}"
    );
}

#[test]
fn option_errors_come_in_reading_order() {
    let mut c = cli("http://x", Some("a"));
    c.wait = vec!["bogus".into()];
    c.output = "yaml".into();
    assert!(c.into_config(None).unwrap_err().message().starts_with("invalid wait strategy"));

    let mut c = cli("http://x", Some("a"));
    c.output = "yaml".into();
    c.viewport = Some("0x0".into());
    assert_eq!(c.into_config(None).unwrap_err().message(), "invalid output format: yaml");

    let mut c = cli("http://x", Some("a"));
    c.viewport = Some("10x10".into());
    c.categories = "nope".into();
    assert_eq!(c.into_config(None).unwrap_err().message(), "unknown style category: nope");
}

#[test]
fn flutter_device_comes_from_avd_then_device_then_url() {
    let mut c = cli("flutter://emulator-5554/home", None);
    assert_eq!(c.device_choice(), Ok(DeviceChoice::Serial("emulator-5554".into())));
    c.device = Some("R58M".into());
    assert_eq!(c.device_choice(), Ok(DeviceChoice::Serial("R58M".into())));
    c.avd = Some("Pixel_7".into());
    assert_eq!(c.device_choice(), Ok(DeviceChoice::Emulator("Pixel_7".into())));
    let none = cli("flutter://", None);
    assert_eq!(none.device_choice(), Err(DEVICE_HINT.to_string()));
    assert_eq!(
        DEVICE_HINT,
        "flutter backend needs --device <serial>, --avd <name> or a flutter://<device> URL"
    );
}

/// The options as the command line leaves them when only `-u` (and `-s`)
/// are given: the summary output is the default.
fn parsed(url: &str, selector: Option<&str>) -> Cli {
    let mut c = cli(url, selector);
    c.output = "summary".into();
    c
}

#[test]
fn args_parse_delay() {
    assert_eq!(parse_wait_strategy("delay:2000").unwrap(), WaitStrategy::Delay { ms: 2000 });
}

#[test]
fn args_parse_network_idle_defaults_timeout() {
    match parse_wait_strategy("network-idle:500").unwrap() {
        WaitStrategy::NetworkIdle { idle_ms, timeout_ms } => {
            assert_eq!(idle_ms, 500);
            assert_eq!(timeout_ms, 30_000);
        }
        other => panic!("unexpected: {other:?}"),
    }
}

#[test]
fn args_parse_element_ready_with_conditions() {
    match parse_wait_strategy("element-ready:.card:visible,has-size,opacity=0.9:5000").unwrap() {
        WaitStrategy::ElementReady { selector, conditions, timeout_ms } => {
            assert_eq!(selector, ".card");
            assert_eq!(conditions.len(), 3);
            assert!(
                matches!(&conditions[2], ReadyCondition::Opacity(v) if (v.parse::<f64>().unwrap() - 0.9).abs() < 1e-9)
            );
            assert_eq!(timeout_ms, 5000);
        }
        other => panic!("unexpected: {other:?}"),
    }
}

#[test]
fn args_parse_app_flag() {
    assert!(matches!(
        parse_wait_strategy("app-flag:APP_READY").unwrap(),
        WaitStrategy::AppFlag { flag, .. } if flag == "APP_READY"
    ));
}

#[test]
fn args_parse_unknown_strategy_fails() {
    assert!(parse_wait_strategy("bogus:1").is_err());
}

#[test]
fn args_parse_missing_arg_fails() {
    assert!(parse_wait_strategy("delay").is_err());
}

#[test]
fn args_cli_to_config_defaults() {
    let cfg = cli("http://localhost:3000", Some(".card")).into_config(None).unwrap();
    assert_eq!(cfg.categories, vec![StyleCategory::All]);
    assert_eq!(cfg.output.format, OutputFormat::JsonLines);
    assert!(cfg.output.include_rect);
    assert_eq!(cfg.wait.len(), 3);
    assert_eq!(cfg.stable_key, None);
    assert!(cfg.output.compact);
    assert!(cfg.output.include_contrast);
    assert!(cfg.output.include_ax);
    assert!(cfg.include_custom_properties);
    assert!(cfg.stabilize);
    assert_eq!(cfg.viewport, Some(Viewport { width: 1366, height: 768 }));
}

#[test]
fn args_cli_to_config_wires_stable_key() {
    let mut c = cli("http://localhost:3000", Some(".card"));
    c.stable_key = Some("data-testid".into());
    let cfg = c.into_config(None).unwrap();
    assert_eq!(cfg.stable_key.as_deref(), Some("data-testid"));
}

#[test]
fn cli_parses_ordered_actions() {
    let mut c = parsed("http://localhost:3000", Some(".modal"));
    c.actions = vec!["click:#open:5000".into(), "type:#q:hello world".into(), "hover:.submenu:2000:100".into()];
    let cfg = c.into_config(None).unwrap();
    assert_eq!(cfg.actions.len(), 3);
    assert!(matches!(&cfg.actions[0], Action::Click { selector, timeout_ms, .. }
        if selector == "#open" && *timeout_ms == 5000));
    assert!(matches!(&cfg.actions[1], Action::Type { text, .. } if text == "hello world"));
    assert!(matches!(&cfg.actions[2], Action::Hover { timeout_ms, settle_ms, .. }
        if *timeout_ms == 2000 && *settle_ms == 100));
}

#[test]
fn cli_convenience_click_flag_maps_to_action() {
    let mut c = parsed("http://localhost:3000", Some(".modal"));
    c.click = vec!["#open".into()];
    let cfg = c.into_config(None).unwrap();
    assert_eq!(cfg.actions.len(), 1);
    assert!(matches!(&cfg.actions[0], Action::Click { selector, .. } if selector == "#open"));
}

#[test]
fn cli_actions_absent_by_default() {
    let cfg = parsed("http://localhost:3000", Some(".card")).into_config(None).unwrap();
    assert!(cfg.actions.is_empty());
}

#[test]
fn cli_effects_default_on_and_tunable() {
    let mut c = parsed("http://localhost:3000", Some(".modal"));
    c.click = vec!["#open".into()];
    let cfg = c.into_config(None).unwrap();
    assert!(cfg.effects, "effects must be ON by default");
    assert_eq!(cfg.effects_limit, 10);

    let mut c = parsed("http://localhost:3000", Some(".modal"));
    c.click = vec!["#open".into()];
    c.no_effects = true;
    c.effects_limit = 3;
    let cfg = c.into_config(None).unwrap();
    assert!(!cfg.effects);
    assert_eq!(cfg.effects_limit, 3);
}

#[test]
fn full_mode_disables_all_optimizations() {
    let mut c = cli("http://localhost:3000", Some(".card"));
    c.full = true;
    let cfg = c.into_config(None).unwrap();
    assert!(!cfg.output.compact);
    assert!(!cfg.output.include_contrast);
    assert!(!cfg.output.include_ax);
    assert!(!cfg.include_custom_properties);
    assert!(!cfg.stabilize);
    assert!(cfg.output.include_visibility);
    assert!(cfg.output.include_style_hash);
    assert!(cfg.output.include_aria);
}

#[test]
fn individual_no_flags_override_defaults() {
    let mut c = cli("http://localhost:3000", Some(".card"));
    c.no_compact = true;
    c.no_contrast = true;
    c.no_ax = true;
    c.no_custom_props = true;
    c.no_stabilize = true;
    let cfg = c.into_config(None).unwrap();
    assert!(!cfg.output.compact);
    assert!(!cfg.output.include_contrast);
    assert!(!cfg.output.include_ax);
    assert!(!cfg.include_custom_properties);
    assert!(!cfg.stabilize);
}

#[test]
fn ax_tree_implies_ax_even_in_full_mode() {
    let mut c = cli("http://localhost:3000", Some(".card"));
    c.full = true;
    c.ax_tree = true;
    let cfg = c.into_config(None).unwrap();
    assert!(cfg.output.include_ax, "ax_tree must imply include_ax");
    assert!(cfg.ax_tree);
}

#[test]
fn summary_is_the_default_output() {
    let cfg = parsed("http://localhost:3000", Some(".card")).into_config(None).unwrap();
    assert_eq!(cfg.output.format, OutputFormat::Summary, "summary digest must be the default output");
}

#[test]
fn summary_flag_and_output_summary_agree() {
    let mut c = parsed("http://localhost:3000", Some(".card"));
    c.summary = true;
    assert_eq!(c.into_config(None).unwrap().output.format, OutputFormat::Summary);
    let mut c = parsed("http://localhost:3000", Some(".card"));
    c.output = "summary".into();
    assert_eq!(c.into_config(None).unwrap().output.format, OutputFormat::Summary);
}

#[test]
fn no_summary_forces_full_jsonl() {
    let mut c = parsed("http://localhost:3000", Some(".card"));
    c.no_summary = true;
    let cfg = c.into_config(None).unwrap();
    assert_eq!(cfg.output.format, OutputFormat::JsonLines, "--no-summary must emit the full non-summarized snapshot");
}

#[test]
fn output_json_still_available_without_summary_flag() {
    let mut c = parsed("http://localhost:3000", Some(".card"));
    c.output = "json".into();
    assert_eq!(c.into_config(None).unwrap().output.format, OutputFormat::Json);
}

#[test]
fn header_flag_maps_to_config_headers() {
    let mut c = parsed("http://localhost:3000", Some(".card"));
    c.header = vec!["X-CMS-AI-Token: abc123".into()];
    let cfg = c.into_config(None).unwrap();
    assert_eq!(cfg.headers, vec![("X-CMS-AI-Token".to_string(), "abc123".to_string())]);
}

#[test]
fn header_parse_rejects_missing_colon_or_value() {
    let mut c = parsed("http://localhost:3000", Some(".card"));
    c.header = vec!["not-a-header".into()];
    assert!(c.into_config(None).is_err());
    let mut c = parsed("http://localhost:3000", Some(".card"));
    c.header = vec!["X-Foo: ".into()];
    assert!(c.into_config(None).is_err());
}

#[test]
fn upload_flag_maps_to_upload_action() {
    let mut c = parsed("http://localhost:3000", Some(".modal"));
    c.upload = vec!["#file:img/a.jpg,img/b.png".into()];
    let cfg = c.into_config(None).unwrap();
    assert!(matches!(
        &cfg.actions[0],
        Action::Upload { selector, files, .. }
            if selector == "#file" && files == &vec!["img/a.jpg".to_string(), "img/b.png".to_string()]
    ));
}

#[test]
fn storage_state_flags_map_to_config() {
    let mut c = parsed("http://localhost:3000", Some(".card"));
    c.storage_state = Some("state.json".into());
    c.save_storage_state = Some("out.json".into());
    let cfg = c.into_config(None).unwrap();
    assert_eq!(cfg.storage_state_path.as_deref(), Some("state.json"));
    assert_eq!(cfg.save_storage_state.as_deref(), Some("out.json"));
}

#[test]
fn flutter_backend_parses_device_and_attach() {
    let mut c = parsed("flutter://emulator-5554", Some("*"));
    c.backend = Backend::Flutter;
    c.device = Some("emulator-5554".into());
    assert_eq!(c.effective_backend(), Backend::Flutter);
    assert_eq!(c.device_choice(), Ok(DeviceChoice::Serial("emulator-5554".into())));
    assert!(!c.attach);
    let mut c = parsed("flutter://emulator-5554", Some("*"));
    c.backend = Backend::Flutter;
    c.avd = Some("pixel".into());
    c.attach = true;
    assert_eq!(c.device_choice(), Ok(DeviceChoice::Emulator("pixel".into())));
    assert!(c.attach);
}

#[test]
fn web_is_the_default_backend() {
    let c = parsed("http://localhost:3000", Some(".card"));
    assert_eq!(c.backend, Backend::Auto);
    assert_eq!(c.effective_backend(), Backend::Web);
}

#[test]
fn flutter_url_infers_backend_device_and_selector() {
    let mut c = parsed("flutter://emulator-5554", None);
    c.project = Some("/tmp/app".into());
    c.depth = 10;
    assert_eq!(c.backend, Backend::Auto);
    assert_eq!(c.effective_backend(), Backend::Flutter);
    assert_eq!(c.flutter_device().as_deref(), Some("emulator-5554"));
    assert_eq!(c.device, None);
    let cfg = c.into_config(None).unwrap();
    assert_eq!(cfg.selector, "root");
}

#[test]
fn flutter_url_with_path_still_yields_device() {
    let c = parsed("flutter://emulator-5554/home", Some("*"));
    assert_eq!(c.flutter_device().as_deref(), Some("emulator-5554"));
}

#[test]
fn explicit_backend_and_device_override_inference() {
    let mut c = parsed("flutter://emulator-5554", Some(".card"));
    c.backend = Backend::Web;
    assert_eq!(c.effective_backend(), Backend::Web);
    let mut c = parsed("http://localhost:3000", Some("root"));
    c.backend = Backend::Flutter;
    c.device = Some("emulator-5554".into());
    assert_eq!(c.effective_backend(), Backend::Flutter);
    assert_eq!(c.device.as_deref(), Some("emulator-5554"));
}

#[test]
fn web_backend_requires_selector() {
    assert!(parsed("http://localhost:3000", None).into_config(None).is_err());
}

#[test]
fn storage_state_absent_by_default() {
    let cfg = parsed("http://localhost:3000", Some(".card")).into_config(None).unwrap();
    assert!(cfg.storage_state_path.is_none());
    assert!(cfg.save_storage_state.is_none());
    assert!(cfg.headers.is_empty());
}
