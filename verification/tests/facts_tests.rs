use sniffcss::facts::node_facts;
use sniffcss::load::load_str;
use sniffcss::uniformity::instance_props;

#[test]
fn facts_read_aria_then_ax_and_string_styles() {
    let line = "{\"selector\":\"button.x\",\"tag\":\"BUTTON\",\"aria\":{\"name\":\"Save\",\"has_text\":true},\"ax\":{\"focusable\":true},\"is_user_noticeable\":{\"display_visible\":false,\"accessibility_grade\":\"NONE\"},\"metrics\":{\"z_index\":\"5\"},\"styles\":{\"layout\":{\"position\":\"fixed\",\"order\":3},\"odd\":\"x\"}}";
    let nodes = load_str(line).unwrap();
    let f = node_facts(&nodes[0]);
    assert_eq!(f.selector, "button.x");
    assert_eq!(f.tag.as_deref(), Some("BUTTON"));
    assert!(!f.visible);
    assert!(f.focusable);
    assert!(f.has_text);
    assert!(f.has_name);
    assert!(!f.aria_hidden);
    assert!(f.ax_hidden);
    assert_eq!(f.metrics_z_index.as_deref(), Some("5"));
    assert_eq!(f.styles.len(), 1);
    assert_eq!(f.styles[0].category, "layout");
    assert_eq!(f.styles[0].property, "position");
    assert_eq!(f.styles[0].value, "fixed");
}

#[test]
fn facts_defaults_when_facets_are_missing() {
    let nodes = load_str("{\"selector\":\"p\",\"aria\":{\"focusable\":false,\"name\":\"\"},\"ax\":{\"focusable\":true}}").unwrap();
    let f = node_facts(&nodes[0]);
    assert!(f.visible);
    assert!(!f.focusable, "the aria facet wins over the ax facet");
    assert!(!f.has_name);
    assert!(!f.has_text);
    assert!(!f.ax_hidden);
    assert!(f.styles.is_empty());
    assert!(f.tag.is_none());
}

#[test]
fn instance_props_are_sorted_with_measured_extras() {
    let line = "{\"selector\":\"c\",\"styles\":{\"visual\":{\"color\":\"red\"},\"box_model\":{\"width\":\"1px\",\"n\":2}},\"is_user_noticeable\":{\"display_visible\":true,\"accessibility_grade\":\"AA\"}}";
    let nodes = load_str(line).unwrap();
    let props = instance_props(&nodes[0], vec![("rect.width".to_string(), Some("10".to_string()))]);
    let got: Vec<(&str, Option<&str>)> = props.iter().map(|(k, v)| (k.as_str(), v.as_deref())).collect();
    assert_eq!(
        got,
        vec![
            ("box_model.n", None),
            ("box_model.width", Some("1px")),
            ("is_user_noticeable.accessibility_grade", Some("AA")),
            ("is_user_noticeable.display_visible", Some("true")),
            ("rect.width", Some("10")),
            ("visual.color", Some("red")),
        ]
    );
}
