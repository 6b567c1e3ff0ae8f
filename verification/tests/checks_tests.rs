use sniffcss::checks::{
    absolute_without_insets, aria_hidden_focusable, child_context_of, control_without_name,
    ellipsis_without_clip, fixed_broken_by_transform, focus_indicator, hidden_focusable,
    interactive_pointer_events_none, is_opaque_zero, overflow_x_hidden_on_body, style_value,
    sticky_in_overflow_hidden, text_bearing, text_not_selectable, transition_all,
    width_100_with_padding, z_index_on_static, AncestorContext, NodeFacts, StyleEntry,
};
use sniffcss::rules::RuleStatus;

fn facts(tag: &str, styles: &[(&str, &str, &str)]) -> NodeFacts {
    NodeFacts {
        selector: format!("{}.x", tag.to_lowercase()),
        tag: Some(tag.to_string()),
        visible: true,
        focusable: false,
        has_text: false,
        has_name: false,
        aria_hidden: false,
        ax_hidden: false,
        styles: styles
            .iter()
            .map(|(c, p, v)| StyleEntry { category: c.to_string(), property: p.to_string(), value: v.to_string() })
            .collect(),
        metrics_z_index: None,
    }
}

#[test]
fn style_lookup_by_category_and_property() {
    let n = facts("DIV", &[("layout", "position", "fixed"), ("visual", "color", "red")]);
    assert_eq!(style_value(&n, "layout", "position"), Some("fixed".chars().collect()));
    assert_eq!(style_value(&n, "visual", "position"), None);
}

#[test]
fn focus_indicator_needs_suppressed_outline_and_no_shadow() {
    let mut n = facts("BUTTON", &[
        ("visual", "outline-width", "0px"),
        ("visual", "outline-style", "none"),
        ("visual", "box-shadow", "none"),
    ]);
    assert!(focus_indicator(&n).is_none());
    n.focusable = true;
    let l = focus_indicator(&n).unwrap();
    assert_eq!(l.check, "focus-indicator");
    assert_eq!(l.selector, "button.x");
    assert_eq!(l.tag.as_deref(), Some("BUTTON"));
    assert_eq!(l.status, RuleStatus::Warn);
    let mut shadowed = facts("BUTTON", &[
        ("visual", "outline-width", "0"),
        ("visual", "outline-style", "none"),
        ("visual", "box-shadow", "0 0 0 2px blue"),
    ]);
    shadowed.focusable = true;
    assert!(focus_indicator(&shadowed).is_none());
}

#[test]
fn focusable_but_hidden_rules() {
    let mut n = facts("A", &[]);
    n.focusable = true;
    assert!(hidden_focusable(&n).is_none());
    assert!(aria_hidden_focusable(&n).is_none());
    n.ax_hidden = true;
    n.aria_hidden = true;
    assert_eq!(hidden_focusable(&n).unwrap().status, RuleStatus::Warn);
    assert_eq!(aria_hidden_focusable(&n).unwrap().status, RuleStatus::Fail);
}

#[test]
fn positioning_rules_read_the_ancestor_context() {
    let root = AncestorContext::root();
    let sticky = facts("DIV", &[("layout", "position", "sticky")]);
    assert!(sticky_in_overflow_hidden(&sticky, &root).is_none());
    let scroller = facts("DIV", &[("box_model", "overflow-y", "auto")]);
    let ctx = child_context_of(&scroller, &root);
    assert!(ctx.overflow_clipping);
    let l = sticky_in_overflow_hidden(&sticky, &ctx).unwrap();
    assert_eq!(l.check, "sticky-in-overflow-hidden");

    let fixed = facts("DIV", &[("layout", "position", "fixed")]);
    let transformed = facts("DIV", &[("transform", "transform", "matrix(1, 0, 0, 1, 0, 0)")]);
    let tctx = child_context_of(&transformed, &root);
    assert!(tctx.transformed && !tctx.overflow_clipping);
    assert!(fixed_broken_by_transform(&fixed, &tctx).is_some());
    assert!(fixed_broken_by_transform(&fixed, &root).is_none());

    let contained = facts("DIV", &[("layout", "contain", "layout paint")]);
    assert!(child_context_of(&contained, &root).transformed);
    let visible = facts("DIV", &[("box_model", "overflow-x", "visible"), ("box_model", "overflow-y", "clip")]);
    assert!(!child_context_of(&visible, &root).overflow_clipping);
    // Once set, the predicates stay set down the tree.
    assert!(child_context_of(&visible, &ctx).overflow_clipping);
    let grid = facts("DIV", &[("layout", "display", "inline-grid")]);
    assert!(child_context_of(&grid, &root).parent_flex_or_grid);
}

#[test]
fn absolute_without_insets_skips_overlays_and_set_insets() {
    let n = facts("DIV", &[("layout", "position", "absolute"), ("layout", "top", "auto")]);
    assert!(absolute_without_insets(&n, false).is_some());
    assert!(absolute_without_insets(&n, true).is_none());
    let placed = facts("DIV", &[("layout", "position", "absolute"), ("layout", "left", "0px")]);
    assert!(absolute_without_insets(&placed, false).is_none());
}

#[test]
fn pointer_events_none_on_a_control() {
    let n = facts("BUTTON", &[("interaction", "pointer-events", "none")]);
    let l = interactive_pointer_events_none(&n).unwrap();
    assert_eq!(l.status, RuleStatus::Fail);
    assert_eq!(l.evidence, "interactive BUTTON has pointer-events:none — it cannot be clicked or tapped");
    let div = facts("DIV", &[("interaction", "pointer-events", "none")]);
    assert!(interactive_pointer_events_none(&div).is_none());
}

#[test]
fn ellipsis_needs_clip_or_nowrap() {
    let n = facts("P", &[("typography", "text-overflow", "ellipsis")]);
    assert!(text_bearing(&n));
    assert!(ellipsis_without_clip(&n).is_some());
    let clipped = facts("P", &[("typography", "text-overflow", "ellipsis"), ("box_model", "overflow-x", "hidden")]);
    assert!(ellipsis_without_clip(&clipped).is_none());
    let nowrap = facts("P", &[("typography", "text-overflow", "ellipsis"), ("typography", "white-space", "pre")]);
    assert!(ellipsis_without_clip(&nowrap).is_none());
    let div = facts("DIV", &[("typography", "text-overflow", "ellipsis")]);
    assert!(ellipsis_without_clip(&div).is_none());
}

#[test]
fn full_width_content_box_with_padding() {
    let n = facts("DIV", &[
        ("box_model", "box-sizing", "content-box"),
        ("box_model", "width", "100%"),
        ("box_model", "padding-left", "8px"),
    ]);
    assert!(width_100_with_padding(&n).is_some());
    let unpadded = facts("DIV", &[
        ("box_model", "box-sizing", "content-box"),
        ("box_model", "min-width", "100%"),
        ("box_model", "padding-left", "0px"),
        ("box_model", "padding-top", "0"),
    ]);
    assert!(width_100_with_padding(&unpadded).is_none());
}

#[test]
fn z_index_on_a_static_element() {
    let n = facts("DIV", &[("layout", "z-index", "10"), ("layout", "position", "static")]);
    let root = AncestorContext::root();
    let l = z_index_on_static(&n, &root).unwrap();
    assert_eq!(
        l.evidence,
        "z-index 10 on a position:static element is ignored — position the element or make the parent a flex/grid container"
    );
    let mut from_metrics = facts("DIV", &[("layout", "position", "static")]);
    from_metrics.metrics_z_index = Some("-2".to_string());
    assert!(z_index_on_static(&from_metrics, &root).is_some());
    let auto = facts("DIV", &[("layout", "z-index", "auto"), ("layout", "position", "static")]);
    assert!(z_index_on_static(&auto, &root).is_none());
    let flex_parent = facts("DIV", &[("layout", "display", "flex")]);
    let fctx = child_context_of(&flex_parent, &root);
    assert!(z_index_on_static(&n, &fctx).is_none());
}

#[test]
fn unnamed_controls_and_unselectable_text() {
    let n = facts("INPUT", &[]);
    let l = control_without_name(&n).unwrap();
    assert_eq!(l.evidence, "interactive INPUT has no accessible name (no text, aria-label or label) — icon-only controls need one");
    let summary = facts("SUMMARY", &[]);
    assert!(control_without_name(&summary).is_none());
    let mut named = facts("BUTTON", &[]);
    named.has_name = true;
    assert!(control_without_name(&named).is_none());

    let p = facts("P", &[("interaction", "user-select", "none")]);
    assert!(text_not_selectable(&p).is_some());
    let a = facts("A", &[("interaction", "user-select", "none")]);
    assert!(text_not_selectable(&a).is_none());
    let button = facts("BUTTON", &[("interaction", "user-select", "none")]);
    assert!(text_not_selectable(&button).is_none());
}

#[test]
fn transition_all_and_body_overflow() {
    let n = facts("DIV", &[("animation", "transition-property", "all")]);
    assert!(transition_all(&n).is_some());
    let body = facts("BODY", &[("box_model", "overflow", "hidden")]);
    assert!(overflow_x_hidden_on_body(&body).is_some());
    let body_x = facts("BODY", &[("box_model", "overflow-x", "auto"), ("box_model", "overflow", "hidden")]);
    assert!(overflow_x_hidden_on_body(&body_x).is_none());
    let mut hidden_div = facts("DIV", &[("box_model", "overflow-x", "hidden")]);
    assert!(overflow_x_hidden_on_body(&hidden_div).is_none());
    hidden_div.visible = false;
    assert!(transition_all(&hidden_div).is_none());
}

#[test]
fn opacity_zero_is_hidden() {
    assert!(is_opaque_zero(&facts("DIV", &[("visual", "opacity", "0.0")])));
    assert!(!is_opaque_zero(&facts("DIV", &[("visual", "opacity", "0.5")])));
}

/// A captured element as the rules see it: visible, with the given aria
/// flags and string styles.
fn raw(selector: &str, tag: &str, styles: &[(&str, &str, &str)], focusable: bool, has_text: bool) -> NodeFacts {
    let mut n = facts(tag, styles);
    n.selector = selector.to_string();
    n.focusable = focusable;
    n.has_text = has_text;
    n
}

fn text_node() -> NodeFacts {
    raw(
        "button.btn",
        "BUTTON",
        &[
            ("visual", "color", "#2563eb"),
            ("visual", "background-color", "#ffffff"),
            ("visual", "outline-width", "0px"),
            ("visual", "outline-style", "none"),
            ("visual", "box-shadow", "none"),
            ("typography", "font-size", "16px"),
            ("typography", "font-weight", "400"),
            ("box_model", "width", "100px"),
            ("box_model", "height", "40px"),
        ],
        true,
        false,
    )
}

#[test]
fn suppressed_focus_indicator_warns() {
    let fi = focus_indicator(&text_node()).expect("check");
    assert_eq!(fi.status, RuleStatus::Warn);
}

#[test]
fn focus_indicator_present_does_not_warn() {
    let node = raw(
        "button.btn",
        "BUTTON",
        &[
            ("visual", "color", "#2563eb"),
            ("visual", "background-color", "#ffffff"),
            ("visual", "outline-width", "2px"),
            ("visual", "outline-style", "solid"),
            ("visual", "box-shadow", "none"),
        ],
        true,
        false,
    );
    assert!(focus_indicator(&node).is_none(), "outline present must not warn");
}

#[test]
fn hidden_focusable_warns() {
    let mut node = text_node();
    node.visible = false;
    node.ax_hidden = true;
    let hf = hidden_focusable(&node).expect("check");
    assert_eq!(hf.status, RuleStatus::Warn);
}

#[test]
fn absolute_without_insets_skipped_for_large_overlay() {
    let node = raw("div.scrim", "DIV", &[("layout", "position", "absolute"), ("layout", "top", "auto"), ("layout", "left", "auto")], false, false);
    // The 1362x1028 rect is at least 300x300.
    assert!(absolute_without_insets(&node, true).is_none(), "large overlay should not trigger absolute-without-insets");
}

#[test]
fn sticky_in_overflow_hidden_fires() {
    let child = raw("header.sticky", "HEADER", &[("layout", "position", "sticky"), ("box_model", "overflow-x", "hidden")], false, true);
    let parent = raw("div.wrapper", "DIV", &[("box_model", "overflow-x", "auto")], false, true);
    let ctx = child_context_of(&parent, &AncestorContext::root());
    let l = sticky_in_overflow_hidden(&child, &ctx).unwrap();
    assert_eq!(l.status, RuleStatus::Warn);
    assert!(l.evidence.contains("overflow"), "{}", l.evidence);
}

#[test]
fn sticky_without_overflow_ancestor_is_clean() {
    let child = raw("header.sticky", "HEADER", &[("layout", "position", "sticky")], false, true);
    let parent = raw("div.wrapper", "DIV", &[], false, true);
    let ctx = child_context_of(&parent, &AncestorContext::root());
    assert!(sticky_in_overflow_hidden(&child, &ctx).is_none());
}

#[test]
fn fixed_broken_by_transform_ancestor_fires() {
    let child = raw("div.toast", "DIV", &[("layout", "position", "fixed")], false, true);
    let parent = raw("section.animated", "DIV", &[("transform", "transform", "translateY(10px)")], false, true);
    let ctx = child_context_of(&parent, &AncestorContext::root());
    assert_eq!(fixed_broken_by_transform(&child, &ctx).unwrap().status, RuleStatus::Warn);
}

#[test]
fn fixed_without_transform_ancestor_is_clean() {
    let child = raw("div.toast", "DIV", &[("layout", "position", "fixed")], false, true);
    let parent = raw("div.plain", "DIV", &[], false, true);
    let ctx = child_context_of(&parent, &AncestorContext::root());
    assert!(fixed_broken_by_transform(&child, &ctx).is_none());
}

#[test]
fn absolute_without_insets_fires() {
    let node = raw("div.dropdown", "DIV", &[("layout", "position", "absolute"), ("layout", "top", "auto"), ("layout", "left", "auto")], false, true);
    assert_eq!(absolute_without_insets(&node, false).unwrap().status, RuleStatus::Warn);
}

#[test]
fn absolute_with_insets_is_clean() {
    let node = raw("div.dropdown", "DIV", &[("layout", "position", "absolute"), ("layout", "top", "10px"), ("layout", "left", "0px")], false, true);
    assert!(absolute_without_insets(&node, false).is_none());
}

#[test]
fn interactive_pointer_events_none_fails() {
    let node = raw("button.dead", "BUTTON", &[("interaction", "pointer-events", "none")], true, true);
    assert_eq!(interactive_pointer_events_none(&node).unwrap().status, RuleStatus::Fail);
}

#[test]
fn aria_hidden_focusable_fails() {
    let mut node = raw("a.hidden-focus", "A", &[], true, true);
    node.aria_hidden = true;
    assert_eq!(aria_hidden_focusable(&node).unwrap().status, RuleStatus::Fail);
}

#[test]
fn ellipsis_without_clip_fires() {
    let node = raw(
        "span.title",
        "SPAN",
        &[("typography", "text-overflow", "ellipsis"), ("typography", "white-space", "normal"), ("box_model", "overflow-x", "visible")],
        false,
        true,
    );
    assert_eq!(ellipsis_without_clip(&node).unwrap().status, RuleStatus::Warn);
}

#[test]
fn ellipsis_with_clip_is_clean() {
    let node = raw(
        "span.title",
        "SPAN",
        &[("typography", "text-overflow", "ellipsis"), ("typography", "white-space", "nowrap"), ("box_model", "overflow-x", "hidden")],
        false,
        true,
    );
    assert!(ellipsis_without_clip(&node).is_none());
}

#[test]
fn width_100_with_padding_fires() {
    let node = raw(
        "div.wide",
        "DIV",
        &[
            ("box_model", "box-sizing", "content-box"),
            ("box_model", "width", "100%"),
            ("box_model", "padding-left", "16px"),
            ("box_model", "padding-right", "16px"),
        ],
        false,
        true,
    );
    assert_eq!(width_100_with_padding(&node).unwrap().status, RuleStatus::Warn);
}

#[test]
fn border_box_full_width_is_clean() {
    let node = raw(
        "div.wide",
        "DIV",
        &[("box_model", "box-sizing", "border-box"), ("box_model", "width", "100%"), ("box_model", "padding-left", "16px")],
        false,
        true,
    );
    assert!(width_100_with_padding(&node).is_none());
}

#[test]
fn z_index_on_static_non_flex_fires() {
    let child = raw("div.x", "DIV", &[("layout", "position", "static"), ("layout", "z-index", "10")], false, true);
    let parent = raw("div.plain", "DIV", &[("layout", "display", "block")], false, true);
    let ctx = child_context_of(&parent, &AncestorContext::root());
    assert_eq!(z_index_on_static(&child, &ctx).unwrap().status, RuleStatus::Warn);
}

#[test]
fn z_index_on_static_flex_child_is_clean() {
    let child = raw("div.x", "DIV", &[("layout", "position", "static"), ("layout", "z-index", "10")], false, true);
    let parent = raw("div.flex", "DIV", &[("layout", "display", "flex")], false, true);
    let ctx = child_context_of(&parent, &AncestorContext::root());
    assert!(z_index_on_static(&child, &ctx).is_none());
}

#[test]
fn control_without_name_fires_for_icon_button() {
    let node = raw("button.icon-only", "BUTTON", &[], true, false);
    assert_eq!(control_without_name(&node).unwrap().status, RuleStatus::Warn);
}

#[test]
fn control_with_name_is_clean() {
    let mut node = raw("button.save", "BUTTON", &[], true, true);
    node.has_name = true;
    assert!(control_without_name(&node).is_none());
}

#[test]
fn text_not_selectable_fires() {
    let node = raw("p.copy-blocked", "P", &[("interaction", "user-select", "none")], false, true);
    assert_eq!(text_not_selectable(&node).unwrap().status, RuleStatus::Warn);
}

#[test]
fn transition_all_fires() {
    let node = raw("a.smooth", "A", &[("animation", "transition-property", "all")], false, true);
    assert_eq!(transition_all(&node).unwrap().status, RuleStatus::Warn);
}

#[test]
fn overflow_x_hidden_on_body_fires() {
    let node = raw("body", "BODY", &[("box_model", "overflow-x", "hidden")], false, true);
    assert_eq!(overflow_x_hidden_on_body(&node).unwrap().status, RuleStatus::Warn);
}
