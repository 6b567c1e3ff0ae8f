use sniffcss::delta::{diff_forests, DeltaLine, DeltaStatus};
use sniffcss::diff::DiffError;
use sniffcss::json::{get, json_eq, Json};
use sniffcss::load::{load_str, load_str_doc, SnapNode};

fn at<'a>(j: &'a Json, path: &[&str]) -> &'a Json {
    let mut cur = j;
    for k in path {
        cur = get(cur, k).unwrap_or_else(|| panic!("missing member {k}"));
    }
    cur
}

fn has(j: &Json, path: &[&str]) -> bool {
    let mut cur = j;
    for k in path {
        match get(cur, k) {
            Some(next) => cur = next,
            None => return false,
        }
    }
    true
}

fn text_at(j: &Json, path: &[&str]) -> String {
    match at(j, path) {
        Json::Str(s) => s.clone(),
        other => panic!("not a string: {other:?}"),
    }
}

fn number_at(j: &Json, path: &[&str]) -> String {
    match at(j, path) {
        Json::Number(t) => t.clone(),
        other => panic!("not a number: {other:?}"),
    }
}

fn selector(n: &SnapNode) -> String {
    text_at(&n.value, &["selector"])
}

fn load(content: &str) -> Vec<SnapNode> {
    load_str(content).unwrap()
}

/// One tree-mode line for a node with the given selector and styles.
fn node_line(sel: &str, styles: &str, extra: &str, children: &str) -> String {
    format!(
        "{{\"selector\":\"{sel}\",\"tag\":\"DIV\",\"path\":\"{sel}\",\"depth\":0,\"is_visible\":true,\"styles\":{styles}{extra},\"children\":[{children}]}}"
    )
}

fn box_width(v: &str) -> String {
    format!("{{\"box_model\":{{\"width\":\"{v}\"}}}}")
}

fn one(sel: &str, width: &str) -> Vec<SnapNode> {
    load(&node_line(sel, &box_width(width), "", ""))
}

fn diff(base: &[SnapNode], head: &[SnapNode]) -> (Vec<DeltaLine>, sniffcss::diff::DiffStats) {
    diff_owned(base, head, &[], false)
}

fn diff_owned(
    base: &[SnapNode],
    head: &[SnapNode],
    ignore: &[&str],
    no_structural: bool,
) -> (Vec<DeltaLine>, sniffcss::diff::DiffStats) {
    let b = load_again(base);
    let h = load_again(head);
    let ig: Vec<String> = ignore.iter().map(|s| s.to_string()).collect();
    diff_forests(&b, &h, &ig, no_structural)
}

fn load_again(nodes: &[SnapNode]) -> Vec<SnapNode> {
    nodes.iter().map(sniffcss::load::clone_node).collect()
}

// ---------------------------------------------------------------------------
// Loading
// ---------------------------------------------------------------------------

#[test]
fn load_str_parses_inline_without_disk() {
    let nested = "{\"id\":1,\"tag\":\"DIV\",\"selector\":\"div.a\",\"styles\":{\"layout\":{\"display\":\"block\"}},\"children\":[{\"id\":2,\"tag\":\"SPAN\",\"selector\":\"div.a > span\",\"styles\":{},\"children\":[]}]}";
    let flat_root = "{\"id\":10,\"tag\":\"DIV\",\"selector\":\"div.b\",\"styles\":{},\"children\":[]}";
    let content = format!("{nested}\n{flat_root}\n");
    let forest = load(&content);
    assert_eq!(forest.len(), 2);
    assert_eq!(forest[0].children.len(), 1);
    assert_eq!(selector(&forest[0].children[0]), "div.a > span");
}

#[test]
fn load_str_flat_builds_forest() {
    let root = "{\"id\":1,\"parent_id\":null,\"tag\":\"DIV\",\"selector\":\"div.a\",\"styles\":{\"layout\":{\"display\":\"block\"}}}";
    let child = "{\"id\":2,\"parent_id\":1,\"tag\":\"SPAN\",\"selector\":\"div.a > span\",\"styles\":{}}";
    let content = format!("{root}\n{child}\n");
    let forest = load(&content);
    assert_eq!(forest.len(), 1);
    assert_eq!(forest[0].children.len(), 1);
    assert_eq!(number_at(&forest[0].children[0].value, &["id"]), "2");
}

#[test]
fn load_str_merges_style_defaults_back_into_nodes() {
    let meta = "{\"__meta\":{\"css_variables\":{\"--x\":\"1\"},\"style_defaults\":{\"typography\":{\"font-size\":\"16px\",\"font-weight\":\"400\"}}}}";
    let node = "{\"id\":1,\"tag\":\"DIV\",\"selector\":\"div.card\",\"children\":[{\"id\":2,\"tag\":\"SPAN\",\"selector\":\"div.card > span\",\"styles\":{\"typography\":{\"font-weight\":\"700\"},\"visual\":{\"opacity\":\"1\"}},\"children\":[]}],\"styles\":{\"typography\":{\"color\":\"#212529\"}}}";
    let content = format!("{meta}\n{node}\n");
    let forest = load(&content);
    assert_eq!(forest.len(), 1);
    let parent = &forest[0].value;
    assert_eq!(text_at(parent, &["styles", "typography", "font-size"]), "16px");
    assert_eq!(text_at(parent, &["styles", "typography", "font-weight"]), "400");
    assert_eq!(text_at(parent, &["styles", "typography", "color"]), "#212529");
    let child = &forest[0].children[0].value;
    assert_eq!(text_at(child, &["styles", "typography", "font-weight"]), "700");
    assert_eq!(text_at(child, &["styles", "typography", "font-size"]), "16px");
    assert_eq!(text_at(child, &["styles", "visual", "opacity"]), "1");
}

#[test]
fn load_str_without_defaults_leaves_styles_untouched() {
    let node = "{\"id\":1,\"tag\":\"DIV\",\"selector\":\"div.card\",\"styles\":{\"typography\":{\"color\":\"#212529\"}}}";
    let forest = load(node);
    assert_eq!(text_at(&forest[0].value, &["styles", "typography", "color"]), "#212529");
    assert!(!has(&forest[0].value, &["styles", "typography", "font-size"]));
}

#[test]
fn load_str_rejects_mixed_layout() {
    let tree = "{\"id\":1,\"tag\":\"DIV\",\"selector\":\"div.a\",\"children\":[]}";
    let flat = "{\"id\":2,\"parent_id\":1,\"tag\":\"SPAN\",\"selector\":\"span\"}";
    let content = format!("{tree}\n{flat}\n");
    assert!(matches!(load_str(&content), Err(DiffError::MixedLayout)));
}

#[test]
fn load_str_reports_unparsable_lines_and_skips_side_lines() {
    assert!(matches!(load_str("{\"id\":1,"), Err(DiffError::Json(_))));
    let content = "\n  {\"__ax_tree\":[]}\n{\"__actions\":[{\"index\":0}]}\n{\"id\":1,\"selector\":\"a\"}\n\n";
    let forest = load(content);
    assert_eq!(forest.len(), 1);
    assert_eq!(selector(&forest[0]), "a");
    assert_eq!(load("").len(), 0);
}

#[test]
fn load_str_orphans_become_roots_in_line_order() {
    let a = "{\"id\":7,\"parent_id\":999,\"selector\":\"b\"}";
    let b = "{\"id\":8,\"parent_id\":7,\"selector\":\"i\"}";
    let c = "{\"id\":9,\"parent_id\":null,\"selector\":\"u\"}";
    let forest = load(&format!("{a}\n{b}\n{c}"));
    assert_eq!(forest.len(), 2);
    assert_eq!(selector(&forest[0]), "b");
    assert_eq!(selector(&forest[0].children[0]), "i");
    assert_eq!(selector(&forest[1]), "u");
    // The parent link stays on the node; nested children move out of it.
    assert_eq!(number_at(&forest[0].value, &["parent_id"]), "999");
    assert!(!has(&forest[0].value, &["children"]));
}

#[test]
fn doc_loading_collects_actions_and_skips_them_for_nodes() {
    let action_line = "{\"__actions\":[{\"index\":0,\"action\":\"click\",\"effect\":\"revealed\"}]}";
    let node = "{\"id\":1,\"tag\":\"DIV\",\"selector\":\"div.card\",\"children\":[]}";
    let content = format!("{action_line}\n{node}\n");
    let doc = load_str_doc(&content).unwrap();
    assert_eq!(doc.nodes.len(), 1, "nodes must ignore the __actions line");
    assert_eq!(doc.actions.len(), 1);
    assert_eq!(text_at(&doc.actions[0], &["effect"]), "revealed");
    assert_eq!(load_str(&content).unwrap().len(), 1);
}

// ---------------------------------------------------------------------------
// Diffing
// ---------------------------------------------------------------------------

#[test]
fn identical_trees_produce_no_delta() {
    let (deltas, stats) = diff(&one("div.card", "44px"), &one("div.card", "44px"));
    assert!(deltas.is_empty());
    assert_eq!(stats.changed, 0);
}

#[test]
fn style_change_yields_changed_with_before_after() {
    let (deltas, _) = diff(&one("div.card", "44px"), &one("div.card", "40px"));
    assert_eq!(deltas.len(), 1);
    assert_eq!(deltas[0].status, DeltaStatus::Changed);
    assert_eq!(deltas[0].status.as_str(), "CHANGED");
    let changes = deltas[0].changes.as_ref().unwrap();
    assert_eq!(text_at(changes, &["styles", "box_model", "width", "before"]), "44px");
    assert_eq!(text_at(changes, &["styles", "box_model", "width", "after"]), "40px");
}

#[test]
fn unit_change_is_reported_exactly() {
    let (deltas, _) = diff(&one("div.card", "44px"), &one("div.card", "44rem"));
    assert_eq!(deltas.len(), 1);
}

#[test]
fn larger_value_change_is_reported() {
    let (deltas, _) = diff(&one("div.card", "44px"), &one("div.card", "46px"));
    assert_eq!(deltas.len(), 1);
    assert_eq!(deltas[0].status, DeltaStatus::Changed);
}

#[test]
fn added_and_removed_nodes_are_reported() {
    let base = one("div.a", "10px");
    let head = load(&format!(
        "{}\n{}",
        node_line("div.a", &box_width("10px"), "", ""),
        node_line("div.b", &box_width("20px"), "", "")
    ));
    let (deltas, stats) = diff(&base, &head);
    let statuses: Vec<&str> = deltas.iter().map(|d| d.status.as_str()).collect();
    assert_eq!(statuses, vec!["ADDED"]);
    assert_eq!(deltas[0].selector, "div.b");
    assert_eq!(stats.removed, 0);
    assert_eq!(stats.added, 1);
    assert!(deltas[0].snapshot.is_some());
}

#[test]
fn child_change_detected_through_unchanged_parent() {
    let child = |w: &str| {
        "{\"selector\":\"button\",\"tag\":\"BUTTON\",\"path\":\"div.card > button\",\"depth\":1,\"is_visible\":true,\"styles\":"
            .to_string()
            + &box_width(w)
            + ",\"children\":[]}"
    };
    let parent_a = load(&node_line("div.card", &box_width("300px"), "", &child("40px")));
    let parent_b = load(&node_line("div.card", &box_width("300px"), "", &child("44px")));
    let (deltas, _) = diff(&parent_a, &parent_b);
    assert_eq!(deltas.len(), 1);
    assert_eq!(deltas[0].selector, "button");
    assert_eq!(deltas[0].status, DeltaStatus::Changed);
    assert_eq!(deltas[0].depth, Some(1));
    assert_eq!(deltas[0].tag.as_deref(), Some("BUTTON"));
}

#[test]
fn is_visible_change_is_reported() {
    let a = load(&node_line("div.card", &box_width("44px"), "", ""));
    let b = load(&node_line("div.card", &box_width("44px"), "", "").replace("\"is_visible\":true", "\"is_visible\":false"));
    let (deltas, _) = diff(&a, &b);
    assert_eq!(deltas.len(), 1);
    let changes = deltas[0].changes.as_ref().unwrap();
    assert!(matches!(at(changes, &["is_visible", "before"]), Json::Bool(true)));
    assert!(matches!(at(changes, &["is_visible", "after"]), Json::Bool(false)));
}

#[test]
fn selector_matching_wins_over_position() {
    let base = load(&format!(
        "{}\n{}",
        node_line("div.first", &box_width("1px"), "", ""),
        node_line("div.second", &box_width("2px"), "", "")
    ));
    let head = load(&format!(
        "{}\n{}",
        node_line("div.second", &box_width("3px"), "", ""),
        node_line("div.first", &box_width("1px"), "", "")
    ));
    let (deltas, stats) = diff(&base, &head);
    assert_eq!(deltas.len(), 1);
    assert_eq!(deltas[0].selector, "div.second");
    assert_eq!(stats.added, 0);
    assert_eq!(stats.removed, 0);
}

#[test]
fn stats_count_nodes() {
    let root = load(&node_line("div.card", &box_width("44px"), "", &node_line("span", &box_width("10px"), "", "")));
    let (_, stats) = diff(&root, &one("div.card", "44px"));
    assert_eq!(stats.base_nodes, 2);
    assert_eq!(stats.head_nodes, 1);
}

#[test]
fn aria_change_is_reported_per_key() {
    let a = load(&node_line(
        "button",
        &box_width("44px"),
        ",\"aria\":{\"role\":\"button\",\"name\":\"Salvar\",\"focusable\":true}",
        "",
    ));
    let b = load(&node_line(
        "button",
        &box_width("44px"),
        ",\"aria\":{\"role\":\"button\",\"name\":\"Cancelar\",\"focusable\":true}",
        "",
    ));
    let (deltas, _) = diff(&a, &b);
    assert_eq!(deltas.len(), 1);
    let changes = deltas[0].changes.as_ref().unwrap();
    assert_eq!(text_at(changes, &["aria", "name", "before"]), "Salvar");
    assert_eq!(text_at(changes, &["aria", "name", "after"]), "Cancelar");
    assert!(!has(changes, &["aria", "role"]), "role unchanged");
}

#[test]
fn contrast_change_is_reported() {
    let a = load(&node_line("div", &box_width("44px"), ",\"contrast\":{\"ratio\":4.5,\"aa\":\"pass\",\"aaa\":\"fail\"}", ""));
    let b = load(&node_line("div", &box_width("44px"), ",\"contrast\":{\"ratio\":2.1,\"aa\":\"fail\",\"aaa\":\"fail\"}", ""));
    let (deltas, _) = diff(&a, &b);
    assert_eq!(deltas.len(), 1);
    let changes = deltas[0].changes.as_ref().unwrap();
    assert_eq!(number_at(changes, &["contrast", "ratio", "after"]), "2.1");
    assert_eq!(text_at(changes, &["contrast", "aa", "after"]), "fail");
    assert!(!has(changes, &["contrast", "aaa"]));
}

#[test]
fn ax_removal_is_reported() {
    let a = load(&node_line("div", &box_width("44px"), ",\"ax\":{\"role\":\"banner\",\"ignored\":false}", ""));
    let b = one("div", "44px");
    let (deltas, _) = diff(&a, &b);
    let changes = deltas[0].changes.as_ref().unwrap();
    assert_eq!(text_at(changes, &["ax", "before", "role"]), "banner");
    assert!(matches!(at(changes, &["ax", "after"]), Json::Null));
}

#[test]
fn ignore_props_hides_volatile_properties() {
    let styles = |t: &str| {
        format!("{{\"box_model\":{{\"width\":\"44px\"}},\"transform\":{{\"transform\":\"{t}\"}}}}")
    };
    let a = load(&node_line("div.card", &styles("translateX(0px)"), "", ""));
    let b = load(&node_line("div.card", &styles("translateX(-22px)"), "", ""));
    let (deltas, stats) = diff_owned(&a, &b, &["transform"], false);
    assert!(deltas.is_empty(), "transform-only change must be ignored");
    assert_eq!(stats.changed, 0);
    let (deltas, _) = diff_owned(&a, &b, &[], false);
    assert_eq!(deltas.len(), 1);
}

#[test]
fn ignore_structural_suppresses_added_removed() {
    let base = one("div.a", "10px");
    let head = load(&format!(
        "{}\n{}",
        node_line("div.a", &box_width("10px"), "", ""),
        node_line("div.b", &box_width("20px"), "", "")
    ));
    let (deltas, stats) = diff_owned(&base, &head, &[], true);
    assert!(deltas.is_empty());
    assert_eq!(stats.added, 0);
    assert_eq!(stats.removed, 0);
    assert_eq!(stats.base_nodes, 1);
    assert_eq!(stats.head_nodes, 2);
}

#[test]
fn removed_nodes_come_in_place_with_their_snapshot() {
    let base = load(&format!(
        "{}\n{}",
        node_line("div.a", &box_width("10px"), ",\"rect\":{\"x\":0,\"y\":0,\"width\":10,\"height\":5}", ""),
        node_line("div.b", &box_width("20px"), "", "")
    ));
    let head = load(&node_line("div.b", &box_width("21px"), "", ""));
    let (deltas, stats) = diff(&base, &head);
    let statuses: Vec<&str> = deltas.iter().map(|d| d.status.as_str()).collect();
    // div.b is matched by selector; div.a has nothing left to pair with.
    assert_eq!(statuses, vec!["REMOVED", "CHANGED"]);
    assert_eq!(stats.removed, 1);
    assert_eq!(stats.changed, 1);
    let snap = deltas[0].snapshot.as_ref().unwrap();
    assert_eq!(text_at(snap, &["tag"]), "DIV");
    assert_eq!(number_at(snap, &["depth"]), "0");
    assert_eq!(number_at(snap, &["rect", "width"]), "10");
    assert_eq!(text_at(snap, &["styles", "box_model", "width"]), "10px");
    assert!(!has(snap, &["selector"]));
    assert!(deltas[0].changes.is_none());
}

#[test]
fn rect_metrics_and_pseudo_changes_are_reported() {
    let a = load(&node_line(
        "p",
        &box_width("1px"),
        ",\"rect\":{\"x\":0,\"y\":0},\"metrics\":{\"lines\":1},\"pseudo\":{\"::before\":{\"content\":{\"content\":\"a\"}}}",
        "",
    ));
    let b = load(&node_line(
        "p",
        &box_width("1px"),
        ",\"rect\":{\"x\":0,\"y\":3},\"metrics\":{\"lines\":2},\"pseudo\":{\"::before\":{\"content\":{\"content\":\"b\"}}}",
        "",
    ));
    let (deltas, _) = diff(&a, &b);
    assert_eq!(deltas.len(), 1);
    let c = deltas[0].changes.as_ref().unwrap();
    assert_eq!(number_at(c, &["rect", "after", "y"]), "3");
    assert_eq!(number_at(c, &["metrics", "before", "lines"]), "1");
    assert_eq!(text_at(c, &["pseudo", "::before", "content", "content", "after"]), "b");
    assert!(!has(c, &["styles"]));
}

#[test]
fn category_missing_on_one_side_lists_each_property() {
    let a = load(&node_line("p", "{\"box_model\":{\"width\":\"1px\"},\"visual\":{\"opacity\":\"1\",\"color\":\"red\"}}", "", ""));
    let b = load(&node_line("p", &box_width("1px"), "", ""));
    let (deltas, _) = diff_owned(&a, &b, &["color"], false);
    let c = deltas[0].changes.as_ref().unwrap();
    assert_eq!(text_at(c, &["styles", "visual", "opacity", "before"]), "1");
    assert!(matches!(at(c, &["styles", "visual", "opacity", "after"]), Json::Null));
    assert!(!has(c, &["styles", "visual", "color"]));
}

#[test]
fn json_values_compare_by_structure_and_number_text() {
    let a = load("{\"selector\":\"x\",\"v\":[1,{\"k\":\"s\"}]}");
    let b = load("{\"selector\":\"x\",\"v\":[1,{\"k\":\"s\"}]}");
    let c = load("{\"selector\":\"x\",\"v\":[1.0,{\"k\":\"s\"}]}");
    assert!(json_eq(&a[0].value, &b[0].value));
    assert!(!json_eq(&a[0].value, &c[0].value));
}
