use sniffcss::stacking::{effective_z_index, paints_above, related, same_svg_container, svg_shape_tag, FlatNode};

fn node(index: usize, end: usize, tag: &str, stacking: bool, z_index: Option<i64>) -> FlatNode {
    FlatNode { index, end, tag: tag.to_string(), stacking, z_index }
}

#[test]
fn ancestry_is_subtree_interval_containment() {
    // 0 ─┬─ 1 ── 2
    //    └─ 3
    let flat = vec![
        node(0, 3, "DIV", false, None),
        node(1, 2, "DIV", false, None),
        node(2, 2, "SPAN", false, None),
        node(3, 3, "P", false, None),
    ];
    assert!(related(&flat, 0, 2));
    assert!(related(&flat, 2, 0));
    assert!(related(&flat, 1, 2));
    assert!(!related(&flat, 2, 3));
    assert!(!related(&flat, 3, 1));
}

#[test]
fn effective_z_index_climbs_to_the_nearest_stacking_context() {
    let flat = vec![
        node(0, 3, "DIV", true, Some(5)),
        node(1, 2, "DIV", false, Some(9)),
        node(2, 2, "SPAN", false, None),
        node(3, 3, "P", true, Some(-1)),
    ];
    assert_eq!(effective_z_index(&flat, 2), Some(5));
    assert_eq!(effective_z_index(&flat, 1), Some(5));
    assert_eq!(effective_z_index(&flat, 3), Some(-1));
    let loose = vec![node(0, 1, "DIV", false, Some(3)), node(1, 1, "SPAN", false, Some(4))];
    assert_eq!(effective_z_index(&loose, 1), None);
}

#[test]
fn paint_order_prefers_z_index_then_document_order() {
    let flat = vec![
        node(0, 0, "DIV", true, Some(10)),
        node(1, 1, "DIV", true, Some(2)),
        node(2, 2, "DIV", false, None),
        node(3, 3, "DIV", false, None),
    ];
    assert!(paints_above(&flat, 0, 1));
    assert!(!paints_above(&flat, 1, 0));
    assert!(paints_above(&flat, 1, 2));
    assert!(!paints_above(&flat, 2, 1));
    assert!(paints_above(&flat, 3, 2));
    assert!(!paints_above(&flat, 2, 3));
}

#[test]
fn shapes_inside_one_svg_are_grouped() {
    let flat = vec![
        node(0, 2, "svg", false, None),
        node(1, 1, "circle", false, None),
        node(2, 2, "path", false, None),
        node(3, 3, "circle", false, None),
    ];
    assert!(same_svg_container(&flat, 2, 1));
    assert!(!same_svg_container(&flat, 2, 3));
    assert!(!same_svg_container(&flat, 0, 1));
    assert!(svg_shape_tag("polyline"));
    assert!(!svg_shape_tag("svg"));
}

#[test]
fn lower_z_index_is_occluded_but_not_above() {
    let flat = vec![node(0, 0, "DIV", true, Some(1)), node(1, 1, "DIV", true, Some(2))];
    assert!(paints_above(&flat, 1, 0));
    assert!(!paints_above(&flat, 0, 1));
    let flipped = vec![node(0, 0, "DIV", true, Some(2)), node(1, 1, "DIV", true, Some(1))];
    assert!(paints_above(&flipped, 0, 1));
    assert!(!paints_above(&flipped, 1, 0));
}

#[test]
fn later_tree_order_covers_earlier_when_no_z_index() {
    let flat = vec![node(0, 0, "DIV", false, None), node(1, 1, "DIV", false, None)];
    assert!(paints_above(&flat, 1, 0));
    assert!(!related(&flat, 0, 1));
}

#[test]
fn ancestor_containment_not_reported() {
    let flat = vec![node(0, 1, "DIV", false, None), node(1, 1, "P", false, None)];
    assert!(related(&flat, 0, 1));
}

#[test]
fn child_of_high_z_parent_not_occluded_by_lower_zibling() {
    // container (z 2) > contact-info, then the scrim (z 1) as its sibling.
    let flat = vec![
        node(0, 1, "DIV", true, Some(2)),
        node(1, 1, "DIV", false, None),
        node(2, 2, "DIV", true, Some(1)),
    ];
    assert_eq!(effective_z_index(&flat, 1), Some(2));
    assert!(!paints_above(&flat, 2, 1));
    assert!(paints_above(&flat, 1, 2));
}

#[test]
fn footer_bottom_still_occluded_by_scrim() {
    // footer > (scrim z 1, footer-bottom z auto)
    let flat = vec![
        node(0, 2, "DIV", false, None),
        node(1, 1, "DIV", true, Some(1)),
        node(2, 2, "DIV", false, None),
    ];
    assert!(!related(&flat, 1, 2));
    assert!(paints_above(&flat, 1, 2));
}

#[test]
fn svg_siblings_not_occluded() {
    let flat = vec![
        node(0, 2, "svg", false, None),
        node(1, 1, "circle", false, None),
        node(2, 2, "path", false, None),
    ];
    assert!(same_svg_container(&flat, 1, 2));
    assert!(same_svg_container(&flat, 2, 1));
}
