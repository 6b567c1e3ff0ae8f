use sniffcss::properties::StyleCategory;
use sniffcss::types::{ComputedProperty, ComputedStyles};

fn prop(name: &str, value: &str) -> ComputedProperty {
    ComputedProperty {
        name: name.to_string(),
        value: value.to_string(),
    }
}

#[test]
fn computed_styles_len_and_get() {
    let styles = ComputedStyles {
        groups: vec![(
            StyleCategory::BoxModel,
            vec![prop("width", "100px"), prop("height", "50px")],
        )],
    };
    assert_eq!(styles.len(), 2);
    assert!(!styles.is_empty());
    assert_eq!(styles.get("width"), Some("100px"));
    assert_eq!(styles.get("color"), None);
}

#[test]
fn empty_styles() {
    let styles = ComputedStyles::default();
    assert!(styles.is_empty());
    assert_eq!(styles.len(), 0);
}

#[test]
fn lookup_takes_the_first_group_in_order() {
    let styles = ComputedStyles {
        groups: vec![
            (StyleCategory::Layout, vec![]),
            (StyleCategory::Visual, vec![prop("color", "red")]),
            (StyleCategory::Typography, vec![prop("color", "blue"), prop("font-size", "16px")]),
        ],
    };
    assert_eq!(styles.len(), 3);
    assert_eq!(styles.get("color"), Some("red"));
    assert_eq!(styles.get("font-size"), Some("16px"));
}
