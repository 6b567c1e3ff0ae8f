use sniffcss::properties::{parse_category, properties_for, StyleCategory};

#[test]
fn categories_have_unique_properties() {
    let mut seen = std::collections::HashSet::new();
    for cat in StyleCategory::all() {
        for prop in cat.properties() {
            assert!(seen.insert(*prop), "duplicate property: {prop}");
        }
    }
}

#[test]
fn every_category_has_a_key_and_cli_name() {
    for cat in StyleCategory::all() {
        assert!(!cat.key().is_empty());
        assert!(!cat.cli_name().is_empty());
    }
    assert_eq!(StyleCategory::BoxModel.key(), "box_model");
    assert_eq!(StyleCategory::BoxModel.cli_name(), "box-model");
}

#[test]
fn parse_category_accepts_both_spellings() {
    assert_eq!(parse_category("box-model"), Some(StyleCategory::BoxModel));
    assert_eq!(parse_category("box_model"), Some(StyleCategory::BoxModel));
    assert_eq!(parse_category("all"), Some(StyleCategory::All));
    assert_eq!(parse_category("nope"), None);
}

#[test]
fn category_names_read_back() {
    for cat in StyleCategory::all() {
        assert_eq!(parse_category(cat.key()), Some(cat));
        assert_eq!(parse_category(cat.cli_name()), Some(cat));
        assert_eq!(parse_category(&format!("  {}\t", cat.cli_name())), Some(cat));
    }
    assert_eq!(parse_category("every"), Some(StyleCategory::All));
}

#[test]
fn properties_for_union_dedupes_and_appends_custom() {
    let props = properties_for(
        &[StyleCategory::BoxModel, StyleCategory::BoxModel],
        &["custom-x".to_string()],
    );
    assert!(props.contains(&"width".to_string()));
    assert_eq!(props.last().map(String::as_str), Some("custom-x"));
}

#[test]
fn properties_for_all_expands_everything() {
    let props = properties_for(&[StyleCategory::All], &[]);
    let total: usize = StyleCategory::all()
        .iter()
        .map(|c| c.properties().len())
        .sum();
    assert_eq!(props.len(), total);
    assert!(props.contains(&"animation-name".to_string()));
}

#[test]
fn properties_for_never_repeats_a_name() {
    let props = properties_for(
        &[StyleCategory::Layout, StyleCategory::All, StyleCategory::Layout],
        &["width".to_string(), " --brand ".to_string(), "--brand".to_string(), "".to_string()],
    );
    let mut seen = std::collections::HashSet::new();
    for p in &props {
        assert!(seen.insert(p.clone()), "duplicate: {p}");
    }
    assert_eq!(props.last().map(String::as_str), Some("--brand"));
}
