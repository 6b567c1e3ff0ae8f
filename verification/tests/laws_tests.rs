use sniffcss::action::{parse_action, Action};
use sniffcss::properties::{parse_category, StyleCategory};
use sniffcss::snapshot::{slug, utc_timestamp};

#[test]
fn categories_parse_back_with_surrounding_whitespace() {
    assert_eq!(parse_category("  box-model\t"), Some(StyleCategory::BoxModel));
    assert_eq!(parse_category("\nbox_model "), Some(StyleCategory::BoxModel));
    assert_eq!(parse_category(" all "), Some(StyleCategory::All));
    assert_eq!(parse_category("accessibility"), Some(StyleCategory::Accessibility));
}

#[test]
fn short_slugs_end_cleanly_and_are_settled() {
    let s = slug("  Hello, World! -_", 40);
    assert_eq!(s, "Hello_World");
    assert_eq!(slug(&s, 40), s);
    let cut = slug("abc def ghi", 4);
    assert_eq!(cut, "abc_");
}

#[test]
fn formatted_pointer_actions_parse_back() {
    let (s, t, u) = ("nav a:hover", 1234u64, 0u64);
    assert_eq!(
        parse_action(&format!("click:{s}:{t}:{u}")),
        Ok(Action::Click { selector: s.to_string(), timeout_ms: t, settle_ms: u })
    );
    assert_eq!(
        parse_action(&format!("hover:{s}:{t}")),
        Ok(Action::Hover { selector: s.to_string(), timeout_ms: t, settle_ms: 150 })
    );
}

#[test]
fn epoch_timestamp_and_later_seconds_sort_later() {
    assert_eq!(utc_timestamp(0), "19700101T000000Z");
    assert!(utc_timestamp(59) < utc_timestamp(60));
    assert!(utc_timestamp(86_399) < utc_timestamp(86_400));
}
