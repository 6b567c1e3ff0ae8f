use sniffcss::snapshot::{
    civil_from_days, domain_of, path_of, slug, snapshot_file_name, snapshot_file_name_at,
    utc_now, utc_timestamp, DEFAULT_ROOT, GITIGNORE_CONTENT,
};
use sniffcss::store::parse_snapshot_name;

#[test]
fn snapshot_domain_and_path_naming() {
    assert_eq!(domain_of("http://localhost:3000/foo"), "localhost_3000");
    assert_eq!(domain_of("https://www.example.com/a/b"), "www.example.com");
    assert_eq!(domain_of("file:///tmp/page.html"), "local");
    assert_eq!(
        path_of("http://localhost:3000/products/42?id=1"),
        "products_42"
    );
    assert_eq!(path_of("http://localhost:3000/"), "index");
    assert_eq!(path_of("file:///tmp/page.html"), "tmp_page.html");
}

#[test]
fn domain_drops_credentials_and_lowercases() {
    assert_eq!(domain_of("https://user:pw@Example.COM:8443/x"), "example.com_8443");
    assert_eq!(domain_of("localhost:3000/app"), "local");
    assert_eq!(domain_of("about:blank"), "local");
    assert_eq!(path_of("localhost:3000"), "index");
    assert_eq!(path_of("https://a.b/c#frag/ment"), "c");
}

#[test]
fn file_name_keeps_path_selector_and_extension() {
    let name = snapshot_file_name(
        "http://localhost:3000/foo/bar",
        "[data-testid=\"widget\"]",
        "jsonl",
    );
    let stripped = name
        .strip_prefix(&format!("{}-", &name[..16]))
        .unwrap()
        .strip_suffix(".jsonl")
        .unwrap();
    assert_eq!(stripped, "foo_bar-data-testid_widget");
    assert_eq!(name.len(), 16 + 1 + stripped.len() + 6);
    assert!(name[..16].ends_with('Z'));
    let now = utc_now();
    assert!(name[..16] <= *now.as_str());

    let png = snapshot_file_name(
        "http://localhost:3000/foo/bar",
        "[data-testid=\"widget\"]",
        "png",
    );
    assert!(png.ends_with(".png"));
}

#[test]
fn slug_collapses_and_trims_separators() {
    assert_eq!(slug("  a/b c  ", 80), "a_b_c");
    assert_eq!(slug("--.x..", 80), "x");
    assert_eq!(slug("abcdefghij", 5), "abcde");
    assert_eq!(slug("plain", 80), "plain");
}

#[test]
fn slugs_are_filesystem_safe() {
    for raw in ["a//b", "ünïcödé", "___", "x__y", "#main > .card:hover", "", "a-_-b"] {
        let s = slug(raw, 10);
        assert!(s.len() <= 10);
        assert!(s
            .chars()
            .all(|c| c.is_ascii_alphanumeric() || c == '.' || c == '-' || c == '_'));
        assert!(!s.contains("__"));
        assert!(!s.starts_with(['_', '.', '-']));
    }
    assert_eq!(slug("#main > .card:hover", 80), "main_.card_hover");
}

#[test]
fn utc_timestamp_is_formatted() {
    let ts = utc_now();
    assert_eq!(ts.len(), 16);
    assert!(ts.ends_with('Z'));
    assert_eq!(ts.as_bytes()[8], b'T');
}

#[test]
fn utc_timestamps_of_known_instants() {
    assert_eq!(utc_timestamp(0), "19700101T000000Z");
    assert_eq!(utc_timestamp(1_700_000_000), "20231114T221320Z");
    assert_eq!(utc_timestamp(951_782_400), "20000229T000000Z");
    assert_eq!(utc_timestamp(253_402_300_799), "99991231T235959Z");
    assert_eq!(utc_timestamp(253_402_300_800), "100000101T000000Z");
}

#[test]
fn civil_dates_of_known_days() {
    assert_eq!(civil_from_days(0), (1970, 1, 1));
    assert_eq!(civil_from_days(-1), (1969, 12, 31));
    assert_eq!(civil_from_days(11_016), (2000, 2, 29));
    assert_eq!(civil_from_days(19_782), (2024, 2, 29));
    assert_eq!(civil_from_days(-719_468), (0, 3, 1));
}

#[test]
fn written_names_read_back() {
    let name = snapshot_file_name_at("20260812T101530Z", "http://x/products/42", ".card", "jsonl");
    assert_eq!(name, "20260812T101530Z-products_42-card.jsonl");
    assert_eq!(
        parse_snapshot_name(&name),
        Some(("products_42-card".to_string(), "20260812T101530Z".to_string()))
    );
    let live = snapshot_file_name("http://x/", "#root", "jsonl");
    let (target, stamp) = parse_snapshot_name(&live).unwrap();
    assert_eq!(target, "index-root");
    assert_eq!(stamp, live[..16]);
}

#[test]
fn store_root_defaults() {
    assert_eq!(DEFAULT_ROOT, "sniffCSS");
    assert_eq!(GITIGNORE_CONTENT, "*\n");
}
