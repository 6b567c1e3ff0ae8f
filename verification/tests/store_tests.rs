use sniffcss::snapshot::{domain_of, path_of, snapshot_file_name, utc_now};
use sniffcss::store::{
    check_contained, ensure_contained, is_timestamp, newest_first, parse_snapshot_name, temp_name,
    text_lt_exec,
    PathPart, SnapshotEntry, SnapshotStore,
};

#[test]
fn store_domain_and_path_naming() {
    assert_eq!(domain_of("http://localhost:3000/foo"), "localhost_3000");
    assert_eq!(domain_of("https://www.example.com/a/b"), "www.example.com");
    assert_eq!(domain_of("file:///tmp/page.html"), "local");
    assert_eq!(
        path_of("http://localhost:3000/products/42?id=1"),
        "products_42"
    );
    assert_eq!(path_of("http://localhost:3000/"), "index");
    assert_eq!(path_of("file:///tmp/page.html"), "tmp_page.html");
}

#[test]
fn parse_snapshot_name_roundtrip() {
    let (target, ts) = parse_snapshot_name("20260812T101530Z-foo_bar-card.jsonl").unwrap();
    assert_eq!(target, "foo_bar-card");
    assert_eq!(ts, "20260812T101530Z");
    assert!(parse_snapshot_name("foo_card.jsonl").is_none());
    assert!(parse_snapshot_name(".tmp.jsonl").is_none());
}

#[test]
fn snapshot_names_need_stamp_dash_and_target() {
    assert!(parse_snapshot_name("20260812T101530Z-.jsonl").is_none());
    assert!(parse_snapshot_name("20260812T101530Z_x.jsonl").is_none());
    assert!(parse_snapshot_name("20260812T101530Z-x.png").is_none());
    assert!(parse_snapshot_name("2026081XT101530Z-x.jsonl").is_none());
    assert!(is_timestamp("20260812T101530"));
    assert!(!is_timestamp("20260812T10153"));
    assert!(!is_timestamp("20260812X101530"));
    assert!(!is_timestamp("2026081éT101530"));
}

#[test]
fn store_uses_shared_snapshot_naming() {
    let ts = utc_now();
    assert_eq!(ts.len(), 16);
    assert!(ts.ends_with('Z'));
    assert_eq!(ts.as_bytes()[8], b'T');
}

#[test]
fn store_roots() {
    assert_eq!(SnapshotStore::from_env(None).root(), "sniffCSS");
    assert_eq!(
        SnapshotStore::from_env(Some("/data/snaps".to_string())).root(),
        "/data/snaps"
    );
    assert_eq!(SnapshotStore::new("tmp/x".to_string()).root(), "tmp/x");
}

#[test]
fn resolve_rejects_traversal() {
    let store = SnapshotStore::new("/srv/snapshots".to_string());
    assert!(store.resolve("../escape.jsonl").is_err());
    assert!(store.resolve("a/../../escape.jsonl").is_err());
    assert_eq!(
        store.resolve("localhost/foo.jsonl").unwrap(),
        "/srv/snapshots/localhost/foo.jsonl"
    );
    assert_eq!(
        store.resolve("/etc/passwd").unwrap_err().message(),
        "snapshot path `/etc/passwd` rejected: escapes the snapshot root"
    );
    assert_eq!(
        store.resolve("../x").unwrap_err().message(),
        "snapshot path `../x` rejected: `..` not allowed"
    );
}

#[test]
fn containment_over_components() {
    let root = vec![PathPart::RootDir, PathPart::Normal("srv".into())];
    let inside = vec![
        PathPart::RootDir,
        PathPart::Normal("srv".into()),
        PathPart::Normal("a".into()),
    ];
    let outside = vec![PathPart::RootDir, PathPart::Normal("etc".into())];
    assert_eq!(check_contained(&root, &inside), Ok(()));
    assert_eq!(
        check_contained(&root, &outside),
        Err("escapes the snapshot root".to_string())
    );
    assert_eq!(
        check_contained(&root, &vec![PathPart::ParentDir]),
        Err("`..` not allowed".to_string())
    );
    assert_eq!(ensure_contained("/srv", "/srv/a/b"), Ok(()));
    assert!(ensure_contained("/srv", "/srv2").is_err());
}

fn listed(target: &str, at: &str) -> SnapshotEntry {
    SnapshotEntry {
        domain: "localhost_3000".into(),
        target: target.into(),
        path: format!("localhost_3000/{at}-{target}.jsonl"),
        created_at: at.into(),
        size: 10,
    }
}

#[test]
fn listing_is_newest_first_and_stable() {
    let all = vec![
        listed("a", "20240101T000000Z"),
        listed("b", "20250101T000000Z"),
        listed("c", "20240101T000000Z"),
        listed("d", "20241231T235959Z"),
    ];
    let sorted = newest_first(all.clone());
    let order: Vec<&str> = sorted.iter().map(|e| e.target.as_str()).collect();
    assert_eq!(order, vec!["b", "d", "a", "c"]);
    assert!(newest_first(vec![]).is_empty());
}

#[test]
fn created_at_compares_like_strings() {
    let c = |s: &str| s.chars().collect::<Vec<char>>();
    assert!(text_lt_exec(&c("2024"), &c("2025")));
    assert!(text_lt_exec(&c("2024"), &c("20240")));
    assert!(!text_lt_exec(&c("2025"), &c("2024")));
    assert!(!text_lt_exec(&c("abc"), &c("abc")));
}

#[test]
fn captures_are_saved_under_their_domain() {
    let store = SnapshotStore::new("/srv/snapshots".to_string());
    let (rel, abs) = store
        .save_location_at("20240102T030405Z", "http://localhost:3000/products/42", ".card", "jsonl")
        .unwrap();
    assert_eq!(rel, "localhost_3000/20240102T030405Z-products_42-card.jsonl");
    assert_eq!(abs, "/srv/snapshots/localhost_3000/20240102T030405Z-products_42-card.jsonl");
    let (shot, _) = store.save_location("http://localhost:3000/", "#app", "png").unwrap();
    assert!(shot.starts_with("localhost_3000/"));
    assert!(shot.ends_with("-index-app.png"));
    assert_eq!(temp_name("a.jsonl"), ".a.jsonl.tmp");
}

#[test]
fn file_name_keeps_path_and_selector() {
    let name = snapshot_file_name("http://localhost:3000/foo/bar", "[data-testid=\"widget\"]", "jsonl");
    let stripped = name
        .strip_prefix(&format!("{}-", utc_now()))
        .unwrap()
        .strip_suffix(".jsonl")
        .unwrap();
    assert_eq!(stripped, "foo_bar-data-testid_widget");
    assert_eq!(name.len(), 16 + 1 + stripped.len() + 6);
}
