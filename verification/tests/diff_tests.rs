use sniffcss::diff::{forest_links, match_siblings, DiffError, DiffStats};
use sniffcss::rules::CheckError;

fn names(v: &[&str]) -> Vec<String> {
    v.iter().map(|s| s.to_string()).collect()
}

#[test]
fn siblings_match_by_selector_then_position() {
    let base = names(&["#a", "", "#c", "#gone"]);
    let head = names(&["#c", "#new", "#a", "x"]);
    let m = match_siblings(&base, &head);
    assert_eq!(m, vec![Some(2), Some(1), Some(0), Some(3)]);
}

#[test]
fn extra_bases_stay_unmatched_once_heads_run_out() {
    let base = names(&["#a", "#b", "#c"]);
    let head = names(&["#b"]);
    assert_eq!(match_siblings(&base, &head), vec![None, Some(0), None]);
    let dup_base = names(&["#x", "#x"]);
    let dup_head = names(&["#x", "#x"]);
    assert_eq!(match_siblings(&dup_base, &dup_head), vec![Some(0), Some(1)]);
    assert_eq!(match_siblings(&names(&[]), &dup_head), Vec::<Option<usize>>::new());
}

#[test]
fn diff_stats_start_at_zero() {
    let s = DiffStats::default();
    assert_eq!(
        s,
        DiffStats {
            changed: 0,
            added: 0,
            removed: 0,
            base_nodes: 0,
            head_nodes: 0
        }
    );
}

#[test]
fn flat_lines_hang_under_the_last_line_with_their_parent_id() {
    let links = vec![(1, None), (2, Some(1)), (3, Some(1)), (4, Some(2)), (5, Some(99))];
    let f = forest_links(&links);
    assert_eq!(f.roots, vec![0, 4]);
    assert_eq!(f.children, vec![vec![1, 2], vec![3], vec![], vec![], vec![]]);
    let dup = vec![(1, None), (1, None), (2, Some(1))];
    let g = forest_links(&dup);
    assert_eq!(g.roots, vec![0, 1]);
    assert_eq!(g.children, vec![vec![], vec![2], vec![]]);
    assert_eq!(forest_links(&vec![]).roots, Vec::<usize>::new());
}

#[test]
fn load_errors_read_as_text() {
    assert_eq!(
        DiffError::MixedLayout.message(),
        "snapshot mixes tree and flat layouts in a single file"
    );
    let bad: Result<serde_json::Value, _> = serde_json::from_str("{not json");
    let e = DiffError::from(bad.unwrap_err());
    assert!(e.message().starts_with("invalid jsonl: "));
    assert!(e.message().len() > "invalid jsonl: ".len());
    let io = DiffError::from(std::io::Error::new(std::io::ErrorKind::NotFound, "gone"));
    assert_eq!(io.message(), "io error: gone");
    assert_eq!(
        CheckError::from(DiffError::MixedLayout).message(),
        "failed to load snapshot JSONL: snapshot mixes tree and flat layouts in a single file"
    );
    assert_eq!(CheckError::Other("x".into()).message(), "x");
}
