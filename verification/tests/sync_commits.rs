use weaver::tools::freshness::{AnchorSource, Locator};
use weaver::tools::sync_commits::{
    commit_anchor, commit_window, default_limit, diff_symbols, extract_adr_refs, try_extract_adr_refs,
};

#[test]
fn extract_adr_refs_parses_formats() {
    assert_eq!(extract_adr_refs("implements ADR-0042"), vec!["ADR-0042"]);
    assert_eq!(extract_adr_refs("fix per ADR 7"), vec!["ADR-0007"]);
    assert_eq!(extract_adr_refs("no references here"), Vec::<String>::new());
    let multi = extract_adr_refs("ADR-0001 and ADR-0002");
    assert_eq!(multi, vec!["ADR-0001", "ADR-0002"]);
}

#[test]
fn lowercase_and_dashes_are_read() {
    assert_eq!(extract_adr_refs("see adr--12"), vec!["ADR-0012"]);
    assert_eq!(extract_adr_refs("ADR without number"), Vec::<String>::new());
}

#[test]
fn total_extraction_agrees() {
    assert_eq!(try_extract_adr_refs("per ADR 3"), Some(vec!["ADR-0003".to_string()]));
}

#[test]
fn default_commit_limit() {
    assert_eq!(default_limit(), 500);
}

fn keys(v: &[(&str, &str)]) -> Vec<(String, String)> {
    v.iter().map(|(a, b)| (a.to_string(), b.to_string())).collect()
}

#[test]
fn commit_walk_stops_at_limit_and_cutoff() {
    let times = vec![500i64, 400, 300, 200, 100];
    assert_eq!(commit_window(&times, 10, None), 5);
    assert_eq!(commit_window(&times, 2, None), 2);
    assert_eq!(commit_window(&times, 10, Some(300)), 3);
    assert_eq!(commit_window(&times, 2, Some(300)), 2);
    assert_eq!(commit_window(&times, 10, Some(600)), 0);
    assert_eq!(commit_window(&times, 0, None), 0);
    // A newer commit after an older one does not restart the walk.
    assert_eq!(commit_window(&vec![500, 100, 450], 10, Some(300)), 1);
}

#[test]
fn symbol_diff_by_name_and_kind() {
    let before = keys(&[("run", "function"), ("Config", "struct"), ("helper", "function")]);
    let after = keys(&[("run", "function"), ("Config", "enum"), ("new_fn", "function")]);
    let d = diff_symbols(&before, &after);
    assert_eq!(d.added, vec![1, 2]);
    assert_eq!(d.removed, keys(&[("Config", "struct"), ("helper", "function")]));
    let same = diff_symbols(&before, &before);
    assert!(same.added.is_empty() && same.removed.is_empty());
    let fresh = diff_symbols(&vec![], &after);
    assert_eq!(fresh.added, vec![0, 1, 2]);
    assert!(fresh.removed.is_empty());
}

#[test]
fn commit_anchor_covers_the_message() {
    let (d, identity, locator) =
        commit_anchor("00000000-0000-0000-0000-00000000002a", "abc123", "implements ADR-0042 ✓").expect("uuid");
    assert_eq!(d, 42u128);
    assert_eq!(identity.source_kind, AnchorSource::Commit);
    assert_eq!(identity.source_uri, "abc123");
    assert_eq!(identity.subpath, "");
    assert!(matches!(locator, Locator::Chars { start: 0, end: 21 }));
    assert!(commit_anchor("ADR-0042", "abc123", "m").is_none());
}
