use weaver::tools::sync_incremental::{changed_files, incremental_adr_glob, since_kind, SinceKind};

fn v(xs: &[&str]) -> Vec<String> {
    xs.iter().map(|s| s.to_string()).collect()
}

#[test]
fn since_is_a_timestamp_or_a_ref() {
    assert_eq!(since_kind("2024-05-01T10:00:00Z"), SinceKind::Timestamp);
    assert_eq!(since_kind("2024-05-01T10:00:00+02:00"), SinceKind::Timestamp);
    assert_eq!(since_kind("HEAD~3"), SinceKind::GitRef);
    assert_eq!(since_kind("2024-05-01"), SinceKind::GitRef);
}

#[test]
fn changed_files_are_sorted_unique_with_forward_slashes() {
    let raw = v(&["src\\b.rs", "a.rs", "src/b.rs", "a.rs", "docs\\adr\\0001.md"]);
    assert_eq!(changed_files(&raw), v(&["a.rs", "docs/adr/0001.md", "src/b.rs"]));
    assert!(changed_files(&vec![]).is_empty());
}

#[test]
fn adr_glob_defaults() {
    assert_eq!(incremental_adr_glob(None), "docs/adr/*.md");
    assert_eq!(incremental_adr_glob(Some("adr/*.md".to_string())), "adr/*.md");
}
