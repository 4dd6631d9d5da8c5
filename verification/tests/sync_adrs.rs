use weaver::dates::timestamp_from_text;
use weaver::tools::sync_adrs::{
    adr_effective_from, archignore_lines, archignored, author_date_from_log, check_adr_glob, load_archignore,
    normalize_date, sync_result, GlobError, MAX_WARNINGS,
};

#[test]
fn glob_checks() {
    assert_eq!(check_adr_glob(""), Err(GlobError::Empty));
    assert_eq!(check_adr_glob("../*.md"), Err(GlobError::Traversal));
    assert_eq!(check_adr_glob("docs/adr/*.md"), Ok(()));
}

#[test]
fn archignore_rules_skip_comments_and_blanks() {
    let text = "# comment\n\n  node_modules/**  \n*.tmp\n";
    assert_eq!(archignore_lines(text), vec!["node_modules/**".to_string(), "*.tmp".to_string()]);
    let pats = load_archignore("[bad\nvendor/**\n");
    assert_eq!(pats.len(), 1);
    assert!(archignored(&pats, "vendor/x/0001.md"));
    assert!(!archignored(&pats, "docs/adr/0001.md"));
}

#[test]
fn dates_normalised() {
    assert_eq!(normalize_date(" 2024-01-15 ").as_deref(), Some("2024-01-15T00:00:00+00:00"));
    assert_eq!(normalize_date("2024-01-15T10:00:00Z").as_deref(), Some("2024-01-15T10:00:00Z"));
    assert_eq!(normalize_date("January 15"), None);
    assert_eq!(timestamp_from_text("2024-02-30"), None);
}

#[test]
fn effective_from_falls_back_in_order() {
    let (d, w) = adr_effective_from(Some("2024-01-01T00:00:00+00:00".to_string()), Some("g".to_string()), "x.md", "now");
    assert_eq!((d.as_str(), w), ("2024-01-01T00:00:00+00:00", None));
    let (g, _) = adr_effective_from(None, Some("2023-05-05T00:00:00+02:00".to_string()), "x.md", "now");
    assert_eq!(g, "2023-05-05T00:00:00+02:00");
    let (n, w) = adr_effective_from(None, None, "docs/adr/1.md", "2025-01-01T00:00:00Z");
    assert_eq!(n, "2025-01-01T00:00:00Z");
    assert_eq!(
        w.as_deref(),
        Some("no Date header or git author date for docs/adr/1.md; using ingestion time as effective_from")
    );
}

#[test]
fn author_date_is_last_log_line() {
    assert_eq!(author_date_from_log("2024-03-01T00:00:00+00:00\n2024-01-01T00:00:00+00:00\n").as_deref(), Some("2024-01-01T00:00:00+00:00"));
    assert_eq!(author_date_from_log(""), None);
}

#[test]
fn warnings_capped() {
    let ws: Vec<String> = (0..25).map(|i| format!("w{i}")).collect();
    let r = sync_result(3, 1, 0, ws);
    assert_eq!(r.warnings.len(), MAX_WARNINGS);
    assert_eq!(r.warnings_total, 25);
    assert_eq!(r.warnings[19], "w19");
}
