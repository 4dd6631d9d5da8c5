use weaver::tools::find_stale_decisions::{
    add_signal, aged_adr_signal, deleted_file_signal, drifted_evidence_signal, missing_symbols_signal,
    no_recent_activity_signal, stale_report, StaleDecision,
};

#[test]
fn signal_texts_and_levels() {
    let s = deleted_file_signal("src/a.rs");
    assert_eq!((s.kind.as_str(), s.confidence_pct), ("deleted_file", 85));
    assert_eq!(s.detail, "linked file 'src/a.rs' has been removed from the index");
    let s = missing_symbols_signal("src/b.rs");
    assert_eq!((s.kind.as_str(), s.confidence_pct), ("missing_symbols", 70));
    assert_eq!(s.detail, "file 'src/b.rs' has no live symbols — may have been refactored or removed");
    let s = no_recent_activity_signal("2024-01-01T00:00:00Z");
    assert_eq!((s.kind.as_str(), s.confidence_pct), ("no_recent_activity", 45));
    assert_eq!(
        s.detail,
        "no commits linked to this decision since 2024-01-01T00:00:00Z — may have drifted from implementation"
    );
    let s = aged_adr_signal("2020-01-01");
    assert_eq!((s.kind.as_str(), s.confidence_pct), ("aged_adr", 35));
    assert_eq!(s.detail, "accepted since 2020-01-01 and not superseded — consider reviewing for continued relevance");
    let s = drifted_evidence_signal(3, 1);
    assert_eq!((s.kind.as_str(), s.confidence_pct), ("drifted_evidence", 80));
    assert_eq!(
        s.detail,
        "3 evidence anchor(s) failed re-verification (unprovable); re-run verify_claims and update the ADR if the code has moved on"
    );
    assert_eq!(drifted_evidence_signal(2, 0).confidence_pct, 60);
    assert!(drifted_evidence_signal(2, 0).detail.contains("(affected)"));
}

#[test]
fn signals_accumulate_per_decision_with_max_confidence() {
    let mut ds: Vec<StaleDecision> = Vec::new();
    add_signal(&mut ds, "d1", "ADR-0001", "One", "2020-01-01", aged_adr_signal("2020-01-01"));
    add_signal(&mut ds, "d2", "ADR-0002", "Two", "2021-01-01", missing_symbols_signal("x.rs"));
    add_signal(&mut ds, "d1", "ADR-0001", "One", "2020-01-01", deleted_file_signal("y.rs"));
    add_signal(&mut ds, "d1", "ADR-0001", "One", "2020-01-01", no_recent_activity_signal("s"));
    assert_eq!(ds.len(), 2);
    assert_eq!(ds[0].decision_id, "d1");
    assert_eq!(ds[0].confidence_pct, 85);
    assert_eq!(ds[0].signals.len(), 3);
    assert_eq!(ds[1].confidence_pct, 70);
}

#[test]
fn report_filters_orders_and_warns() {
    let mut ds: Vec<StaleDecision> = Vec::new();
    add_signal(&mut ds, "d1", "A1", "One", "v", aged_adr_signal("v"));
    add_signal(&mut ds, "d2", "A2", "Two", "v", deleted_file_signal("f"));
    add_signal(&mut ds, "d3", "A3", "Three", "v", missing_symbols_signal("f"));
    let (out, warnings) = stale_report(ds, 40, 0, 1);
    let ids: Vec<&str> = out.iter().map(|d| d.decision_id.as_str()).collect();
    assert_eq!(ids, vec!["d2", "d3"]);
    assert_eq!(warnings, vec!["aged_adr signal is advisory only — ADR age alone does not indicate staleness"]);
    let (none, warnings) = stale_report(Vec::new(), 0, 2, 0);
    assert!(none.is_empty());
    assert_eq!(
        warnings,
        vec!["no stale decisions detected — run ingest_symbols and sync_commits_from_git first for full coverage"]
    );
}
