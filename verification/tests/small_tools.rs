use weaver::tools::adr_lineage::{adr_to_node, default_max_hops, unknown_lineage};
use weaver::tools::delete_repo::delete_result;
use weaver::tools::diff_architecture::diff_summary;
use weaver::tools::embed_all::default_chunk_size;
use weaver::tools::explain_answer::term_frequency_score;
use weaver::tools::find_decisions::{default_temporal_mode, target_given, TemporalMode, Target};
use weaver::tools::find_orphaned_code::{orphaned_file, orphaned_symbol};
use weaver::tools::focused_file_brief::{commit_brief, group_by_file, symbol_brief};
use weaver::tools::get_architecture::{architecture_answer, architecture_warnings, community_summary};
use weaver::tools::get_graph_schema::{graph_tables, schema_result, table_role, table_schema};
use weaver::tools::get_graph_snapshot::{default_focus_depth, focus_hops, snapshot_result};
use weaver::tools::impact_of::{default_edge_types, default_max_depth};
use weaver::tools::record_episode::{
    episode_anchor, exact_duplicate, parse_temporal_hint, fact_extraction_prompt, is_valid_relation, normalize_decision_text, unsupported_relation_warning,
};
use weaver::tools::retract::{correction_content, parse_entity_type, retraction_warning, was_retracted, EntityKind};
use weaver::tools::sync_incremental::incremental_adr_glob;
use weaver::tools::trace_call_path::{default_direction, symbol_anchor, TraceDirection};
use weaver::tools::trace_symbol_history::truncate;
use weaver::tools::validate_adr::{duplicate_id_error, is_valid, structural_checks, superseded_without_successor};
use weaver::tools::freshness::AnchorSource;
use weaver::tools::verify_index_integrity::{adr_hashes, default_adr_glob, integrity_report, projection_key, tally_keys};

#[test]
fn defaults() {
    assert_eq!(default_max_hops(), 10);
    assert_eq!(default_chunk_size(), 512);
    assert_eq!(default_focus_depth(), 2);
    assert_eq!(default_max_depth(), 3);
    assert_eq!(weaver::tools::trace_call_path::default_max_depth(), 4);
    assert_eq!(default_edge_types(), vec!["applies_to", "depends_on", "conflicts_with", "defines", "imposes"]);
    assert_eq!(default_direction(), TraceDirection::Outbound);
    assert_eq!(default_adr_glob(), "docs/adr/*.md");
    assert_eq!(default_temporal_mode(), TemporalMode::Event);
    assert_eq!(incremental_adr_glob(None), "docs/adr/*.md");
}

#[test]
fn anchors_and_orphans() {
    assert_eq!(symbol_anchor("src/a.rs", Some(12), "f"), "src/a.rs:12 f");
    assert_eq!(symbol_anchor("src/a.rs", None, "f"), "src/a.rs f");
    assert_eq!(symbol_anchor("a", Some(-3), "f"), "a:-3 f");
    let s = orphaned_symbol("f".into(), "fn".into(), "src/a.rs".into(), Some(7));
    assert_eq!(s.anchor, "src/a.rs:7 f");
    assert_eq!(s.reason, "no governing constraints or decision links");
    assert_eq!(orphaned_file("x".into()).reason, "no linked ADRs or decisions");
}

#[test]
fn lineage_nodes() {
    let n = adr_to_node("ADR-0001".into(), "T".into(), "accepted", "2024".into(), None);
    assert_eq!(n.title.as_deref(), Some("T"));
    let u = unknown_lineage("ADR-9".into());
    assert_eq!(u.root.status, "unknown");
    assert_eq!(u.warnings, vec!["ADR 'ADR-9' not found in repository".to_string()]);
}

#[test]
fn delete_messages() {
    assert_eq!(delete_result(true, "/r".into()).message, "Repository and all associated data deleted.");
    assert_eq!(delete_result(false, "/r".into()).message, "Repository not found; nothing was deleted.");
}

#[test]
fn diff_summary_text() {
    let s = diff_summary("2024-01-01T00:00:00Z", "2024-02-01T00:00:00Z", [1, 0, 2, 0, 1, 0]);
    assert_eq!(
        s,
        "Between 2024-01-01 and 2024-02-01: 1 decision(s) added, 0 removed; 2 constraint(s) added, 0 removed; 1 ADR(s) added, 0 removed."
    );
}

#[test]
fn explain_scores_terms_present() {
    assert_eq!(term_frequency_score("Use SQLite", "WAL", &vec!["sqlite".into(), "wal".into(), "redis".into()]), 2);
}

#[test]
fn targets() {
    let none = Target { file: None, symbol: None, module: None, service: None };
    assert!(!target_given(&none));
    let some = Target { file: None, symbol: None, module: Some("m".into()), service: None };
    assert!(target_given(&some));
}

#[test]
fn file_brief_pieces() {
    let groups = group_by_file(vec![
        ("b.rs".into(), "f".into()),
        ("a.rs".into(), "g".into()),
        ("b.rs".into(), "h".into()),
    ]);
    assert_eq!(groups.len(), 2);
    assert_eq!(groups[0].file, "b.rs");
    assert_eq!(groups[0].symbols, vec!["f".to_string(), "h".to_string()]);
    assert_eq!(groups[1].symbols, vec!["g".to_string()]);
    let c = commit_brief("0123456789", Some("first\nsecond".into()), "d".into());
    assert_eq!((c.sha7.as_str(), c.message.as_str()), ("0123456", "first"));
    assert_eq!(symbol_brief("f.rs", "x".into(), "fn".into(), None).anchor, "f.rs x");
}

#[test]
fn architecture_overview_text() {
    assert_eq!(
        architecture_answer(2, 3, 0, 31),
        "Repository has 2 active decision(s), 3 constraint(s), 0 indexed symbol(s), and 31 detected communit(y/ies) (showing top 30)."
    );
    assert_eq!(architecture_warnings(1, 5, 5), Vec::<String>::new());
    assert_eq!(architecture_warnings(0, 0, 0).len(), 3);
    let c = community_summary("l".into(), 9, (0..8).map(|i| i.to_string()).collect());
    assert_eq!(c.central_symbols.len(), 5);
}

#[test]
fn schema_roles() {
    assert_eq!(table_role("symbols"), "tree-sitter symbol index");
    assert_eq!(table_role("nope"), "unknown");
    assert_eq!(graph_tables().len(), 18);
    let t = table_schema("claims".into(), vec![], Some(4));
    assert_eq!(t.role, "fine-grained verifiable assertions decomposed from decisions and constraints");
    let r = schema_result(vec![t]);
    assert_eq!(r.node_tables.len(), 9);
    assert_eq!(r.edge_tables.len(), 5);
}

#[test]
fn episode_helpers() {
    assert_eq!(normalize_decision_text("  Use   the\tBus \n"), "use the bus");
    assert!(is_valid_relation("must_use"));
    assert!(!is_valid_relation("likes"));
    assert_eq!(unsupported_relation_warning("likes"), "ignored extracted fact with unsupported relation 'likes'");
    assert!(fact_extraction_prompt("X").ends_with("Return [] if nothing qualifies.\nX"));
    assert_eq!(exact_duplicate(&vec!["a".into(), "b".into()], "b"), Some(1));
    assert_eq!(exact_duplicate(&vec![], "b"), None);
}

#[test]
fn retraction_helpers() {
    assert_eq!(parse_entity_type("episode"), Ok(EntityKind::Episode));
    assert_eq!(
        parse_entity_type("nope"),
        Err("unknown entity type 'nope'; must be 'decision', 'constraint', or 'episode'".to_string())
    );
    assert_eq!(
        retraction_warning(EntityKind::Decision, "id1", 0, 0).as_deref(),
        Some("decision 'id1' was not found or was already retracted")
    );
    assert_eq!(retraction_warning(EntityKind::Episode, "e", 0, 1), None);
    assert_eq!(
        correction_content(EntityKind::Decision, "id", "new text", "wrong"),
        "Retraction correction for decision 'id': new text\n\nReason for retraction: wrong"
    );
    assert!(was_retracted(0, 2));
    assert!(!was_retracted(0, 0));
}

#[test]
fn validation_helpers() {
    let (errors, warnings) = structural_checks(" ", false, true, false, true);
    assert_eq!(errors.len(), 2);
    assert_eq!(errors[0], "missing H1 title");
    assert_eq!(warnings, vec!["missing Context section".to_string()]);
    assert!(!is_valid(&errors));
    assert_eq!(duplicate_id_error("ADR-1", "docs/a.md", "docs/a.md"), None);
    assert_eq!(
        duplicate_id_error("ADR-1", "docs/b.md", "docs/a.md").as_deref(),
        Some("duplicate ADR ID 'ADR-1' already exists in: docs/b.md")
    );
    assert!(superseded_without_successor(true, false).is_some());
}

#[test]
fn integrity_helpers() {
    let k = projection_key("rule", None, "use the bus", &vec!["h2".into(), "h1".into()]);
    assert_eq!(k, "rule|none|use the bus|h1,h2");
    let live = vec![("a".to_string(), 2usize), ("b".to_string(), 1usize)];
    let rebuilt = vec![("a".to_string(), 2usize), ("c".to_string(), 1usize)];
    let r = integrity_report("/r".into(), &live, &rebuilt, vec![]);
    assert!(!r.consistent);
    assert_eq!(r.lanes[0].status, "divergent");
    assert_eq!(r.lanes[0].only_in_live, vec!["b".to_string()]);
    assert_eq!(r.lanes[0].only_in_rebuild, vec!["c".to_string()]);
    assert_eq!(r.lanes[0].live_claims, 3);
    let same = integrity_report("/r".into(), &live, &live, vec![]);
    assert!(same.consistent);
    assert_eq!(same.lanes[1].status, "not_audited");
}

#[test]
fn truncation_by_bytes() {
    assert_eq!(truncate("hello", 10), "hello");
    assert_eq!(truncate("hello world", 5), "hello…");
}

#[test]
fn episode_anchor_covers_the_content() {
    let (identity, locator) = episode_anchor("e-1", "héllo");
    assert_eq!(identity.source_kind, weaver::tools::freshness::AnchorSource::Episode);
    assert_eq!(identity.source_uri, "episode:e-1");
    assert_eq!(identity.subpath, "");
    assert!(matches!(locator, weaver::tools::freshness::Locator::Chars { start: 0, end: 5 }));
}

#[test]
fn decision_uuids_skip_non_uuids() {
    let ids = vec![
        "550e8400e29b41d4a716446655440000".to_string(),
        "ADR-0001".to_string(),
        "urn:uuid:00000000-0000-0000-0000-0000000000ff".to_string(),
        "".to_string(),
    ];
    assert_eq!(weaver::ids::decision_uuids(&ids), vec![0x550e8400e29b41d4a716446655440000u128, 255u128]);
}

#[test]
fn snapshot_warns_when_empty() {
    let r = snapshot_result::<u8, u8>("/r".to_string(), vec![], vec![], Some("Foo"));
    assert_eq!(r.warnings, vec!["no symbols matching 'Foo' found; run ingest_symbols first"]);
    let r = snapshot_result::<u8, u8>("/r".to_string(), vec![], vec![], None);
    assert_eq!(r.warnings, vec!["graph is empty; ingest ADRs, symbols, or commits first"]);
    let r = snapshot_result("/r".to_string(), vec![1u8], vec![2u8], None);
    assert!(r.warnings.is_empty());
    assert_eq!((focus_hops(0), focus_hops(3), focus_hops(9)), (1, 3, 6));
}

#[test]
fn this_sprint_lasts_fourteen_days() {
    let r = parse_temporal_hint(Some("  This Sprint "), "2024-05-01T10:00:00+02:00");
    assert_eq!(r.valid_from, "2024-05-01T10:00:00+02:00");
    assert_eq!(r.valid_to.as_deref(), Some("2024-05-15T08:00:00+00:00"));
    assert!(parse_temporal_hint(Some("next quarter"), "2024-05-01T10:00:00Z").valid_to.is_none());
    assert!(parse_temporal_hint(None, "2024-05-01T10:00:00Z").valid_to.is_none());
    assert!(parse_temporal_hint(Some("this sprint"), "yesterday").valid_to.is_none());
}

#[test]
fn projection_counts_claims_per_key_in_order() {
    let keys: Vec<String> = ["k2", "k1", "k2", "k3", "k2"].iter().map(|s| s.to_string()).collect();
    let p = tally_keys(&keys);
    assert_eq!(p, vec![("k1".to_string(), 1), ("k2".to_string(), 3), ("k3".to_string(), 1)]);
    assert!(tally_keys(&vec![]).is_empty());
    let r = integrity_report("/r".to_string(), &p, &p, vec![]);
    assert!(r.consistent);
    assert_eq!(r.lanes[0].live_claims, 5);
}

#[test]
fn adr_lane_hashes_only() {
    let anchors = vec![
        (AnchorSource::Adr, "h1".to_string()),
        (AnchorSource::Commit, "h2".to_string()),
        (AnchorSource::Adr, "h3".to_string()),
    ];
    assert_eq!(adr_hashes(&anchors), vec!["h1".to_string(), "h3".to_string()]);
    assert!(adr_hashes(&vec![(AnchorSource::Symbol, "x".to_string())]).is_empty());
}

#[test]
fn integrity_counts_claims_per_key() {
    let live = vec![("k".to_string(), 2usize)];
    let rebuilt = vec![("k".to_string(), 1usize)];
    let r = integrity_report("/r".to_string(), &live, &rebuilt, vec![]);
    assert!(!r.consistent);
    assert_eq!(r.lanes[0].status, "divergent");
    assert!(r.lanes[0].only_in_live.is_empty());
    assert!(r.lanes[0].only_in_rebuild.is_empty());
    assert_eq!((r.lanes[0].live_claims, r.lanes[0].rebuilt_claims), (2, 1));
}

#[test]
fn projection_key_ignores_anchor_order() {
    let a = projection_key("rule", Some("must"), "use the bus", &vec!["h2".into(), "h1".into(), "h3".into()]);
    let b = projection_key("rule", Some("must"), "use the bus", &vec!["h3".into(), "h1".into(), "h2".into()]);
    assert_eq!(a, b);
    assert_eq!(a, "rule|must|use the bus|h1,h2,h3");
}
