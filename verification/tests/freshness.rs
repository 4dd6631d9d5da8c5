use weaver::tools::freshness::{
    anchors_by_claim, assemble_manifest, attach_plan, claim_disposition, head_commit, head_ref_from, lane_capabilities, lane_status,
    rebuild_obligation, repeats_latest, stale_claim_of, stale_index_message, stale_index_warning, strict_refusal,
    tally_dispositions, view_hash, AttachPlan, AnchorIdentity, AnchorSource, AnchorState,
    AnchorVerification, ClaimEvidence, ClaimInfo, Disposition, EditClass, EvidenceAnchor, Freshness, FreshnessManifest,
    HeadRef, LaneStatus, Locator, StaleAnchorDetail, StaleClaim, VerifyMode,
};

fn state(kind: AnchorSource, freshness: Freshness, relocated: bool) -> AnchorState {
    AnchorState {
        anchor: EvidenceAnchor {
            id: "a1".to_string(),
            claim_id: "c1".to_string(),
            identity: AnchorIdentity {
                source_kind: kind,
                source_uri: "docs/adr/0001.md".to_string(),
                subpath: "Decision".to_string(),
            },
            locator: Locator::Lines { start: 1, end: 2 },
            anchored_text: "x".to_string(),
            content_hash: "h".to_string(),
        },
        verification: AnchorVerification {
            anchor_id: "a1".to_string(),
            checked_at: "2024-05-01T10:00:00Z".to_string(),
            repo_ref: "HEAD".to_string(),
            repo_commit: "abc".to_string(),
            edit_class: if freshness == Freshness::Fresh { EditClass::Unchanged } else { EditClass::Affected },
            freshness,
            observed_hash: if freshness == Freshness::Fresh { Some("h".to_string()) } else { None },
            relocated_locator: if relocated { Some(Locator::Lines { start: 3, end: 4 }) } else { None },
            detail: None,
        },
    }
}

fn stale_claim(kind: AnchorSource, disposition: &str) -> StaleClaim {
    StaleClaim {
        claim_id: "c1".to_string(),
        subject_type: "decision".to_string(),
        subject_id: "d1".to_string(),
        decision_id: None,
        adr_id: None,
        text: "t".to_string(),
        evidence_grade: "g".to_string(),
        disposition: disposition.to_string(),
        anchors: vec![StaleAnchorDetail {
            anchor_id: "a9".to_string(),
            identity: AnchorIdentity {
                source_kind: kind,
                source_uri: "u".to_string(),
                subpath: "s".to_string(),
            },
            edit_class: "affected".to_string(),
            freshness: "stale".to_string(),
            relocated_locator: None,
            detail: None,
        }],
    }
}

fn manifest(claims: Vec<StaleClaim>) -> FreshnessManifest {
    FreshnessManifest {
        evaluated_at: "now".to_string(),
        repo_ref: "HEAD".to_string(),
        repo_commit: "abc123".to_string(),
        anchors_total: 1,
        unaffected: 0,
        affected: 0,
        unprovable: 0,
        stale_claims: claims,
        incomplete_claims: vec![],
        lanes: vec![],
        warnings: vec![],
    }
}

#[test]
fn verify_mode_parses_words_and_defaults_to_cached() {
    assert_eq!(VerifyMode::parse(Some(" Strict ")), VerifyMode::Strict);
    assert_eq!(VerifyMode::parse(Some("fresh")), VerifyMode::Fresh);
    assert_eq!(VerifyMode::parse(Some("SKIP")), VerifyMode::Skip);
    assert_eq!(VerifyMode::parse(Some("whatever")), VerifyMode::Cached);
    assert_eq!(VerifyMode::parse(None), VerifyMode::Cached);
}

#[test]
fn disposition_three_states() {
    assert_eq!(claim_disposition(&[]), Disposition::Unprovable);
    assert_eq!(claim_disposition(&[state(AnchorSource::Adr, Freshness::Fresh, false)]), Disposition::Unaffected);
    assert_eq!(
        claim_disposition(&[
            state(AnchorSource::Adr, Freshness::Fresh, false),
            state(AnchorSource::Adr, Freshness::Stale, true)
        ]),
        Disposition::Affected
    );
    assert_eq!(
        claim_disposition(&[state(AnchorSource::Adr, Freshness::Stale, false)]),
        Disposition::Unprovable
    );
}

#[test]
fn no_stale_claims_no_obligation() {
    assert!(rebuild_obligation(&manifest(vec![]), "/repo").is_none());
}

#[test]
fn obligation_lists_commands_and_drifted_anchors() {
    let m = manifest(vec![stale_claim(AnchorSource::Adr, "unprovable"), stale_claim(AnchorSource::Symbol, "affected")]);
    let o = rebuild_obligation(&m, "/repo").expect("obligation");
    assert_eq!(o.reason, "1 claim(s) on the answer path are unprovable, 1 affected");
    assert_eq!(o.drifted_anchors, vec!["a9".to_string(), "a9".to_string()]);
    assert_eq!(
        o.commands,
        vec![
            "sync_adrs_from_git { \"repo_path\": \"/repo\", \"adr_glob\": \"docs/adr/*.md\" }".to_string(),
            "sync_incremental { \"repo_path\": \"/repo\", \"since\": \"abc123\" }".to_string(),
        ]
    );
}

#[test]
fn lane_capabilities_by_lane() {
    assert_eq!(lane_capabilities("adr"), vec!["governance_lookup", "consistency_check"]);
    assert_eq!(lane_capabilities("route"), vec!["route_lookup"]);
    assert!(lane_capabilities("other").is_empty());
    let ok = lane_status("symbol".to_string(), None, Some(2), "ok".to_string());
    assert_eq!(ok.capabilities.len(), 3);
    let lagging = lane_status("symbol".to_string(), None, Some(2), "stale".to_string());
    assert!(lagging.capabilities.is_empty());
}

#[test]
fn head_round_trip() {
    let h = head_ref_from(Some("deadbeef".to_string()));
    assert_eq!(h.repo_ref, "HEAD");
    assert_eq!(head_commit(&h), Some("deadbeef".to_string()));
    let w = head_ref_from(None);
    assert_eq!(w.repo_commit, "working-tree");
    assert_eq!(head_commit(&w), None);
    let raw = HeadRef { repo_ref: "x".to_string(), repo_commit: "working-tree".to_string() };
    assert_eq!(head_commit(&raw), None);
}

#[test]
fn view_hash_is_sha256_of_tool_separator_args() {
    let h = view_hash("query", "a|b");
    assert_eq!(h.len(), 64);
    assert_eq!(h, weaver::hashing::sha256_hex("query\u{1f}a|b"));
    assert_ne!(h, view_hash("query", "a|c"));
    assert_eq!(
        weaver::hashing::sha256_hex(""),
        "e3b0c44298fc1c149afbf4c8996fb92427ae41e4649b934ca495991b7852b855"
    );
}

#[test]
fn tally_counts_claims_and_anchors() {
    let claims = vec![
        vec![state(AnchorSource::Adr, Freshness::Fresh, false)],
        vec![state(AnchorSource::Adr, Freshness::Stale, true), state(AnchorSource::Adr, Freshness::Fresh, false)],
        vec![],
    ];
    let t = tally_dispositions(&claims);
    assert_eq!(t.anchors_total, 3);
    assert_eq!((t.unaffected, t.affected, t.unprovable), (1, 1, 1));
}

#[test]
fn stale_claim_reports_only_stale_anchors() {
    let info = ClaimInfo {
        id: "c1".to_string(),
        subject_type: "decision".to_string(),
        subject_id: "d1".to_string(),
        text: "Services must use the bus.".to_string(),
        evidence_grade: "direct".to_string(),
    };
    let states = vec![state(AnchorSource::Adr, Freshness::Fresh, false), state(AnchorSource::Commit, Freshness::Stale, true)];
    let c = stale_claim_of(&info, &states, Disposition::Affected, Some("d1".to_string()), Some("ADR-0001".to_string()));
    assert_eq!(c.disposition, "affected");
    assert_eq!(c.anchors.len(), 1);
    assert_eq!(c.anchors[0].freshness, "stale");
    assert_eq!(c.anchors[0].edit_class, "affected");
    assert_eq!(c.anchors[0].identity.source_kind, AnchorSource::Commit);
}

#[test]
fn mode_reverify() {
    assert!(VerifyMode::Fresh.always_reverify());
    assert!(!VerifyMode::Cached.always_reverify());
}

#[test]
fn strict_mode_refuses_an_answer_with_stale_claims() {
    let m = manifest(vec![stale_claim(AnchorSource::Adr, "unprovable")]);
    let (answer, o) = strict_refusal(&m, "/repo", VerifyMode::Strict).expect("refused");
    assert_eq!(answer, "refused: 1 claim(s) on the answer path are unprovable, 0 affected");
    assert_eq!(answer, format!("refused: {}", o.reason));
    assert_eq!(o.drifted_anchors, vec!["a9".to_string()]);
    assert!(strict_refusal(&m, "/repo", VerifyMode::Cached).is_none());
    assert!(strict_refusal(&m, "/repo", VerifyMode::Fresh).is_none());
    assert!(strict_refusal(&manifest(vec![]), "/repo", VerifyMode::Strict).is_none());
}

#[test]
fn attach_plan_skips_or_reads_decision_uuids() {
    let ids = vec![
        "not-a-uuid".to_string(),
        "550e8400-e29b-41d4-a716-446655440000".to_string(),
        "{00000000-0000-0000-0000-000000000001}".to_string(),
    ];
    match attach_plan(VerifyMode::Skip, &ids) {
        AttachPlan::Skipped(w) => assert_eq!(w, "freshness verification skipped (verify: skip)"),
        other => panic!("unexpected {:?}", other),
    }
    match attach_plan(VerifyMode::Cached, &ids) {
        AttachPlan::Verify(v) => assert_eq!(v, vec![0x550e8400_e29b_41d4_a716_446655440000u128, 1u128]),
        other => panic!("unexpected {:?}", other),
    }
    assert!(matches!(attach_plan(VerifyMode::Strict, &vec!["x".to_string()]), AttachPlan::NothingCited));
    assert!(matches!(attach_plan(VerifyMode::Fresh, &vec![]), AttachPlan::NothingCited));
}

#[test]
fn repeated_verification_is_not_stored_twice() {
    let v = state(AnchorSource::Adr, Freshness::Stale, true).verification;
    let same = state(AnchorSource::Symbol, Freshness::Stale, false).verification;
    let fresh = state(AnchorSource::Adr, Freshness::Fresh, false).verification;
    assert!(repeats_latest(&Some(same), &v));
    assert!(!repeats_latest(&Some(fresh), &v));
    assert!(!repeats_latest(&None, &v));
}

#[test]
fn stale_index_warning_when_head_is_newer() {
    let w = stale_index_message("2024-05-01T10:00:00+00:00", 100, 200).expect("warning");
    assert_eq!(
        w,
        "symbol index may be stale (last ingested 2024-05-01); git HEAD is newer — run sync_incremental or ingest_symbols to refresh"
    );
    assert!(stale_index_message("2024-05-01T10:00:00+00:00", 200, 200).is_none());
    assert!(stale_index_message("2024-05-01T10:00:00+00:00", 300, 200).is_none());
}

#[test]
fn anchors_grouped_by_claim() {
    let v = |xs: &[&str]| xs.iter().map(|s| s.to_string()).collect::<Vec<_>>();
    let groups = anchors_by_claim(&v(&["c1", "c2", "c3", "c1"]), &v(&["c2", "c1", "c2", "c9", "c1"]));
    assert_eq!(groups, vec![vec![1, 4], vec![0, 2], vec![], vec![]]);
}

fn info(id: &str) -> ClaimInfo {
    ClaimInfo {
        id: id.to_string(),
        subject_type: "decision".to_string(),
        subject_id: "d1".to_string(),
        text: format!("claim {}", id),
        evidence_grade: "direct".to_string(),
    }
}

#[test]
fn manifest_reports_stale_claims_in_order() {
    let missing = AnchorIdentity {
        source_kind: AnchorSource::Symbol,
        source_uri: "src/bus.rs".to_string(),
        subpath: "Bus::send".to_string(),
    };
    let claims: Vec<ClaimEvidence> = vec![
        (info("c1"), vec![state(AnchorSource::Adr, Freshness::Fresh, false)], Some("d1".to_string()), None, vec![missing]),
        (
            info("c2"),
            vec![state(AnchorSource::Adr, Freshness::Fresh, false), state(AnchorSource::Commit, Freshness::Stale, true)],
            Some("d1".to_string()),
            Some("ADR-0002".to_string()),
            vec![],
        ),
        (info("c3"), vec![], None, None, vec![]),
    ];
    let lanes = vec![LaneStatus {
        lane: "adr".to_string(),
        last_ingested_commit: None,
        lag_commits: None,
        status: "unknown".to_string(),
        capabilities: vec![],
    }];
    let head = HeadRef { repo_ref: "HEAD".to_string(), repo_commit: "abc123".to_string() };
    let m = assemble_manifest("2024-05-01T10:00:00Z".to_string(), &head, &claims, lanes, vec!["w".to_string()]);
    assert_eq!(m.evaluated_at, "2024-05-01T10:00:00Z");
    assert_eq!((m.repo_ref.as_str(), m.repo_commit.as_str()), ("HEAD", "abc123"));
    assert_eq!(m.anchors_total, 3);
    assert_eq!((m.unaffected, m.affected, m.unprovable), (1, 1, 1));
    assert_eq!(
        m.by_disposition(),
        vec![("affected".to_string(), 1), ("unaffected".to_string(), 1), ("unprovable".to_string(), 1)]
    );
    let ids: Vec<&str> = m.stale_claims.iter().map(|c| c.claim_id.as_str()).collect();
    assert_eq!(ids, vec!["c2", "c3"]);
    assert_eq!(m.stale_claims[0].disposition, "affected");
    assert_eq!(m.stale_claims[0].adr_id.as_deref(), Some("ADR-0002"));
    assert_eq!(m.stale_claims[0].anchors.len(), 1);
    assert_eq!(m.stale_claims[1].disposition, "unprovable");
    assert!(m.stale_claims[1].decision_id.is_none());
    assert_eq!(m.incomplete_claims.len(), 1);
    assert_eq!(m.incomplete_claims[0].claim_id, "c1");
    assert_eq!(m.incomplete_claims[0].text, "claim c1");
    assert_eq!(m.incomplete_claims[0].uncovered[0].subpath, "Bus::send");
    assert_eq!(m.lanes.len(), 1);
    assert_eq!(m.warnings, vec!["w".to_string()]);
    let refused = strict_refusal(&m, "/repo", VerifyMode::Strict).expect("refused");
    assert_eq!(refused.0, "refused: 1 claim(s) on the answer path are unprovable, 1 affected");
    let mut clean: Vec<ClaimEvidence> = vec![claims[0].clone()];
    clean[0].4.clear();
    let m2 = assemble_manifest("t".to_string(), &head, &clean, vec![], vec![]);
    assert!(m2.stale_claims.is_empty());
    assert!(m2.incomplete_claims.is_empty());
    assert!(strict_refusal(&m2, "/repo", VerifyMode::Strict).is_none());
}

#[test]
fn stale_index_warning_reads_the_ingestion_time() {
    let last = "2024-05-01T10:00:00Z";
    let w = stale_index_warning(last, Some(1714557601)).expect("warning");
    assert_eq!(
        w,
        "symbol index may be stale (last ingested 2024-05-01); git HEAD is newer — run sync_incremental or ingest_symbols to refresh"
    );
    assert!(stale_index_warning(last, Some(1714557600)).is_none());
    assert!(stale_index_warning(last, None).is_none());
    assert!(stale_index_warning("not a time", Some(1714557601)).is_none());
}

#[test]
fn disposition_ignores_anchor_order() {
    let a = vec![
        state(AnchorSource::Adr, Freshness::Stale, true),
        state(AnchorSource::Adr, Freshness::Fresh, false),
        state(AnchorSource::Commit, Freshness::Stale, false),
    ];
    let b = vec![a[2].clone(), a[0].clone(), a[1].clone()];
    assert_eq!(claim_disposition(&a), claim_disposition(&b));
    assert_eq!(claim_disposition(&a), Disposition::Unprovable);
    let c = vec![a[1].clone(), a[0].clone()];
    let d = vec![a[0].clone(), a[1].clone()];
    assert_eq!(claim_disposition(&c), Disposition::Affected);
    assert_eq!(claim_disposition(&d), Disposition::Affected);
}
