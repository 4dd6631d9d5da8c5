use weaver::tools::freshness::{FreshnessManifest, VerifyMode};
use weaver::tools::inspect_change::{
    assess_by_words, assess_constraint, collect_violations, inspect_refusal, inspect_verify_mode, text_matches_constraint,
    ConstraintRef, DecisionRef,
};

fn c(decision: &str, text: &str) -> ConstraintRef {
    ConstraintRef { decision_id: decision.to_string(), text: text.to_string() }
}

fn d(id: &str, adr: &str, status: &str) -> DecisionRef {
    DecisionRef { id: id.to_string(), adr_id: adr.to_string(), status: status.to_string() }
}

#[test]
fn file_match_on_accepted_decision_is_high() {
    let v = assess_constraint(
        &c("d1", "Authentication must go through the gateway."),
        &vec![d("d1", "ADR-0001", "Accepted")],
        &vec!["src/gateway/client.rs".to_string(), "src/other.rs".to_string()],
        &None,
    )
    .expect("violation");
    assert_eq!(v.adr_id, "ADR-0001");
    assert_eq!(v.matched_files, vec!["src/gateway/client.rs".to_string()]);
    assert!(!v.matched_summary);
    assert_eq!(v.confidence, "high");
}

#[test]
fn proposed_decision_is_medium_and_summary_only_is_medium() {
    let proposed = assess_constraint(
        &c("d1", "Authentication must go through the gateway."),
        &vec![d("d1", "ADR-0002", "proposed")],
        &vec!["src/gateway/x.rs".to_string()],
        &None,
    )
    .unwrap();
    assert_eq!(proposed.confidence, "medium");
    let summary = assess_constraint(
        &c("d9", "Payments must be idempotent."),
        &vec![],
        &vec!["src/other.rs".to_string()],
        &Some("Make payment retries idempotent".to_string()),
    )
    .unwrap();
    assert!(summary.matched_summary);
    assert_eq!(summary.adr_id, "d9");
    assert_eq!(summary.confidence, "medium");
}

#[test]
fn unrelated_file_no_violation() {
    assert!(assess_constraint(
        &c("d1", "Authentication must go through the gateway."),
        &vec![],
        &vec!["docs/readme.md".to_string()],
        &None
    )
    .is_none());
    assert!(!text_matches_constraint("nothing here", &vec!["gateway".to_string()]));
    assert!(text_matches_constraint("the Gateways", &vec!["gateway".to_string()]));
}

#[test]
fn duplicate_constraints_reported_once() {
    let out = collect_violations(
        &vec![c("d1", "Authentication must use tokens."), c("d1", "Authentication must use tokens.")],
        &vec![d("d1", "ADR-0001", "accepted")],
        &vec!["src/authentication.rs".to_string()],
        &None,
    );
    assert_eq!(out.len(), 1);
}

#[test]
fn inspection_is_strict_by_default() {
    assert_eq!(inspect_verify_mode(None), VerifyMode::Strict);
    assert_eq!(inspect_verify_mode(Some("skip")), VerifyMode::Skip);
    assert_eq!(inspect_verify_mode(Some("cached")), VerifyMode::Cached);
    let empty = FreshnessManifest {
        evaluated_at: "t".to_string(),
        repo_ref: "HEAD".to_string(),
        repo_commit: "c".to_string(),
        anchors_total: 0,
        unaffected: 0,
        affected: 0,
        unprovable: 0,
        stale_claims: vec![],
        incomplete_claims: vec![],
        lanes: vec![],
        warnings: vec![],
    };
    assert!(inspect_refusal(&empty, "/r", VerifyMode::Strict).is_none());
}

#[test]
fn assessment_by_given_words() {
    let words = vec!["billing".to_string()];
    let decisions = vec![d("d1", "ADR-0001", "Accepted")];
    let files = vec!["src/billing/mod.rs".to_string(), "src/auth.rs".to_string()];
    let v = assess_by_words(&c("d1", "Billing must stay isolated"), &decisions, &files, &None, &words).expect("match");
    assert_eq!(v.matched_files, vec!["src/billing/mod.rs".to_string()]);
    assert_eq!(v.adr_id, "ADR-0001");
    assert_eq!(v.confidence, "high");
    assert!(!v.matched_summary);
    assert!(assess_by_words(&c("d1", "x"), &decisions, &vec!["src/auth.rs".to_string()], &None, &words).is_none());
    let none = assess_by_words(&c("d9", "x"), &decisions, &files, &None, &vec![]);
    assert!(none.is_none());
}
