use weaver::tools::check_consistency::{
    conflict_answer, content_terms, contradiction_explanation, contradictory_pairs, contradicts, cycle_explanation,
    decision_label, has_negation, pairwise_skipped_warning, rank_conflicts, shared_terms, sorted_shared_terms, still_open_explanation,
    supersession_issues, ConstraintFacts, SupersessionIssue, SupersessionPair,
};
use weaver::tools::ingest_symbols::str_lt;

#[test]
fn negation_and_terms() {
    assert!(has_negation("Services must not use the queue."));
    assert!(!has_negation("Services must use the queue."));
    let terms = content_terms("Services must use the shared event queue.");
    assert!(terms.contains(&"services".to_string()) && terms.contains(&"queue".to_string()));
    assert!(!terms.contains(&"must".to_string()));
}

#[test]
fn content_terms_are_distinct() {
    let terms = content_terms("queue queue Queue");
    assert_eq!(terms, vec!["queue".to_string()]);
}

#[test]
fn shared_terms_keep_common_words() {
    let a = content_terms("Services must use the shared event queue.");
    let b = content_terms("Services must not use the event queue.");
    let s = shared_terms(&a, &b);
    assert!(s.contains(&"queue".to_string()));
    assert!(s.contains(&"event".to_string()));
    assert!(!s.contains(&"shared".to_string()));
}

#[test]
fn opposite_polarity_with_overlap_contradicts() {
    let a = content_terms("Services must use the shared event queue.");
    let b = content_terms("Services must not use the shared event queue.");
    assert!(contradicts(false, false, &a, true, &b));
    assert!(!contradicts(true, false, &a, true, &b));
    assert!(!contradicts(false, true, &a, true, &b));
    let c = content_terms("Logging goes to stdout.");
    assert!(!contradicts(false, false, &a, true, &c));
}

fn facts(decision: &str, text: &str) -> ConstraintFacts {
    ConstraintFacts { decision_id: decision.to_string(), negated: has_negation(text), terms: content_terms(text) }
}

#[test]
fn contradictory_pairs_in_scan_order() {
    let cs = vec![
        facts("d1", "Services must use the shared event queue."),
        facts("d2", "Services must not use the shared event queue."),
        facts("d1", "Services must not use the shared event queue."),
        facts("d3", "Logging goes to stdout."),
        facts("d3", "Services must use the shared event queue."),
    ];
    assert_eq!(contradictory_pairs(&cs), vec![(0, 1), (1, 4), (2, 4)]);
    assert!(contradictory_pairs(&vec![]).is_empty());
}

fn pair(a: &str, b: &str, open: bool) -> SupersessionPair {
    SupersessionPair { superseder: a.to_string(), superseded: b.to_string(), status: "accepted".to_string(), open }
}

#[test]
fn supersession_cycles_are_reported_once() {
    let ps = vec![pair("ADR-0002", "ADR-0001", false), pair("ADR-0001", "ADR-0002", true), pair("ADR-0003", "ADR-0002", false)];
    assert_eq!(supersession_issues(&ps), vec![SupersessionIssue::Cycle(1), SupersessionIssue::StillOpen(1)]);
    assert!(supersession_issues(&vec![pair("ADR-0003", "ADR-0002", false)]).is_empty());
    assert!(str_lt("ADR-0001", "ADR-0002") && !str_lt("b", "a") && str_lt("a", "ab") && !str_lt("a", "a"));
    assert_eq!(str_lt("é", "z"), "é" < "z");
}

#[test]
fn conflict_texts() {
    assert_eq!(
        cycle_explanation("ADR-0001", "ADR-0002"),
        "ADR-0001 and ADR-0002 each claim to supersede the other — supersession cycle"
    );
    assert_eq!(
        still_open_explanation("ADR-0002", "ADR-0001", "accepted"),
        "ADR-0001 is superseded by ADR-0002 but is still open (status 'accepted'); re-run sync_adrs_from_git or retract it"
    );
    assert_eq!(conflict_answer(0, 0, 0, 0, 3, 5), "No conflicts detected across 3 decision(s) and 5 constraint(s).");
    assert_eq!(
        conflict_answer(2, 1, 1, 0, 3, 5),
        "2 potential conflict(s): 1 explicit edge(s), 1 contradictory constraint pair(s), 0 supersession issue(s)."
    );
    assert_eq!(
        pairwise_skipped_warning(401),
        "constraint set too large for pairwise contradiction check (401 > 400); skipped"
    );
    assert_eq!(decision_label(Some(("ADR-0001", "Use the bus")), "d1"), "ADR-0001 'Use the bus'");
    assert_eq!(decision_label(None, "d1"), "decision d1");
    let terms = vec!["event".to_string(), "queue".to_string()];
    assert_eq!(
        contradiction_explanation(" Use the queue. ", "A", "Avoid the queue.", "B", &terms, &vec![]),
        "Constraint 'Use the queue.' (A) and constraint 'Avoid the queue.' (B) make opposite-polarity claims over shared terms [event, queue]"
    );
    assert_eq!(
        contradiction_explanation("x", "A", "y", "B", &terms, &vec!["src/a.rs".to_string()]),
        "Constraint 'x' (A) and constraint 'y' (B) make opposite-polarity claims over shared terms [event, queue]; both govern [src/a.rs]"
    );
}

#[test]
fn conflicts_ranked_by_key_then_found_order() {
    let keys = vec![50, 90, 75, 90, 10];
    let keep = vec![true, true, true, true, false];
    assert_eq!(rank_conflicts(&keys, &keep), vec![1, 3, 2, 0]);
    assert!(rank_conflicts(&vec![], &vec![]).is_empty());
    assert!(rank_conflicts(&vec![1, 2], &vec![false, false]).is_empty());
}

#[test]
fn shared_terms_in_order_and_sorted() {
    let a = vec!["queue".to_string(), "event".to_string(), "bus".to_string(), "queue".to_string()];
    let b = vec!["event".to_string(), "queue".to_string()];
    assert_eq!(shared_terms(&a, &b), vec!["queue".to_string(), "event".to_string(), "queue".to_string()]);
    assert_eq!(sorted_shared_terms(&a, &b), vec!["event".to_string(), "queue".to_string(), "queue".to_string()]);
    assert!(shared_terms(&a, &vec![]).is_empty());
}
