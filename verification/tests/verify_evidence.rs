use weaver::tools::freshness::{
    AnchorIdentity, AnchorSource, EditClass, EvidenceAnchor, Freshness, HeadRef, Locator,
};
use weaver::tools::verify_evidence::{
    adr_section_text, anchor_check, bare_symbol, classify_text, code_target, commit_verdict, find_span_lines,
    immutable_verdict, locators_equal, missing, or_else_search, section_gone_detail, slice_lines,
    verification_of, AnchorCheck,
};

fn lines(v: &[&str]) -> Vec<String> {
    v.iter().map(|s| s.to_string()).collect()
}

#[test]
fn identical_content_in_place_is_unchanged() {
    let orig = Locator::Lines { start: 1, end: 2 };
    let v = classify_text("h", "h", "a b", "a b", false, &orig, Some(Locator::Lines { start: 1, end: 2 }));
    assert_eq!(v.edit_class, EditClass::Unchanged);
    assert_eq!(v.freshness, Freshness::Fresh);
    assert!(v.relocated.is_none());
    assert_eq!(v.detail.as_deref(), Some("exact match"));
}

#[test]
fn identical_content_elsewhere_is_shifted() {
    let orig = Locator::Lines { start: 1, end: 2 };
    let v = classify_text("h", "h", "a", "a", false, &orig, Some(Locator::Lines { start: 5, end: 6 }));
    assert_eq!(v.edit_class, EditClass::Shifted);
    assert!(matches!(v.relocated, Some(Locator::Lines { start: 5, end: 6 })));
}

#[test]
fn normalised_containment_is_shifted_and_fuzzy_is_affected() {
    let orig = Locator::Section { name: "Decision".to_string() };
    let v = classify_text("h1", "h2", "use the bus", "we use the bus now", false, &orig, None);
    assert_eq!((v.edit_class, v.freshness), (EditClass::Shifted, Freshness::Fresh));
    let f = classify_text("h1", "h2", "use the bus", "use a queue", true, &orig, None);
    assert_eq!((f.edit_class, f.freshness), (EditClass::Affected, Freshness::Stale));
    assert!(f.detail.is_none());
    let d = classify_text("h1", "h2", "use the bus", "use a queue", false, &orig, None);
    assert_eq!((d.edit_class, d.freshness), (EditClass::Deleted, Freshness::Stale));
}

#[test]
fn slices_one_based_inclusive() {
    let text = "a\nb\r\nc\n";
    assert_eq!(slice_lines(text, 2, 3).as_deref(), Some("b\nc"));
    assert_eq!(slice_lines(text, 1, 1).as_deref(), Some("a"));
    assert_eq!(slice_lines(text, 0, 1), None);
    assert_eq!(slice_lines(text, 2, 4), None);
    assert_eq!(slice_lines(text, 3, 2), None);
}

#[test]
fn span_found_across_lines() {
    let ls = lines(&["fn a() {", "let x = 1;", "call_bus();", "}"]);
    assert_eq!(find_span_lines(&ls, "let x = 1; call_bus();"), Some((1, 3)));
    assert_eq!(find_span_lines(&ls, "call_bus"), Some((1, 3)));
    assert_eq!(find_span_lines(&ls, "fn a() {"), Some((1, 1)));
    assert_eq!(find_span_lines(&ls, "missing"), None);
    assert_eq!(find_span_lines(&ls, ""), None);
}

#[test]
fn stale_verdict_relocates_across_file() {
    let ls = lines(&["x", "use the bus", "y"]);
    let stale = missing("gone");
    let r = or_else_search(stale, &ls, "use the bus");
    assert_eq!((r.edit_class, r.freshness), (EditClass::Shifted, Freshness::Fresh));
    assert!(matches!(r.relocated, Some(Locator::Lines { start: 1, end: 2 })));
    let fresh = immutable_verdict();
    let kept = or_else_search(fresh, &ls, "nope");
    assert_eq!(kept.detail.as_deref(), Some("immutable source"));
}

#[test]
fn commit_in_history_is_fresh() {
    assert_eq!(commit_verdict(true, "abc").freshness, Freshness::Fresh);
    let gone = commit_verdict(false, "abc");
    assert_eq!(gone.edit_class, EditClass::Deleted);
    assert_eq!(gone.detail.as_deref(), Some("commit abc not in history of HEAD"));
}

#[test]
fn locator_equality() {
    assert!(locators_equal(&Locator::SymbolQn { qn: "a::b".to_string() }, &Locator::SymbolQn { qn: "a::b".to_string() }));
    assert!(!locators_equal(&Locator::Chars { start: 1, end: 2 }, &Locator::Lines { start: 1, end: 2 }));
}

#[test]
fn check_by_source_kind() {
    assert_eq!(anchor_check(AnchorSource::Episode), AnchorCheck::Immutable);
    assert_eq!(anchor_check(AnchorSource::Pr), AnchorCheck::Immutable);
    assert_eq!(anchor_check(AnchorSource::Commit), AnchorCheck::Commit);
    assert_eq!(anchor_check(AnchorSource::Adr), AnchorCheck::Adr);
    assert_eq!(anchor_check(AnchorSource::SourceFile), AnchorCheck::Code);
    assert_eq!(anchor_check(AnchorSource::Symbol), AnchorCheck::Code);
}

#[test]
fn verification_carries_the_verdict_and_head() {
    let anchor = EvidenceAnchor {
        id: "anc".to_string(),
        claim_id: "c".to_string(),
        identity: AnchorIdentity {
            source_kind: AnchorSource::Commit,
            source_uri: "abc".to_string(),
            subpath: String::new(),
        },
        locator: Locator::Chars { start: 0, end: 3 },
        anchored_text: "msg".to_string(),
        content_hash: "h".to_string(),
    };
    let head = HeadRef { repo_ref: "HEAD".to_string(), repo_commit: "c0ffee".to_string() };
    let v = verification_of(commit_verdict(false, "abc"), &anchor, &head, "2024-05-01T10:00:00Z");
    assert_eq!(v.anchor_id, "anc");
    assert_eq!(v.checked_at, "2024-05-01T10:00:00Z");
    assert!(v.observed_hash.is_none());
    let fresh = verification_of(commit_verdict(true, "abc"), &anchor, &head, "t");
    assert_eq!(fresh.observed_hash.as_deref(), Some("h"));
    assert_eq!(v.repo_commit, "c0ffee");
    assert_eq!(v.freshness, Freshness::Stale);
    assert_eq!(v.edit_class, EditClass::Deleted);
    assert_eq!(v.detail.as_deref(), Some("commit abc not in history of HEAD"));
    assert_eq!(commit_verdict(true, "abc").detail.as_deref(), Some("commit in history"));
    assert_eq!(immutable_verdict().detail.as_deref(), Some("immutable source"));
}

#[test]
fn adr_sections_by_name() {
    let some = |s: &str| Some(s.to_string());
    assert_eq!(adr_section_text("Decision", some("ctx"), some("dec"), some("cons")), some("dec"));
    assert_eq!(adr_section_text("Consequences", some("ctx"), some("dec"), some("cons")), some("cons"));
    assert_eq!(adr_section_text("Context", some("ctx"), some("dec"), some("cons")), some("ctx"));
    assert_eq!(adr_section_text("Status", some("ctx"), some("dec"), some("cons")), None);
    assert_eq!(adr_section_text("Decision", some("ctx"), None, some("cons")), None);
    assert_eq!(section_gone_detail("Decision"), "ADR section 'Decision' no longer present");
}

#[test]
fn bare_symbol_is_the_last_path_segment() {
    assert_eq!(bare_symbol("crate::tools::run"), "run");
    assert_eq!(bare_symbol("run"), "run");
    assert_eq!(bare_symbol("a::"), "");
    assert_eq!(bare_symbol("a:::b"), "b");
    assert_eq!(bare_symbol(""), "");
}

#[test]
fn code_target_follows_resolution() {
    let uri = "src/lib.rs".to_string();
    let qn = Locator::SymbolQn { qn: "crate::run".to_string() };
    assert_eq!(code_target(&qn, &uri, Some(("src/main.rs".to_string(), 3, 9))), ("src/main.rs".to_string(), Some((3, 9))));
    assert_eq!(code_target(&qn, &uri, None), (uri.clone(), None));
    assert_eq!(code_target(&Locator::Lines { start: 2, end: 4 }, &uri, None), (uri.clone(), Some((2, 4))));
    assert_eq!(code_target(&Locator::Chars { start: 0, end: 4 }, &uri, Some(("x".to_string(), 1, 1))), (uri.clone(), None));
}

#[test]
fn verdict_details_name_the_case() {
    let orig = Locator::Lines { start: 1, end: 2 };
    let moved = classify_text("h", "h", "a", "a", false, &orig, Some(Locator::Lines { start: 5, end: 6 }));
    assert_eq!(moved.detail.as_deref(), Some("span moved, content identical"));
    let unlocated = classify_text("h", "h", "a", "a", false, &orig, None);
    assert_eq!(unlocated.detail.as_deref(), Some("exact match"));
    let within = classify_text("h1", "h2", "use the bus", "we use the bus now", false, &orig, None);
    assert_eq!(within.detail.as_deref(), Some("relocated within span by content"));
    let ls = lines(&["x", "use the bus", "y"]);
    let r = or_else_search(missing("gone"), &ls, "use the bus");
    assert_eq!(r.detail.as_deref(), Some("relocated across file by content"));
}

#[test]
fn symbol_span_text_reads_the_lines_it_can() {
    use_span("a\nb\r\nc\n", 2, 3, "b\nc");
    use_span("a\nb\r\nc\n", 0, 0, "a");
    use_span("a\nb\r\nc\n", 5, 9, "");
    use_span("a\nb\r\nc\n", 3, 1, "c");
    use_span("", 1, 4, "");
}

fn use_span(src: &str, start: u32, end: u32, expected: &str) {
    let got = weaver::tools::verify_evidence::span_text(src, start, end);
    assert_eq!(got, expected);
    let by_lines = src
        .lines()
        .skip(start.saturating_sub(1) as usize)
        .take((end.saturating_sub(start) + 1) as usize)
        .collect::<Vec<_>>()
        .join("\n");
    assert_eq!(got, by_lines);
}
