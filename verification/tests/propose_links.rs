use weaver::tools::propose_links::{
    adr_target_body, unresolved_target, checked_term_frequency, checked_term_frequency_str,
    default_candidate_limit, extract_terms, name_matches_terms, route_text_match, term_frequency, term_frequency_str,
    terms_in_lowered, commit_candidate_title, short_message, similarity_reason,
};

fn v(xs: &[&str]) -> Vec<String> {
    xs.iter().map(|s| s.to_string()).collect()
}

#[test]
fn terms_are_lowercased_words_of_three_bytes() {
    assert_eq!(extract_terms("Use SQLite, WAL on db!"), v(&["use", "sqlite", "wal"]));
}

#[test]
fn frequencies_count_matches() {
    assert_eq!(term_frequency_str("SQLite and sqlite", &v(&["sqlite"])), 2);
    assert_eq!(term_frequency_str("aaaa", &v(&["aa"])), 2);
    assert_eq!(term_frequency_str("abc", &v(&[""])), 4);
    assert_eq!(term_frequency("Use SQLite", "WAL mode for SQLite", &v(&["sqlite", "wal"])), 3);
}

#[test]
fn symbol_and_route_matching() {
    assert!(name_matches_terms("SqliteStore", &v(&["sqlite"])));
    assert!(!name_matches_terms("Queue", &v(&["sqlite"])));
    assert!(route_text_match("Expose /api/users for admins", "/api/users"));
    assert!(route_text_match("the USERS endpoint", "/v1/users"));
    assert!(!route_text_match("nothing related", "/v1/abc"));
    assert_eq!(default_candidate_limit(None), 5);
    assert_eq!(default_candidate_limit(Some(2)), 2);
}

#[test]
fn checked_frequencies_agree() {
    assert_eq!(checked_term_frequency_str("SQLite and sqlite", &v(&["sqlite"])), Some(2));
    assert_eq!(checked_term_frequency("Use SQLite", "WAL mode", &v(&["wal"])), Some(1));
}

#[test]
fn adr_target_body_joins_sections() {
    let some = |s: &str| Some(s.to_string());
    assert_eq!(adr_target_body(&some("ctx"), &some("dec"), &some("cons")), "ctx dec cons");
    assert_eq!(adr_target_body(&None, &some("dec"), &None), " dec ");
    let (w, e) = unresolved_target("ADR-9");
    assert_eq!(w, "target 'ADR-9' did not resolve to a known ADR ID or decision UUID in this repository");
    assert_eq!(e, "'ADR-9' is not a known ADR ID or decision UUID");
}

#[test]
fn counting_after_lowercasing_is_case_sensitive() {
    assert_eq!(terms_in_lowered("SQLite and sqlite", &v(&["sqlite"])), Some(1));
    assert_eq!(terms_in_lowered("sqlite and sqlite", &v(&["sqlite", "and"])), Some(3));
    assert_eq!(terms_in_lowered("", &v(&["x"])), Some(0));
}

#[test]
fn commit_candidates_are_labelled_by_first_line_and_short_sha() {
    assert_eq!(short_message("Fix the bus\r\nlonger body"), "Fix the bus");
    assert_eq!(short_message("one line\r"), "one line\r");
    assert_eq!(short_message(""), "");
    assert_eq!(short_message(&"x".repeat(100)), "x".repeat(72));
    assert_eq!(commit_candidate_title("Fix", "0123456789abcdef"), "Fix (01234567)");
    assert_eq!(commit_candidate_title("Fix", "abc"), "Fix (abc)");
    assert_eq!(similarity_reason("keyword overlap", "both"), "both");
    assert_eq!(similarity_reason("embedding similarity", "both"), "embedding similarity");
}

#[test]
fn short_message_agrees_with_lines() {
    for m in ["a\nb", "a\r\nb", "\n", "\r\n", "tail\r", "é".repeat(80).as_str(), "x\ry\nz"] {
        assert_eq!(short_message(m), m.lines().next().unwrap_or("").chars().take(72).collect::<String>());
    }
}
