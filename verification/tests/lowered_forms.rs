use weaver::tools::check_consistency::{lowered_terms, negation_in_lowered};
use weaver::tools::explain_answer::terms_present_in;
use weaver::tools::freshness::VerifyMode;
use weaver::tools::inspect_change::lowered_text_matches;
use weaver::tools::json_utils::{extract_from_parsed, JsonValue};
use weaver::tools::propose_links::{route_in_lowered, term_in_lowered};
use weaver::tools::record_episode::collapse_whitespace;
use weaver::tools::sync_commits::adr_refs_in_upper;

fn v(xs: &[&str]) -> Vec<String> {
    xs.iter().map(|s| s.to_string()).collect()
}

#[test]
fn mode_words() {
    assert_eq!(VerifyMode::from_word("fresh"), VerifyMode::Fresh);
    assert_eq!(VerifyMode::from_word("off"), VerifyMode::Skip);
    assert_eq!(VerifyMode::from_word("none"), VerifyMode::Skip);
    assert_eq!(VerifyMode::from_word("strict"), VerifyMode::Strict);
    assert_eq!(VerifyMode::from_word("Strict"), VerifyMode::Cached);
    assert_eq!(VerifyMode::from_word(""), VerifyMode::Cached);
}

#[test]
fn lowered_constraint_text() {
    assert!(negation_in_lowered("services must not call the db"));
    assert!(!negation_in_lowered("services MUST NOT call the db"));
    assert_eq!(lowered_terms("queue the shared queue"), v(&["queue", "shared"]));
}

#[test]
fn lowered_term_matching() {
    assert!(term_in_lowered("sqlitestore", &v(&["sqlite"])));
    assert!(!term_in_lowered("SqliteStore", &v(&["sqlite"])));
    assert!(route_in_lowered("we expose /api/users now", "/api/users"));
    assert!(route_in_lowered("the users endpoint", "/api/users"));
    assert!(!route_in_lowered("the api", "/api/v1"));
    assert_eq!(terms_present_in("use sqlite with wal", &v(&["sqlite", "wal", "mysql"])), 2);
    assert!(lowered_text_matches("rewrote the queueing layer", &v(&["queue"])));
    assert!(!lowered_text_matches("the bus", &v(&["bus"])));
}

#[test]
fn adr_refs_of_an_uppercased_message() {
    assert_eq!(adr_refs_in_upper("FIXES ADR-7 AND ADR 0042"), v(&["ADR-0007", "ADR-0042"]));
    assert!(adr_refs_in_upper("NOTHING HERE").is_empty());
}

#[test]
fn whitespace_collapses() {
    assert_eq!(collapse_whitespace("  A\t b \n"), "A b");
    assert_eq!(collapse_whitespace(""), "");
}

#[test]
fn extraction_after_parsing() {
    assert_eq!(extract_from_parsed("x", Some(JsonValue::Array(vec![])), 3), "[]");
    assert_eq!(extract_from_parsed("junk [1,2] tail", None, 3), "[1,2]");
    assert_eq!(extract_from_parsed("no array", None, 3), "no array");
    let lead = JsonValue::Object(vec![("title".to_string(), JsonValue::Str("t".to_string()))]);
    assert_eq!(extract_from_parsed(" {\"title\":\"t\"} ", Some(lead), 3), "[{\"title\":\"t\"}]");
}
