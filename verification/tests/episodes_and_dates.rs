use weaver::dates::{epoch_text_or, since_bound};
use weaver::tools::diff_architecture::ref_timestamp;
use weaver::tools::record_episode::{
    episode_answer, episode_decision_title, merge_warning, new_constraints, place_episode_decision, unlinked_files,
    EpisodeLedger, EpisodeStep,
};
use weaver::tools::sync_incremental::{not_time_or_ref, ref_not_commit, ref_window_display, timestamp_window};

fn v(xs: &[&str]) -> Vec<String> {
    xs.iter().map(|s| s.to_string()).collect()
}

#[test]
fn exact_match_wins_over_a_similar_decision() {
    let known = v(&["use the bus", "log to stderr", "use the bus"]);
    assert_eq!(place_episode_decision(&known, "use the bus", Some((1, true))), EpisodeStep::MergeExact(0));
    assert_eq!(place_episode_decision(&known, "use a queue", Some((1, true))), EpisodeStep::MergeSimilar(1));
    assert_eq!(place_episode_decision(&known, "use a queue", Some((1, false))), EpisodeStep::Insert);
    assert_eq!(place_episode_decision(&known, "use a queue", None), EpisodeStep::Insert);
    assert_eq!(place_episode_decision(&vec![], "x", None), EpisodeStep::Insert);
}

#[test]
fn episode_decision_title_defaults() {
    assert_eq!(episode_decision_title(None), "Episode decision");
    assert_eq!(episode_decision_title(Some("Adopt the bus".to_string())), "Adopt the bus");
}

#[test]
fn merged_decision_skips_constraints_it_already_carries() {
    let existing = v(&["no direct db access", "retry twice"]);
    let incoming = v(&["No  direct DB access", "Log every retry", "RETRY twice "]);
    assert_eq!(new_constraints(&existing, &incoming), vec![1]);
    assert_eq!(new_constraints(&vec![], &incoming), vec![0, 1, 2]);
    assert!(new_constraints(&existing, &vec![]).is_empty());
}

#[test]
fn episode_answer_mentions_merges() {
    assert_eq!(episode_answer("e-1", 0), "Stored episode e-1");
    assert_eq!(episode_answer("e-1", 2), "Stored episode e-1 (2 decision(s) merged into existing decisions)");
}

#[test]
fn since_bound_reads_rfc3339_only() {
    assert_eq!(since_bound(Some("2024-05-01T10:00:00Z")), Some(1714557600));
    assert_eq!(since_bound(Some("2024-05-01T12:00:00+02:00")), Some(1714557600));
    assert_eq!(since_bound(Some("yesterday")), None);
    assert_eq!(since_bound(None), None);
}

#[test]
fn commit_times_render_as_rfc3339() {
    assert_eq!(epoch_text_or(0, "?"), "1970-01-01T00:00:00+00:00");
    assert_eq!(epoch_text_or(1714557600, "?"), "2024-05-01T10:00:00+00:00");
    assert_eq!(epoch_text_or(i64::MAX, "?"), "?");
}

#[test]
fn window_from_a_timestamp_or_a_ref() {
    assert_eq!(
        timestamp_window("2024-05-01T10:00:00Z"),
        Some((1714557600, "2024-05-01T10:00:00Z".to_string()))
    );
    assert_eq!(timestamp_window("HEAD~3"), None);
    assert_eq!(ref_window_display(86400), Ok("1970-01-02T00:00:00+00:00".to_string()));
    assert_eq!(ref_window_display(i64::MAX), Err("commit timestamp out of range".to_string()));
    assert_eq!(not_time_or_ref("soon"), "'soon' is not a valid ISO-8601 timestamp or git ref");
    assert_eq!(ref_not_commit("v9"), "git ref 'v9' does not point to a commit");
}

#[test]
fn diff_boundary_from_a_ref() {
    assert_eq!(ref_timestamp("v1", 86400), Ok("1970-01-02T00:00:00+00:00".to_string()));
    assert_eq!(
        ref_timestamp("v1", i64::MAX),
        Err("git commit timestamp out of range for ref 'v1'".to_string())
    );
}

#[test]
fn merged_decision_links_only_new_files() {
    let linked = v(&["src/bus.rs"]);
    let files = v(&["src/bus.rs", "src/queue.rs", "src/queue.rs"]);
    assert_eq!(unlinked_files(&linked, &files), vec![1, 2]);
    assert_eq!(unlinked_files(&vec![], &files), vec![0, 1, 2]);
    assert_eq!(
        merge_warning("Adopt the bus", "d-1", "0.93"),
        "episode decision 'Adopt the bus' merged into existing decision d-1 (similarity 0.93)"
    );
}

#[test]
fn ledger_finds_decisions_inserted_earlier_in_the_episode() {
    let mut l = EpisodeLedger::new(v(&["use the bus"]));
    assert_eq!(l.record("log to stderr", None), EpisodeStep::Insert);
    assert_eq!(l.known, v(&["use the bus", "log to stderr"]));
    assert_eq!(l.record("log to stderr", Some((0, true))), EpisodeStep::MergeExact(1));
    assert_eq!(l.record("use a queue", Some((0, true))), EpisodeStep::MergeSimilar(0));
    assert_eq!(l.record("use a queue", Some((0, false))), EpisodeStep::Insert);
    assert_eq!(l.merged, 2);
    assert_eq!(l.answer("e-1"), "Stored episode e-1 (2 decision(s) merged into existing decisions)");
    assert_eq!(EpisodeLedger::new(vec![]).answer("e-2"), "Stored episode e-2");
}
