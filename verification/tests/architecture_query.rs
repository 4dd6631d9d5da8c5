use weaver::tools::architecture_query::{
    default_graph_depth, default_top_k, query_plan, rrf_merge, snippet, truncate_response_text, QueryError,
    RankedDecision,
};

#[test]
fn snippet_cuts_by_characters() {
    assert_eq!(snippet("abcdef", 3), "abc…");
    assert_eq!(snippet("abc", 3), "abc");
    assert_eq!(snippet("ééé", 2), "éé…");
}

#[test]
fn response_texts_truncated() {
    let mut d = vec!["x".repeat(300), "short".to_string()];
    let mut c = vec!["y".repeat(200)];
    truncate_response_text(&mut d, &mut c);
    assert_eq!(d[0].chars().count(), 281);
    assert_eq!(d[1], "short");
    assert_eq!(c[0].chars().count(), 161);
    assert!(c[0].ends_with('…'));
}

#[test]
fn plan_limits() {
    assert_eq!(query_plan("  ", 5, 1).err(), Some(QueryError::EmptyQuery));
    let p = query_plan("auth", 0, 5).unwrap();
    assert_eq!(p.top_k, 1);
    assert_eq!(p.graph_depth, 2);
    assert!(p.depth_capped);
    assert_eq!((default_top_k(), default_graph_depth()), (10, 1));
}

fn summary(id: &str, title: &str) -> RankedDecision {
    RankedDecision { id: id.to_string(), title: title.to_string(), confidence_key: 100 }
}

#[test]
fn rrf_boosts_decisions_seen_by_multiple_retrievers() {
    let keyword = vec![summary("A", "keyword only"), summary("B", "both")];
    let semantic = vec![summary("B", "both")];
    let graph = Vec::new();

    let ranked = rrf_merge(&keyword, &semantic, &graph, 10);

    assert_eq!(ranked[0].id, "B");
}

#[test]
fn rrf_breaks_ties_by_confidence_then_title() {
    let keyword = vec![summary("A", "zeta")];
    let semantic = vec![summary("B", "alpha")];
    let mut graph = vec![summary("C", "beta")];
    graph[0].confidence_key = 200;
    // A and B tie on score (rank 0 in one list each); C ties too but is more confident.
    let ranked = rrf_merge(&keyword, &semantic, &graph, 10);
    let ids: Vec<&str> = ranked.iter().map(|d| d.id.as_str()).collect();
    assert_eq!(ids, vec!["C", "B", "A"]);
}

#[test]
fn rrf_keeps_first_entry_and_cuts_to_top_k() {
    let keyword = vec![summary("A", "first title"), summary("B", "b")];
    let semantic = vec![summary("A", "second title"), summary("D", "d")];
    let graph = vec![summary("E", "e")];
    let ranked = rrf_merge(&keyword, &semantic, &graph, 2);
    assert_eq!(ranked.len(), 2);
    assert_eq!(ranked[0].id, "A");
    assert_eq!(ranked[0].title, "first title");
    // B (1/62), E (1/61) and D (1/62): E comes next.
    assert_eq!(ranked[1].id, "E");
    assert!(rrf_merge(&keyword, &semantic, &graph, 0).is_empty());
}

#[test]
fn rrf_counts_every_position_of_a_repeated_id() {
    let keyword = vec![summary("A", "a"), summary("B", "b"), summary("A", "a again"), summary("C", "c")];
    let semantic = vec![summary("B", "b")];
    let graph = vec![summary("C", "c"), summary("C", "c"), summary("C", "c")];
    let ranked = rrf_merge(&keyword, &semantic, &graph, 10);
    let ids: Vec<&str> = ranked.iter().map(|d| d.id.as_str()).collect();
    // C: 1/64 + 1/61 + 1/62 + 1/63, A: 1/61 + 1/63, B: 1/62 + 1/61.
    assert_eq!(ids, vec!["C", "B", "A"]);
    let score = |id: &str| -> f64 {
        [&keyword, &semantic, &graph]
            .iter()
            .flat_map(|l| l.iter().enumerate())
            .filter(|(_, d)| d.id == id)
            .map(|(i, _)| 1.0 / (61.0 + i as f64))
            .sum()
    };
    assert!(score("C") > score("B") && score("B") > score("A"));
    assert_eq!(ranked[1].title, "b");
}
