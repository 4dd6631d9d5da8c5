use weaver::tools::synthesize_adr_leads::{default_episode_source, default_true, jaccard_counts};

fn jaccard_similarity(a: &[String], b: &[String]) -> f32 {
    let (i, u) = jaccard_counts(&a.to_vec(), &b.to_vec());
    if u == 0 {
        1.0
    } else {
        i as f32 / u as f32
    }
}

#[test]
fn jaccard_identical_sets() {
    let a = vec!["a.rs".to_string(), "b.rs".to_string()];
    assert_eq!(jaccard_similarity(&a, &a), 1.0);
}

#[test]
fn jaccard_disjoint_sets() {
    let a = vec!["a.rs".to_string()];
    let b = vec!["b.rs".to_string()];
    assert_eq!(jaccard_similarity(&a, &b), 0.0);
}

#[test]
fn jaccard_partial_overlap() {
    let a = vec!["a.rs".to_string(), "b.rs".to_string()];
    let b = vec!["b.rs".to_string(), "c.rs".to_string()];
    // intersection=1, union=3 → 1/3 ≈ 0.333
    let sim = jaccard_similarity(&a, &b);
    assert!((sim - 1.0 / 3.0).abs() < 1e-5, "got {sim}");
}

#[test]
fn jaccard_counts_ignore_repeats() {
    let a = vec!["x".to_string(), "x".to_string(), "y".to_string()];
    let b = vec!["y".to_string(), "y".to_string()];
    assert_eq!(jaccard_counts(&a, &b), (1, 2));
    assert_eq!(jaccard_counts(&vec![], &vec![]), (0, 0));
    assert!(default_true());
    assert_eq!(default_episode_source(), "synthetic:llm");
}
