use weaver::tools::ingest_symbols::{
    group_by_label, infer_community_label, is_ignored_entry, label_propagation, longest_common_path_prefix, IgnoreMatch,
};

#[test]
fn two_components_get_two_labels() {
    // 1 - 2 - 3 form one community, 10 stands alone.
    let labels = label_propagation(&[3, 1, 2, 10], &[(1, 2), (2, 3)]);
    assert_eq!(labels.len(), 4);
    assert_eq!(labels[&1], labels[&2]);
    assert_eq!(labels[&2], labels[&3]);
    assert_eq!(labels[&10], 10);
    assert_ne!(labels[&1], labels[&10]);
}

#[test]
fn no_nodes_no_labels() {
    assert!(label_propagation(&[], &[(1, 2)]).is_empty());
}

#[test]
fn pair_converges_in_visit_order() {
    let labels = label_propagation(&[5, 7], &[(7, 5)]);
    // Node 5 takes its only neighbour's label 7; node 7 then takes 7 too.
    assert_eq!(labels[&5], 7);
    assert_eq!(labels[&7], 7);
}

#[test]
fn common_prefix_of_paths() {
    let p = |v: &[&str]| v.iter().map(|s| s.to_string()).collect::<Vec<_>>();
    assert_eq!(longest_common_path_prefix(&p(&[])), "");
    assert_eq!(longest_common_path_prefix(&p(&["src/a/b.rs"])), "src/a");
    assert_eq!(longest_common_path_prefix(&p(&["main.rs"])), "main.rs");
    assert_eq!(longest_common_path_prefix(&p(&["src/tools/a.rs", "src/tools/b.rs"])), "src/tools");
    assert_eq!(longest_common_path_prefix(&p(&["src/a.rs", "lib/b.rs"])), "");
}

#[test]
fn community_label_lists_three_names() {
    let m = vec![
        (1u128, "zeta".to_string(), "src/x/a.rs".to_string()),
        (2u128, "alpha".to_string(), "src/x/b.rs".to_string()),
        (3u128, "alpha".to_string(), "src/x/c.rs".to_string()),
        (4u128, "beta".to_string(), "src/x/d.rs".to_string()),
        (5u128, "gamma".to_string(), "src/x/e.rs".to_string()),
    ];
    assert_eq!(infer_community_label(&m, 0), "src/x (alpha, beta, gamma)");
    assert_eq!(infer_community_label(&[], 0), "unknown");
}

#[test]
fn walk_skips_artifacts_and_ignored_paths() {
    for name in [".git", "build", "node_modules", "target", "target-streamable"] {
        assert!(is_ignored_entry(Some(name), Some(1), IgnoreMatch::Unmatched), "{name}");
    }
    assert!(!is_ignored_entry(Some("src"), Some(1), IgnoreMatch::Unmatched));
    assert!(is_ignored_entry(Some("gen"), Some(2), IgnoreMatch::Ignore));
    assert!(!is_ignored_entry(Some("keep"), Some(2), IgnoreMatch::Whitelist));
    // The root itself is never skipped, whatever the rules say.
    assert!(!is_ignored_entry(Some("repo"), Some(0), IgnoreMatch::Ignore));
    // Outside the root the rules are not consulted.
    assert!(!is_ignored_entry(Some("x"), None, IgnoreMatch::Ignore));
    assert!(!is_ignored_entry(None, Some(3), IgnoreMatch::Unmatched));
}

#[test]
fn communities_group_symbols_by_label() {
    let ids = vec![3u128, 1, 2, 10, 7];
    let labels = label_propagation(&[3, 1, 2, 10], &[(1, 2), (2, 3)]);
    let groups = group_by_label(&ids, &labels);
    // 1, 2, 3 share a label; 10 is alone; 7 has no label and stands alone.
    assert_eq!(groups.len(), 3);
    assert_eq!(groups[0].1, vec![0, 1, 2]);
    assert_eq!(groups[1], (10, vec![3]));
    assert_eq!(groups[2], (7, vec![4]));
}
