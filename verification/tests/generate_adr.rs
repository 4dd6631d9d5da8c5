use weaver::tools::generate_adr::{
    adr_patch_result, draft_adr, format_adr_id, normalize_lexical, render_template, render_unified_patch,
    resolve_adr_path, split_patch_lines, AdrPathError, DraftError, GenerateAdrDraftParams, PathPart,
};

fn params(title: &str) -> GenerateAdrDraftParams {
    GenerateAdrDraftParams {
        repo_path: "/repo".to_string(),
        title: title.to_string(),
        context: Some("SQLite limits write throughput.".to_string()),
        proposed_decision: Some("Use Postgres 16 with connection pooling.".to_string()),
        affected_files: vec!["src/storage/db.rs".to_string()],
    }
}

#[test]
fn draft_has_next_id_and_all_sections() {
    let d = draft_adr(&params("Switch to Postgres"), 3, "2024-01-01", &vec![]).expect("draft");
    assert_eq!(d.id, "ADR-0003");
    for needle in [
        "# ADR-0003: Switch to Postgres",
        "## Status",
        "## Context",
        "## Decision",
        "## Consequences",
        "## Constraints",
        "## Alternatives Considered",
        "## Affected Code",
        "## Related Decisions",
        "src/storage/db.rs",
    ] {
        assert!(d.markdown.contains(needle), "missing {needle}");
    }
    assert!(d.warnings.is_empty());
}

#[test]
fn first_adr_id() {
    assert_eq!(format_adr_id(1), "ADR-0001");
    assert_eq!(format_adr_id(12345), "ADR-12345");
}

#[test]
fn blank_title_refused() {
    assert_eq!(draft_adr(&params("   "), 1, "d", &vec![]).err(), Some(DraftError::EmptyTitle));
}

#[test]
fn template_exact_for_empty_sections() {
    let md = render_template("ADR-0001", "T", "2024-05-01", &None, &Some("  ".to_string()), &vec![], &vec!["ADR-0002".to_string()]);
    assert_eq!(
        md,
        "# ADR-0001: T\n\n## Status\n\nProposed\n\nDate: 2024-05-01\n\n## Context\n\n_Not specified_\n\n## Decision\n\n_Not specified_\n\n## Consequences\n\n_Not specified_\n\n## Constraints\n\n_None specified_\n\n## Alternatives Considered\n\n_None_\n\n## Affected Code\n\n_None identified_\n\n## Related Decisions\n\n- ADR-0002\n"
    );
}

#[test]
fn related_ids_capped_at_five() {
    let related: Vec<String> = (1..=7).map(|i| format!("ADR-000{i}")).collect();
    let d = draft_adr(&params("T"), 9, "d", &related).unwrap();
    assert!(d.markdown.contains("- ADR-0005\n"));
    assert!(!d.markdown.contains("- ADR-0006"));
}

#[test]
fn create_patch() {
    let r = adr_patch_result("docs/adr/ADR-0001.md".to_string(), None, "# ADR-0001 Test\n");
    assert_eq!(r.operation, "create");
    assert!(r.patch.contains("--- /dev/null"));
    assert!(r.patch.contains("diff --git a/docs/adr/ADR-0001.md b/docs/adr/ADR-0001.md"));
    assert!(r.patch.contains("+++ b/docs/adr/ADR-0001.md"));
    assert!(r.patch.contains("+# ADR-0001 Test"));
    assert!(r.patch.contains("new file mode 100644"));
}

#[test]
fn update_patch_exact() {
    let p = render_unified_patch("a.md", Some("x\r\ny"), "z\n");
    assert_eq!(p, "diff --git a/a.md b/a.md\n--- a/a.md\n+++ b/a.md\n@@ -1,2 +1,2 @@\n-x\n-y\n+z\n+\n");
}

#[test]
fn patch_lines_unify_endings() {
    assert_eq!(split_patch_lines("a\r\nb\rc"), vec!["a", "b", "c"]);
    assert_eq!(split_patch_lines(""), vec![""]);
    assert_eq!(split_patch_lines("a\n"), vec!["a", ""]);
}

fn n(s: &str) -> PathPart {
    PathPart::Normal(s.to_string())
}

#[test]
fn lexical_normalisation() {
    let out = normalize_lexical(vec![PathPart::RootDir, n("a"), PathPart::CurDir, n("b"), PathPart::ParentDir, n("c")]);
    assert_eq!(out.len(), 3);
    assert!(matches!(out[2], PathPart::Normal(ref s) if s == "c"));
    let up = normalize_lexical(vec![PathPart::ParentDir, n("x")]);
    assert!(matches!(up[0], PathPart::ParentDir));
}

#[test]
fn paths_outside_repo_rejected() {
    let repo = vec![PathPart::RootDir, n("tmp"), n("repo")];
    let escape = vec![PathPart::RootDir, n("tmp"), n("repo"), PathPart::ParentDir, n("ADR-0001.md")];
    assert_eq!(resolve_adr_path(&repo, escape).err(), Some(AdrPathError::EscapesRoot));
    assert_eq!(AdrPathError::EscapesRoot.message(), "ADR path escapes the repository root");
    let root_only = vec![PathPart::RootDir, n("tmp"), n("repo")];
    assert_eq!(resolve_adr_path(&repo, root_only).err(), Some(AdrPathError::NotAFile));
    let ok = vec![PathPart::RootDir, n("tmp"), n("repo"), n("docs"), n("adr"), n("0001.md")];
    let (_, rel) = resolve_adr_path(&repo, ok).expect("inside");
    assert_eq!(rel, "docs/adr/0001.md");
}

fn show(parts: &[PathPart]) -> String {
    parts
        .iter()
        .map(|p| match p {
            PathPart::Prefix(s) | PathPart::Normal(s) => s.clone(),
            PathPart::RootDir => "/".to_string(),
            PathPart::CurDir => ".".to_string(),
            PathPart::ParentDir => "..".to_string(),
        })
        .collect::<Vec<_>>()
        .join("|")
}

#[test]
fn normalising_twice_changes_nothing() {
    let once = normalize_lexical(vec![
        PathPart::ParentDir,
        n("a"),
        PathPart::ParentDir,
        PathPart::ParentDir,
        PathPart::CurDir,
        n("b"),
        n("c"),
        PathPart::ParentDir,
    ]);
    assert_eq!(show(&once), "..|..|b");
    let twice = normalize_lexical(once.iter().map(|p| match p {
        PathPart::Prefix(s) => PathPart::Prefix(s.clone()),
        PathPart::RootDir => PathPart::RootDir,
        PathPart::CurDir => PathPart::CurDir,
        PathPart::ParentDir => PathPart::ParentDir,
        PathPart::Normal(s) => PathPart::Normal(s.clone()),
    }).collect());
    assert_eq!(show(&twice), show(&once));
}
