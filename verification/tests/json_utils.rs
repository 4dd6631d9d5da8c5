use weaver::tools::json_utils::{extract_json_array, parse_kv_lead, scan_for_array, strip_fences};

fn parses(s: &str) -> bool {
    serde_json::from_str::<serde_json::Value>(s).is_ok()
}

#[test]
fn bare_array() {
    let input = r#"[{"title":"X","confidence":0.8}]"#;
    let out = extract_json_array(input);
    assert!(out.starts_with('['), "expected array, got: {out}");
    serde_json::from_str::<serde_json::Value>(&out).expect("valid JSON");
}

#[test]
fn fenced_json_at_start() {
    let input = "```json\n[{\"title\":\"X\"}]\n```";
    let out = extract_json_array(input);
    assert!(out.trim_start().starts_with('['), "got: {out}");
    serde_json::from_str::<serde_json::Value>(&out).expect("valid JSON");
}

#[test]
fn fenced_json_with_preamble() {
    let input = "Sure, here is the JSON:\n```json\n[{\"title\":\"Y\",\"confidence\":0.7}]\n```\nLet me know if you need changes.";
    let out = extract_json_array(input);
    assert!(out.trim_start().starts_with('['), "got: {out}");
    serde_json::from_str::<serde_json::Value>(&out).expect("valid JSON");
}

#[test]
fn prose_preamble_bare_array() {
    let input = "Here is the result: [{\"title\":\"Z\",\"confidence\":0.5}]";
    let out = extract_json_array(input);
    assert!(out.starts_with('['), "got: {out}");
    serde_json::from_str::<serde_json::Value>(&out).expect("valid JSON");
}

#[test]
fn wrapper_key_facts() {
    let input = r#"{"facts":[{"subject":"a","relation":"must_use","object":"b","confidence":0.9}]}"#;
    let out = extract_json_array(input);
    assert!(out.starts_with('['), "got: {out}");
    serde_json::from_str::<serde_json::Value>(&out).expect("valid JSON");
}

#[test]
fn kv_lead_basic() {
    let input = "TITLE: Provider Abstraction\nPATTERN: Uses a trait.\nRATIONALE: Decouples backends.\nFILES: src/llm.rs, src/embeddings.rs\nCONFIDENCE: 0.85";
    let val = parse_kv_lead(input);
    assert_eq!(val.title.as_deref(), Some("Provider Abstraction"));
    assert_eq!(val.observed_pattern.as_deref(), Some("Uses a trait."));
    assert_eq!(val.rationale.as_deref(), Some("Decouples backends."));
    let confidence: f32 = val.confidence.as_deref().unwrap().parse().unwrap();
    assert_eq!(confidence, 0.85_f32);
    let files = val.affected_files.unwrap();
    assert_eq!(files.len(), 2);
    assert_eq!(files[0], "src/llm.rs");
}

#[test]
fn kv_lead_multiline_pattern() {
    let input = "TITLE: T\nPATTERN: Line one.\nLine two.\nFILES: src/a.rs\nCONFIDENCE: 0.7";
    let val = parse_kv_lead(input);
    assert!(val.observed_pattern.as_deref().unwrap().contains("Line two"));
}

#[test]
fn kv_lead_bullet_files() {
    let input = "TITLE: T\nPATTERN: P\nFILES:\n- src/a.rs\n- src/b.rs\nCONFIDENCE: 0.6";
    let val = parse_kv_lead(input);
    let files = val.affected_files.unwrap();
    assert_eq!(files.len(), 2);
    assert_eq!(files[1], "src/b.rs");
}

#[test]
fn fenced_bare_lead_object() {
    let input = "```json\n{\n  \"title\": \"Some Pattern\",\n  \"observed_pattern\": \"desc\",\n  \"affected_files\": [\"src/foo.rs\"],\n  \"confidence\": 0.85\n}\n```";
    let out = extract_json_array(input);
    assert!(out.trim_start().starts_with('['), "expected array wrapping bare object, got: {out}");
    let parsed: Vec<serde_json::Value> = serde_json::from_str(&out).expect("valid JSON array");
    assert_eq!(parsed.len(), 1);
    assert!(parsed[0].get("title").is_some());
}

#[test]
fn openai_choices_wrapper() {
    let input = r#"{"choices":[{"message":{"content":"[{\"title\":\"W\"}]"}}]}"#;
    let out = extract_json_array(input);
    assert!(out.starts_with('['), "got: {out}");
    serde_json::from_str::<serde_json::Value>(&out).expect("valid JSON");
}

#[test]
fn strip_fences_keeps_surrounding_text() {
    assert_eq!(strip_fences("a```x\nb```c"), "abc");
    assert_eq!(strip_fences("  plain  "), "plain");
    assert_eq!(strip_fences("pre```json\nbody"), "prebody");
}

#[test]
fn scan_finds_first_balanced_array() {
    assert_eq!(scan_for_array("x [1, [2]] y").as_deref(), Some("[1, [2]]"));
    assert_eq!(scan_for_array("x [\"]\"] y").as_deref(), Some("[\"]\"]"));
    assert_eq!(scan_for_array("no array"), None);
    assert_eq!(scan_for_array("[1,,]"), None);
}

#[test]
fn wrapper_string_is_unwrapped() {
    let out = extract_json_array(r#"{"leads": "[1, 2]"}"#);
    assert_eq!(out, "[1, 2]");
    assert!(parses(&out));
}

#[test]
fn unparseable_reply_falls_back_to_stripped_text() {
    assert_eq!(extract_json_array("  nothing here  "), "nothing here");
}

#[test]
fn kv_lead_repeated_key_keeps_last() {
    let val = parse_kv_lead("TITLE: one\n**TITLE:** ignored\nTITLE: two");
    assert_eq!(val.title.as_deref(), Some("two"));
    assert!(val.affected_files.is_none());
    assert!(val.confidence.is_none());
}
