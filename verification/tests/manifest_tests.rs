use thoughtseize::manifest::{add_secret_entry, parse_meta_secrets, remove_secret_entry};

const SAMPLE_NIX: &str = r#"{ meta }:
let
  tech = meta.ssh.groups.TECH;
  ciRunner = meta.ssh.nodes.ci-runner;
  identity = [
    "ssh-ed25519 AAAAC3NzaC1lZDI1NTE5AAAAINu6Q identity"
  ];
in
{
  "watch/GEMINI_API_KEY.age".publicKeys =
    tech ++ ciRunner ++ identity;
  "bigquery/sa-data-scripts.json.age".publicKeys = tech;
}"#;

#[test]
fn test_parse_groups() {
    let result = parse_meta_secrets(SAMPLE_NIX).unwrap();
    let group_names: Vec<&str> = result.groups.iter().map(|g| g.name.as_str()).collect();
    assert!(group_names.contains(&"tech"));
    assert!(group_names.contains(&"ciRunner"));
    assert!(group_names.contains(&"identity"));
}

#[test]
fn test_parse_secrets() {
    let result = parse_meta_secrets(SAMPLE_NIX).unwrap();
    assert_eq!(result.secrets.len(), 2);

    let gemini = result
        .secrets
        .iter()
        .find(|s| s.path == "watch/GEMINI_API_KEY.age")
        .unwrap();
    assert_eq!(gemini.groups, vec!["tech", "ciRunner", "identity"]);

    let bq = result
        .secrets
        .iter()
        .find(|s| s.path == "bigquery/sa-data-scripts.json.age")
        .unwrap();
    assert_eq!(bq.groups, vec!["tech"]);
}

#[test]
fn test_add_secret_entry() {
    let groups = vec!["tech".to_string(), "ciRunner".to_string()];
    let new_content = add_secret_entry(SAMPLE_NIX, "new/secret.age", &groups);
    assert!(new_content.contains(r#""new/secret.age".publicKeys = tech ++ ciRunner;"#));
    assert!(new_content.contains("GEMINI_API_KEY"));
}

#[test]
fn test_remove_secret_entry() {
    let new_content = remove_secret_entry(SAMPLE_NIX, "bigquery/sa-data-scripts.json.age");
    assert!(!new_content.contains("sa-data-scripts"));
    assert!(new_content.contains("GEMINI_API_KEY"));
}

#[test]
fn round_trip_add_then_remove_restores_text() {
    let groups = vec!["tech".to_string()];
    let added = add_secret_entry(SAMPLE_NIX, "c/d.age", &groups);
    let removed = remove_secret_entry(&added, "c/d.age");
    assert_eq!(removed, SAMPLE_NIX);
}

#[test]
fn round_trip_add_then_parse_reports_new_entry() {
    let groups = vec!["tech".to_string()];
    let added = add_secret_entry(SAMPLE_NIX, "c/d.age", &groups);
    let parsed = parse_meta_secrets(&added).unwrap();
    assert_eq!(parsed.secrets.len(), 3);
    let entry = parsed.secrets.iter().find(|s| s.path == "c/d.age").unwrap();
    assert_eq!(entry.groups, vec!["tech"]);
    assert_eq!(entry.raw_expr, "tech");
}

#[test]
fn end_to_end_add_to_small_manifest() {
    let text = "x\nlet\n  tech = [ \"key-one\" ];\nin\n{\n  \"a/b.age\".publicKeys = tech;\n}";
    let groups = vec!["tech".to_string()];
    let added = add_secret_entry(text, "c/d.age", &groups);
    assert!(added.contains("\"c/d.age\".publicKeys = tech;"));
    let parsed = parse_meta_secrets(&added).unwrap();
    assert_eq!(parsed.secrets.len(), 2);
    assert_eq!(parsed.secrets[1].path, "c/d.age");
    assert_eq!(parsed.secrets[1].groups, vec!["tech"]);
}

#[test]
fn remove_keeps_unrelated_lines_byte_for_byte() {
    let new_content = remove_secret_entry(SAMPLE_NIX, "watch/GEMINI_API_KEY.age");
    let expected = r#"{ meta }:
let
  tech = meta.ssh.groups.TECH;
  ciRunner = meta.ssh.nodes.ci-runner;
  identity = [
    "ssh-ed25519 AAAAC3NzaC1lZDI1NTE5AAAAINu6Q identity"
  ];
in
{
  "bigquery/sa-data-scripts.json.age".publicKeys = tech;
}"#;
    assert_eq!(new_content, expected);
}

#[test]
fn remove_of_absent_path_changes_nothing() {
    let new_content = remove_secret_entry(SAMPLE_NIX, "not/there.age");
    assert_eq!(new_content, SAMPLE_NIX);
}

#[test]
fn multi_line_expression_is_accumulated() {
    let text = "x\nlet\n  a = 1;\nin\n{\n  \"deep/key.age\".publicKeys =\n    alpha ++\n    beta ++\n    gamma;\n}\n";
    let parsed = parse_meta_secrets(text).unwrap();
    assert_eq!(parsed.secrets.len(), 1);
    let entry = &parsed.secrets[0];
    assert_eq!(entry.path, "deep/key.age");
    assert_eq!(entry.groups, vec!["alpha", "beta", "gamma"]);
    assert_eq!(entry.raw_expr, "alpha ++ beta ++ gamma");
}

#[test]
fn missing_prelude_is_malformed() {
    let r = parse_meta_secrets("{ \"a.age\".publicKeys = x; }");
    assert!(matches!(r, Err(thoughtseize::SecretError::MalformedManifest)));
}

#[test]
fn missing_body_brace_is_malformed() {
    let r = parse_meta_secrets("x\nlet\n  a = 1;\nin\nno body here");
    assert!(matches!(r, Err(thoughtseize::SecretError::MalformedManifest)));
}

#[test]
fn prelude_closed_directly_at_body() {
    let text = "x\nlet\n  g = 1;\nin{\n  \"p.age\".publicKeys = g;\n}\n";
    let parsed = parse_meta_secrets(text).unwrap();
    assert_eq!(parsed.groups.len(), 1);
    assert_eq!(parsed.groups[0].name, "g");
    assert_eq!(parsed.groups[0].definition, "1");
    assert_eq!(parsed.secrets.len(), 1);
    assert_eq!(parsed.secrets[0].path, "p.age");
}

#[test]
fn dangling_group_definition_is_dropped() {
    let text = "x\nlet\n  good = 1;\n  bad = never terminated\nin\n{\n}\n";
    let parsed = parse_meta_secrets(text).unwrap();
    let names: Vec<&str> = parsed.groups.iter().map(|g| g.name.as_str()).collect();
    assert!(names.contains(&"good"));
    assert!(!names.contains(&"bad"));
}

#[test]
fn malformed_body_line_is_skipped() {
    let text = "x\nlet\n  g = 1;\nin\n{\n  nonsense line;\n  \"ok.age\".publicKeys = g;\n}\n";
    let parsed = parse_meta_secrets(text).unwrap();
    assert_eq!(parsed.secrets.len(), 1);
    assert_eq!(parsed.secrets[0].path, "ok.age");
}

#[test]
fn comments_and_blank_lines_are_ignored_in_body() {
    let text = "x\nlet\n  g = 1;\nin\n{\n  # a comment\n\n  \"ok.age\".publicKeys = g;\n}\n";
    let parsed = parse_meta_secrets(text).unwrap();
    assert_eq!(parsed.secrets.len(), 1);
}

#[test]
fn add_keeps_trailing_newline_convention() {
    let with_nl = "x\nlet\n  g = 1;\nin\n{\n}\n";
    let groups = vec!["g".to_string()];
    let added = add_secret_entry(with_nl, "p.age", &groups);
    assert!(added.ends_with("}\n"));
    let without_nl = "x\nlet\n  g = 1;\nin\n{\n}";
    let added2 = add_secret_entry(without_nl, "p.age", &groups);
    assert!(added2.ends_with('}'));
}

#[test]
fn keyword_on_first_line_is_line_initial() {
    let minimal = parse_meta_secrets("let\nin\n{\n}\n").unwrap();
    assert!(minimal.groups.is_empty());
    assert!(minimal.secrets.is_empty());

    let text = "let\n  g = 1;\nin\n{\n  \"p.age\".publicKeys = g;\n}\n";
    let parsed = parse_meta_secrets(text).unwrap();
    assert_eq!(parsed.groups.len(), 1);
    assert_eq!(parsed.groups[0].name, "g");
    assert_eq!(parsed.secrets.len(), 1);
    assert_eq!(parsed.secrets[0].path, "p.age");
    assert_eq!(parsed.secrets[0].groups, vec!["g"]);
}

#[test]
fn empty_text_is_malformed() {
    let r = parse_meta_secrets("");
    assert!(matches!(r, Err(thoughtseize::SecretError::MalformedManifest)));
}

#[test]
fn prelude_after_body_keyword_is_malformed() {
    let r = parse_meta_secrets("x\nin\n{\n}\nlet\n  a = 1;\n");
    assert!(matches!(r, Err(thoughtseize::SecretError::MalformedManifest)));
}

#[test]
fn duplicate_paths_are_reported_in_order() {
    let text = "x\nlet\n  a = 1;\n  b = 2;\nin\n{\n  \"p.age\".publicKeys = a;\n  \"p.age\".publicKeys = b;\n}\n";
    let parsed = parse_meta_secrets(text).unwrap();
    assert_eq!(parsed.secrets.len(), 2);
    assert_eq!(parsed.secrets[0].groups, vec!["a"]);
    assert_eq!(parsed.secrets[1].groups, vec!["b"]);
}

#[test]
fn add_with_empty_group_list() {
    let text = "x\nlet\nin\n{\n}\n";
    let groups: Vec<String> = Vec::new();
    let added = add_secret_entry(text, "p.age", &groups);
    assert!(added.contains("\"p.age\".publicKeys = ;"));
}
