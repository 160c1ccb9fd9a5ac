use thoughtseize::SecretError;
use thoughtseize::config::{load_config_value, save_config_value, AppConfig};
use thoughtseize::lifecycle::{
    begin_decrypt, build_eval_expression, create_after_encryption, create_after_resolution,
    is_valid_group_name, parse_recipient_list, require_project, validate_group_names, AppState,
    EncryptionStep, ResolutionStep,
};
use thoughtseize::manifest::{add_secret_entry, parse_meta_secrets};
use thoughtseize::path_safety::{path_within, resolve, FsProbe};
use thoughtseize::project::{build_project_info, identity_key_type};

#[test]
fn group_name_policy() {
    assert!(!is_valid_group_name(""));
    assert!(!is_valid_group_name("has space"));
    assert!(!is_valid_group_name("a-b"));
    assert!(is_valid_group_name("tech"));
    assert!(is_valid_group_name("ci_runner1"));
}

#[test]
fn group_name_validation_names_first_offender() {
    let groups = vec!["tech".to_string(), "a-b".to_string(), "".to_string()];
    match validate_group_names(&groups) {
        Err(SecretError::InvalidGroupName(g)) => assert_eq!(g, "a-b"),
        other => panic!("expected InvalidGroupName, got {:?}", other),
    }
    let fine = vec!["tech".to_string(), "ci_runner1".to_string()];
    assert!(validate_group_names(&fine).is_ok());
}

#[test]
fn traversal_is_rejected_for_any_root() {
    let r = resolve("/some/root", "../../etc/passwd", &FsProbe::ParentMissing);
    assert_eq!(r, Err(SecretError::PathTraversal));
    let probe = FsProbe::ParentExists {
        canonical_parent: "/some/root/a".to_string(),
        canonical_root: "/some/root".to_string(),
    };
    let r2 = resolve("/some/root", "../../etc/passwd", &probe);
    assert_eq!(r2, Err(SecretError::PathTraversal));
}

#[test]
fn contained_new_path_is_accepted() {
    let probe = FsProbe::ParentExists {
        canonical_parent: "/root/a".to_string(),
        canonical_root: "/root".to_string(),
    };
    let r = resolve("/root", "a/b.age", &probe);
    assert_eq!(r, Ok("/root/a/b.age".to_string()));
}

#[test]
fn existing_target_outside_root_is_rejected() {
    let probe = FsProbe::TargetExists {
        canonical_target: "/etc/passwd".to_string(),
        canonical_root: "/root".to_string(),
    };
    let r = resolve("/root", "x", &probe);
    assert_eq!(r, Err(SecretError::PathTraversal));
}

#[test]
fn containment_is_component_wise() {
    assert!(path_within("/a/b/c", "/a/b"));
    assert!(path_within("/a/b", "/a/b"));
    assert!(!path_within("/a/bc", "/a/b"));
    assert!(!path_within("/other", "/a"));
    assert!(path_within("/anything/at/all", "/"));
}

#[test]
fn canonicalization_failure_is_invalid_path() {
    let r = resolve("/root", "x", &FsProbe::CanonicalizationFailed);
    assert_eq!(r, Err(SecretError::InvalidPath));
    let r2 = resolve("/root", "x", &FsProbe::NoParent);
    assert_eq!(r2, Err(SecretError::InvalidPath));
}

const SAMPLE_NIX: &str = "x\nlet\n  tech = [ \"key-one\" ];\nin\n{\n  \"a/b.age\".publicKeys = tech;\n}\n";

#[test]
fn rollback_restores_pre_edit_manifest_on_resolver_failure() {
    let original = SAMPLE_NIX.to_string();
    let groups = vec!["tech".to_string()];
    let updated = add_secret_entry(&original, "c/d.age", &groups);
    let outcome: Result<Vec<String>, SecretError> =
        Err(SecretError::ExternalToolFailure("evaluator failed".to_string()));
    match create_after_resolution(&original, &updated, outcome) {
        ResolutionStep::Rollback { restore, error } => {
            assert_eq!(restore, original);
            assert!(matches!(error, SecretError::ExternalToolFailure(_)));
        },
        ResolutionStep::Proceed { .. } => panic!("expected rollback"),
    }
}

#[test]
fn rollback_restores_pre_edit_manifest_on_encryption_failure() {
    let original = SAMPLE_NIX.to_string();
    let groups = vec!["tech".to_string()];
    let updated = add_secret_entry(&original, "c/d.age", &groups);
    let outcome: Result<(), SecretError> =
        Err(SecretError::IoFailure("write failed".to_string()));
    match create_after_encryption(&original, &updated, outcome) {
        EncryptionStep::Rollback { restore, error } => {
            assert_eq!(restore, original);
            assert!(matches!(error, SecretError::IoFailure(_)));
        },
        EncryptionStep::Commit { .. } => panic!("expected rollback"),
    }
}

#[test]
fn successful_create_commits_the_edited_manifest() {
    let original = SAMPLE_NIX.to_string();
    let groups = vec!["tech".to_string()];
    let updated = add_secret_entry(&original, "c/d.age", &groups);
    let keys = vec!["age1xyz".to_string()];
    match create_after_resolution(&original, &updated, Ok(keys.clone())) {
        ResolutionStep::Proceed { manifest, recipients } => {
            assert_eq!(manifest, updated);
            assert_eq!(recipients, keys);
        },
        ResolutionStep::Rollback { .. } => panic!("expected proceed"),
    }
    match create_after_encryption(&original, &updated, Ok(())) {
        EncryptionStep::Commit { manifest } => {
            assert_eq!(manifest, updated);
            assert!(parse_meta_secrets(&manifest).is_ok());
        },
        EncryptionStep::Rollback { .. } => panic!("expected commit"),
    }
}

#[test]
fn operation_gates_complain_in_order() {
    let empty = AppState::default();
    assert!(matches!(begin_decrypt(&empty), Err(SecretError::NoProjectOpen)));
    assert!(matches!(require_project(&empty), Err(SecretError::NoProjectOpen)));

    let project_only = AppState {
        project_dir: Some("/proj".to_string()),
        identity_path: None,
        parsed_secrets: None,
    };
    assert!(matches!(
        begin_decrypt(&project_only),
        Err(SecretError::NoIdentityConfigured)
    ));
    assert_eq!(require_project(&project_only).unwrap(), "/proj");

    let ready = AppState {
        project_dir: Some("/proj".to_string()),
        identity_path: Some("/home/u/.ssh/id_ed25519".to_string()),
        parsed_secrets: None,
    };
    let (dir, ident) = begin_decrypt(&ready).unwrap();
    assert_eq!(dir, "/proj");
    assert_eq!(ident, "/home/u/.ssh/id_ed25519");
}

#[test]
fn eval_expression_is_built_for_safe_paths_only() {
    let r = build_eval_expression("/proj", "a/b.age").unwrap();
    assert_eq!(r, "(import /proj/secrets.nix).\"a/b.age\".publicKeys");
    let bad = build_eval_expression("/proj", "a\"; rm -rf /");
    assert_eq!(bad, Err(SecretError::InvalidPath));
}

#[test]
fn recipient_list_parses_json_arrays_of_strings() {
    let r = parse_recipient_list("[\"age1abc\", \"ssh-ed25519 AAA\"]").unwrap();
    assert_eq!(r, vec!["age1abc".to_string(), "ssh-ed25519 AAA".to_string()]);
    let empty = parse_recipient_list("[]").unwrap();
    assert!(empty.is_empty());
    match parse_recipient_list("not json at all") {
        Err(SecretError::EvaluationParseFailure(raw)) => assert_eq!(raw, "not json at all"),
        other => panic!("expected EvaluationParseFailure, got {:?}", other),
    }
}

#[test]
fn config_values_round_trip() {
    let mut config = AppConfig::default();
    assert!(load_config_value(&config, "project_path").is_none());
    save_config_value(&mut config, "project_path", "/proj");
    save_config_value(&mut config, "identity_path", "/id");
    assert_eq!(load_config_value(&config, "project_path").unwrap(), "/proj");
    assert_eq!(load_config_value(&config, "identity_path").unwrap(), "/id");
    save_config_value(&mut config, "project_path", "/other");
    assert_eq!(load_config_value(&config, "project_path").unwrap(), "/other");
    assert_eq!(load_config_value(&config, "identity_path").unwrap(), "/id");
    assert_eq!(config.entries.len(), 2);
}

#[test]
fn project_info_pairs_files_with_manifest_groups() {
    let parsed = parse_meta_secrets(SAMPLE_NIX).unwrap();
    let files = vec!["a/b.age".to_string(), "unlisted/c.age".to_string()];
    let info = build_project_info("/proj", &files, &parsed);
    assert_eq!(info.path, "/proj");
    assert_eq!(info.secrets.len(), 2);
    assert_eq!(info.secrets[0].path, "a/b.age");
    assert_eq!(info.secrets[0].groups, vec!["tech"]);
    assert_eq!(info.secrets[1].path, "unlisted/c.age");
    assert!(info.secrets[1].groups.is_empty());
    assert_eq!(info.groups, vec!["tech"]);
}

#[test]
fn duplicate_manifest_entries_use_first_found_groups() {
    let text = "x\nlet\n  a = 1;\n  b = 2;\nin\n{\n  \"p.age\".publicKeys = a;\n  \"p.age\".publicKeys = b;\n}\n";
    let parsed = parse_meta_secrets(text).unwrap();
    let files = vec!["p.age".to_string()];
    let info = build_project_info("/proj", &files, &parsed);
    assert_eq!(info.secrets[0].groups, vec!["a"]);
}

#[test]
fn identity_key_types_follow_file_names() {
    assert_eq!(identity_key_type("id_ed25519"), "ssh-ed25519");
    assert_eq!(identity_key_type("id_rsa"), "ssh-rsa");
}
