use serde_json::Value;

use lock::verify::{
    refusal_bad_lockfile_absolute_path, refusal_bad_lockfile_missing_fields, refusal_bad_lockfile_parse,
    refusal_bad_lockfile_traversal, refusal_io, refusal_root_not_found, refusal_unknown_algorithm,
    refusal_unsupported_version, validate_lockfile_json, ValidationResult, VERIFY_VERSION,
};



// -- VerifyRefusalCode --



// -- Refusal envelope constructors --

fn parse_refusal(json: &str) -> Value {
    let parsed: Value = serde_json::from_str(json).expect("refusal must be valid JSON");
    assert_eq!(parsed["version"], VERIFY_VERSION);
    assert_eq!(parsed["outcome"], "REFUSAL");
    parsed
}

#[test]
fn refusal_io_envelope() {
    let json = refusal_io("/tmp/bad.lock.json", "permission denied");
    let parsed = parse_refusal(&json);
    assert_eq!(parsed["refusal"]["code"], "E_IO");
    assert_eq!(parsed["refusal"]["detail"]["path"], "/tmp/bad.lock.json");
    assert_eq!(parsed["refusal"]["detail"]["error"], "permission denied");
}

#[test]
fn refusal_bad_lockfile_parse_envelope() {
    let json = refusal_bad_lockfile_parse("expected value at line 1 column 1");
    let parsed = parse_refusal(&json);
    assert_eq!(parsed["refusal"]["code"], "E_BAD_LOCKFILE");
    assert!(
        parsed["refusal"]["detail"]["error"]
            .as_str()
            .unwrap()
            .contains("expected value")
    );
}

#[test]
fn refusal_bad_lockfile_missing_fields_envelope() {
    let json = refusal_bad_lockfile_missing_fields(&["version", "members"][..]);
    let parsed = parse_refusal(&json);
    assert_eq!(parsed["refusal"]["code"], "E_BAD_LOCKFILE");
    let fields = parsed["refusal"]["detail"]["missing_fields"]
        .as_array()
        .unwrap();
    assert_eq!(fields.len(), 2);
    assert_eq!(fields[0], "version");
    assert_eq!(fields[1], "members");
}

#[test]
fn refusal_bad_lockfile_absolute_path_envelope() {
    let json = refusal_bad_lockfile_absolute_path(0, "/etc/passwd");
    let parsed = parse_refusal(&json);
    assert_eq!(parsed["refusal"]["code"], "E_BAD_LOCKFILE");
    assert_eq!(parsed["refusal"]["detail"]["member_index"], 0);
    assert_eq!(parsed["refusal"]["detail"]["member_path"], "/etc/passwd");
}

#[test]
fn refusal_bad_lockfile_traversal_envelope() {
    let json = refusal_bad_lockfile_traversal(2, "data/../../../etc/passwd");
    let parsed = parse_refusal(&json);
    assert_eq!(parsed["refusal"]["code"], "E_BAD_LOCKFILE");
    assert_eq!(parsed["refusal"]["detail"]["member_index"], 2);
    assert_eq!(
        parsed["refusal"]["detail"]["member_path"],
        "data/../../../etc/passwd"
    );
}

#[test]
fn refusal_unsupported_version_envelope() {
    let json = refusal_unsupported_version("lock.v99");
    let parsed = parse_refusal(&json);
    assert_eq!(parsed["refusal"]["code"], "E_UNSUPPORTED_VERSION");
    assert_eq!(parsed["refusal"]["detail"]["version"], "lock.v99");
}

#[test]
fn refusal_root_not_found_envelope() {
    let json = refusal_root_not_found("/nonexistent");
    let parsed = parse_refusal(&json);
    assert_eq!(parsed["refusal"]["code"], "E_ROOT_NOT_FOUND");
    assert_eq!(parsed["refusal"]["detail"]["root"], "/nonexistent");
}

#[test]
fn refusal_unknown_algorithm_envelope() {
    let json = refusal_unknown_algorithm("data.csv", "md5");
    let parsed = parse_refusal(&json);
    assert_eq!(parsed["refusal"]["code"], "E_UNKNOWN_ALGORITHM");
    assert_eq!(parsed["refusal"]["detail"]["member_path"], "data.csv");
    assert_eq!(parsed["refusal"]["detail"]["algorithm"], "md5");
}

#[test]
fn refusal_envelopes_have_sorted_keys() {
    let json = refusal_io("test.json", "not found");
    let parsed: Value = serde_json::from_str(&json).unwrap();

    // Top-level keys sorted: outcome, refusal, version
    let top_keys: Vec<&String> = parsed.as_object().unwrap().keys().collect();
    assert_eq!(top_keys, &["outcome", "refusal", "version"]);

    // Refusal keys sorted: code, detail, message, next_command
    let ref_keys: Vec<&String> = parsed["refusal"].as_object().unwrap().keys().collect();
    assert_eq!(ref_keys, &["code", "detail", "message", "next_command"]);
}

#[test]
fn refusal_version_is_lock_verify_v0() {
    let json = refusal_io("test.json", "err");
    let parsed: Value = serde_json::from_str(&json).unwrap();
    assert_eq!(parsed["version"], "lock-verify.v0");
}

// -- Validation --

fn valid_lockfile_json() -> String {
    r#"{ "version": "lock.v0", "lock_hash": "sha256:abc123", "members": [ { "path": "data/tape.csv", "bytes_hash": "sha256:aaa", "size": 100 }, { "path": "data/model.xlsx", "bytes_hash": "blake3:bbb", "size": 200 } ], "skipped": [], "member_count": 2, "skipped_count": 0 }"#.to_string()
}

#[test]
fn validate_valid_lockfile() {
    match validate_lockfile_json(&valid_lockfile_json()) {
        ValidationResult::Valid(_) => {}
        ValidationResult::Refusal(r) => panic!("expected Ok, got refusal: {r}"),
    }
}

#[test]
fn validate_malformed_json() {
    match validate_lockfile_json("not json {{{") {
        ValidationResult::Refusal(r) => {
            let parsed: Value = serde_json::from_str(&r).unwrap();
            assert_eq!(parsed["refusal"]["code"], "E_BAD_LOCKFILE");
        }
        ValidationResult::Valid(_) => panic!("expected refusal"),
    }
}

#[test]
fn validate_missing_version() {
    let json = r#"{ "lock_hash": "sha256:abc", "members": [] }"#.to_string();
    match validate_lockfile_json(&json) {
        ValidationResult::Refusal(r) => {
            let parsed: Value = serde_json::from_str(&r).unwrap();
            assert_eq!(parsed["refusal"]["code"], "E_BAD_LOCKFILE");
            let fields = parsed["refusal"]["detail"]["missing_fields"]
                .as_array()
                .unwrap();
            assert!(fields.contains(&Value::String("version".to_string())));
        }
        ValidationResult::Valid(_) => panic!("expected refusal"),
    }
}

#[test]
fn validate_missing_lock_hash() {
    let json = r#"{ "version": "lock.v0", "members": [] }"#.to_string();
    match validate_lockfile_json(&json) {
        ValidationResult::Refusal(r) => {
            let parsed: Value = serde_json::from_str(&r).unwrap();
            let fields = parsed["refusal"]["detail"]["missing_fields"]
                .as_array()
                .unwrap();
            assert!(fields.contains(&Value::String("lock_hash".to_string())));
        }
        ValidationResult::Valid(_) => panic!("expected refusal"),
    }
}

#[test]
fn validate_missing_members() {
    let json = r#"{ "version": "lock.v0", "lock_hash": "sha256:abc" }"#.to_string();
    match validate_lockfile_json(&json) {
        ValidationResult::Refusal(r) => {
            let parsed: Value = serde_json::from_str(&r).unwrap();
            let fields = parsed["refusal"]["detail"]["missing_fields"]
                .as_array()
                .unwrap();
            assert!(fields.contains(&Value::String("members".to_string())));
        }
        ValidationResult::Valid(_) => panic!("expected refusal"),
    }
}

#[test]
fn validate_multiple_missing_fields() {
    let json = r#"{}"#.to_string();
    match validate_lockfile_json(&json) {
        ValidationResult::Refusal(r) => {
            let parsed: Value = serde_json::from_str(&r).unwrap();
            let fields = parsed["refusal"]["detail"]["missing_fields"]
                .as_array()
                .unwrap();
            assert_eq!(fields.len(), 3);
        }
        ValidationResult::Valid(_) => panic!("expected refusal"),
    }
}

#[test]
fn validate_unsupported_version() {
    let json = r#"{ "version": "lock.v99", "lock_hash": "sha256:abc", "members": [] }"#.to_string();
    match validate_lockfile_json(&json) {
        ValidationResult::Refusal(r) => {
            let parsed: Value = serde_json::from_str(&r).unwrap();
            assert_eq!(parsed["refusal"]["code"], "E_UNSUPPORTED_VERSION");
            assert_eq!(parsed["refusal"]["detail"]["version"], "lock.v99");
        }
        ValidationResult::Valid(_) => panic!("expected refusal"),
    }
}

#[test]
fn validate_absolute_member_path() {
    let json = r#"{ "version": "lock.v0", "lock_hash": "sha256:abc", "members": [ { "path": "/etc/passwd", "bytes_hash": "sha256:aaa", "size": 100 } ] }"#.to_string();
    match validate_lockfile_json(&json) {
        ValidationResult::Refusal(r) => {
            let parsed: Value = serde_json::from_str(&r).unwrap();
            assert_eq!(parsed["refusal"]["code"], "E_BAD_LOCKFILE");
            assert_eq!(parsed["refusal"]["detail"]["member_index"], 0);
            assert_eq!(parsed["refusal"]["detail"]["member_path"], "/etc/passwd");
        }
        ValidationResult::Valid(_) => panic!("expected refusal"),
    }
}

#[test]
fn validate_traversal_path() {
    let json = r#"{ "version": "lock.v0", "lock_hash": "sha256:abc", "members": [ { "path": "data/../../../etc/passwd", "bytes_hash": "sha256:aaa", "size": 100 } ] }"#.to_string();
    match validate_lockfile_json(&json) {
        ValidationResult::Refusal(r) => {
            let parsed: Value = serde_json::from_str(&r).unwrap();
            assert_eq!(parsed["refusal"]["code"], "E_BAD_LOCKFILE");
            assert_eq!(parsed["refusal"]["detail"]["member_index"], 0);
        }
        ValidationResult::Valid(_) => panic!("expected refusal"),
    }
}

#[test]
fn validate_unknown_algorithm() {
    let json = r#"{ "version": "lock.v0", "lock_hash": "sha256:abc", "members": [ { "path": "data.csv", "bytes_hash": "md5:aaa", "size": 100 } ] }"#.to_string();
    match validate_lockfile_json(&json) {
        ValidationResult::Refusal(r) => {
            let parsed: Value = serde_json::from_str(&r).unwrap();
            assert_eq!(parsed["refusal"]["code"], "E_UNKNOWN_ALGORITHM");
            assert_eq!(parsed["refusal"]["detail"]["member_path"], "data.csv");
            assert_eq!(parsed["refusal"]["detail"]["algorithm"], "md5");
        }
        ValidationResult::Valid(_) => panic!("expected refusal"),
    }
}

#[test]
fn validate_sha256_algorithm_accepted() {
    let json = r#"{ "version": "lock.v0", "lock_hash": "sha256:abc", "members": [ { "path": "a.csv", "bytes_hash": "sha256:aaa", "size": 100 } ] }"#.to_string();
    assert!(matches!(
        validate_lockfile_json(&json),
        ValidationResult::Valid(_)
    ));
}

#[test]
fn validate_blake3_algorithm_accepted() {
    let json = r#"{ "version": "lock.v0", "lock_hash": "sha256:abc", "members": [ { "path": "a.csv", "bytes_hash": "blake3:aaa", "size": 100 } ] }"#.to_string();
    assert!(matches!(
        validate_lockfile_json(&json),
        ValidationResult::Valid(_)
    ));
}

#[test]
fn validate_empty_members_array_accepted() {
    let json = r#"{ "version": "lock.v0", "lock_hash": "sha256:abc", "members": [] }"#.to_string();
    assert!(matches!(
        validate_lockfile_json(&json),
        ValidationResult::Valid(_)
    ));
}

