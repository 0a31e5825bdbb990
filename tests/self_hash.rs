use serde_json::Value;

use lock::canonical::to_canonical_text;
use lock::input::{read_jsonl_text, ReadResult};
use lock::json::JsonValue;
use lock::lockfile::{lockfile_value, Lockfile, Member};
use lock::output::render_lockfile;
use lock::self_hash::{compute_lock_hash, verify_lock_hash, verify_lock_hash_from_json};

/// A JSON value from its text.
fn v(text: &str) -> JsonValue {
    match read_jsonl_text(text).expect("test JSON must parse") {
        ReadResult::Records(mut records) => records.remove(0).value,
        ReadResult::Empty => panic!("test JSON must not be empty"),
    }
}

fn make_test_lockfile() -> Lockfile {
    Lockfile {
        version: "lock.v0".to_string(),
        lock_hash: String::new(),
        dataset_id: Some("test-dataset".to_string()),
        as_of: None,
        note: None,
        created: "2026-01-15T10:30:00Z".to_string(),
        tool_versions: vec![
            ("vacuum".to_string(), "0.1.0".to_string()),
            ("hash".to_string(), "0.1.0".to_string()),
            ("lock".to_string(), "0.1.0".to_string()),
        ],
        profiles: vec![],
        skipped: vec![],
        members: vec![
            Member {
                path: "alpha.csv".to_string(),
                bytes_hash: "sha256:aaaa".to_string(),
                size: 100,
                fingerprint: None,
            },
            Member {
                path: "beta.csv".to_string(),
                bytes_hash: "sha256:bbbb".to_string(),
                size: 200,
                fingerprint: None,
            },
        ],
        skipped_count: 0,
        member_count: 2,
    }
}

#[test]
fn verify_detects_hash_tampering() {
    let mut lockfile = make_test_lockfile();
    lockfile.lock_hash =
        "sha256:0000000000000000000000000000000000000000000000000000000000000000".to_string();
    assert!(!verify_lock_hash(&lockfile), "wrong lock_hash must not verify");
}

#[test]
fn compute_produces_sha256_prefixed_hex() {
    let lockfile = make_test_lockfile();
    let hash = compute_lock_hash(&lockfile);
    assert!(hash.starts_with("sha256:"));
    let hex = &hash["sha256:".len()..];
    assert_eq!(hex.len(), 64);
    assert!(hex.chars().all(|c| c.is_ascii_hexdigit() && !c.is_ascii_uppercase()));
}

#[test]
fn compute_is_deterministic() {
    let lockfile = make_test_lockfile();
    assert_eq!(compute_lock_hash(&lockfile), compute_lock_hash(&lockfile));
}

#[test]
fn verify_round_trip() {
    let mut lockfile = make_test_lockfile();
    lockfile.lock_hash = compute_lock_hash(&lockfile);
    assert!(verify_lock_hash(&lockfile), "freshly computed lock_hash must verify");
}

#[test]
fn verify_detects_tampering() {
    let mut lockfile = make_test_lockfile();
    lockfile.lock_hash = compute_lock_hash(&lockfile);
    lockfile.dataset_id = Some("tampered".to_string());
    assert!(!verify_lock_hash(&lockfile), "tampered lockfile must not verify");
}

#[test]
fn verify_from_json_round_trip() {
    let mut lockfile = make_test_lockfile();
    lockfile.lock_hash = compute_lock_hash(&lockfile);
    let json = render_lockfile(&lockfile).json;
    assert!(verify_lock_hash_from_json(&json).expect("should parse"), "round-trip from JSON must verify");
}

#[test]
fn verify_from_json_detects_tampering() {
    let mut lockfile = make_test_lockfile();
    lockfile.lock_hash = compute_lock_hash(&lockfile);
    let json = render_lockfile(&lockfile).json;
    let tampered = json.replace("\"test-dataset\"", "\"tampered\"");
    assert_ne!(json, tampered);
    assert!(!verify_lock_hash_from_json(&tampered).expect("should parse"), "tampered JSON must not verify");
}

#[test]
fn verify_from_json_detects_nested_member_tampering() {
    let mut lockfile = make_test_lockfile();
    lockfile.lock_hash = compute_lock_hash(&lockfile);
    let json = render_lockfile(&lockfile).json;
    let tampered = json.replace("\"size\":100", "\"size\":999");
    assert_ne!(json, tampered);
    assert!(!verify_lock_hash_from_json(&tampered).expect("should parse"));
}

#[test]
fn verify_from_json_reports_parse_errors() {
    assert!(verify_lock_hash_from_json("not json {{{").is_err());
}

#[test]
fn different_data_produces_different_hash() {
    let lockfile1 = make_test_lockfile();
    let mut lockfile2 = make_test_lockfile();
    lockfile2.dataset_id = Some("other-dataset".to_string());
    assert_ne!(compute_lock_hash(&lockfile1), compute_lock_hash(&lockfile2));
}

#[test]
fn self_hash_is_sha256_of_canonical_form_with_blank_hash() {
    let lockfile = make_test_lockfile();
    let expected_preimage = [
        r#"{"as_of":null,"created":"2026-01-15T10:30:00Z","dataset_id":"test-dataset","lock_hash":"","#,
        r#""member_count":2,"members":[{"bytes_hash":"sha256:aaaa","fingerprint":null,"path":"alpha.csv","size":100},"#,
        r#"{"bytes_hash":"sha256:bbbb","fingerprint":null,"path":"beta.csv","size":200}],"note":null,"profiles":[],"#,
        r#""skipped":[],"skipped_count":0,"tool_versions":{"hash":"0.1.0","lock":"0.1.0","vacuum":"0.1.0"},"version":"lock.v0"}"#,
    ]
    .join("");
    let expected_preimage = expected_preimage.as_str();
    let rendered = render_lockfile(&lockfile).json;
    assert_eq!(rendered, expected_preimage);
    let digest = <sha2::Sha256 as sha2::Digest>::digest(expected_preimage.as_bytes());
    assert_eq!(compute_lock_hash(&lockfile), format!("sha256:{:x}", digest));
}

#[test]
fn canonical_json_sorts_keys_at_every_level() {
    let input = v(r#"{ "zeta": { "delta": 4, "alpha": 1 }, "beta": [ { "gamma": 3, "beta": 2 }, { "epsilon": 5, "alpha": 1 } ], "alpha": 0 }"#);

    let canonical = to_canonical_text(&input);

    assert_eq!(
        canonical,
        r#"{"alpha":0,"beta":[{"beta":2,"gamma":3},{"alpha":1,"epsilon":5}],"zeta":{"alpha":1,"delta":4}}"#
    );
}

#[test]
fn canonical_json_is_deterministic_for_equivalent_values() {
    let first = v(r#"{"b":{"y":2,"x":1},"a":[{"d":4,"c":3}], "z":0}"#);
    let second = v(r#"{"z":0,"a":[{"c":3,"d":4}],"b":{"x":1,"y":2}}"#);

    assert_eq!(to_canonical_text(&first), to_canonical_text(&second));
}

#[test]
fn canonical_json_has_no_trailing_newline() {
    let input = v(r#"{"b": 1, "a": 2}"#);
    let canonical = to_canonical_text(&input);
    assert!(!canonical.ends_with('\n'));
}

#[test]
fn canonical_json_escapes_strings_and_keeps_scalars() {
    let input = v(r#"{"s":"quote \" and \\ and \n","n":-12,"t":true,"f":false,"z":null,"x":1.5,"e":{}}"#);
    assert_eq!(
        to_canonical_text(&input),
        r#"{"e":{},"f":false,"n":-12,"s":"quote \" and \\ and \n","t":true,"x":1.5,"z":null}"#
    );
}

#[test]
fn lockfile_canonical_json_orders_top_level_and_nested_keys() {
    let lockfile = make_test_lockfile();
    let canonical = render_lockfile(&lockfile).json;
    let parsed: Value = serde_json::from_str(&canonical).expect("should parse");

    let top_level_keys = parsed
        .as_object()
        .expect("top level should be object")
        .keys()
        .cloned()
        .collect::<Vec<_>>();
    assert_eq!(
        top_level_keys,
        vec![
            "as_of",
            "created",
            "dataset_id",
            "lock_hash",
            "member_count",
            "members",
            "note",
            "profiles",
            "skipped",
            "skipped_count",
            "tool_versions",
            "version"
        ]
    );

    let member_keys = parsed["members"][0]
        .as_object()
        .expect("member should be object")
        .keys()
        .cloned()
        .collect::<Vec<_>>();
    assert_eq!(member_keys, vec!["bytes_hash", "fingerprint", "path", "size"]);
}

#[test]
fn pre_hash_lockfile_uses_empty_lock_hash() {
    let lockfile = make_test_lockfile();
    let mut pre_hash = lockfile.clone();
    pre_hash.lock_hash = String::new();
    let canonical = to_canonical_text(&lockfile_value(&pre_hash));

    let parsed: Value = serde_json::from_str(&canonical).expect("should parse");
    assert_eq!(parsed["lock_hash"], "", "pre-hash canonical form must have empty lock_hash");
}

#[test]
fn canonical_text_is_a_fixed_point() {
    let input = v(r#"{"z":[3,{"b":null,"a":"x\"y"}],"a":{"d":-1,"c":true},"m":"é中"}"#);
    let once = to_canonical_text(&input);
    let twice = to_canonical_text(&v(&once));
    assert_eq!(once, twice);
    let a: Value = serde_json::from_str(&once).unwrap();
    let b: Value = serde_json::from_str(r#"{"z":[3,{"b":null,"a":"x\"y"}],"a":{"d":-1,"c":true},"m":"é中"}"#).unwrap();
    assert_eq!(a, b);
}

#[test]
fn canonical_strings_use_serde_json_escapes() {
    let input = JsonValue::Str("a\u{1}b\u{8}\u{c}\u{1f}\u{7f}/é".to_string());
    assert_eq!(to_canonical_text(&input), "\"a\\u0001b\\b\\f\\u001f\u{7f}/é\"");
}
