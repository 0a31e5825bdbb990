use serde_json::Value;

use lock::input::{read_jsonl_text, InputRecord, ReadResult};
use lock::json::JsonValue;
use lock::lockfile::{FingerprintResult, Lockfile, Member, SkippedEntry, Warning};
use lock::members::{
    judge_file, judge_hash, member_targets, tally_members, verify_outcome, verify_report_value, FileProbe,
    FileVerdict, MemberCheck,
};
use lock::orchestrate::{orchestrate_from_read_result, OrchestrationOutput};
use lock::output::{render_lockfile, DomainOutcome};
use lock::refusal;
use lock::self_hash::{verify_lock_hash_detail, verify_lock_hash_from_json};
use lock::verify::{validate_lockfile_json, ValidationResult};
use lock::verify_flow::{finish_verify, verify_lockfile_text, VerifyStage};

fn records(jsonl: &str) -> ReadResult {
    read_jsonl_text(jsonl).expect("JSONL should parse")
}

fn run(read_result: ReadResult) -> OrchestrationOutput {
    orchestrate_from_read_result(
        read_result,
        "0.1.0",
        Some("dataset-a"),
        Some("2026-02-24T00:00:00Z"),
        Some("note"),
        "2026-02-24T12:00:00Z",
    )
}

fn parsed(output: &OrchestrationOutput) -> Value {
    serde_json::from_str(&output.payload_json).expect("valid JSON")
}

#[test]
fn orchestration_maps_empty_input_to_refusal() {
    let output = run(ReadResult::Empty);
    assert_eq!(output.outcome, DomainOutcome::Refusal);
    let parsed = parsed(&output);
    assert_eq!(parsed["outcome"], "REFUSAL");
    assert_eq!(parsed["refusal"]["code"], "E_EMPTY");
}

#[test]
fn orchestration_maps_missing_hash_to_refusal() {
    let output = run(records(r#"{"version":"hash.v0","relative_path":"a.csv"}"#));
    assert_eq!(output.outcome, DomainOutcome::Refusal);
    assert_eq!(parsed(&output)["refusal"]["code"], "E_MISSING_HASH");
}

#[test]
fn orchestration_maps_skipped_records_to_lock_partial() {
    let output = run(records(concat_lines(&[
        r#"{"version":"hash.v0","relative_path":"a.csv","bytes_hash":"sha256:aaaa","size":1}"#,
        r#"{"version":"hash.v0","_skipped":true,"relative_path":"b.csv","_warnings":[]}"#,
    ])
    .as_str()));
    assert_eq!(output.outcome, DomainOutcome::LockPartial);
    let parsed = parsed(&output);
    assert_eq!(parsed["skipped_count"], 1);
    assert_eq!(parsed["member_count"], 1);
}

#[test]
fn orchestration_maps_complete_records_to_lock_created() {
    let output = run(records(
        r#"{"version":"hash.v0","relative_path":"a.csv","bytes_hash":"sha256:aaaa","size":1,"tool_versions":{"hash":"0.1.0"}}"#,
    ));
    assert_eq!(output.outcome, DomainOutcome::LockCreated);
    let parsed = parsed(&output);
    assert_eq!(parsed["skipped_count"], 0);
    assert_eq!(parsed["member_count"], 1);
    assert_eq!(parsed["version"], "lock.v0");
}

fn concat_lines(lines: &[&str]) -> String {
    lines.iter().map(|l| format!("{l}\n")).collect()
}

#[test]
fn orchestration_refuses_bad_version_with_first_bad_line() {
    let output = run(records(&concat_lines(&[
        r#"{"version":"hash.v0","relative_path":"a.csv","bytes_hash":"sha256:aaaa","size":1}"#,
        r#"{"version":"hash.v9","relative_path":"b.csv"}"#,
        r#"{"relative_path":"c.csv"}"#,
    ])));
    assert_eq!(output.outcome, DomainOutcome::Refusal);
    let parsed = parsed(&output);
    assert_eq!(parsed["refusal"]["code"], "E_BAD_INPUT");
    assert_eq!(parsed["refusal"]["detail"]["line"], 2);
    assert_eq!(parsed["refusal"]["detail"]["version"], "hash.v9");
}

#[test]
fn orchestration_reports_missing_version_as_placeholder() {
    let output = run(records(r#"{"relative_path":"c.csv","bytes_hash":"sha256:1"}"#));
    assert_eq!(parsed(&output)["refusal"]["detail"]["version"], "<missing>");
}

#[test]
fn orchestration_refuses_unclassifiable_record() {
    let output = run(records(r#"{"version":"hash.v0","relative_path":"a.csv","bytes_hash":"sha256:aaaa"}"#));
    assert_eq!(output.outcome, DomainOutcome::Refusal);
    let parsed = parsed(&output);
    assert_eq!(parsed["refusal"]["code"], "E_BAD_INPUT");
    assert_eq!(parsed["refusal"]["detail"]["line"], 1);
    assert_eq!(parsed["refusal"]["detail"]["error"], "missing size");
    assert_eq!(parsed["refusal"]["message"], "invalid JSONL at line 1 — check upstream tool output");
}

#[test]
fn orchestration_sets_lock_version_over_input() {
    let output = run(records(
        r#"{"version":"hash.v0","relative_path":"a.csv","bytes_hash":"sha256:aaaa","size":1,"tool_versions":{"lock":"9.9.9","hash":"0.1.0"}}"#,
    ));
    assert_eq!(parsed(&output)["tool_versions"]["lock"], "0.1.0");
}

#[test]
fn single_valid_record_scenario() {
    let output = run(records(
        r#"{"version":"hash.v0","relative_path":"a.csv","bytes_hash":"sha256:aaaa","size":10}"#,
    ));
    assert_eq!(output.outcome.exit_code(), 0);
    let parsed = parsed(&output);
    assert_eq!(parsed["member_count"], 1);
    assert_eq!(parsed["skipped_count"], 0);
    assert_eq!(parsed["members"][0]["path"], "a.csv");
    assert!(verify_lock_hash_from_json(&output.payload_json).unwrap());
}

#[test]
fn partial_with_skip_scenario() {
    let output = run(records(&concat_lines(&[
        r#"{"version":"hash.v0","relative_path":"a.csv","bytes_hash":"sha256:aaaa","size":10}"#,
        r#"{"version":"hash.v0","relative_path":"b.csv","_skipped":true,"_warnings":[]}"#,
    ])));
    assert_eq!(output.outcome.exit_code(), 1);
    let parsed = parsed(&output);
    assert_eq!(parsed["member_count"], 1);
    assert_eq!(parsed["skipped_count"], 1);
}

#[test]
fn missing_hash_refusal_scenario() {
    let output = run(records(r#"{"version":"hash.v0","relative_path":"a.csv","size":10}"#));
    assert_eq!(output.outcome.exit_code(), 2);
    let parsed = parsed(&output);
    assert_eq!(parsed["refusal"]["code"], "E_MISSING_HASH");
    assert_eq!(parsed["refusal"]["detail"]["count"], 1);
    assert_eq!(parsed["refusal"]["detail"]["sample_paths"], serde_json::from_str::<Value>(r#"["a.csv"]"#).unwrap());
}

#[test]
fn sample_paths_are_capped_at_five_of_seven() {
    let lines: Vec<String> = (0..7)
        .map(|i| format!(r#"{{"version":"hash.v0","relative_path":"f{i}.csv","size":1}}"#))
        .collect();
    let refs: Vec<&str> = lines.iter().map(String::as_str).collect();
    let output = run(records(&concat_lines(&refs)));
    let parsed = parsed(&output);
    assert_eq!(parsed["refusal"]["detail"]["count"], 7);
    assert_eq!(parsed["refusal"]["detail"]["sample_paths"].as_array().unwrap().len(), 5);
    assert_eq!(parsed["refusal"]["message"], "7 records lack bytes_hash — run hash first");
}

fn sha256_label(bytes: &[u8]) -> String {
    format!("sha256:{:x}", <sha2::Sha256 as sha2::Digest>::digest(bytes))
}

/// Locks one file of the given content and checks it against `on_disk`.
fn lock_then_verify(content: &[u8], on_disk: &[u8]) -> (String, u8, Value) {
    let line = format!(
        r#"{{"version":"hash.v0","relative_path":"a.csv","bytes_hash":"{}","size":{}}}"#,
        sha256_label(content),
        content.len()
    );
    let locked = run(records(&line));
    let json = locked.payload_json;
    let value = match validate_lockfile_json(&json) {
        ValidationResult::Valid(value) => value,
        ValidationResult::Refusal(r) => panic!("unexpected refusal {r}"),
    };
    let detail = verify_lock_hash_detail(&json).unwrap();
    let mut checks = Vec::new();
    for target in member_targets(&value) {
        let check = match judge_file(&target, FileProbe::Present(on_disk.len() as u64)) {
            FileVerdict::Done(check) => check,
            FileVerdict::NeedsHash(size) => judge_hash(&target, size, Ok(sha256_label(on_disk))),
        };
        checks.push(check);
    }
    let members = tally_members("/data", checks);
    let (outcome, code) = verify_outcome(detail.valid, Some(&members), false);
    let report = verify_report_value("a.lock.json", &detail, Some(&members), outcome, "0.1.0");
    let report: Value = serde_json::from_str(&lock::canonical::to_canonical_text(&report)).unwrap();
    (outcome.to_string(), code, report)
}

#[test]
fn verify_success_scenario() {
    let (outcome, code, report) = lock_then_verify(b"hello world", b"hello world");
    assert_eq!(outcome, "VERIFY_OK");
    assert_eq!(code, 0);
    assert_eq!(report["members"]["verified"], 1);
    assert_eq!(report["members"]["failed"], 0);
    assert_eq!(report["lock_hash"]["valid"], true);
}

#[test]
fn verify_drift_scenario() {
    let (outcome, code, report) = lock_then_verify(b"hello world", b"hello_world");
    assert_eq!(outcome, "VERIFY_FAILED");
    assert_eq!(code, 1);
    assert_eq!(report["members"]["failures"].as_array().unwrap().len(), 1);
    assert_eq!(report["members"]["failures"][0]["reason"], "HASH_MISMATCH");
}

#[test]
fn verify_size_mismatch_skips_hashing() {
    let value = match read_jsonl_text(r#"{"members":[{"path":"a.csv","bytes_hash":"sha256:aa","size":5}]}"#).unwrap() {
        ReadResult::Records(mut r) => r.remove(0).value,
        ReadResult::Empty => unreachable!(),
    };
    let targets = member_targets(&value);
    match judge_file(&targets[0], FileProbe::Present(6)) {
        FileVerdict::Done(MemberCheck::Failed(f)) => {
            assert_eq!(f.reason, "SIZE_MISMATCH");
            assert_eq!(f.expected_size, Some(5));
            assert_eq!(f.actual_size, Some(6));
        }
        other => panic!("expected a size mismatch, got {other:?}"),
    }
    match judge_file(&targets[0], FileProbe::Missing) {
        FileVerdict::Done(MemberCheck::Failed(f)) => assert_eq!(f.reason, "MISSING"),
        other => panic!("expected missing, got {other:?}"),
    }
    match judge_file(&targets[0], FileProbe::StatError("denied".to_string())) {
        FileVerdict::Done(MemberCheck::Skipped(s)) => {
            assert_eq!(s.reason, "IO_ERROR");
            assert_eq!(s.detail, "denied");
        }
        other => panic!("expected a skip, got {other:?}"),
    }
}

#[test]
fn tampered_lockfile_scenario() {
    let locked = run(records(r#"{"version":"hash.v0","relative_path":"a.csv","bytes_hash":"sha256:aaaa","size":10}"#));
    let tampered = locked.payload_json.replace("\"note\"", "\"nOte\"");
    assert_ne!(tampered, locked.payload_json);
    let detail = verify_lock_hash_detail(&tampered).unwrap();
    assert!(!detail.valid);
    let (outcome, code) = verify_outcome(detail.valid, None, false);
    assert_eq!((outcome, code), ("VERIFY_FAILED", 1));
    let report = verify_report_value("a.lock.json", &detail, None, outcome, "0.1.0");
    let report: Value = serde_json::from_str(&lock::canonical::to_canonical_text(&report)).unwrap();
    assert_eq!(report["lock_hash"]["valid"], false);
    assert!(report["members"].is_null());
}

#[test]
fn golden_refusal_missing_hash_matches_fixture() {
    let actual = refusal::missing_hash(2, vec!["a.csv".to_owned(), "b.csv".to_owned()]).to_json();
    let expected = r#"{"outcome":"REFUSAL","refusal":{"code":"E_MISSING_HASH","detail":{"count":2,"sample_paths":["a.csv","b.csv"]},"message":"2 records lack bytes_hash — run hash first","next_command":"vacuum <path> | hash | lock"},"version":"lock.v0"}"#;
    assert_eq!(actual, expected);
    assert!(!actual.ends_with('\n'));
}

#[test]
fn golden_lockfile_render_matches_fixture() {
    let lockfile = Lockfile {
        version: "lock.v0".to_owned(),
        lock_hash: "sha256:fixture-lock-hash".to_owned(),
        dataset_id: Some("dataset-golden".to_owned()),
        as_of: Some("2026-01-31T00:00:00Z".to_owned()),
        note: Some("fixture note".to_owned()),
        created: "2026-02-01T00:00:00Z".to_owned(),
        tool_versions: vec![
            ("vacuum".to_owned(), "0.1.0".to_owned()),
            ("lock".to_owned(), "0.1.0".to_owned()),
        ],
        profiles: vec![],
        skipped: vec![SkippedEntry {
            path: "skip/me.csv".to_owned(),
            warnings: vec![Warning {
                tool: "vacuum".to_owned(),
                code: "W_SKIPPED".to_owned(),
                message: "fixture skip".to_owned(),
                detail: vec![("reason".to_owned(), "fixture".to_owned())],
            }],
        }],
        members: vec![Member {
            path: "a.csv".to_owned(),
            bytes_hash: "sha256:aaaaaaaa".to_owned(),
            size: 10,
            fingerprint: Some(FingerprintResult {
                fingerprint_id: "fp.v1".to_owned(),
                fingerprint_version: "0.3.0".to_owned(),
                matched: true,
                content_hash: None,
            }),
        }],
        skipped_count: 1,
        member_count: 1,
    };
    let expected = [
        r#"{"as_of":"2026-01-31T00:00:00Z","created":"2026-02-01T00:00:00Z","dataset_id":"dataset-golden","#,
        r#""lock_hash":"sha256:fixture-lock-hash","member_count":1,"members":[{"bytes_hash":"sha256:aaaaaaaa","#,
        r#""fingerprint":{"content_hash":null,"fingerprint_id":"fp.v1","fingerprint_version":"0.3.0","matched":true},"#,
        r#""path":"a.csv","size":10}],"note":"fixture note","profiles":[],"skipped":[{"path":"skip/me.csv","#,
        r#""warnings":[{"code":"W_SKIPPED","detail":{"reason":"fixture"},"message":"fixture skip","tool":"vacuum"}]}],"#,
        r#""skipped_count":1,"tool_versions":{"lock":"0.1.0","vacuum":"0.1.0"},"version":"lock.v0"}"#,
    ]
    .concat();
    let rendered = render_lockfile(&lockfile);
    assert_eq!(rendered.json, expected);
    assert_eq!(rendered.outcome, DomainOutcome::LockPartial);
}

#[test]
fn render_lockfile_is_compact_and_json() {
    let lockfile = Lockfile {
        version: "lock.v0".to_owned(),
        lock_hash: "sha256:abc".to_owned(),
        dataset_id: Some("dataset-a".to_owned()),
        as_of: None,
        note: None,
        created: "2026-02-24T00:00:00Z".to_owned(),
        tool_versions: vec![("lock".to_owned(), "0.1.0".to_owned())],
        profiles: vec![],
        skipped: vec![],
        members: vec![Member {
            path: "a.csv".to_owned(),
            bytes_hash: "sha256:aaaa".to_owned(),
            size: 10,
            fingerprint: None,
        }],
        skipped_count: 0,
        member_count: 1,
    };
    let rendered = render_lockfile(&lockfile);
    let parsed: Value = serde_json::from_str(&rendered.json).expect("rendered output should parse");
    assert_eq!(rendered.outcome, DomainOutcome::LockCreated);
    assert_eq!(parsed["version"], "lock.v0");
    assert_eq!(parsed["member_count"], 1);
    assert!(!rendered.json.ends_with('\n'));
}

#[test]
fn first_seen_version_wins_in_rendered_output() {
    let output = run(records(&concat_lines(&[
        r#"{"version":"hash.v0","relative_path":"a.csv","bytes_hash":"sha256:a","size":1,"tool_versions":{"hash":"1.0.0"}}"#,
        r#"{"version":"hash.v0","relative_path":"b.csv","bytes_hash":"sha256:b","size":1,"tool_versions":{"hash":"2.0.0"}}"#,
    ])));
    assert_eq!(parsed(&output)["tool_versions"]["hash"], "1.0.0");
}

#[test]
fn input_order_does_not_change_output() {
    let a = r#"{"version":"hash.v0","relative_path":"a.csv","bytes_hash":"sha256:a","size":1}"#;
    let b = r#"{"version":"hash.v0","relative_path":"b\\c.csv","bytes_hash":"sha256:b","size":2}"#;
    let s = r#"{"version":"hash.v0","relative_path":"s.csv","_skipped":true,"_warnings":[]}"#;
    let first = run(records(&concat_lines(&[a, b, s])));
    let second = run(records(&concat_lines(&[s, b, a])));
    assert_eq!(first.payload_json, second.payload_json);
    assert_eq!(parsed(&first)["members"][1]["path"], "b/c.csv");
}

#[test]
fn records_keep_line_numbers() {
    let ReadResult::Records(rs) = records(&concat_lines(&["{}", "[]", "3"])) else {
        panic!("expected records");
    };
    let numbers: Vec<usize> = rs.iter().map(|r: &InputRecord| r.line_number).collect();
    assert_eq!(numbers, vec![1, 2, 3]);
    assert!(matches!(rs[2].value, JsonValue::Int(3)));
}

#[test]
fn text_run_refuses_blank_line_at_its_number() {
    let output = lock::orchestrate::orchestrate_text("{}\n\n{}\n", "0.1.0", None, None, None, "t");
    assert_eq!(output.outcome, DomainOutcome::Refusal);
    let parsed = parsed(&output);
    assert_eq!(parsed["refusal"]["code"], "E_BAD_INPUT");
    assert_eq!(parsed["refusal"]["detail"]["line"], 2);
    assert_eq!(parsed["refusal"]["detail"]["error"], "line is empty; expected one JSON value per line");
}

#[test]
fn text_run_of_empty_input_is_empty_refusal() {
    let output = lock::orchestrate::orchestrate_text("", "0.1.0", None, None, None, "t");
    assert_eq!(parsed(&output)["refusal"]["code"], "E_EMPTY");
}

#[test]
fn verify_stages_follow_the_state_machine() {
    let locked = run(records(r#"{"version":"hash.v0","relative_path":"a.csv","bytes_hash":"sha256:aaaa","size":10}"#));
    let json = locked.payload_json;

    match verify_lockfile_text("not json", None, false) {
        VerifyStage::Refused(t) => assert!(t.contains("E_BAD_LOCKFILE")),
        other => panic!("expected refusal, got {other:?}"),
    }
    match verify_lockfile_text(&json, Some("/nowhere"), false) {
        VerifyStage::Refused(t) => assert!(t.contains("E_ROOT_NOT_FOUND")),
        other => panic!("expected refusal, got {other:?}"),
    }
    match verify_lockfile_text(&json, None, false) {
        VerifyStage::Checked { detail, targets } => {
            assert!(detail.valid);
            assert!(targets.is_none());
            let out = finish_verify("a.lock.json", &detail, None, false, true, "0.1.0");
            assert_eq!((out.outcome, out.exit_code), ("VERIFY_OK", 0));
            let report: Value = serde_json::from_str(&out.payload).unwrap();
            assert!(report["members"].is_null());
            assert_eq!(report["version"], "lock-verify.v0");
        }
        other => panic!("expected a checked lockfile, got {other:?}"),
    }
    match verify_lockfile_text(&json, Some("/data"), true) {
        VerifyStage::Checked { targets: Some(targets), .. } => {
            assert_eq!(targets.len(), 1);
            assert_eq!(targets[0].path, "a.csv");
            assert_eq!(targets[0].expected_size, Some(10));
        }
        other => panic!("expected targets, got {other:?}"),
    }
    let tampered = json.replace("\"a.csv\"", "\"b.csv\"");
    match verify_lockfile_text(&tampered, Some("/data"), true) {
        VerifyStage::Checked { detail, targets } => {
            assert!(!detail.valid);
            assert!(targets.is_none(), "a bad self-hash gates member checks");
            let out = finish_verify("a.lock.json", &detail, None, false, false, "0.1.0");
            assert_eq!((out.outcome, out.exit_code), ("VERIFY_FAILED", 1));
            assert!(out.payload.contains("TAMPERED"));
        }
        other => panic!("expected a checked lockfile, got {other:?}"),
    }
}
