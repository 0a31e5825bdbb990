use lock::members::{MemberFailure, MemberSkip, MembersResult};
use lock::report::{render_human, render_refusal};
use lock::self_hash::HashDetail;

fn detail(stored: &str, computed: &str, valid: bool) -> HashDetail {
    HashDetail { stored: stored.to_string(), computed: computed.to_string(), valid }
}

fn failure(path: &str, reason: &str) -> MemberFailure {
    MemberFailure {
        path: path.to_string(),
        reason: reason.to_string(),
        expected: None,
        actual: None,
        expected_size: None,
        actual_size: None,
    }
}

fn members(checked: usize, verified: usize, failures: Vec<MemberFailure>, skips: Vec<MemberSkip>) -> MembersResult {
    MembersResult {
        root: "/data".to_string(),
        checked,
        verified,
        failed: failures.len(),
        skipped: skips.len(),
        failures,
        skips,
    }
}

#[test]
fn render_verify_ok_self_hash_only() {
    let hash = "sha256:a1b2c3d4e5f6a1b2c3d4e5f6a1b2c3d4e5f6a1b2c3d4e5f6a1b2c3d4e5f6a1b2";
    let output = render_human("dec.lock.json", &detail(hash, hash, true), None, "VERIFY_OK");
    assert!(output.starts_with('\u{2713}'));
    assert!(output.contains("dec.lock.json"));
    assert!(output.contains("self-hash valid"));
    assert!(!output.contains("members"));
    assert_eq!(output, "\u{2713} dec.lock.json: self-hash valid (sha256:a1b2c3d4...)");
}

#[test]
fn render_verify_ok_with_members() {
    let m = members(5, 5, vec![], vec![]);
    let output = render_human("dec.lock.json", &detail("sha256:abc123", "sha256:abc123", true), Some(&m), "VERIFY_OK");
    assert!(output.contains("5/5 members verified"));
    assert!(output.contains("(?...)"), "a stored hash shorter than 15 bytes shows as ?");
}

#[test]
fn render_verify_failed_tampered() {
    let output = render_human("dec.lock.json", &detail("sha256:aaaa", "sha256:bbbb", false), None, "VERIFY_FAILED");
    assert!(output.contains('\u{2717}'));
    assert!(output.contains("TAMPERED"));
    assert!(output.contains("stored:"));
    assert!(output.contains("computed:"));
}

#[test]
fn render_verify_failed_drift() {
    let m = members(3, 1, vec![failure("tape.csv", "HASH_MISMATCH"), failure("draft.xlsx", "MISSING")], vec![]);
    let output = render_human("dec.lock.json", &detail("sha256:abc", "sha256:abc", true), Some(&m), "VERIFY_FAILED");
    assert!(output.contains("2 of 3 members failed"));
    assert!(output.contains("HASH_MISMATCH: tape.csv"));
    assert!(output.contains("MISSING: draft.xlsx"));
}

#[test]
fn render_verify_partial() {
    let skip = MemberSkip {
        path: "locked.csv".to_string(),
        reason: "IO_ERROR".to_string(),
        detail: "permission denied".to_string(),
    };
    let m = members(3, 2, vec![], vec![skip]);
    let output = render_human("dec.lock.json", &detail("sha256:abc", "sha256:abc", true), Some(&m), "VERIFY_PARTIAL");
    assert!(output.contains('\u{26A0}'));
    assert!(output.contains("2 verified, 1 skipped"));
    assert!(output.contains("IO_ERROR: locked.csv"));
    assert!(output.contains("(permission denied)"));
}

#[test]
fn render_refusal_output() {
    let output = render_refusal("E_BAD_LOCKFILE", "malformed lockfile JSON");
    assert!(output.contains('\u{2717}'));
    assert!(output.contains("E_BAD_LOCKFILE"));
    assert!(output.contains("malformed lockfile JSON"));
}
