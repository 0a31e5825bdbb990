//! The verify run as decisions around file access: what to do once the
//! lockfile text is read, and what to print once members are checked.

use vstd::prelude::*;
use crate::canonical::{canon, to_canonical_text};
use crate::digest::sha256_label;
use crate::json::parsed_json;
use crate::members::{
    member_targets, member_values, verify_outcome, verify_outcome_spec, verify_report_json, verify_report_value,
    MemberTarget, MembersResult,
};
use crate::report::{human_text, render_human};
use crate::self_hash::{blank_lock_hash, json_lock_hash_valid, lock_hash_detail_of, stored_lock_hash, HashDetail};
use crate::verify::{
    parse_refusal_text, refusal_root_not_found, shape_problem, text_field_or_empty, validate_lockfile_json,
    verify_refusal_text, ValidationResult, VerifyRefusalCode,
};

verus! {

/// Where a verify run stands once the lockfile text is read.
#[derive(Debug)]
pub enum VerifyStage {
    /// Stop with this refusal text.
    Refused(String),
    /// The self-hash is checked; the members are to be checked against the
    /// root when `targets` is given.
    Checked { detail: HashDetail, targets: Option<Vec<MemberTarget>> },
}

/// Checks a read lockfile: JSON, shape, the root directory when one is
/// given, then the self-hash. Members are to be checked only when a root is
/// given and the self-hash holds.
pub fn verify_lockfile_text(json: &str, root: Option<&str>, root_is_dir: bool) -> (r: VerifyStage)
    ensures
        match parsed_json(json@) {
            None => r is Refused && exists|e: Seq<char>| r->Refused_0@ == parse_refusal_text(e),
            Some(v) => match shape_problem(v) {
                Some(t) => r is Refused && r->Refused_0@ == t,
                None => match root {
                    Some(dir) if !root_is_dir => r is Refused && r->Refused_0@ == verify_refusal_text(
                        VerifyRefusalCode::RootNotFound,
                        "root directory not found: "@ + dir@,
                        crate::json::Json::Object(seq![("root"@, crate::json::Json::Str(dir@))]),
                    ),
                    _ => match r {
                        VerifyStage::Checked { detail, targets } => {
                            &&& detail.valid == json_lock_hash_valid(v)
                            &&& detail.stored@ == stored_lock_hash(v)
                            &&& detail.computed@ == sha256_label(canon(blank_lock_hash(v)))
                            &&& (targets is Some <==> (root is Some && detail.valid))
                            &&& (targets matches Some(ts) ==> ts@.len() == member_values(v).len() && forall|i: int|
                                0 <= i < ts@.len() ==> {
                                    let m = #[trigger] member_values(v)[i];
                                    &&& ts@[i].path@ == text_field_or_empty(m, "path"@)
                                    &&& ts@[i].expected_hash@ == text_field_or_empty(m, "bytes_hash"@)
                                    &&& ts@[i].expected_size == crate::json::u64_of(crate::json::field(m, "size"@))
                                })
                        },
                        VerifyStage::Refused(_) => false,
                    },
                },
            },
        },
{
    let value = match validate_lockfile_json(json) {
        ValidationResult::Valid(value) => value,
        ValidationResult::Refusal(payload) => return VerifyStage::Refused(payload),
    };
    if let Some(dir) = root {
        if !root_is_dir {
            return VerifyStage::Refused(refusal_root_not_found(dir));
        }
    }
    let targets = if root.is_some() {
        Some(member_targets(&value))
    } else {
        None
    };
    let detail = lock_hash_detail_of(value);
    let targets = if detail.valid { targets } else { None };
    VerifyStage::Checked { detail, targets }
}

/// What a verify run prints and how it exits.
#[derive(Debug)]
pub struct VerifyOutput {
    pub outcome: &'static str,
    pub exit_code: u8,
    pub payload: String,
}

/// The outcome, exit code and printed text of a verify run: the report
/// as canonical JSON, or as text for a reader.
pub fn finish_verify(
    lockfile: &str,
    detail: &HashDetail,
    members: Option<&MembersResult>,
    strict: bool,
    json_output: bool,
    tool_version: &str,
) -> (r: VerifyOutput)
    ensures
        ({
            let m = match members {
                Some(m) => Some(*m),
                None => None,
            };
            let (name, code) = verify_outcome_spec(detail.valid, m, strict);
            &&& r.outcome@ == name
            &&& r.exit_code == code
            &&& r.payload@ == if json_output {
                canon(verify_report_json(lockfile@, detail.stored@, detail.computed@, detail.valid, m, name, tool_version@))
            } else {
                human_text(lockfile@, detail.stored@, detail.computed@, detail.valid, m, name)
            }
        }),
{
    let (outcome, exit_code) = verify_outcome(detail.valid, members, strict);
    let payload = if json_output {
        let report = verify_report_value(lockfile, detail, members, outcome, tool_version);
        to_canonical_text(&report)
    } else {
        render_human(lockfile, detail, members, outcome)
    };
    VerifyOutput { outcome, exit_code, payload }
}

} // verus!
