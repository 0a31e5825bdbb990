//! The lock pipeline: from read records to the rendered lockfile or refusal.

use vstd::prelude::*;
use crate::canonical::{canon, sort_by};
use crate::input::{
    empty_line_message, line_ok, read_jsonl_text, text_lines, InputError,
    missing_hash_paths, sample_of, validate_records, version_ok, InputRecord, ReadResult,
    ValidationError,
};
use crate::json::{field, parsed_json, str_of, Json};
use crate::text::is_blank;
use crate::lockfile::{
    classify_records, first_error, hydrate_metadata, kept_members, lockfile_json,
    merged_tool_versions, member_path, skipped_entries, skipped_path, with_lock_hash,
    ClassificationError, Lockfile, LockfileView,
};
use crate::output::{lockfile_outcome, render_lockfile, DomainOutcome};
use crate::refusal::{
    bad_input_parse, bad_input_version, bad_parse_message, bad_version_message, code_name, empty,
    envelope_json, missing_hash, missing_hash_detail, missing_hash_message, pipeline_command,
    refusal_envelope_json, RefusalCode, RefusalEnvelope, LOCK_VERSION,
};
use crate::self_hash::{compute_lock_hash, json_lock_hash_valid, lemma_json_round_trip, lemma_self_hash_round_trip, lock_hash_of};
use crate::members::{verify_outcome_spec, MembersResult};
use crate::output::outcome_exit_code;

verus! {

/// The version this tool records for itself under `lock`.
pub const TOOL_VERSION: &'static str = "0.1.0";

/// What a lock run prints and the outcome it ends with.
#[derive(Debug, Clone)]
pub struct OrchestrationOutput {
    pub outcome: DomainOutcome,
    pub payload_json: String,
}

/// The canonical text of a lock refusal.
pub open spec fn refusal_text(code: RefusalCode, message: Seq<char>, detail: Json, next: Option<Seq<char>>) -> Seq<char> {
    canon(envelope_json("lock.v0"@, "REFUSAL"@, code_name(code), message, detail, next))
}

/// Whether record `k` is the first with an unaccepted version.
pub open spec fn first_bad_version(recs: Seq<InputRecord>, k: int) -> bool {
    &&& 0 <= k < recs.len()
    &&& forall|j: int| 0 <= j < k ==> version_ok(#[trigger] recs[j].value@)
    &&& !version_ok(recs[k].value@)
}

/// The line and fixed message of a classification error.
pub open spec fn classification_message(e: ClassificationError) -> (usize, Seq<char>) {
    match e {
        ClassificationError::MissingPath { line_number } => (line_number, "missing path/relative_path"@),
        ClassificationError::MissingBytesHash { line_number } => (line_number, "missing bytes_hash"@),
        ClassificationError::MissingSize { line_number } => (line_number, "missing size"@),
    }
}

/// The lockfile assembled from records and run metadata, with its self-hash.
pub open spec fn assembled(
    recs: Seq<InputRecord>,
    lock_version: Seq<char>,
    dataset_id: Option<Seq<char>>,
    as_of: Option<Seq<char>>,
    note: Option<Seq<char>>,
    created: Seq<char>,
) -> LockfileView {
    let members = sort_by(member_path(), kept_members(recs));
    let skipped = sort_by(skipped_path(), skipped_entries(recs));
    let pre = LockfileView {
        version: "lock.v0"@,
        lock_hash: seq![],
        dataset_id,
        as_of,
        note,
        created,
        tool_versions: merged_tool_versions(recs, lock_version),
        profiles: seq![],
        skipped,
        members,
        skipped_count: skipped.len() as u64,
        member_count: members.len() as u64,
    };
    with_lock_hash(pre, lock_hash_of(pre))
}

/// The outcome and printed text of a lock run on the records.
pub open spec fn lock_result(
    recs: Seq<InputRecord>,
    lock_version: Seq<char>,
    dataset_id: Option<Seq<char>>,
    as_of: Option<Seq<char>>,
    note: Option<Seq<char>>,
    created: Seq<char>,
) -> (DomainOutcome, Seq<char>) {
    if exists|k: int| first_bad_version(recs, k) {
        let k = choose|k: int| first_bad_version(recs, k);
        let v = match str_of(field(recs[k].value@, "version"@)) {
            Some(s) => s,
            None => "<missing>"@,
        };
        let line = recs[k].line_number;
        (
            DomainOutcome::Refusal,
            refusal_text(
                RefusalCode::BadInput,
                bad_version_message(line as nat, v),
                Json::Object(seq![("line"@, Json::Int(line as int)), ("version"@, Json::Str(v))]),
                None,
            ),
        )
    } else if missing_hash_paths(recs).len() > 0 {
        let paths = missing_hash_paths(recs);
        (
            DomainOutcome::Refusal,
            refusal_text(
                RefusalCode::MissingHash,
                missing_hash_message(paths.len()),
                missing_hash_detail(paths.len(), sample_of(paths)),
                Some(pipeline_command()),
            ),
        )
    } else {
        match first_error(recs) {
            Some(e) => {
                let (line, msg) = classification_message(e);
                (
                    DomainOutcome::Refusal,
                    refusal_text(
                        RefusalCode::BadInput,
                        bad_parse_message(line as nat),
                        Json::Object(seq![("error"@, Json::Str(msg)), ("line"@, Json::Int(line as int))]),
                        None,
                    ),
                )
            },
            None => {
                let l = assembled(recs, lock_version, dataset_id, as_of, note, created);
                (lockfile_outcome(l.skipped.len()), canon(lockfile_json(l)))
            },
        }
    }
}

/// The canonical text of the `E_EMPTY` refusal.
pub open spec fn empty_refusal_text() -> Seq<char> {
    refusal_text(
        RefusalCode::Empty,
        "no input records — run vacuum first"@,
        Json::Object(seq![]),
        Some(pipeline_command()),
    )
}

/// The view of an optional borrowed text.
pub open spec fn opt_str(o: Option<&str>) -> Option<Seq<char>> {
    match o {
        Some(s) => Some(s@),
        None => None,
    }
}

/// A refusal envelope as the run's output.
pub fn refusal_output(envelope: RefusalEnvelope) -> (r: OrchestrationOutput)
    ensures
        r.outcome == DomainOutcome::Refusal,
        r.payload_json@ == canon(refusal_envelope_json(envelope)),
{
    OrchestrationOutput { outcome: DomainOutcome::Refusal, payload_json: envelope.to_json() }
}

/// Runs the lock pipeline on what was read: refusals for empty input, bad
/// versions, missing hashes and unclassifiable records; otherwise the
/// self-hashed lockfile, created at `created`.
pub fn orchestrate_from_read_result(
    read_result: ReadResult,
    lock_version: &str,
    dataset_id: Option<&str>,
    as_of: Option<&str>,
    note: Option<&str>,
    created: &str,
) -> (r: OrchestrationOutput)
    ensures
        match read_result {
            ReadResult::Empty => r.outcome == DomainOutcome::Refusal && r.payload_json@ == empty_refusal_text(),
            ReadResult::Records(recs) => (r.outcome, r.payload_json@) == lock_result(
                recs@,
                lock_version@,
                opt_str(dataset_id),
                opt_str(as_of),
                opt_str(note),
                created@,
            ),
        },
{
    let records = match read_result {
        ReadResult::Empty => {
            let e = empty();
            proof { reveal_strlit("lock.v0"); reveal_strlit("REFUSAL"); }
            return refusal_output(e);
        },
        ReadResult::Records(records) => records,
    };
    let ghost recs = records@;
    proof { reveal_strlit("lock.v0"); reveal_strlit("REFUSAL"); }
    match validate_records(records.as_slice()) {
        Ok(()) => {},
        Err(ValidationError::BadVersion(detail)) => {
            let out = match &detail.version {
                Some(v) => refusal_output(bad_input_version(detail.line, v.as_str())),
                None => refusal_output(bad_input_version(detail.line, "<missing>")),
            };
            proof {
                let k = choose|k: int| {
                    &&& 0 <= k < recs.len()
                    &&& forall|j: int| 0 <= j < k ==> version_ok(#[trigger] recs[j].value@)
                    &&& !version_ok(#[trigger] recs[k].value@)
                    &&& detail.line == recs[k].line_number
                    &&& crate::input::opt_text(detail.version) == str_of(field(recs[k].value@, "version"@))
                };
                assert(first_bad_version(recs, k));
                let k2 = choose|k: int| first_bad_version(recs, k);
                if k2 < k {
                    assert(version_ok(recs[k2].value@));
                } else if k < k2 {
                    assert(version_ok(recs[k].value@));
                }
            }
            return out;
        },
        Err(ValidationError::MissingHash(detail)) => {
            proof {
                assert(!exists|k: int| first_bad_version(recs, k));
            }
            return refusal_output(missing_hash(detail.count, detail.sample_paths));
        },
    }
    proof {
        assert(!exists|k: int| first_bad_version(recs, k));
    }
    let classification = match classify_records(records.as_slice()) {
        Ok(c) => c,
        Err(e) => {
            let (line, message) = match e {
                ClassificationError::MissingPath { line_number } => (line_number, "missing path/relative_path"),
                ClassificationError::MissingBytesHash { line_number } => (line_number, "missing bytes_hash"),
                ClassificationError::MissingSize { line_number } => (line_number, "missing size"),
            };
            return refusal_output(bad_input_parse(line, message));
        },
    };
    let metadata = hydrate_metadata(records.as_slice(), lock_version, dataset_id, as_of, note);
    let mut lockfile = Lockfile {
        version: LOCK_VERSION.to_owned(),
        lock_hash: String::new(),
        dataset_id: metadata.dataset_id,
        as_of: metadata.as_of,
        note: metadata.note,
        created: created.to_owned(),
        tool_versions: metadata.tool_versions,
        profiles: metadata.profiles,
        skipped: classification.skipped,
        members: classification.members,
        skipped_count: classification.skipped_count,
        member_count: classification.member_count,
    };
    let ghost pre = lockfile@;
    assert(pre.profiles =~= seq![]);
    assert(pre == with_lock_hash(assembled(recs, lock_version@, opt_str(dataset_id), opt_str(as_of), opt_str(note), created@), seq![]));
    lockfile.lock_hash = compute_lock_hash(&lockfile);
    assert(lockfile@ == assembled(recs, lock_version@, opt_str(dataset_id), opt_str(as_of), opt_str(note), created@));
    let artifact = render_lockfile(&lockfile);
    OrchestrationOutput { outcome: artifact.outcome, payload_json: artifact.json }
}

/// Whether line `k` is the first that is blank or not JSON.
pub open spec fn first_bad_line(ls: Seq<Seq<char>>, k: int) -> bool {
    &&& 0 <= k < ls.len()
    &&& !line_ok(ls[k])
    &&& forall|j: int| 0 <= j < k ==> line_ok(#[trigger] ls[j])
}

/// Whether the records are the lines' values, numbered from 1.
pub open spec fn records_of_lines(recs: Seq<InputRecord>, ls: Seq<Seq<char>>) -> bool {
    &&& recs.len() == ls.len()
    &&& forall|k: int| 0 <= k < recs.len() ==> {
        &&& (#[trigger] recs[k]).line_number == k + 1
        &&& parsed_json(ls[k]) == Some(recs[k].value@)
    }
}

/// Runs the lock pipeline on JSONL text: the first line that is blank or
/// not JSON is an `E_BAD_INPUT` refusal at that line; no lines is
/// `E_EMPTY`; otherwise the run on the lines' values.
pub fn orchestrate_text(
    text: &str,
    lock_version: &str,
    dataset_id: Option<&str>,
    as_of: Option<&str>,
    note: Option<&str>,
    created: &str,
) -> (r: OrchestrationOutput)
    ensures
        ({
            let ls = text_lines(text@);
            if exists|k: int| first_bad_line(ls, k) {
                &&& r.outcome == DomainOutcome::Refusal
                &&& exists|k: int, msg: Seq<char>| {
                    &&& first_bad_line(ls, k)
                    &&& (is_blank(ls[k]) ==> msg == empty_line_message())
                    &&& r.payload_json@ == refusal_text(
                        RefusalCode::BadInput,
                        bad_parse_message((k + 1) as nat),
                        Json::Object(seq![("error"@, Json::Str(msg)), ("line"@, Json::Int(k + 1))]),
                        None,
                    )
                }
            } else if ls.len() == 0 {
                r.outcome == DomainOutcome::Refusal && r.payload_json@ == empty_refusal_text()
            } else {
                exists|recs: Seq<InputRecord>| {
                    &&& records_of_lines(recs, ls)
                    &&& (r.outcome, r.payload_json@) == lock_result(
                        recs,
                        lock_version@,
                        opt_str(dataset_id),
                        opt_str(as_of),
                        opt_str(note),
                        created@,
                    )
                }
            }
        }),
{
    proof { reveal_strlit("lock.v0"); reveal_strlit("REFUSAL"); }
    let ghost ls = text_lines(text@);
    match read_jsonl_text(text) {
        Ok(read_result) => {
            proof {
                if read_result is Records {
                    assert(records_of_lines(read_result->Records_0@, ls));
                }
            }
            orchestrate_from_read_result(read_result, lock_version, dataset_id, as_of, note, created)
        },
        Err(InputError::Parse(detail)) => {
            let out = refusal_output(bad_input_parse(detail.line, detail.error.as_str()));
            proof {
                let k = detail.line - 1;
                assert(first_bad_line(ls, k));
                assert(detail.line as int == k + 1);
            }
            out
        },
        Err(InputError::Io(message)) => refusal_output(bad_input_parse(0, message.as_str())),
    }
}

/// An assembled lockfile passes its self-hash check, both as a value and
/// in its JSON form.
pub proof fn lemma_assembled_verifies(
    recs: Seq<InputRecord>,
    lock_version: Seq<char>,
    dataset_id: Option<Seq<char>>,
    as_of: Option<Seq<char>>,
    note: Option<Seq<char>>,
    created: Seq<char>,
)
    ensures
        ({
            let l = assembled(recs, lock_version, dataset_id, as_of, note, created);
            &&& l.lock_hash == lock_hash_of(l)
            &&& json_lock_hash_valid(lockfile_json(l))
        }),
{
    let members = sort_by(member_path(), kept_members(recs));
    let skipped = sort_by(skipped_path(), skipped_entries(recs));
    let pre = LockfileView {
        version: "lock.v0"@,
        lock_hash: seq![],
        dataset_id,
        as_of,
        note,
        created,
        tool_versions: merged_tool_versions(recs, lock_version),
        profiles: seq![],
        skipped,
        members,
        skipped_count: skipped.len() as u64,
        member_count: members.len() as u64,
    };
    lemma_self_hash_round_trip(pre);
    lemma_json_round_trip(pre);
}

/// Exit codes: `LOCK_CREATED` 0, `LOCK_PARTIAL` 1, any refusal 2,
/// `VERIFY_OK` 0, `VERIFY_PARTIAL` 1, `VERIFY_FAILED` 1.
pub proof fn lemma_exit_code_contract(hash_valid: bool, members: Option<MembersResult>, strict: bool)
    ensures
        outcome_exit_code(DomainOutcome::LockCreated) == 0,
        outcome_exit_code(DomainOutcome::LockPartial) == 1,
        outcome_exit_code(DomainOutcome::Refusal) == 2,
        ({
            let (name, code) = verify_outcome_spec(hash_valid, members, strict);
            &&& name == "VERIFY_OK"@ ==> code == 0
            &&& name == "VERIFY_PARTIAL"@ ==> code == 1
            &&& name == "VERIFY_FAILED"@ ==> code == 1
            &&& (name == "VERIFY_OK"@ || name == "VERIFY_PARTIAL"@ || name == "VERIFY_FAILED"@)
        }),
{
    reveal_strlit("VERIFY_OK");
    reveal_strlit("VERIFY_PARTIAL");
    reveal_strlit("VERIFY_FAILED");
    assert("VERIFY_OK"@[7] != "VERIFY_PARTIAL"@[7]);
    assert("VERIFY_OK"@[7] != "VERIFY_FAILED"@[7]);
    assert("VERIFY_PARTIAL"@[7] != "VERIFY_FAILED"@[7]);
}

} // verus!
