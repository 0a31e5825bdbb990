//! Member verification: what each member's file check concludes, and the
//! aggregate over all members.

use vstd::prelude::*;
use crate::json::{field, lemma_view_items, lemma_view_items_push, opt_text_value, opt_view, push_entry, text_json, text_value, u64_of, view_entries, view_items, Json, JsonValue};
use crate::text::{push_text};
use crate::verify::{algorithm_prefix, hash_prefix, text_field_or_empty};

verus! {

/// The aggregate of verifying every member against the filesystem.
#[derive(Debug, Clone)]
pub struct MembersResult {
    pub root: String,
    pub checked: usize,
    pub verified: usize,
    pub failed: usize,
    pub skipped: usize,
    pub failures: Vec<MemberFailure>,
    pub skips: Vec<MemberSkip>,
}

/// A member whose file is missing or differs.
#[derive(Debug, Clone)]
pub struct MemberFailure {
    pub path: String,
    pub reason: String,
    pub expected: Option<String>,
    pub actual: Option<String>,
    pub expected_size: Option<u64>,
    pub actual_size: Option<u64>,
}

/// A member whose file could not be read.
#[derive(Debug, Clone)]
pub struct MemberSkip {
    pub path: String,
    pub reason: String,
    pub detail: String,
}

/// The outcome name and exit code for member results.
pub open spec fn members_outcome_spec(failed: usize, skipped: usize, strict: bool) -> (Seq<char>, u8) {
    if failed > 0 {
        ("VERIFY_FAILED"@, 1)
    } else if skipped > 0 {
        if strict {
            ("VERIFY_FAILED"@, 1)
        } else {
            ("VERIFY_PARTIAL"@, 1)
        }
    } else {
        ("VERIFY_OK"@, 0)
    }
}

/// Any failure fails; otherwise a skip makes the result partial (failed
/// when strict); otherwise all verified.
pub fn members_outcome(result: &MembersResult, strict: bool) -> (r: (&'static str, u8))
    ensures
        (r.0@, r.1) == members_outcome_spec(result.failed, result.skipped, strict),
{
    if result.failed > 0 {
        ("VERIFY_FAILED", 1)
    } else if result.skipped > 0 {
        if strict {
            ("VERIFY_FAILED", 1)
        } else {
            ("VERIFY_PARTIAL", 1)
        }
    } else {
        ("VERIFY_OK", 0)
    }
}

/// What the lockfile says of one member.
#[derive(Debug, Clone)]
pub struct MemberTarget {
    pub path: String,
    pub expected_hash: String,
    pub expected_size: Option<u64>,
}

/// The members array of a lockfile value, or nothing.
pub open spec fn member_values(v: Json) -> Seq<Json> {
    match field(v, "members"@) {
        Some(Json::Array(ms)) => ms,
        _ => seq![],
    }
}

/// What the lockfile says of each member, in order.
pub fn member_targets(lockfile: &JsonValue) -> (r: Vec<MemberTarget>)
    ensures
        r@.len() == member_values(lockfile@).len(),
        forall|i: int| 0 <= i < r@.len() ==> {
            let m = #[trigger] member_values(lockfile@)[i];
            &&& r@[i].path@ == text_field_or_empty(m, "path"@)
            &&& r@[i].expected_hash@ == text_field_or_empty(m, "bytes_hash"@)
            &&& r@[i].expected_size == u64_of(field(m, "size"@))
        },
{
    let mut out: Vec<MemberTarget> = Vec::new();
    match lockfile.get("members") {
        Some(JsonValue::Array(ms)) => {
            let ghost vs = view_items(ms@);
            proof { lemma_view_items(ms@); }
            let mut i: usize = 0;
            while i < ms.len()
                invariant
                    i <= ms@.len(),
                    vs == view_items(ms@),
                    vs == member_values(lockfile@),
                    vs.len() == ms@.len(),
                    forall|j: int| 0 <= j < ms@.len() ==> #[trigger] vs[j] == ms@[j]@,
                    out@.len() == i,
                    forall|j: int| 0 <= j < i ==> {
                        let m = #[trigger] vs[j];
                        &&& out@[j].path@ == text_field_or_empty(m, "path"@)
                        &&& out@[j].expected_hash@ == text_field_or_empty(m, "bytes_hash"@)
                        &&& out@[j].expected_size == u64_of(field(m, "size"@))
                    },
                decreases ms.len() - i,
            {
                let m = &ms[i];
                let path = match m.get("path") {
                    Some(x) => match x.as_str() {
                        Some(s) => s.to_owned(),
                        None => String::new(),
                    },
                    None => String::new(),
                };
                let expected_hash = match m.get("bytes_hash") {
                    Some(x) => match x.as_str() {
                        Some(s) => s.to_owned(),
                        None => String::new(),
                    },
                    None => String::new(),
                };
                let expected_size = match m.get("size") {
                    Some(x) => x.as_u64(),
                    None => None,
                };
                out.push(MemberTarget { path, expected_hash, expected_size });
                i = i + 1;
            }
        },
        _ => {},
    }
    out
}

/// What a stat of a member's file found.
#[derive(Debug, Clone)]
pub enum FileProbe {
    /// Nothing exists at the path.
    Missing,
    /// The stat failed; the message says why.
    StatError(String),
    /// A file of this size.
    Present(u64),
}

/// The conclusion for one member.
#[derive(Debug, Clone)]
pub enum MemberCheck {
    Verified,
    Failed(MemberFailure),
    Skipped(MemberSkip),
}

/// After the stat: a conclusion, or the file must be hashed.
#[derive(Debug, Clone)]
pub enum FileVerdict {
    Done(MemberCheck),
    NeedsHash(u64),
}

/// Whether a failure has the given fields.
pub open spec fn failure_is(
    f: MemberFailure,
    path: Seq<char>,
    reason: Seq<char>,
    expected: Option<Seq<char>>,
    actual: Option<Seq<char>>,
    expected_size: Option<u64>,
    actual_size: Option<u64>,
) -> bool {
    &&& f.path@ == path
    &&& f.reason@ == reason
    &&& opt_view(f.expected) == expected
    &&& opt_view(f.actual) == actual
    &&& f.expected_size == expected_size
    &&& f.actual_size == actual_size
}

/// Whether a skip has the given fields.
pub open spec fn skip_is(s: MemberSkip, path: Seq<char>, detail: Seq<char>) -> bool {
    s.path@ == path && s.reason@ == "IO_ERROR"@ && s.detail@ == detail
}

/// Judges a member by the stat of its file: missing fails, a stat error
/// skips, a size that differs from the recorded size fails without
/// hashing; otherwise the file must be hashed.
pub fn judge_file(target: &MemberTarget, probe: FileProbe) -> (r: FileVerdict)
    ensures
        match probe {
            FileProbe::Missing => (r matches FileVerdict::Done(MemberCheck::Failed(f)) && failure_is(
                f, target.path@, "MISSING"@, Some(target.expected_hash@), None, target.expected_size, None)),
            FileProbe::StatError(e) => (r matches FileVerdict::Done(MemberCheck::Skipped(s))
                && skip_is(s, target.path@, e@)),
            FileProbe::Present(size) => match target.expected_size {
                Some(x) if x != size => (r matches FileVerdict::Done(MemberCheck::Failed(f)) && failure_is(
                    f, target.path@, "SIZE_MISMATCH"@, Some(target.expected_hash@), None, Some(x), Some(size))),
                _ => r == FileVerdict::NeedsHash(size),
            },
        },
{
    match probe {
        FileProbe::Missing => FileVerdict::Done(MemberCheck::Failed(MemberFailure {
            path: target.path.clone(),
            reason: "MISSING".to_owned(),
            expected: Some(target.expected_hash.clone()),
            actual: None,
            expected_size: target.expected_size,
            actual_size: None,
        })),
        FileProbe::StatError(e) => FileVerdict::Done(MemberCheck::Skipped(MemberSkip {
            path: target.path.clone(),
            reason: "IO_ERROR".to_owned(),
            detail: e,
        })),
        FileProbe::Present(size) => match target.expected_size {
            Some(x) => if x != size {
                FileVerdict::Done(MemberCheck::Failed(MemberFailure {
                    path: target.path.clone(),
                    reason: "SIZE_MISMATCH".to_owned(),
                    expected: Some(target.expected_hash.clone()),
                    actual: None,
                    expected_size: Some(x),
                    actual_size: Some(size),
                }))
            } else {
                FileVerdict::NeedsHash(size)
            },
            None => FileVerdict::NeedsHash(size),
        },
    }
}

/// Judges a member by the digest of its file: equal to the recorded hash
/// verifies, another digest fails, a read error skips.
pub fn judge_hash(target: &MemberTarget, actual_size: u64, digest: Result<String, String>) -> (r: MemberCheck)
    ensures
        match digest {
            Ok(h) => if h@ == target.expected_hash@ {
                r == MemberCheck::Verified
            } else {
                (r matches MemberCheck::Failed(f) && failure_is(
                    f, target.path@, "HASH_MISMATCH"@, Some(target.expected_hash@), Some(h@),
                    target.expected_size, Some(actual_size)))
            },
            Err(e) => (r matches MemberCheck::Skipped(s) && skip_is(s, target.path@, e@)),
        },
{
    match digest {
        Ok(h) => if h == target.expected_hash {
            MemberCheck::Verified
        } else {
            MemberCheck::Failed(MemberFailure {
                path: target.path.clone(),
                reason: "HASH_MISMATCH".to_owned(),
                expected: Some(target.expected_hash.clone()),
                actual: Some(h),
                expected_size: target.expected_size,
                actual_size: Some(actual_size),
            })
        },
        Err(e) => MemberCheck::Skipped(MemberSkip {
            path: target.path.clone(),
            reason: "IO_ERROR".to_owned(),
            detail: e,
        }),
    }
}

/// How many checks verified.
pub open spec fn verified_count(cs: Seq<MemberCheck>) -> nat
    decreases cs.len(),
{
    if cs.len() == 0 {
        0
    } else {
        verified_count(cs.drop_last()) + if cs.last() is Verified { 1nat } else { 0nat }
    }
}

/// The failures among the checks, in order.
pub open spec fn failures_of(cs: Seq<MemberCheck>) -> Seq<MemberFailure>
    decreases cs.len(),
{
    if cs.len() == 0 {
        seq![]
    } else {
        match cs.last() {
            MemberCheck::Failed(f) => failures_of(cs.drop_last()).push(f),
            _ => failures_of(cs.drop_last()),
        }
    }
}

/// The skips among the checks, in order.
pub open spec fn skips_of(cs: Seq<MemberCheck>) -> Seq<MemberSkip>
    decreases cs.len(),
{
    if cs.len() == 0 {
        seq![]
    } else {
        match cs.last() {
            MemberCheck::Skipped(s) => skips_of(cs.drop_last()).push(s),
            _ => skips_of(cs.drop_last()),
        }
    }
}

/// Every check is verified, failed or skipped.
pub proof fn lemma_counts_add_up(cs: Seq<MemberCheck>)
    ensures
        verified_count(cs) + failures_of(cs).len() + skips_of(cs).len() == cs.len(),
    decreases cs.len(),
{
    if cs.len() > 0 {
        lemma_counts_add_up(cs.drop_last());
    }
}

/// The aggregate of the member checks, in order.
pub fn tally_members(root: &str, checks: Vec<MemberCheck>) -> (r: MembersResult)
    ensures
        r.root@ == root@,
        r.checked == checks@.len(),
        r.verified == verified_count(checks@),
        r.failures@ == failures_of(checks@),
        r.skips@ == skips_of(checks@),
        r.failed == r.failures@.len(),
        r.skipped == r.skips@.len(),
        r.checked == r.verified + r.failed + r.skipped,
{
    let ghost all = checks@;
    let checked = checks.len();
    let mut rest = checks;
    let mut verified: usize = 0;
    let mut failures: Vec<MemberFailure> = Vec::new();
    let mut skips: Vec<MemberSkip> = Vec::new();
    while rest.len() > 0
        invariant
            all.len() == checked,
            rest@ == all.skip(checked - rest@.len()),
            rest@.len() <= checked,
            verified == verified_count(all.take(checked - rest@.len())),
            failures@ == failures_of(all.take(checked - rest@.len())),
            skips@ == skips_of(all.take(checked - rest@.len())),
            verified <= checked - rest@.len(),
        decreases rest.len(),
    {
        let ghost k = checked - rest@.len();
        assert(all.take(k + 1).drop_last() =~= all.take(k));
        assert(all.take(k + 1).last() == all[k]);
        assert(rest@[0] == all[k]);
        let c = rest.remove(0);
        assert(rest@ =~= all.skip(k + 1));
        match c {
            MemberCheck::Verified => {
                verified = verified + 1;
            },
            MemberCheck::Failed(f) => {
                failures.push(f);
            },
            MemberCheck::Skipped(s) => {
                skips.push(s);
            },
        }
    }
    assert(all.take(checked as int) =~= all);
    proof { lemma_counts_add_up(all); }
    MembersResult {
        root: root.to_owned(),
        checked,
        verified,
        failed: failures.len(),
        skipped: skips.len(),
        failures,
        skips,
    }
}

/// An optional size as JSON.
pub open spec fn size_json(o: Option<u64>) -> Json {
    match o {
        Some(n) => Json::Int(n as int),
        None => Json::Null,
    }
}

pub open spec fn failure_json(f: MemberFailure) -> Json {
    Json::Object(
        seq![
            ("actual"@, text_json(opt_view(f.actual))),
            ("actual_size"@, size_json(f.actual_size)),
            ("expected"@, text_json(opt_view(f.expected))),
            ("expected_size"@, size_json(f.expected_size)),
            ("path"@, Json::Str(f.path@)),
            ("reason"@, Json::Str(f.reason@)),
        ],
    )
}

pub open spec fn skip_json(s: MemberSkip) -> Json {
    Json::Object(
        seq![
            ("detail"@, Json::Str(s.detail@)),
            ("path"@, Json::Str(s.path@)),
            ("reason"@, Json::Str(s.reason@)),
        ],
    )
}

/// The JSON form of member results.
pub open spec fn members_result_json(r: MembersResult) -> Json {
    Json::Object(
        seq![
            ("checked"@, Json::Int(r.checked as int)),
            ("failed"@, Json::Int(r.failed as int)),
            ("failures"@, Json::Array(r.failures@.map_values(|f: MemberFailure| failure_json(f)))),
            ("root"@, Json::Str(r.root@)),
            ("skipped"@, Json::Int(r.skipped as int)),
            ("skips"@, Json::Array(r.skips@.map_values(|s: MemberSkip| skip_json(s)))),
            ("verified"@, Json::Int(r.verified as int)),
        ],
    )
}

fn size_value(o: Option<u64>) -> (r: JsonValue)
    ensures
        r@ == size_json(o),
{
    match o {
        Some(n) => JsonValue::Int(n as i128),
        None => JsonValue::Null,
    }
}

fn failure_value(f: &MemberFailure) -> (r: JsonValue)
    ensures
        r@ == failure_json(*f),
{
    let mut es: Vec<(String, JsonValue)> = Vec::new();
    push_entry(&mut es, "actual", opt_text_value(&f.actual));
    push_entry(&mut es, "actual_size", size_value(f.actual_size));
    push_entry(&mut es, "expected", opt_text_value(&f.expected));
    push_entry(&mut es, "expected_size", size_value(f.expected_size));
    push_entry(&mut es, "path", text_value(&f.path));
    push_entry(&mut es, "reason", text_value(&f.reason));
    assert(view_entries(Seq::<(String, JsonValue)>::empty()) =~= seq![]);
    assert(view_entries(es@) =~= failure_json(*f)->Object_0);
    JsonValue::Object(es)
}

fn skip_value(s: &MemberSkip) -> (r: JsonValue)
    ensures
        r@ == skip_json(*s),
{
    let mut es: Vec<(String, JsonValue)> = Vec::new();
    push_entry(&mut es, "detail", text_value(&s.detail));
    push_entry(&mut es, "path", text_value(&s.path));
    push_entry(&mut es, "reason", text_value(&s.reason));
    assert(view_entries(Seq::<(String, JsonValue)>::empty()) =~= seq![]);
    assert(view_entries(es@) =~= skip_json(*s)->Object_0);
    JsonValue::Object(es)
}

/// The JSON form of member results.
pub fn members_result_value(r: &MembersResult) -> (v: JsonValue)
    ensures
        v@ == members_result_json(*r),
{
    let mut fs: Vec<JsonValue> = Vec::new();
    let mut i: usize = 0;
    while i < r.failures.len()
        invariant
            i <= r.failures@.len(),
            view_items(fs@) == r.failures@.take(i as int).map_values(|f: MemberFailure| failure_json(f)),
        decreases r.failures.len() - i,
    {
        let x = failure_value(&r.failures[i]);
        proof { lemma_view_items_push(fs@, x); }
        fs.push(x);
        assert(r.failures@.take(i + 1).map_values(|f: MemberFailure| failure_json(f)) =~= r.failures@.take(i as int).map_values(|f: MemberFailure| failure_json(f)).push(failure_json(r.failures@[i as int])));
        i = i + 1;
    }
    assert(r.failures@.take(i as int) =~= r.failures@);
    let mut ss: Vec<JsonValue> = Vec::new();
    let mut i: usize = 0;
    while i < r.skips.len()
        invariant
            i <= r.skips@.len(),
            view_items(ss@) == r.skips@.take(i as int).map_values(|s: MemberSkip| skip_json(s)),
        decreases r.skips.len() - i,
    {
        let x = skip_value(&r.skips[i]);
        proof { lemma_view_items_push(ss@, x); }
        ss.push(x);
        assert(r.skips@.take(i + 1).map_values(|s: MemberSkip| skip_json(s)) =~= r.skips@.take(i as int).map_values(|s: MemberSkip| skip_json(s)).push(skip_json(r.skips@[i as int])));
        i = i + 1;
    }
    assert(r.skips@.take(i as int) =~= r.skips@);
    let mut es: Vec<(String, JsonValue)> = Vec::new();
    push_entry(&mut es, "checked", JsonValue::Int(r.checked as i128));
    push_entry(&mut es, "failed", JsonValue::Int(r.failed as i128));
    push_entry(&mut es, "failures", JsonValue::Array(fs));
    push_entry(&mut es, "root", text_value(&r.root));
    push_entry(&mut es, "skipped", JsonValue::Int(r.skipped as i128));
    push_entry(&mut es, "skips", JsonValue::Array(ss));
    push_entry(&mut es, "verified", JsonValue::Int(r.verified as i128));
    assert(view_entries(Seq::<(String, JsonValue)>::empty()) =~= seq![]);
    assert(view_entries(es@) =~= members_result_json(*r)->Object_0);
    JsonValue::Object(es)
}

/// The outcome of a verify run: a bad self-hash fails; otherwise the
/// member results decide when there are any, and it is `VERIFY_OK` when not.
pub open spec fn verify_outcome_spec(hash_valid: bool, members: Option<MembersResult>, strict: bool) -> (Seq<char>, u8) {
    if !hash_valid {
        ("VERIFY_FAILED"@, 1)
    } else {
        match members {
            Some(m) => members_outcome_spec(m.failed, m.skipped, strict),
            None => ("VERIFY_OK"@, 0),
        }
    }
}

/// The outcome name and exit code of a verify run.
pub fn verify_outcome(hash_valid: bool, members: Option<&MembersResult>, strict: bool) -> (r: (&'static str, u8))
    ensures
        (r.0@, r.1) == verify_outcome_spec(hash_valid, match members {
            Some(m) => Some(*m),
            None => None,
        }, strict),
{
    if !hash_valid {
        ("VERIFY_FAILED", 1)
    } else {
        match members {
            Some(m) => members_outcome(m, strict),
            None => ("VERIFY_OK", 0),
        }
    }
}

/// The JSON form of a verify report.
pub open spec fn verify_report_json(
    lockfile: Seq<char>,
    stored: Seq<char>,
    computed: Seq<char>,
    valid: bool,
    members: Option<MembersResult>,
    outcome: Seq<char>,
    tool_version: Seq<char>,
) -> Json {
    Json::Object(
        seq![
            (
                "lock_hash"@,
                Json::Object(
                    seq![
                        ("computed"@, Json::Str(computed)),
                        ("stored"@, Json::Str(stored)),
                        ("valid"@, Json::Bool(valid)),
                    ],
                ),
            ),
            ("lockfile"@, Json::Str(lockfile)),
            (
                "members"@,
                match members {
                    Some(m) => members_result_json(m),
                    None => Json::Null,
                },
            ),
            ("outcome"@, Json::Str(outcome)),
            ("tool_versions"@, Json::Object(seq![("lock"@, Json::Str(tool_version))])),
            ("version"@, Json::Str("lock-verify.v0"@)),
        ],
    )
}

/// The report of a verify run as a JSON value.
pub fn verify_report_value(
    lockfile: &str,
    detail: &crate::self_hash::HashDetail,
    members: Option<&MembersResult>,
    outcome: &str,
    tool_version: &str,
) -> (r: JsonValue)
    ensures
        r@ == verify_report_json(lockfile@, detail.stored@, detail.computed@, detail.valid, match members {
            Some(m) => Some(*m),
            None => None,
        }, outcome@, tool_version@),
{
    let mut hash: Vec<(String, JsonValue)> = Vec::new();
    push_entry(&mut hash, "computed", text_value(&detail.computed));
    push_entry(&mut hash, "stored", text_value(&detail.stored));
    push_entry(&mut hash, "valid", JsonValue::Bool(detail.valid));
    let mut tools: Vec<(String, JsonValue)> = Vec::new();
    push_entry(&mut tools, "lock", JsonValue::Str(tool_version.to_owned()));
    let mv = match members {
        Some(m) => members_result_value(m),
        None => JsonValue::Null,
    };
    assert(view_entries(Seq::<(String, JsonValue)>::empty()) =~= seq![]);
    assert(view_entries(hash@) =~= seq![("computed"@, Json::Str(detail.computed@)), ("stored"@, Json::Str(detail.stored@)), ("valid"@, Json::Bool(detail.valid))]);
    assert(view_entries(tools@) =~= seq![("lock"@, Json::Str(tool_version@))]);
    let mut es: Vec<(String, JsonValue)> = Vec::new();
    push_entry(&mut es, "lock_hash", JsonValue::Object(hash));
    push_entry(&mut es, "lockfile", JsonValue::Str(lockfile.to_owned()));
    push_entry(&mut es, "members", mv);
    push_entry(&mut es, "outcome", JsonValue::Str(outcome.to_owned()));
    push_entry(&mut es, "tool_versions", JsonValue::Object(tools));
    push_entry(&mut es, "version", JsonValue::Str((crate::verify::VERIFY_VERSION).to_owned()));
    proof { reveal_strlit("lock-verify.v0"); }
    assert(view_entries(es@) =~= verify_report_json(lockfile@, detail.stored@, detail.computed@, detail.valid, match members {
            Some(m) => Some(*m),
            None => None,
        }, outcome@, tool_version@)->Object_0);
    JsonValue::Object(es)
}

/// The digest algorithm a recorded hash names.
#[derive(Debug, Clone, PartialEq, Eq)]
pub enum HashAlgorithm {
    Sha256,
    Blake3,
    /// Any other prefix, as written.
    Unsupported(String),
}

/// The algorithm named by the text before the hash's first `:`.
pub fn hash_algorithm(expected_hash: &str) -> (r: HashAlgorithm)
    ensures
        algorithm_prefix(expected_hash@) == "sha256"@ ==> r is Sha256,
        algorithm_prefix(expected_hash@) == "blake3"@ ==> r is Blake3,
        algorithm_prefix(expected_hash@) != "sha256"@ && algorithm_prefix(expected_hash@) != "blake3"@
            ==> (r matches HashAlgorithm::Unsupported(p) && p@ == algorithm_prefix(expected_hash@)),
{
    let prefix = hash_prefix(expected_hash);
    proof {
        reveal_strlit("sha256");
        reveal_strlit("blake3");
        assert("sha256"@[0] != "blake3"@[0]);
    }
    if crate::text::text_eq(prefix.as_str(), "sha256") {
        HashAlgorithm::Sha256
    } else if crate::text::text_eq(prefix.as_str(), "blake3") {
        HashAlgorithm::Blake3
    } else {
        HashAlgorithm::Unsupported(prefix)
    }
}

/// The message for a hash whose algorithm cannot be streamed.
pub fn unsupported_algorithm_message(prefix: &str) -> (r: String)
    ensures
        r@ == "unsupported algorithm: "@ + prefix@,
{
    let mut m = String::new();
    push_text(&mut m, "unsupported algorithm: ");
    push_text(&mut m, prefix);
    assert(m@ =~= "unsupported algorithm: "@ + prefix@);
    m
}

} // verus!
