//! The refusal envelope of the lock path: a fixed shape with sorted keys.

use vstd::prelude::*;
use crate::canonical::{canon, to_canonical_text};
use crate::json::{copy_json, lemma_view_items_push, push_entry, text_json, view_entries, view_items, opt_view, Json, JsonValue};
use crate::text::{nat_text, push_nat, push_text};

verus! {

/// Lock schema version, shared by lockfiles and lock refusals.
pub const LOCK_VERSION: &'static str = "lock.v0";

/// The most sample paths an `E_MISSING_HASH` refusal lists.
pub const MAX_SAMPLE_PATHS: usize = 5;

/// The refusal codes of the lock path.
#[derive(Debug, Clone, Copy, PartialEq, Eq, Structural)]
pub enum RefusalCode {
    /// No input records.
    Empty,
    /// Invalid JSONL, an unknown record version, or an unclassifiable record.
    BadInput,
    /// Records that are not skipped lack `bytes_hash`.
    MissingHash,
}

/// The wire name of a refusal code.
pub open spec fn code_name(c: RefusalCode) -> Seq<char> {
    match c {
        RefusalCode::Empty => "E_EMPTY"@,
        RefusalCode::BadInput => "E_BAD_INPUT"@,
        RefusalCode::MissingHash => "E_MISSING_HASH"@,
    }
}

impl RefusalCode {
    /// The wire name, such as `E_EMPTY`.
    pub fn as_str(self) -> (r: &'static str)
        ensures
            r@ == code_name(self),
    {
        match self {
            RefusalCode::Empty => "E_EMPTY",
            RefusalCode::BadInput => "E_BAD_INPUT",
            RefusalCode::MissingHash => "E_MISSING_HASH",
        }
    }
}

/// The refusal body: code, message, detail object and recovery command.
#[derive(Debug)]
pub struct Refusal {
    pub code: RefusalCode,
    pub message: String,
    pub detail: JsonValue,
    pub next_command: Option<String>,
}

/// The envelope emitted on a refusal.
#[derive(Debug)]
pub struct RefusalEnvelope {
    pub version: String,
    pub outcome: String,
    pub refusal: Refusal,
}

/// The JSON form of an envelope with the given fields.
pub open spec fn envelope_json(
    version: Seq<char>,
    outcome: Seq<char>,
    code: Seq<char>,
    message: Seq<char>,
    detail: Json,
    next_command: Option<Seq<char>>,
) -> Json {
    Json::Object(
        seq![
            ("outcome"@, Json::Str(outcome)),
            (
                "refusal"@,
                Json::Object(
                    seq![
                        ("code"@, Json::Str(code)),
                        ("detail"@, detail),
                        ("message"@, Json::Str(message)),
                        ("next_command"@, text_json(next_command)),
                    ],
                ),
            ),
            ("version"@, Json::Str(version)),
        ],
    )
}

/// The JSON form of a lock refusal envelope.
pub open spec fn refusal_envelope_json(e: RefusalEnvelope) -> Json {
    envelope_json(
        e.version@,
        e.outcome@,
        code_name(e.refusal.code),
        e.refusal.message@,
        e.refusal.detail@,
        opt_view(e.refusal.next_command),
    )
}

/// Builds the JSON form of an envelope.
pub fn envelope_value(
    version: &str,
    outcome: &str,
    code: &str,
    message: &str,
    detail: JsonValue,
    next_command: &Option<String>,
) -> (r: JsonValue)
    ensures
        r@ == envelope_json(version@, outcome@, code@, message@, detail@, opt_view(*next_command)),
{
    let next = match next_command {
        Some(s) => JsonValue::Str(s.clone()),
        None => JsonValue::Null,
    };
    let mut inner: Vec<(String, JsonValue)> = Vec::new();
    push_entry(&mut inner, "code", JsonValue::Str(code.to_owned()));
    push_entry(&mut inner, "detail", detail);
    push_entry(&mut inner, "message", JsonValue::Str(message.to_owned()));
    push_entry(&mut inner, "next_command", next);
    let ghost inner_view = view_entries(inner@);
    assert(view_entries(Seq::<(String, JsonValue)>::empty()) =~= seq![]);
    assert(inner_view =~= seq![
        ("code"@, Json::Str(code@)),
        ("detail"@, detail@),
        ("message"@, Json::Str(message@)),
        ("next_command"@, text_json(opt_view(*next_command))),
    ]);
    let mut es: Vec<(String, JsonValue)> = Vec::new();
    push_entry(&mut es, "outcome", JsonValue::Str(outcome.to_owned()));
    push_entry(&mut es, "refusal", JsonValue::Object(inner));
    push_entry(&mut es, "version", JsonValue::Str(version.to_owned()));
    assert(view_entries(Seq::<(String, JsonValue)>::empty()) =~= seq![]);
    assert(view_entries(es@) =~= envelope_json(version@, outcome@, code@, message@, detail@, opt_view(*next_command))->Object_0);
    JsonValue::Object(es)
}

impl RefusalEnvelope {
    /// The envelope's canonical JSON text.
    pub fn to_json(&self) -> (r: String)
        ensures
            r@ == canon(refusal_envelope_json(*self)),
    {
        let v = envelope_value(
            self.version.as_str(),
            self.outcome.as_str(),
            self.refusal.code.as_str(),
            self.refusal.message.as_str(),
            copy_json(&self.refusal.detail),
            &self.refusal.next_command,
        );
        to_canonical_text(&v)
    }
}

/// The recovery command for refusals fixed by running the upstream tools.
pub open spec fn pipeline_command() -> Seq<char> {
    "vacuum <path> | hash | lock"@
}

/// Whether an envelope has the lock version and the `REFUSAL` outcome.
pub open spec fn lock_envelope(e: RefusalEnvelope) -> bool {
    e.version@ == "lock.v0"@ && e.outcome@ == "REFUSAL"@
}

fn lock_envelope_with(code: RefusalCode, message: String, detail: JsonValue, next_command: Option<String>) -> (r: RefusalEnvelope)
    ensures
        lock_envelope(r),
        r.refusal.code == code,
        r.refusal.message@ == message@,
        r.refusal.detail@ == detail@,
        opt_view(r.refusal.next_command) == opt_view(next_command),
{
    RefusalEnvelope {
        version: LOCK_VERSION.to_owned(),
        outcome: "REFUSAL".to_owned(),
        refusal: Refusal { code, message, detail, next_command },
    }
}

/// `E_EMPTY`: no input records.
pub fn empty() -> (r: RefusalEnvelope)
    ensures
        lock_envelope(r),
        r.refusal.code == RefusalCode::Empty,
        r.refusal.message@ == "no input records — run vacuum first"@,
        r.refusal.detail@ == Json::Object(seq![]),
        opt_view(r.refusal.next_command) == Some(pipeline_command()),
{
    let detail = JsonValue::Object(Vec::new());
    assert(detail@ == Json::Object(seq![])) by {
        assert(view_entries(Seq::<(String, JsonValue)>::empty()) =~= seq![]);
    }
    lock_envelope_with(
        RefusalCode::Empty,
        "no input records — run vacuum first".to_owned(),
        detail,
        Some("vacuum <path> | hash | lock".to_owned()),
    )
}

/// The message of an `E_BAD_INPUT` refusal for a parse error.
pub open spec fn bad_parse_message(line: nat) -> Seq<char> {
    "invalid JSONL at line "@ + nat_text(line) + " — check upstream tool output"@
}

/// `E_BAD_INPUT` for a JSONL parse error at a line.
pub fn bad_input_parse(line: usize, error: &str) -> (r: RefusalEnvelope)
    ensures
        lock_envelope(r),
        r.refusal.code == RefusalCode::BadInput,
        r.refusal.message@ == bad_parse_message(line as nat),
        r.refusal.detail@ == Json::Object(seq![("error"@, Json::Str(error@)), ("line"@, Json::Int(line as int))]),
        r.refusal.next_command is None,
{
    let mut message = String::new();
    push_text(&mut message, "invalid JSONL at line ");
    push_nat(&mut message, line as u128);
    push_text(&mut message, " — check upstream tool output");
    let mut es: Vec<(String, JsonValue)> = Vec::new();
    push_entry(&mut es, "error", JsonValue::Str(error.to_owned()));
    push_entry(&mut es, "line", JsonValue::Int(line as i128));
    assert(view_entries(Seq::<(String, JsonValue)>::empty()) =~= seq![]);
    assert(message@ =~= bad_parse_message(line as nat));
    assert(view_entries(es@) =~= seq![("error"@, Json::Str(error@)), ("line"@, Json::Int(line as int))]);
    let detail = JsonValue::Object(es);
    lock_envelope_with(RefusalCode::BadInput, message, detail, None)
}

/// The message of an `E_BAD_INPUT` refusal for an unknown version.
pub open spec fn bad_version_message(line: nat, version: Seq<char>) -> Seq<char> {
    "unknown record version \""@ + version + "\" at line "@ + nat_text(line)
        + " — check upstream tool output"@
}

/// `E_BAD_INPUT` for an unknown record version at a line.
pub fn bad_input_version(line: usize, version: &str) -> (r: RefusalEnvelope)
    ensures
        lock_envelope(r),
        r.refusal.code == RefusalCode::BadInput,
        r.refusal.message@ == bad_version_message(line as nat, version@),
        r.refusal.detail@ == Json::Object(seq![("line"@, Json::Int(line as int)), ("version"@, Json::Str(version@))]),
        r.refusal.next_command is None,
{
    let mut message = String::new();
    push_text(&mut message, "unknown record version \"");
    push_text(&mut message, version);
    push_text(&mut message, "\" at line ");
    push_nat(&mut message, line as u128);
    push_text(&mut message, " — check upstream tool output");
    let mut es: Vec<(String, JsonValue)> = Vec::new();
    push_entry(&mut es, "line", JsonValue::Int(line as i128));
    push_entry(&mut es, "version", JsonValue::Str(version.to_owned()));
    assert(view_entries(Seq::<(String, JsonValue)>::empty()) =~= seq![]);
    assert(message@ =~= bad_version_message(line as nat, version@));
    assert(view_entries(es@) =~= seq![("line"@, Json::Int(line as int)), ("version"@, Json::Str(version@))]);
    let detail = JsonValue::Object(es);
    lock_envelope_with(RefusalCode::BadInput, message, detail, None)
}

/// The first paths, at most `MAX_SAMPLE_PATHS` of them.
pub open spec fn sample_paths(paths: Seq<Seq<char>>) -> Seq<Seq<char>> {
    if paths.len() <= 5 { paths } else { paths.take(5) }
}

/// The message of an `E_MISSING_HASH` refusal.
pub open spec fn missing_hash_message(count: nat) -> Seq<char> {
    nat_text(count) + (if count == 1 { " record lacks"@ } else { " records lack"@ })
        + " bytes_hash — run hash first"@
}

/// The detail of an `E_MISSING_HASH` refusal.
pub open spec fn missing_hash_detail(count: nat, paths: Seq<Seq<char>>) -> Json {
    Json::Object(
        seq![
            ("count"@, Json::Int(count as int)),
            ("sample_paths"@, Json::Array(sample_paths(paths).map_values(|p: Seq<char>| Json::Str(p)))),
        ],
    )
}

/// `E_MISSING_HASH`: `count` records lack a hash; the detail lists the
/// first paths of `all_paths`.
pub fn missing_hash(count: usize, all_paths: Vec<String>) -> (r: RefusalEnvelope)
    ensures
        lock_envelope(r),
        r.refusal.code == RefusalCode::MissingHash,
        r.refusal.message@ == missing_hash_message(count as nat),
        r.refusal.detail@ == missing_hash_detail(count as nat, all_paths@.map_values(|s: String| s@)),
        opt_view(r.refusal.next_command) == Some(pipeline_command()),
{
    let ghost paths = all_paths@.map_values(|s: String| s@);
    let mut items: Vec<JsonValue> = Vec::new();
    let mut i: usize = 0;
    while i < all_paths.len() && i < MAX_SAMPLE_PATHS
        invariant
            i <= all_paths@.len(),
            i <= 5,
            paths == all_paths@.map_values(|s: String| s@),
            view_items(items@) == paths.take(i as int).map_values(|p: Seq<char>| Json::Str(p)),
        decreases all_paths.len() - i,
    {
        let v = JsonValue::Str(all_paths[i].clone());
        proof { lemma_view_items_push(items@, v); }
        items.push(v);
        assert(paths.take(i + 1).map_values(|p: Seq<char>| Json::Str(p)) =~= paths.take(i as int).map_values(|p: Seq<char>| Json::Str(p)).push(Json::Str(paths[i as int])));
        i = i + 1;
    }
    assert(paths.take(i as int) =~= sample_paths(paths));
    let mut message = String::new();
    push_nat(&mut message, count as u128);
    if count == 1 {
        push_text(&mut message, " record lacks");
    } else {
        push_text(&mut message, " records lack");
    }
    push_text(&mut message, " bytes_hash — run hash first");
    assert(message@ =~= missing_hash_message(count as nat));
    let mut es: Vec<(String, JsonValue)> = Vec::new();
    push_entry(&mut es, "count", JsonValue::Int(count as i128));
    push_entry(&mut es, "sample_paths", JsonValue::Array(items));
    assert(view_entries(Seq::<(String, JsonValue)>::empty()) =~= seq![]);
    assert(view_entries(es@) =~= missing_hash_detail(count as nat, paths)->Object_0);
    let detail = JsonValue::Object(es);
    lock_envelope_with(RefusalCode::MissingHash, message, detail, Some("vacuum <path> | hash | lock".to_owned()))
}

/// The sample in an `E_MISSING_HASH` detail holds `min(5, count)` paths
/// when `count` is the number of paths.
pub proof fn lemma_sample_cap(count: nat, paths: Seq<Seq<char>>)
    requires
        count == paths.len(),
    ensures
        missing_hash_detail(count, paths)->Object_0[1].1->Array_0.len() == if count < 5 { count } else { 5 },
{
}

} // verus!
