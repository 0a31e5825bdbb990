//! The lockfile: pinned members, skipped entries, tool versions, and their JSON form.

use vstd::prelude::*;
use vstd::multiset::Multiset;
use crate::json::{
    lemma_view_items_push, opt_text_value, opt_view, push_entry, text_json, text_value,
    view_entries, view_items, Json, JsonValue,
};
use crate::text::{chars_of, less_than, push_char, text_eq};
use crate::canonical::{canon, distinct_keys, lemma_sort_by_facts, well_formed, insert_by, lemma_insert_by_at, lemma_sort_order_independent, sort_by, to_canonical_text};
use crate::input::{skipped_record, InputRecord};
use crate::json::{bool_of, field, str_of, u64_of};
use crate::output::{lockfile_outcome, DomainOutcome};

verus! {

/// Result of fingerprint matching for a member.
#[derive(Debug, Clone, PartialEq, Eq)]
pub struct FingerprintResult {
    pub fingerprint_id: String,
    pub fingerprint_version: String,
    pub matched: bool,
    pub content_hash: Option<String>,
}

/// A file pinned into the lockfile.
#[derive(Debug, Clone, PartialEq, Eq)]
pub struct Member {
    pub path: String,
    pub bytes_hash: String,
    pub size: u64,
    pub fingerprint: Option<FingerprintResult>,
}

/// A warning carried by a skipped entry. `detail` maps keys to rendered values.
#[derive(Debug, Clone, PartialEq, Eq)]
pub struct Warning {
    pub tool: String,
    pub code: String,
    pub message: String,
    pub detail: Vec<(String, String)>,
}

/// A file excluded from pinning, with the warnings that explain why.
#[derive(Debug, Clone, PartialEq, Eq)]
pub struct SkippedEntry {
    pub path: String,
    pub warnings: Vec<Warning>,
}

/// The pinned artifact.
#[derive(Debug, Clone, PartialEq, Eq)]
pub struct Lockfile {
    pub version: String,
    pub lock_hash: String,
    pub dataset_id: Option<String>,
    pub as_of: Option<String>,
    pub note: Option<String>,
    pub created: String,
    /// Tool name to version, keys unique.
    pub tool_versions: Vec<(String, String)>,
    pub profiles: Vec<String>,
    pub skipped: Vec<SkippedEntry>,
    pub members: Vec<Member>,
    pub skipped_count: u64,
    pub member_count: u64,
}

pub struct FingerprintView {
    pub fingerprint_id: Seq<char>,
    pub fingerprint_version: Seq<char>,
    pub matched: bool,
    pub content_hash: Option<Seq<char>>,
}

pub struct MemberView {
    pub path: Seq<char>,
    pub bytes_hash: Seq<char>,
    pub size: u64,
    pub fingerprint: Option<FingerprintView>,
}

pub struct WarningView {
    pub tool: Seq<char>,
    pub code: Seq<char>,
    pub message: Seq<char>,
    pub detail: Seq<(Seq<char>, Seq<char>)>,
}

pub struct SkippedView {
    pub path: Seq<char>,
    pub warnings: Seq<WarningView>,
}

pub struct LockfileView {
    pub version: Seq<char>,
    pub lock_hash: Seq<char>,
    pub dataset_id: Option<Seq<char>>,
    pub as_of: Option<Seq<char>>,
    pub note: Option<Seq<char>>,
    pub created: Seq<char>,
    pub tool_versions: Seq<(Seq<char>, Seq<char>)>,
    pub profiles: Seq<Seq<char>>,
    pub skipped: Seq<SkippedView>,
    pub members: Seq<MemberView>,
    pub skipped_count: u64,
    pub member_count: u64,
}

/// The views of text pairs.
pub open spec fn pairs_view(s: Seq<(String, String)>) -> Seq<(Seq<char>, Seq<char>)> {
    s.map_values(|e: (String, String)| (e.0@, e.1@))
}

impl View for FingerprintResult {
    type V = FingerprintView;

    open spec fn view(&self) -> FingerprintView {
        FingerprintView {
            fingerprint_id: self.fingerprint_id@,
            fingerprint_version: self.fingerprint_version@,
            matched: self.matched,
            content_hash: opt_view(self.content_hash),
        }
    }
}

impl View for Member {
    type V = MemberView;

    open spec fn view(&self) -> MemberView {
        MemberView {
            path: self.path@,
            bytes_hash: self.bytes_hash@,
            size: self.size,
            fingerprint: match self.fingerprint {
                Some(f) => Some(f@),
                None => None,
            },
        }
    }
}

impl View for Warning {
    type V = WarningView;

    open spec fn view(&self) -> WarningView {
        WarningView {
            tool: self.tool@,
            code: self.code@,
            message: self.message@,
            detail: pairs_view(self.detail@),
        }
    }
}

impl View for SkippedEntry {
    type V = SkippedView;

    open spec fn view(&self) -> SkippedView {
        SkippedView { path: self.path@, warnings: self.warnings@.map_values(|w: Warning| w@) }
    }
}

/// The views of the members, in order.
pub open spec fn members_view(s: Seq<Member>) -> Seq<MemberView> {
    s.map_values(|m: Member| m@)
}

/// The views of the skipped entries, in order.
pub open spec fn skipped_view(s: Seq<SkippedEntry>) -> Seq<SkippedView> {
    s.map_values(|e: SkippedEntry| e@)
}

impl View for Lockfile {
    type V = LockfileView;

    open spec fn view(&self) -> LockfileView {
        LockfileView {
            version: self.version@,
            lock_hash: self.lock_hash@,
            dataset_id: opt_view(self.dataset_id),
            as_of: opt_view(self.as_of),
            note: opt_view(self.note),
            created: self.created@,
            tool_versions: pairs_view(self.tool_versions@),
            profiles: self.profiles@.map_values(|p: String| p@),
            skipped: skipped_view(self.skipped@),
            members: members_view(self.members@),
            skipped_count: self.skipped_count,
            member_count: self.member_count,
        }
    }
}

/// An object whose values are the strings of the pairs.
pub open spec fn pairs_json(s: Seq<(Seq<char>, Seq<char>)>) -> Json {
    Json::Object(s.map_values(|e: (Seq<char>, Seq<char>)| (e.0, Json::Str(e.1))))
}

pub open spec fn fingerprint_json(f: FingerprintView) -> Json {
    Json::Object(
        seq![
            ("content_hash"@, text_json(f.content_hash)),
            ("fingerprint_id"@, Json::Str(f.fingerprint_id)),
            ("fingerprint_version"@, Json::Str(f.fingerprint_version)),
            ("matched"@, Json::Bool(f.matched)),
        ],
    )
}

pub open spec fn member_json(m: MemberView) -> Json {
    Json::Object(
        seq![
            ("bytes_hash"@, Json::Str(m.bytes_hash)),
            (
                "fingerprint"@,
                match m.fingerprint {
                    Some(f) => fingerprint_json(f),
                    None => Json::Null,
                },
            ),
            ("path"@, Json::Str(m.path)),
            ("size"@, Json::Int(m.size as int)),
        ],
    )
}

pub open spec fn warning_json(w: WarningView) -> Json {
    Json::Object(
        seq![
            ("code"@, Json::Str(w.code)),
            ("detail"@, pairs_json(w.detail)),
            ("message"@, Json::Str(w.message)),
            ("tool"@, Json::Str(w.tool)),
        ],
    )
}

pub open spec fn skipped_json(s: SkippedView) -> Json {
    Json::Object(
        seq![
            ("path"@, Json::Str(s.path)),
            ("warnings"@, Json::Array(s.warnings.map_values(|w: WarningView| warning_json(w)))),
        ],
    )
}

/// The JSON form of a lockfile.
pub open spec fn lockfile_json(l: LockfileView) -> Json {
    Json::Object(
        seq![
            ("as_of"@, text_json(l.as_of)),
            ("created"@, Json::Str(l.created)),
            ("dataset_id"@, text_json(l.dataset_id)),
            ("lock_hash"@, Json::Str(l.lock_hash)),
            ("member_count"@, Json::Int(l.member_count as int)),
            ("members"@, Json::Array(l.members.map_values(|m: MemberView| member_json(m)))),
            ("note"@, text_json(l.note)),
            ("profiles"@, Json::Array(l.profiles.map_values(|p: Seq<char>| Json::Str(p)))),
            ("skipped"@, Json::Array(l.skipped.map_values(|s: SkippedView| skipped_json(s)))),
            ("skipped_count"@, Json::Int(l.skipped_count as int)),
            ("tool_versions"@, pairs_json(l.tool_versions)),
            ("version"@, Json::Str(l.version)),
        ],
    )
}

/// An object of string values from text pairs.
fn pairs_value(s: &Vec<(String, String)>) -> (r: JsonValue)
    ensures
        r@ == pairs_json(pairs_view(s@)),
{
    let mut es: Vec<(String, JsonValue)> = Vec::new();
    let mut i: usize = 0;
    while i < s.len()
        invariant
            i <= s@.len(),
            view_entries(es@) == pairs_json(pairs_view(s@.take(i as int)))->Object_0,
        decreases s.len() - i,
    {
        let k = s[i].0.clone();
        let v = text_value(&s[i].1);
        proof { crate::json::lemma_view_entries_push(es@, (k, v)); }
        es.push((k, v));
        assert(pairs_json(pairs_view(s@.take(i + 1)))->Object_0 =~= pairs_json(pairs_view(s@.take(i as int)))->Object_0.push((s@[i as int].0@, Json::Str(s@[i as int].1@))));
        i = i + 1;
    }
    assert(s@.take(i as int) =~= s@);
    JsonValue::Object(es)
}

fn fingerprint_value(f: &FingerprintResult) -> (r: JsonValue)
    ensures
        r@ == fingerprint_json(f@),
{
    let mut es: Vec<(String, JsonValue)> = Vec::new();
    push_entry(&mut es, "content_hash", opt_text_value(&f.content_hash));
    push_entry(&mut es, "fingerprint_id", text_value(&f.fingerprint_id));
    push_entry(&mut es, "fingerprint_version", text_value(&f.fingerprint_version));
    push_entry(&mut es, "matched", JsonValue::Bool(f.matched));
    assert(view_entries(es@) =~= fingerprint_json(f@)->Object_0) by {
        assert(view_entries(Seq::<(String, JsonValue)>::empty()) =~= seq![]);
    }
    JsonValue::Object(es)
}

fn member_value(m: &Member) -> (r: JsonValue)
    ensures
        r@ == member_json(m@),
{
    let mut es: Vec<(String, JsonValue)> = Vec::new();
    push_entry(&mut es, "bytes_hash", text_value(&m.bytes_hash));
    let fp = match &m.fingerprint {
        Some(f) => fingerprint_value(f),
        None => JsonValue::Null,
    };
    push_entry(&mut es, "fingerprint", fp);
    push_entry(&mut es, "path", text_value(&m.path));
    push_entry(&mut es, "size", JsonValue::Int(m.size as i128));
    assert(view_entries(es@) =~= member_json(m@)->Object_0) by {
        assert(view_entries(Seq::<(String, JsonValue)>::empty()) =~= seq![]);
    }
    JsonValue::Object(es)
}

fn warning_value(w: &Warning) -> (r: JsonValue)
    ensures
        r@ == warning_json(w@),
{
    let mut es: Vec<(String, JsonValue)> = Vec::new();
    push_entry(&mut es, "code", text_value(&w.code));
    push_entry(&mut es, "detail", pairs_value(&w.detail));
    push_entry(&mut es, "message", text_value(&w.message));
    push_entry(&mut es, "tool", text_value(&w.tool));
    assert(view_entries(es@) =~= warning_json(w@)->Object_0) by {
        assert(view_entries(Seq::<(String, JsonValue)>::empty()) =~= seq![]);
    }
    JsonValue::Object(es)
}

fn skipped_value(s: &SkippedEntry) -> (r: JsonValue)
    ensures
        r@ == skipped_json(s@),
{
    let mut items: Vec<JsonValue> = Vec::new();
    let mut i: usize = 0;
    while i < s.warnings.len()
        invariant
            i <= s.warnings@.len(),
            view_items(items@) == s.warnings@.take(i as int).map_values(|w: Warning| warning_json(w@)),
        decreases s.warnings.len() - i,
    {
        let v = warning_value(&s.warnings[i]);
        proof { lemma_view_items_push(items@, v); }
        items.push(v);
        assert(s.warnings@.take(i + 1).map_values(|w: Warning| warning_json(w@)) =~= s.warnings@.take(i as int).map_values(|w: Warning| warning_json(w@)).push(warning_json(s.warnings@[i as int]@)));
        i = i + 1;
    }
    let mut es: Vec<(String, JsonValue)> = Vec::new();
    push_entry(&mut es, "path", text_value(&s.path));
    push_entry(&mut es, "warnings", JsonValue::Array(items));
    assert(view_entries(es@) =~= skipped_json(s@)->Object_0) by {
        assert(view_entries(Seq::<(String, JsonValue)>::empty()) =~= seq![]);
        assert(s.warnings@.take(i as int) =~= s.warnings@);
        assert(s@.warnings.map_values(|w: WarningView| warning_json(w)) =~= s.warnings@.map_values(|w: Warning| warning_json(w@)));
    }
    JsonValue::Object(es)
}

/// The lockfile's view with another `lock_hash`.
pub open spec fn with_lock_hash(l: LockfileView, h: Seq<char>) -> LockfileView {
    LockfileView { lock_hash: h, ..l }
}

/// The JSON form of the lockfile.
pub fn lockfile_value(l: &Lockfile) -> (r: JsonValue)
    ensures
        r@ == lockfile_json(l@),
{
    let r = lockfile_value_with_hash(l, l.lock_hash.as_str());
    assert(with_lock_hash(l@, l.lock_hash@) == l@);
    r
}

/// The JSON form of the lockfile with `lock_hash` in place of its own.
pub fn lockfile_value_with_hash(l: &Lockfile, lock_hash: &str) -> (r: JsonValue)
    ensures
        r@ == lockfile_json(with_lock_hash(l@, lock_hash@)),
{
    let mut members: Vec<JsonValue> = Vec::new();
    let mut i: usize = 0;
    while i < l.members.len()
        invariant
            i <= l.members@.len(),
            view_items(members@) == l.members@.take(i as int).map_values(|m: Member| member_json(m@)),
        decreases l.members.len() - i,
    {
        let v = member_value(&l.members[i]);
        proof { lemma_view_items_push(members@, v); }
        members.push(v);
        assert(l.members@.take(i + 1).map_values(|m: Member| member_json(m@)) =~= l.members@.take(i as int).map_values(|m: Member| member_json(m@)).push(member_json(l.members@[i as int]@)));
        i = i + 1;
    }
    assert(l.members@.take(i as int) =~= l.members@);
    let mut skipped: Vec<JsonValue> = Vec::new();
    let mut i: usize = 0;
    while i < l.skipped.len()
        invariant
            i <= l.skipped@.len(),
            view_items(skipped@) == l.skipped@.take(i as int).map_values(|e: SkippedEntry| skipped_json(e@)),
        decreases l.skipped.len() - i,
    {
        let v = skipped_value(&l.skipped[i]);
        proof { lemma_view_items_push(skipped@, v); }
        skipped.push(v);
        assert(l.skipped@.take(i + 1).map_values(|e: SkippedEntry| skipped_json(e@)) =~= l.skipped@.take(i as int).map_values(|e: SkippedEntry| skipped_json(e@)).push(skipped_json(l.skipped@[i as int]@)));
        i = i + 1;
    }
    assert(l.skipped@.take(i as int) =~= l.skipped@);
    let mut profiles: Vec<JsonValue> = Vec::new();
    let mut i: usize = 0;
    while i < l.profiles.len()
        invariant
            i <= l.profiles@.len(),
            view_items(profiles@) == l.profiles@.take(i as int).map_values(|p: String| Json::Str(p@)),
        decreases l.profiles.len() - i,
    {
        let v = text_value(&l.profiles[i]);
        proof { lemma_view_items_push(profiles@, v); }
        profiles.push(v);
        assert(l.profiles@.take(i + 1).map_values(|p: String| Json::Str(p@)) =~= l.profiles@.take(i as int).map_values(|p: String| Json::Str(p@)).push(Json::Str(l.profiles@[i as int]@)));
        i = i + 1;
    }
    assert(l.profiles@.take(i as int) =~= l.profiles@);
    let mut es: Vec<(String, JsonValue)> = Vec::new();
    push_entry(&mut es, "as_of", opt_text_value(&l.as_of));
    push_entry(&mut es, "created", text_value(&l.created));
    push_entry(&mut es, "dataset_id", opt_text_value(&l.dataset_id));
    push_entry(&mut es, "lock_hash", JsonValue::Str(lock_hash.to_owned()));
    push_entry(&mut es, "member_count", JsonValue::Int(l.member_count as i128));
    push_entry(&mut es, "members", JsonValue::Array(members));
    push_entry(&mut es, "note", opt_text_value(&l.note));
    push_entry(&mut es, "profiles", JsonValue::Array(profiles));
    push_entry(&mut es, "skipped", JsonValue::Array(skipped));
    push_entry(&mut es, "skipped_count", JsonValue::Int(l.skipped_count as i128));
    push_entry(&mut es, "tool_versions", pairs_value(&l.tool_versions));
    push_entry(&mut es, "version", text_value(&l.version));
    assert(view_entries(es@) =~= lockfile_json(with_lock_hash(l@, lock_hash@))->Object_0) by {
        assert(view_entries(Seq::<(String, JsonValue)>::empty()) =~= seq![]);
        assert(l@.members.map_values(|m: MemberView| member_json(m)) =~= l.members@.map_values(|m: Member| member_json(m@)));
        assert(l@.skipped.map_values(|s: SkippedView| skipped_json(s)) =~= l.skipped@.map_values(|e: SkippedEntry| skipped_json(e@)));
        assert(l@.profiles.map_values(|p: Seq<char>| Json::Str(p)) =~= l.profiles@.map_values(|p: String| Json::Str(p@)));
    }
    JsonValue::Object(es)
}

/// Members and skipped entries sorted by path, with their counts.
#[derive(Debug, Clone, PartialEq, Eq)]
pub struct Classification {
    pub members: Vec<Member>,
    pub skipped: Vec<SkippedEntry>,
    pub skipped_count: u64,
    pub member_count: u64,
    pub outcome: DomainOutcome,
}

/// A record that cannot be classified, with its line number.
#[derive(Debug, Clone, Copy, PartialEq, Eq, Structural)]
pub enum ClassificationError {
    MissingPath { line_number: usize },
    MissingBytesHash { line_number: usize },
    MissingSize { line_number: usize },
}

/// Run metadata and merged tool versions for a lockfile.
#[derive(Debug, Clone, PartialEq, Eq)]
pub struct MetadataHydration {
    pub dataset_id: Option<String>,
    pub as_of: Option<String>,
    pub note: Option<String>,
    pub profiles: Vec<String>,
    pub tool_versions: Vec<(String, String)>,
}

/// Every backslash turned into a forward slash; nothing else changes.
pub open spec fn normalize(p: Seq<char>) -> Seq<char> {
    p.map_values(|c: char| if c == '\\' { '/' } else { c })
}

/// `relative_path` when it is a string, else `path` when it is one.
pub open spec fn record_path(v: Json) -> Option<Seq<char>> {
    match str_of(field(v, "relative_path"@)) {
        Some(p) => Some(p),
        None => str_of(field(v, "path"@)),
    }
}

/// The fingerprint of a record, when it has all required fields.
pub open spec fn fingerprint_of(v: Json) -> Option<FingerprintView> {
    match field(v, "fingerprint"@) {
        Some(f) => match (
            str_of(field(f, "fingerprint_id"@)),
            str_of(field(f, "fingerprint_version"@)),
            bool_of(field(f, "matched"@)),
        ) {
            (Some(id), Some(ver), Some(m)) => Some(
                FingerprintView {
                    fingerprint_id: id,
                    fingerprint_version: ver,
                    matched: m,
                    content_hash: str_of(field(f, "content_hash"@)),
                },
            ),
            _ => None,
        },
        None => None,
    }
}

/// A detail value as text: a string as itself, anything else as its JSON.
pub open spec fn rendered_detail(x: Json) -> Seq<char> {
    match x {
        Json::Str(s) => s,
        _ => canon(x),
    }
}

/// The detail mapping of a warning.
pub open spec fn detail_of(d: Option<Json>) -> Seq<(Seq<char>, Seq<char>)> {
    match d {
        Some(Json::Object(es)) => es.map_values(|e: (Seq<char>, Json)| (e.0, rendered_detail(e.1))),
        _ => seq![],
    }
}

/// The text, or the empty text.
pub open spec fn text_or_empty(o: Option<Seq<char>>) -> Seq<char> {
    match o {
        Some(s) => s,
        None => seq![],
    }
}

/// A warning read from an object.
pub open spec fn warning_of(w: Json) -> WarningView {
    WarningView {
        tool: text_or_empty(str_of(field(w, "tool"@))),
        code: text_or_empty(str_of(field(w, "code"@))),
        message: text_or_empty(str_of(field(w, "message"@))),
        detail: detail_of(field(w, "detail"@)),
    }
}

/// The warnings of the items that are objects, in order.
pub open spec fn object_warnings(items: Seq<Json>) -> Seq<WarningView>
    decreases items.len(),
{
    if items.len() == 0 {
        seq![]
    } else {
        let prev = object_warnings(items.drop_last());
        if items.last() is Object {
            prev.push(warning_of(items.last()))
        } else {
            prev
        }
    }
}

/// The warnings of a record's `_warnings` array.
pub open spec fn warnings_of(v: Json) -> Seq<WarningView> {
    match field(v, "_warnings"@) {
        Some(Json::Array(items)) => object_warnings(items),
        _ => seq![],
    }
}

/// The member a record stands for.
pub open spec fn member_of(v: Json) -> MemberView {
    MemberView {
        path: normalize(record_path(v)->0),
        bytes_hash: str_of(field(v, "bytes_hash"@))->0,
        size: u64_of(field(v, "size"@))->0,
        fingerprint: fingerprint_of(v),
    }
}

/// The skipped entry a record stands for.
pub open spec fn skipped_of(v: Json) -> SkippedView {
    SkippedView { path: normalize(record_path(v)->0), warnings: warnings_of(v) }
}

/// Why a record cannot be classified, if it cannot.
pub open spec fn record_error(line: usize, v: Json) -> Option<ClassificationError> {
    if record_path(v) is None {
        Some(ClassificationError::MissingPath { line_number: line })
    } else if skipped_record(v) {
        None
    } else if str_of(field(v, "bytes_hash"@)) is None {
        Some(ClassificationError::MissingBytesHash { line_number: line })
    } else if u64_of(field(v, "size"@)) is None {
        Some(ClassificationError::MissingSize { line_number: line })
    } else {
        None
    }
}

/// The error of the first record that cannot be classified.
pub open spec fn first_error(recs: Seq<InputRecord>) -> Option<ClassificationError>
    decreases recs.len(),
{
    if recs.len() == 0 {
        None
    } else {
        match first_error(recs.drop_last()) {
            Some(e) => Some(e),
            None => record_error(recs.last().line_number, recs.last().value@),
        }
    }
}

/// The members of the records that are not skipped, in input order.
pub open spec fn kept_members(recs: Seq<InputRecord>) -> Seq<MemberView>
    decreases recs.len(),
{
    if recs.len() == 0 {
        seq![]
    } else {
        let prev = kept_members(recs.drop_last());
        if skipped_record(recs.last().value@) {
            prev
        } else {
            prev.push(member_of(recs.last().value@))
        }
    }
}

/// The skipped entries of the records marked skipped, in input order.
pub open spec fn skipped_entries(recs: Seq<InputRecord>) -> Seq<SkippedView>
    decreases recs.len(),
{
    if recs.len() == 0 {
        seq![]
    } else {
        let prev = skipped_entries(recs.drop_last());
        if skipped_record(recs.last().value@) {
            prev.push(skipped_of(recs.last().value@))
        } else {
            prev
        }
    }
}

pub open spec fn member_path() -> spec_fn(MemberView) -> Seq<char> {
    |m: MemberView| m.path
}

pub open spec fn skipped_path() -> spec_fn(SkippedView) -> Seq<char> {
    |s: SkippedView| s.path
}

/// Once a prefix has an error, the whole sequence has that error.
proof fn lemma_first_error_extends(recs: Seq<InputRecord>, n: int)
    requires
        0 <= n <= recs.len(),
        first_error(recs.take(n)) is Some,
    ensures
        first_error(recs) == first_error(recs.take(n)),
    decreases recs.len() - n,
{
    if n < recs.len() {
        assert(recs.take(n + 1).drop_last() =~= recs.take(n));
        lemma_first_error_extends(recs, n + 1);
    } else {
        assert(recs.take(n) =~= recs);
    }
}

/// The members of a lockfile do not depend on the order in which the
/// same members, no two with one path, were read.
pub proof fn lemma_members_order_independent(m1: Seq<MemberView>, m2: Seq<MemberView>)
    requires
        m1.to_multiset() == m2.to_multiset(),
        distinct_keys(member_path(), m1),
        distinct_keys(member_path(), m2),
    ensures
        sort_by(member_path(), m1) == sort_by(member_path(), m2),
{
    lemma_sort_order_independent(member_path(), m1, m2);
}

/// The skipped entries of a lockfile do not depend on the order in which
/// the same entries, no two with one path, were read.
pub proof fn lemma_skipped_order_independent(s1: Seq<SkippedView>, s2: Seq<SkippedView>)
    requires
        s1.to_multiset() == s2.to_multiset(),
        distinct_keys(skipped_path(), s1),
        distinct_keys(skipped_path(), s2),
    ensures
        sort_by(skipped_path(), s1) == sort_by(skipped_path(), s2),
{
    lemma_sort_order_independent(skipped_path(), s1, s2);
}

/// Every warning of the entry names each detail key once.
pub open spec fn details_distinct(e: SkippedView) -> bool {
    forall|i: int| 0 <= i < e.warnings.len() ==> distinct_pair_keys(#[trigger] e.warnings[i].detail)
}

proof fn lemma_lookup_well_formed(es: Seq<(Seq<char>, Json)>, k: Seq<char>)
    requires
        forall|i: int| 0 <= i < es.len() ==> well_formed(#[trigger] es[i].1),
    ensures
        crate::json::entry_lookup(es, k) matches Some(x) ==> well_formed(x),
    decreases es.len(),
{
    if es.len() > 0 {
        let t = es.drop_first();
        assert forall|i: int| 0 <= i < t.len() implies well_formed(#[trigger] t[i].1) by {
            assert(t[i] == es[i + 1]);
        }
        lemma_lookup_well_formed(t, k);
    }
}

proof fn lemma_warnings_distinct(items: Seq<Json>)
    requires
        forall|i: int| 0 <= i < items.len() ==> well_formed(#[trigger] items[i]),
    ensures
        forall|j: int| 0 <= j < object_warnings(items).len() ==> distinct_pair_keys(#[trigger] object_warnings(items)[j].detail),
    decreases items.len(),
{
    if items.len() > 0 {
        let q = items.drop_last();
        assert forall|i: int| 0 <= i < q.len() implies well_formed(#[trigger] q[i]) by {
            assert(q[i] == items[i]);
        }
        lemma_warnings_distinct(q);
        let w = items.last();
        assert(well_formed(w));
        if w is Object {
            lemma_lookup_well_formed(w->Object_0, "detail"@);
            let d = warning_of(w).detail;
            match field(w, "detail"@) {
                Some(Json::Object(es)) => {
                    assert forall|a: int, b: int| 0 <= a < b < d.len() implies (#[trigger] d[a]).0 != (#[trigger] d[b]).0 by {
                        assert(d[a].0 == es[a].0 && d[b].0 == es[b].0);
                    }
                },
                _ => {
                    assert(d.len() == 0);
                },
            }
            assert(distinct_pair_keys(d));
            let r = object_warnings(items);
            let p = object_warnings(q);
            assert(r == p.push(warning_of(w)));
            assert forall|j: int| 0 <= j < r.len() implies distinct_pair_keys(#[trigger] r[j].detail) by {
                if j < p.len() {
                    assert(r[j] == p[j]);
                }
            }
        } else {
            assert(object_warnings(items) == object_warnings(q));
        }
    }
}

/// Entries read from well-formed records name each warning detail key once.
proof fn lemma_entries_details_distinct(recs: Seq<InputRecord>)
    requires
        forall|k: int| 0 <= k < recs.len() ==> well_formed(#[trigger] recs[k].value@),
    ensures
        forall|j: int| 0 <= j < skipped_entries(recs).len() ==> details_distinct(#[trigger] skipped_entries(recs)[j]),
    decreases recs.len(),
{
    if recs.len() > 0 {
        let q = recs.drop_last();
        assert forall|k: int| 0 <= k < q.len() implies well_formed(#[trigger] q[k].value@) by {
            assert(q[k] == recs[k]);
        }
        lemma_entries_details_distinct(q);
        let v = recs.last().value@;
        assert(well_formed(v));
        if skipped_record(v) {
            lemma_lookup_well_formed(v->Object_0, "_warnings"@);
            match field(v, "_warnings"@) {
                Some(Json::Array(items)) => {
                    lemma_warnings_distinct(items);
                },
                _ => {},
            }
            assert(details_distinct(skipped_of(v)));
            let r = skipped_entries(recs);
            let p = skipped_entries(q);
            assert(r == p.push(skipped_of(v)));
            assert forall|j: int| 0 <= j < r.len() implies details_distinct(#[trigger] r[j]) by {
                if j < p.len() {
                    assert(r[j] == p[j]);
                }
            }
        } else {
            assert(skipped_entries(recs) == skipped_entries(q));
        }
    }
}

/// The results of `f` on the items where it gives one, in order.
pub open spec fn keep<T, U>(f: spec_fn(T) -> Option<U>, s: Seq<T>) -> Seq<U>
    decreases s.len(),
{
    if s.len() == 0 {
        seq![]
    } else {
        match f(s.last()) {
            Some(u) => keep(f, s.drop_last()).push(u),
            None => keep(f, s.drop_last()),
        }
    }
}

/// What `f` gives for one item, as a multiset.
pub open spec fn kept_one<T, U>(f: spec_fn(T) -> Option<U>, x: T) -> Multiset<U> {
    match f(x) {
        Some(u) => Multiset::singleton(u),
        None => Multiset::empty(),
    }
}

proof fn lemma_keep_remove<T, U>(f: spec_fn(T) -> Option<U>, s: Seq<T>, k: int)
    requires
        0 <= k < s.len(),
    ensures
        keep(f, s).to_multiset() == keep(f, s.remove(k)).to_multiset().add(kept_one(f, s[k])),
    decreases s.len(),
{
    broadcast use vstd::multiset::group_multiset_axioms, vstd::seq_lib::to_multiset_build;
    let q = s.drop_last();
    if k == s.len() - 1 {
        assert(s.remove(k) =~= q);
        assert(keep(f, s).to_multiset() =~= keep(f, q).to_multiset().add(kept_one(f, s[k])));
    } else {
        lemma_keep_remove(f, q, k);
        let t = s.remove(k);
        assert(t.drop_last() =~= q.remove(k));
        assert(t.last() == s.last());
        assert(q[k] == s[k]);
        assert(keep(f, s).to_multiset() =~= keep(f, t).to_multiset().add(kept_one(f, s[k])));
    }
}

/// Reordering the items reorders what `f` keeps of them.
pub proof fn lemma_keep_permutation<T, U>(f: spec_fn(T) -> Option<U>, a: Seq<T>, b: Seq<T>)
    requires
        a.to_multiset() == b.to_multiset(),
    ensures
        keep(f, a).to_multiset() == keep(f, b).to_multiset(),
    decreases a.len(),
{
    broadcast use vstd::multiset::group_multiset_axioms, vstd::seq_lib::to_multiset_build,
        vstd::seq_lib::to_multiset_remove, vstd::seq_lib::to_multiset_contains, vstd::seq_lib::to_multiset_len;
    if a.len() == 0 {
        assert(b.to_multiset().len() == 0);
        assert(b.len() == 0);
        assert(keep(f, b) =~= seq![]);
    } else {
        let x = a.last();
        let q = a.drop_last();
        assert(q.push(x) =~= a);
        assert(a.to_multiset() == q.to_multiset().insert(x));
        assert(b.to_multiset().count(x) > 0);
        assert(b.contains(x));
        let k = choose|k: int| 0 <= k < b.len() && b[k] == x;
        let c = b.remove(k);
        assert(c.to_multiset() == b.to_multiset().remove(x));
        assert(q.to_multiset() =~= c.to_multiset());
        lemma_keep_permutation(f, q, c);
        lemma_keep_remove(f, b, k);
        assert(keep(f, a).to_multiset() =~= keep(f, q).to_multiset().add(kept_one(f, x)));
    }
}

/// The member a record gives, when it is not skipped.
pub open spec fn member_fn() -> spec_fn(InputRecord) -> Option<MemberView> {
    |r: InputRecord| if skipped_record(r.value@) { None } else { Some(member_of(r.value@)) }
}

/// The skipped entry a record gives, when it is skipped.
pub open spec fn skipped_fn() -> spec_fn(InputRecord) -> Option<SkippedView> {
    |r: InputRecord| if skipped_record(r.value@) { Some(skipped_of(r.value@)) } else { None }
}

proof fn lemma_kept_is_keep(recs: Seq<InputRecord>)
    ensures
        kept_members(recs) == keep(member_fn(), recs),
        skipped_entries(recs) == keep(skipped_fn(), recs),
    decreases recs.len(),
{
    if recs.len() > 0 {
        lemma_kept_is_keep(recs.drop_last());
    }
}

/// Sort stability of classification: two orders of the same records, where
/// no two members and no two skipped entries share a path, give the same
/// sorted members and the same sorted skipped entries.
pub proof fn lemma_classification_order_independent(r1: Seq<InputRecord>, r2: Seq<InputRecord>)
    requires
        r1.to_multiset() == r2.to_multiset(),
        distinct_keys(member_path(), kept_members(r1)),
        distinct_keys(member_path(), kept_members(r2)),
        distinct_keys(skipped_path(), skipped_entries(r1)),
        distinct_keys(skipped_path(), skipped_entries(r2)),
    ensures
        sort_by(member_path(), kept_members(r1)) == sort_by(member_path(), kept_members(r2)),
        sort_by(skipped_path(), skipped_entries(r1)) == sort_by(skipped_path(), skipped_entries(r2)),
{
    lemma_kept_is_keep(r1);
    lemma_kept_is_keep(r2);
    lemma_keep_permutation(member_fn(), r1, r2);
    lemma_keep_permutation(skipped_fn(), r1, r2);
    lemma_sort_order_independent(member_path(), kept_members(r1), kept_members(r2));
    lemma_sort_order_independent(skipped_path(), skipped_entries(r1), skipped_entries(r2));
}

/// Sorting after appending one item is inserting it into the sorted rest.
pub proof fn lemma_sort_by_push<T>(key: spec_fn(T) -> Seq<char>, s: Seq<T>, x: T)
    ensures
        sort_by(key, s.push(x)) == insert_by(key, x, sort_by(key, s)),
{
    assert(s.push(x).drop_last() =~= s);
}

/// Replaces every backslash with a forward slash.
pub fn normalize_path(path: &str) -> (r: String)
    ensures
        r@ == normalize(path@),
{
    let cs = chars_of(path);
    let mut out = String::new();
    let mut i: usize = 0;
    while i < cs.len()
        invariant
            i <= cs@.len(),
            cs@ == path@,
            out@ == normalize(path@.take(i as int)),
        decreases cs.len() - i,
    {
        let c = if cs[i] == '\\' { '/' } else { cs[i] };
        push_char(&mut out, c);
        assert(normalize(path@.take(i + 1)) =~= normalize(path@.take(i as int)).push(c));
        i = i + 1;
    }
    assert(path@.take(i as int) =~= path@);
    out
}

fn extract_record_path(value: &JsonValue, line_number: usize) -> (r: Result<String, ClassificationError>)
    ensures
        match r {
            Ok(p) => record_path(value@) is Some && p@ == normalize(record_path(value@)->0),
            Err(e) => record_path(value@) is None && e == (ClassificationError::MissingPath { line_number }),
        },
{
    let rel = match value.get("relative_path") {
        Some(x) => x.as_str(),
        None => None,
    };
    let chosen = match rel {
        Some(p) => Some(p),
        None => match value.get("path") {
            Some(x) => x.as_str(),
            None => None,
        },
    };
    match chosen {
        Some(p) => Ok(normalize_path(p)),
        None => Err(ClassificationError::MissingPath { line_number }),
    }
}

fn text_field(value: &JsonValue, key: &str) -> (r: Option<String>)
    ensures
        opt_view(r) == str_of(field(value@, key@)),
{
    match value.get(key) {
        Some(x) => match x.as_str() {
            Some(s) => Some(s.to_owned()),
            None => None,
        },
        None => None,
    }
}

fn extract_fingerprint(value: &JsonValue) -> (r: Option<FingerprintResult>)
    ensures
        match r {
            Some(f) => fingerprint_of(value@) == Some(f@),
            None => fingerprint_of(value@) is None,
        },
{
    let f = match value.get("fingerprint") {
        Some(f) => f,
        None => return None,
    };
    let id = match text_field(f, "fingerprint_id") {
        Some(s) => s,
        None => return None,
    };
    let version = match text_field(f, "fingerprint_version") {
        Some(s) => s,
        None => return None,
    };
    let matched = match f.get("matched") {
        Some(m) => match m.as_bool() {
            Some(b) => b,
            None => return None,
        },
        None => return None,
    };
    let content_hash = text_field(f, "content_hash");
    Some(FingerprintResult { fingerprint_id: id, fingerprint_version: version, matched, content_hash })
}

fn extract_warning_detail(value: Option<&JsonValue>) -> (r: Vec<(String, String)>)
    ensures
        pairs_view(r@) == detail_of(match value { Some(x) => Some(x@), None => None }),
{
    let mut out: Vec<(String, String)> = Vec::new();
    match value {
        Some(JsonValue::Object(es)) => {
            let ghost vs = view_entries(es@);
            proof { crate::json::lemma_view_entries(es@); }
            let mut i: usize = 0;
            while i < es.len()
                invariant
                    i <= es@.len(),
                    vs == view_entries(es@),
                    vs.len() == es@.len(),
                    forall|j: int| 0 <= j < es@.len() ==> #[trigger] vs[j] == (es@[j].0@, es@[j].1@),
                    pairs_view(out@) == vs.take(i as int).map_values(|e: (Seq<char>, Json)| (e.0, rendered_detail(e.1))),
                decreases es.len() - i,
            {
                let k = es[i].0.clone();
                let rendered = match &es[i].1 {
                    JsonValue::Str(s) => s.clone(),
                    other => to_canonical_text(other),
                };
                let ghost prev = out@;
                out.push((k, rendered));
                assert(pairs_view(out@) =~= pairs_view(prev).push((k@, rendered@)));
                assert(vs.take(i + 1).map_values(|e: (Seq<char>, Json)| (e.0, rendered_detail(e.1))) =~= vs.take(i as int).map_values(|e: (Seq<char>, Json)| (e.0, rendered_detail(e.1))).push((vs[i as int].0, rendered_detail(vs[i as int].1))));
                i = i + 1;
            }
            assert(vs.take(i as int) =~= vs);
        },
        _ => {
            assert(pairs_view(out@) =~= seq![]);
        },
    }
    out
}

fn text_or_blank(value: &JsonValue, key: &str) -> (r: String)
    ensures
        r@ == text_or_empty(str_of(field(value@, key@))),
{
    match text_field(value, key) {
        Some(s) => s,
        None => String::new(),
    }
}

fn extract_warnings(value: &JsonValue) -> (r: Vec<Warning>)
    ensures
        r@.map_values(|w: Warning| w@) == warnings_of(value@),
{
    let mut out: Vec<Warning> = Vec::new();
    match value.get("_warnings") {
        Some(JsonValue::Array(items)) => {
            let ghost vs = view_items(items@);
            proof { crate::json::lemma_view_items(items@); }
            let mut i: usize = 0;
            while i < items.len()
                invariant
                    i <= items@.len(),
                    vs == view_items(items@),
                    vs.len() == items@.len(),
                    forall|j: int| 0 <= j < items@.len() ==> #[trigger] vs[j] == items@[j]@,
                    out@.map_values(|w: Warning| w@) == object_warnings(vs.take(i as int)),
                decreases items.len() - i,
            {
                assert(vs.take(i + 1).drop_last() =~= vs.take(i as int));
                let w = &items[i];
                if let JsonValue::Object(_) = w {
                    let warning = Warning {
                        tool: text_or_blank(w, "tool"),
                        code: text_or_blank(w, "code"),
                        message: text_or_blank(w, "message"),
                        detail: extract_warning_detail(w.get("detail")),
                    };
                    let ghost prev = out@;
                    out.push(warning);
                    assert(out@.map_values(|w: Warning| w@) =~= prev.map_values(|w: Warning| w@).push(warning@));
                }
                i = i + 1;
            }
            assert(vs.take(i as int) =~= vs);
        },
        _ => {
            assert(out@.map_values(|w: Warning| w@) =~= seq![]);
        },
    }
    out
}

/// Inserts a member after every member whose path is not greater.
fn insert_member(members: &mut Vec<Member>, m: Member)
    ensures
        members_view(final(members)@) == insert_by(member_path(), m@, members_view(old(members)@)),
        final(members)@.len() == old(members)@.len() + 1,
{
    let mut p: usize = 0;
    while p < members.len() && !less_than(m.path.as_str(), members[p].path.as_str())
        invariant
            p <= members@.len(),
            forall|j: int| 0 <= j < p ==> !crate::text::text_lt(m.path@, #[trigger] members@[j].path@),
        decreases members.len() - p,
    {
        p = p + 1;
    }
    proof {
        let mv = members_view(members@);
        assert forall|j: int| 0 <= j < p implies !crate::text::text_lt(member_path()(m@), #[trigger] member_path()(mv[j])) by {
            assert(mv[j].path == members@[j].path@);
        }
        lemma_insert_by_at(member_path(), m@, mv, p as int);
    }
    let ghost prev = members@;
    members.insert(p, m);
    assert(members_view(members@) =~= members_view(prev).insert(p as int, m@));
}

/// Inserts a skipped entry after every entry whose path is not greater.
fn insert_skipped(entries: &mut Vec<SkippedEntry>, e: SkippedEntry)
    ensures
        skipped_view(final(entries)@) == insert_by(skipped_path(), e@, skipped_view(old(entries)@)),
        final(entries)@.len() == old(entries)@.len() + 1,
{
    let mut p: usize = 0;
    while p < entries.len() && !less_than(e.path.as_str(), entries[p].path.as_str())
        invariant
            p <= entries@.len(),
            forall|j: int| 0 <= j < p ==> !crate::text::text_lt(e.path@, #[trigger] entries@[j].path@),
        decreases entries.len() - p,
    {
        p = p + 1;
    }
    proof {
        let sv = skipped_view(entries@);
        assert forall|j: int| 0 <= j < p implies !crate::text::text_lt(skipped_path()(e@), #[trigger] skipped_path()(sv[j])) by {
            assert(sv[j].path == entries@[j].path@);
        }
        lemma_insert_by_at(skipped_path(), e@, sv, p as int);
    }
    let ghost prev = entries@;
    entries.insert(p, e);
    assert(skipped_view(entries@) =~= skipped_view(prev).insert(p as int, e@));
}

/// The string-valued entries of an object, in order.
pub open spec fn string_entries(es: Seq<(Seq<char>, Json)>) -> Seq<(Seq<char>, Seq<char>)>
    decreases es.len(),
{
    if es.len() == 0 {
        seq![]
    } else {
        let prev = string_entries(es.drop_last());
        match es.last().1 {
            Json::Str(v) => prev.push((es.last().0, v)),
            _ => prev,
        }
    }
}

/// The string-valued `tool_versions` entries of a record.
pub open spec fn record_tool_versions(v: Json) -> Seq<(Seq<char>, Seq<char>)> {
    match field(v, "tool_versions"@) {
        Some(Json::Object(es)) => string_entries(es),
        _ => seq![],
    }
}

/// Every tool/version pair the records name, in record order.
pub open spec fn tool_version_walk(recs: Seq<InputRecord>) -> Seq<(Seq<char>, Seq<char>)>
    decreases recs.len(),
{
    if recs.len() == 0 {
        seq![]
    } else {
        tool_version_walk(recs.drop_last()) + record_tool_versions(recs.last().value@)
    }
}

/// Whether some pair has the key.
pub open spec fn has_key(ps: Seq<(Seq<char>, Seq<char>)>, k: Seq<char>) -> bool {
    exists|i: int| 0 <= i < ps.len() && (#[trigger] ps[i]).0 == k
}

/// The pairs whose key was not seen before them.
pub open spec fn first_seen(ps: Seq<(Seq<char>, Seq<char>)>) -> Seq<(Seq<char>, Seq<char>)>
    decreases ps.len(),
{
    if ps.len() == 0 {
        seq![]
    } else {
        let prev = first_seen(ps.drop_last());
        if has_key(prev, ps.last().0) {
            prev
        } else {
            prev.push(ps.last())
        }
    }
}

/// The pairs without those whose key is `k`.
pub open spec fn without_key(ps: Seq<(Seq<char>, Seq<char>)>, k: Seq<char>) -> Seq<(Seq<char>, Seq<char>)>
    decreases ps.len(),
{
    if ps.len() == 0 {
        seq![]
    } else {
        let prev = without_key(ps.drop_last(), k);
        if ps.last().0 == k {
            prev
        } else {
            prev.push(ps.last())
        }
    }
}

/// The value of the first pair with the key.
pub open spec fn pair_lookup(ps: Seq<(Seq<char>, Seq<char>)>, k: Seq<char>) -> Option<Seq<char>>
    decreases ps.len(),
{
    if ps.len() == 0 {
        None
    } else {
        match pair_lookup(ps.drop_last(), k) {
            Some(v) => Some(v),
            None => if ps.last().0 == k {
                Some(ps.last().1)
            } else {
                None
            },
        }
    }
}

/// The merged tool versions: the first version of each tool in record
/// order, and `lock` set to the running version.
pub open spec fn merged_tool_versions(recs: Seq<InputRecord>, lock_version: Seq<char>) -> Seq<(Seq<char>, Seq<char>)> {
    without_key(first_seen(tool_version_walk(recs)), "lock"@).push(("lock"@, lock_version))
}

proof fn lemma_lookup_push(ps: Seq<(Seq<char>, Seq<char>)>, x: (Seq<char>, Seq<char>), k: Seq<char>)
    ensures
        pair_lookup(ps.push(x), k) == match pair_lookup(ps, k) {
            Some(v) => Some(v),
            None => if x.0 == k { Some(x.1) } else { None },
        },
{
    assert(ps.push(x).drop_last() =~= ps);
}

proof fn lemma_lookup_has_key(ps: Seq<(Seq<char>, Seq<char>)>, k: Seq<char>)
    ensures
        pair_lookup(ps, k) is Some <==> has_key(ps, k),
    decreases ps.len(),
{
    if ps.len() > 0 {
        let q = ps.drop_last();
        lemma_lookup_has_key(q, k);
        assert(q.push(ps.last()) =~= ps);
        if has_key(q, k) {
            let i = choose|i: int| 0 <= i < q.len() && (#[trigger] q[i]).0 == k;
            assert(ps[i] == q[i]);
        }
        if has_key(ps, k) && ps.last().0 != k {
            let i = choose|i: int| 0 <= i < ps.len() && (#[trigger] ps[i]).0 == k;
            assert(q[i] == ps[i]);
        }
    }
}

proof fn lemma_lookup_first_seen(ps: Seq<(Seq<char>, Seq<char>)>, k: Seq<char>)
    ensures
        pair_lookup(first_seen(ps), k) == pair_lookup(ps, k),
    decreases ps.len(),
{
    if ps.len() > 0 {
        let q = ps.drop_last();
        let x = ps.last();
        lemma_lookup_first_seen(q, k);
        assert(q.push(x) =~= ps);
        lemma_lookup_push(q, x, k);
        if has_key(first_seen(q), x.0) {
            lemma_lookup_has_key(first_seen(q), x.0);
        } else {
            lemma_lookup_push(first_seen(q), x, k);
        }
    }
}

proof fn lemma_lookup_without(ps: Seq<(Seq<char>, Seq<char>)>, k: Seq<char>, t: Seq<char>)
    ensures
        t != k ==> pair_lookup(without_key(ps, k), t) == pair_lookup(ps, t),
        pair_lookup(without_key(ps, k), k) is None,
    decreases ps.len(),
{
    if ps.len() > 0 {
        let q = ps.drop_last();
        let x = ps.last();
        lemma_lookup_without(q, k, t);
        assert(q.push(x) =~= ps);
        lemma_lookup_push(q, x, t);
        if x.0 != k {
            lemma_lookup_push(without_key(q, k), x, t);
            lemma_lookup_push(without_key(q, k), x, k);
        }
    }
}

/// First seen wins: for a tool other than `lock`, the merged version is
/// the version of the tool's first occurrence in record order; `lock` is
/// the running version.
pub proof fn lemma_first_seen_wins(recs: Seq<InputRecord>, lock_version: Seq<char>, tool: Seq<char>)
    requires
        tool != "lock"@,
    ensures
        pair_lookup(merged_tool_versions(recs, lock_version), tool) == pair_lookup(tool_version_walk(recs), tool),
        pair_lookup(merged_tool_versions(recs, lock_version), "lock"@) == Some(lock_version),
{
    let fs = first_seen(tool_version_walk(recs));
    lemma_lookup_first_seen(tool_version_walk(recs), tool);
    lemma_lookup_without(fs, "lock"@, tool);
    lemma_lookup_push(without_key(fs, "lock"@), ("lock"@, lock_version), tool);
    lemma_lookup_push(without_key(fs, "lock"@), ("lock"@, lock_version), "lock"@);
}

/// No two pairs share a key.
pub open spec fn distinct_pair_keys(ps: Seq<(Seq<char>, Seq<char>)>) -> bool {
    forall|i: int, j: int| 0 <= i < j < ps.len() ==> (#[trigger] ps[i]).0 != (#[trigger] ps[j]).0
}

proof fn lemma_first_seen_distinct(ps: Seq<(Seq<char>, Seq<char>)>)
    ensures
        distinct_pair_keys(first_seen(ps)),
    decreases ps.len(),
{
    if ps.len() > 0 {
        let q = ps.drop_last();
        lemma_first_seen_distinct(q);
        let f = first_seen(q);
        if !has_key(f, ps.last().0) {
            let g = f.push(ps.last());
            assert forall|i: int, j: int| 0 <= i < j < g.len() implies (#[trigger] g[i]).0 != (#[trigger] g[j]).0 by {
                if j == f.len() {
                    assert(g[i] == f[i]);
                    if f[i].0 == ps.last().0 {
                        assert(has_key(f, ps.last().0));
                    }
                } else {
                    assert(g[i] == f[i] && g[j] == f[j]);
                }
            }
        }
    }
}

proof fn lemma_without_key_distinct(ps: Seq<(Seq<char>, Seq<char>)>, k: Seq<char>)
    requires
        distinct_pair_keys(ps),
    ensures
        distinct_pair_keys(without_key(ps, k)),
        !has_key(without_key(ps, k), k),
        forall|y: Seq<char>| has_key(without_key(ps, k), y) ==> has_key(ps, y),
    decreases ps.len(),
{
    if ps.len() > 0 {
        let q = ps.drop_last();
        let x = ps.last();
        assert(distinct_pair_keys(q)) by {
            assert forall|i: int, j: int| 0 <= i < j < q.len() implies (#[trigger] q[i]).0 != (#[trigger] q[j]).0 by {
                assert(q[i] == ps[i] && q[j] == ps[j]);
            }
        }
        lemma_without_key_distinct(q, k);
        let w = without_key(q, k);
        assert forall|y: Seq<char>| has_key(without_key(ps, k), y) implies has_key(ps, y) by {
            let i = choose|i: int| 0 <= i < without_key(ps, k).len() && (#[trigger] without_key(ps, k)[i]).0 == y;
            if x.0 != k && i == w.len() {
                assert(ps[ps.len() - 1].0 == y);
            } else {
                assert(without_key(ps, k)[i] == w[i]);
                assert(has_key(w, y));
                assert(has_key(q, y));
                let j = choose|j: int| 0 <= j < q.len() && (#[trigger] q[j]).0 == y;
                assert(ps[j] == q[j]);
            }
        }
        if x.0 != k {
            let g = w.push(x);
            assert(!has_key(w, x.0)) by {
                if has_key(w, x.0) {
                    assert(has_key(q, x.0));
                    let j = choose|j: int| 0 <= j < q.len() && (#[trigger] q[j]).0 == x.0;
                    assert(ps[j] == q[j]);
                    assert(ps[j].0 != ps[ps.len() - 1].0);
                }
            }
            assert forall|i: int, j: int| 0 <= i < j < g.len() implies (#[trigger] g[i]).0 != (#[trigger] g[j]).0 by {
                if j == w.len() {
                    assert(g[i] == w[i]);
                    if w[i].0 == x.0 {
                        assert(has_key(w, x.0));
                    }
                } else {
                    assert(g[i] == w[i] && g[j] == w[j]);
                }
            }
            assert(!has_key(g, k)) by {
                if has_key(g, k) {
                    let i = choose|i: int| 0 <= i < g.len() && (#[trigger] g[i]).0 == k;
                    if i < w.len() {
                        assert(g[i] == w[i]);
                        assert(has_key(w, k));
                    }
                }
            }
        }
    }
}

/// The merged tool versions name each tool once.
pub proof fn lemma_merged_distinct(recs: Seq<InputRecord>, lock_version: Seq<char>)
    ensures
        distinct_pair_keys(merged_tool_versions(recs, lock_version)),
{
    let fs = first_seen(tool_version_walk(recs));
    lemma_first_seen_distinct(tool_version_walk(recs));
    lemma_without_key_distinct(fs, "lock"@);
    let w = without_key(fs, "lock"@);
    let g = w.push(("lock"@, lock_version));
    assert forall|i: int, j: int| 0 <= i < j < g.len() implies (#[trigger] g[i]).0 != (#[trigger] g[j]).0 by {
        if j == w.len() {
            assert(g[i] == w[i]);
            if w[i].0 == "lock"@ {
                assert(has_key(w, "lock"@));
            }
        } else {
            assert(g[i] == w[i] && g[j] == w[j]);
        }
    }
}

fn has_pair_key(ps: &Vec<(String, String)>, k: &str) -> (r: bool)
    ensures
        r == has_key(pairs_view(ps@), k@),
{
    let mut i: usize = 0;
    while i < ps.len()
        invariant
            i <= ps@.len(),
            forall|j: int| 0 <= j < i ==> ps@[j].0@ != k@,
        decreases ps.len() - i,
    {
        if text_eq(ps[i].0.as_str(), k) {
            assert(pairs_view(ps@)[i as int].0 == k@);
            return true;
        }
        i = i + 1;
    }
    assert forall|j: int| 0 <= j < pairs_view(ps@).len() implies (#[trigger] pairs_view(ps@)[j]).0 != k@ by {
        assert(pairs_view(ps@)[j].0 == ps@[j].0@);
    }
    false
}

/// The tool versions of the records, first seen wins, with `lock` set to
/// `lock_version` whatever the records said of it.
pub fn merge_tool_versions(records: &[InputRecord], lock_version: &str) -> (r: Vec<(String, String)>)
    ensures
        pairs_view(r@) == merged_tool_versions(records@, lock_version@),
        distinct_pair_keys(pairs_view(r@)),
{
    proof { lemma_merged_distinct(records@, lock_version@); }
    let mut merged: Vec<(String, String)> = Vec::new();
    let ghost mut walked: Seq<(Seq<char>, Seq<char>)> = seq![];
    let mut i: usize = 0;
    while i < records.len()
        invariant
            i <= records@.len(),
            walked == tool_version_walk(records@.take(i as int)),
            pairs_view(merged@) == first_seen(walked),
        decreases records.len() - i,
    {
        assert(records@.take(i + 1).drop_last() =~= records@.take(i as int));
        let ghost before = walked;
        match records[i].value.get("tool_versions") {
            Some(JsonValue::Object(es)) => {
                let ghost vs = view_entries(es@);
                proof { crate::json::lemma_view_entries(es@); }
                let mut j: usize = 0;
                while j < es.len()
                    invariant
                        j <= es@.len(),
                        vs == view_entries(es@),
                        vs.len() == es@.len(),
                        forall|m: int| 0 <= m < es@.len() ==> #[trigger] vs[m] == (es@[m].0@, es@[m].1@),
                        walked == before + string_entries(vs.take(j as int)),
                        pairs_view(merged@) == first_seen(walked),
                    decreases es.len() - j,
                {
                    assert(vs.take(j + 1).drop_last() =~= vs.take(j as int));
                    if let JsonValue::Str(v) = &es[j].1 {
                        let ghost x = (es@[j as int].0@, v@);
                        proof {
                            assert(walked.push(x).drop_last() =~= walked);
                            assert(before + string_entries(vs.take(j as int)).push(x) =~= walked.push(x));
                        }
                        if !has_pair_key(&merged, es[j].0.as_str()) {
                            let k = es[j].0.clone();
                            let val = v.clone();
                            let ghost prev = merged@;
                            merged.push((k, val));
                            assert(pairs_view(merged@) =~= pairs_view(prev).push(x));
                        }
                        proof { walked = walked.push(x); }
                    }
                    j = j + 1;
                }
                assert(vs.take(j as int) =~= vs);
            },
            _ => {},
        }
        assert(walked =~= tool_version_walk(records@.take(i + 1)));
        i = i + 1;
    }
    assert(records@.take(i as int) =~= records@);
    let mut out: Vec<(String, String)> = Vec::new();
    let mut k: usize = 0;
    while k < merged.len()
        invariant
            k <= merged@.len(),
            pairs_view(out@) == without_key(pairs_view(merged@).take(k as int), "lock"@),
        decreases merged.len() - k,
    {
        let ghost pv = pairs_view(merged@);
        assert(pv.take(k + 1).drop_last() =~= pv.take(k as int));
        assert(pv.take(k + 1).last() == (merged@[k as int].0@, merged@[k as int].1@));
        if !text_eq(merged[k].0.as_str(), "lock") {
            let ghost prev = out@;
            out.push((merged[k].0.clone(), merged[k].1.clone()));
            assert(pairs_view(out@) =~= pairs_view(prev).push((merged@[k as int].0@, merged@[k as int].1@)));
        }
        k = k + 1;
    }
    assert(pairs_view(merged@).take(k as int) =~= pairs_view(merged@));
    let ghost prev = out@;
    out.push(("lock".to_owned(), lock_version.to_owned()));
    assert(pairs_view(out@) =~= pairs_view(prev).push(("lock"@, lock_version@)));
    out
}

/// Copies an optional text.
fn copy_opt(o: Option<&str>) -> (r: Option<String>)
    ensures
        opt_view(r) == match o {
            Some(s) => Some(s@),
            None => None::<Seq<char>>,
        },
{
    match o {
        Some(s) => Some(s.to_owned()),
        None => None,
    }
}

/// The run metadata, empty profiles and the merged tool versions.
pub fn hydrate_metadata(
    records: &[InputRecord],
    lock_version: &str,
    dataset_id: Option<&str>,
    as_of: Option<&str>,
    note: Option<&str>,
) -> (r: MetadataHydration)
    ensures
        opt_view(r.dataset_id) == match dataset_id {
            Some(s) => Some(s@),
            None => None::<Seq<char>>,
        },
        opt_view(r.as_of) == match as_of {
            Some(s) => Some(s@),
            None => None::<Seq<char>>,
        },
        opt_view(r.note) == match note {
            Some(s) => Some(s@),
            None => None::<Seq<char>>,
        },
        r.profiles@.len() == 0,
        pairs_view(r.tool_versions@) == merged_tool_versions(records@, lock_version@),
        distinct_pair_keys(pairs_view(r.tool_versions@)),
{
    MetadataHydration {
        dataset_id: copy_opt(dataset_id),
        as_of: copy_opt(as_of),
        note: copy_opt(note),
        profiles: Vec::new(),
        tool_versions: merge_tool_versions(records, lock_version),
    }
}

/// Splits the records into members and skipped entries, each sorted by
/// path with equal paths in input order; the first record that cannot be
/// classified is the error.
pub fn classify_records(records: &[InputRecord]) -> (r: Result<Classification, ClassificationError>)
    ensures
        match r {
            Ok(c) => {
                &&& first_error(records@) is None
                &&& members_view(c.members@) == sort_by(member_path(), kept_members(records@))
                &&& skipped_view(c.skipped@) == sort_by(skipped_path(), skipped_entries(records@))
                &&& c.member_count == c.members@.len()
                &&& c.skipped_count == c.skipped@.len()
                &&& c.outcome == lockfile_outcome(c.skipped@.len())
                &&& (forall|k: int| 0 <= k < records@.len() ==> well_formed(#[trigger] records@[k].value@))
                    ==> forall|j: int| 0 <= j < c.skipped@.len() ==> details_distinct(#[trigger] skipped_view(c.skipped@)[j])
            },
            Err(e) => first_error(records@) == Some(e),
        },
{
    let mut members: Vec<Member> = Vec::new();
    let mut skipped: Vec<SkippedEntry> = Vec::new();
    let mut i: usize = 0;
    while i < records.len()
        invariant
            i <= records@.len(),
            first_error(records@.take(i as int)) is None,
            members_view(members@) == sort_by(member_path(), kept_members(records@.take(i as int))),
            skipped_view(skipped@) == sort_by(skipped_path(), skipped_entries(records@.take(i as int))),
            members@.len() + skipped@.len() == i,
        decreases records.len() - i,
    {
        let ghost pre = records@.take(i as int);
        let ghost rec = records@[i as int];
        assert(records@.take(i + 1).drop_last() =~= pre);
        assert(records@.take(i + 1).last() == rec);
        let record = &records[i];
        let path = match extract_record_path(&record.value, record.line_number) {
            Ok(p) => p,
            Err(e) => {
                proof { lemma_first_error_extends(records@, i + 1); }
                return Err(e);
            },
        };
        let skip = match record.value.get("_skipped") {
            Some(v) => match v.as_bool() {
                Some(b) => b,
                None => false,
            },
            None => false,
        };
        if skip {
            let entry = SkippedEntry { path, warnings: extract_warnings(&record.value) };
            proof { lemma_sort_by_push(skipped_path(), skipped_entries(pre), skipped_of(rec.value@)); }
            insert_skipped(&mut skipped, entry);
        } else {
            let bytes_hash = match text_field(&record.value, "bytes_hash") {
                Some(h) => h,
                None => {
                    proof { lemma_first_error_extends(records@, i + 1); }
                    return Err(ClassificationError::MissingBytesHash { line_number: record.line_number });
                },
            };
            let size = match record.value.get("size") {
                Some(v) => match v.as_u64() {
                    Some(n) => n,
                    None => {
                        proof { lemma_first_error_extends(records@, i + 1); }
                        return Err(ClassificationError::MissingSize { line_number: record.line_number });
                    },
                },
                None => {
                    proof { lemma_first_error_extends(records@, i + 1); }
                    return Err(ClassificationError::MissingSize { line_number: record.line_number });
                },
            };
            let member = Member {
                path,
                bytes_hash,
                size,
                fingerprint: extract_fingerprint(&record.value),
            };
            proof { lemma_sort_by_push(member_path(), kept_members(pre), member_of(rec.value@)); }
            insert_member(&mut members, member);
        }
        i = i + 1;
    }
    assert(records@.take(i as int) =~= records@);
    proof {
        if forall|k: int| 0 <= k < records@.len() ==> well_formed(#[trigger] records@[k].value@) {
            lemma_entries_details_distinct(records@);
            let es = skipped_entries(records@);
            lemma_sort_by_facts(skipped_path(), es);
            let sv = skipped_view(skipped@);
            assert forall|j: int| 0 <= j < skipped@.len() implies details_distinct(#[trigger] skipped_view(skipped@)[j]) by {
                assert(sv.contains(sv[j]));
                assert(es.contains(sv[j]));
                let m = choose|m: int| 0 <= m < es.len() && es[m] == sv[j];
                assert(details_distinct(es[m]));
            }
        }
    }
    let skipped_count = skipped.len() as u64;
    let member_count = members.len() as u64;
    let outcome = if skipped.len() == 0 {
        DomainOutcome::LockCreated
    } else {
        DomainOutcome::LockPartial
    };
    Ok(Classification { members, skipped, skipped_count, member_count, outcome })
}

} // verus!
