//! Lockfile verification: shape checks, verify refusals, and outcomes.

use vstd::prelude::*;
use crate::canonical::{canon, to_canonical_text};
use crate::json::{field, lemma_view_items, lemma_view_items_push, parse_text, parsed_json, push_entry, str_of, view_entries, view_items, Json, JsonValue};
use crate::refusal::envelope_value;
use crate::text::{chars_of, push_text, text_eq};

verus! {

/// Verify output schema version.
pub const VERIFY_VERSION: &'static str = "lock-verify.v0";

/// Refusal codes of the verify path.
#[derive(Debug, Clone, Copy, PartialEq, Eq, Structural)]
pub enum VerifyRefusalCode {
    /// The lockfile cannot be read.
    Io,
    /// Malformed JSON, missing fields, an absolute or traversing path.
    BadLockfile,
    /// The lockfile version is not supported.
    UnsupportedVersion,
    /// The `--root` directory does not exist.
    RootNotFound,
    /// A member's hash names an unknown algorithm.
    UnknownAlgorithm,
}

/// The wire name of a verify refusal code.
pub open spec fn verify_code_name(c: VerifyRefusalCode) -> Seq<char> {
    match c {
        VerifyRefusalCode::Io => "E_IO"@,
        VerifyRefusalCode::BadLockfile => "E_BAD_LOCKFILE"@,
        VerifyRefusalCode::UnsupportedVersion => "E_UNSUPPORTED_VERSION"@,
        VerifyRefusalCode::RootNotFound => "E_ROOT_NOT_FOUND"@,
        VerifyRefusalCode::UnknownAlgorithm => "E_UNKNOWN_ALGORITHM"@,
    }
}

impl VerifyRefusalCode {
    /// The wire name, such as `E_IO`.
    pub fn as_str(self) -> (r: &'static str)
        ensures
            r@ == verify_code_name(self),
    {
        match self {
            VerifyRefusalCode::Io => "E_IO",
            VerifyRefusalCode::BadLockfile => "E_BAD_LOCKFILE",
            VerifyRefusalCode::UnsupportedVersion => "E_UNSUPPORTED_VERSION",
            VerifyRefusalCode::RootNotFound => "E_ROOT_NOT_FOUND",
            VerifyRefusalCode::UnknownAlgorithm => "E_UNKNOWN_ALGORITHM",
        }
    }
}

/// The canonical text of a verify refusal.
pub open spec fn verify_refusal_text(c: VerifyRefusalCode, message: Seq<char>, detail: Json) -> Seq<char> {
    canon(
        crate::refusal::envelope_json(
            "lock-verify.v0"@,
            "REFUSAL"@,
            verify_code_name(c),
            message,
            detail,
            None,
        ),
    )
}

fn verify_refusal_json(code: VerifyRefusalCode, message: &str, detail: JsonValue) -> (r: String)
    ensures
        r@ == verify_refusal_text(code, message@, detail@),
{
    let v = envelope_value(VERIFY_VERSION, "REFUSAL", code.as_str(), message, detail, &None);
    proof { reveal_strlit("lock-verify.v0"); }
    assert(crate::json::opt_view(None) == None::<Seq<char>>);
    to_canonical_text(&v)
}

/// An object of two string fields.
fn two_texts(k1: &str, v1: &str, k2: &str, v2: &str) -> (r: JsonValue)
    ensures
        r@ == Json::Object(seq![(k1@, Json::Str(v1@)), (k2@, Json::Str(v2@))]),
{
    let mut es: Vec<(String, JsonValue)> = Vec::new();
    push_entry(&mut es, k1, JsonValue::Str(v1.to_owned()));
    push_entry(&mut es, k2, JsonValue::Str(v2.to_owned()));
    assert(view_entries(Seq::<(String, JsonValue)>::empty()) =~= seq![]);
    assert(view_entries(es@) =~= seq![(k1@, Json::Str(v1@)), (k2@, Json::Str(v2@))]);
    JsonValue::Object(es)
}

/// An object of one string field.
fn one_text(k: &str, v: &str) -> (r: JsonValue)
    ensures
        r@ == Json::Object(seq![(k@, Json::Str(v@))]),
{
    let mut es: Vec<(String, JsonValue)> = Vec::new();
    push_entry(&mut es, k, JsonValue::Str(v.to_owned()));
    assert(view_entries(Seq::<(String, JsonValue)>::empty()) =~= seq![]);
    assert(view_entries(es@) =~= seq![(k@, Json::Str(v@))]);
    JsonValue::Object(es)
}

/// A member index and path detail.
fn member_detail(member_index: usize, member_path: &str) -> (r: JsonValue)
    ensures
        r@ == Json::Object(seq![("member_index"@, Json::Int(member_index as int)), ("member_path"@, Json::Str(member_path@))]),
{
    let mut es: Vec<(String, JsonValue)> = Vec::new();
    push_entry(&mut es, "member_index", JsonValue::Int(member_index as i128));
    push_entry(&mut es, "member_path", JsonValue::Str(member_path.to_owned()));
    assert(view_entries(Seq::<(String, JsonValue)>::empty()) =~= seq![]);
    assert(view_entries(es@) =~= seq![("member_index"@, Json::Int(member_index as int)), ("member_path"@, Json::Str(member_path@))]);
    JsonValue::Object(es)
}

/// `prefix` followed by `tail`.
fn joined(prefix: &str, tail: &str) -> (r: String)
    ensures
        r@ == prefix@ + tail@,
{
    let mut m = String::new();
    push_text(&mut m, prefix);
    push_text(&mut m, tail);
    assert(m@ =~= prefix@ + tail@);
    m
}

/// `E_IO`: the lockfile cannot be read.
pub fn refusal_io(path: &str, error: &str) -> (r: String)
    ensures
        r@ == verify_refusal_text(
            VerifyRefusalCode::Io,
            "cannot read lockfile — "@ + error@,
            Json::Object(seq![("error"@, Json::Str(error@)), ("path"@, Json::Str(path@))]),
        ),
{
    let m = joined("cannot read lockfile — ", error);
    verify_refusal_json(VerifyRefusalCode::Io, m.as_str(), two_texts("error", error, "path", path))
}

/// The canonical text of the refusal for a lockfile that is not JSON.
pub open spec fn parse_refusal_text(error: Seq<char>) -> Seq<char> {
    verify_refusal_text(
        VerifyRefusalCode::BadLockfile,
        "malformed lockfile JSON — "@ + error,
        Json::Object(seq![("error"@, Json::Str(error))]),
    )
}

/// `E_BAD_LOCKFILE`: the lockfile is not JSON.
pub fn refusal_bad_lockfile_parse(error: &str) -> (r: String)
    ensures
        r@ == verify_refusal_text(
            VerifyRefusalCode::BadLockfile,
            "malformed lockfile JSON — "@ + error@,
            Json::Object(seq![("error"@, Json::Str(error@))]),
        ),
{
    let m = joined("malformed lockfile JSON — ", error);
    verify_refusal_json(VerifyRefusalCode::BadLockfile, m.as_str(), one_text("error", error))
}

/// `E_BAD_LOCKFILE`: required fields are missing.
pub fn refusal_bad_lockfile_missing_fields(missing: &[&str]) -> (r: String)
    ensures
        r@ == verify_refusal_text(
            VerifyRefusalCode::BadLockfile,
            "lockfile missing required fields"@,
            Json::Object(seq![("missing_fields"@, Json::Array(missing@.map_values(|f: &str| Json::Str(f@))))]),
        ),
{
    let mut items: Vec<JsonValue> = Vec::new();
    let mut i: usize = 0;
    while i < missing.len()
        invariant
            i <= missing@.len(),
            view_items(items@) == missing@.take(i as int).map_values(|f: &str| Json::Str(f@)),
        decreases missing.len() - i,
    {
        let v = JsonValue::Str(missing[i].to_owned());
        proof { lemma_view_items_push(items@, v); }
        items.push(v);
        assert(missing@.take(i + 1).map_values(|f: &str| Json::Str(f@)) =~= missing@.take(i as int).map_values(|f: &str| Json::Str(f@)).push(Json::Str(missing@[i as int]@)));
        i = i + 1;
    }
    assert(missing@.take(i as int) =~= missing@);
    let mut es: Vec<(String, JsonValue)> = Vec::new();
    push_entry(&mut es, "missing_fields", JsonValue::Array(items));
    assert(view_entries(Seq::<(String, JsonValue)>::empty()) =~= seq![]);
    assert(view_entries(es@) =~= seq![("missing_fields"@, Json::Array(missing@.map_values(|f: &str| Json::Str(f@))))]);
    verify_refusal_json(VerifyRefusalCode::BadLockfile, "lockfile missing required fields", JsonValue::Object(es))
}

/// `E_BAD_LOCKFILE`: a member path is absolute.
pub fn refusal_bad_lockfile_absolute_path(member_index: usize, member_path: &str) -> (r: String)
    ensures
        r@ == verify_refusal_text(
            VerifyRefusalCode::BadLockfile,
            "member path is absolute: "@ + member_path@,
            Json::Object(seq![("member_index"@, Json::Int(member_index as int)), ("member_path"@, Json::Str(member_path@))]),
        ),
{
    let m = joined("member path is absolute: ", member_path);
    verify_refusal_json(VerifyRefusalCode::BadLockfile, m.as_str(), member_detail(member_index, member_path))
}

/// `E_BAD_LOCKFILE`: a member path has a `..` segment.
pub fn refusal_bad_lockfile_traversal(member_index: usize, member_path: &str) -> (r: String)
    ensures
        r@ == verify_refusal_text(
            VerifyRefusalCode::BadLockfile,
            "member path contains traversal: "@ + member_path@,
            Json::Object(seq![("member_index"@, Json::Int(member_index as int)), ("member_path"@, Json::Str(member_path@))]),
        ),
{
    let m = joined("member path contains traversal: ", member_path);
    verify_refusal_json(VerifyRefusalCode::BadLockfile, m.as_str(), member_detail(member_index, member_path))
}

/// `E_UNSUPPORTED_VERSION`: the lockfile version is not recognized.
pub fn refusal_unsupported_version(version: &str) -> (r: String)
    ensures
        r@ == verify_refusal_text(
            VerifyRefusalCode::UnsupportedVersion,
            "unsupported lockfile version: "@ + version@,
            Json::Object(seq![("version"@, Json::Str(version@))]),
        ),
{
    let m = joined("unsupported lockfile version: ", version);
    verify_refusal_json(VerifyRefusalCode::UnsupportedVersion, m.as_str(), one_text("version", version))
}

/// `E_ROOT_NOT_FOUND`: the root directory does not exist.
pub fn refusal_root_not_found(root: &str) -> (r: String)
    ensures
        r@ == verify_refusal_text(
            VerifyRefusalCode::RootNotFound,
            "root directory not found: "@ + root@,
            Json::Object(seq![("root"@, Json::Str(root@))]),
        ),
{
    let m = joined("root directory not found: ", root);
    verify_refusal_json(VerifyRefusalCode::RootNotFound, m.as_str(), one_text("root", root))
}

/// `E_UNKNOWN_ALGORITHM`: a member's hash prefix is not recognized.
pub fn refusal_unknown_algorithm(member_path: &str, algorithm: &str) -> (r: String)
    ensures
        r@ == verify_refusal_text(
            VerifyRefusalCode::UnknownAlgorithm,
            "unrecognized hash algorithm: "@ + algorithm@,
            Json::Object(seq![("algorithm"@, Json::Str(algorithm@)), ("member_path"@, Json::Str(member_path@))]),
        ),
{
    let m = joined("unrecognized hash algorithm: ", algorithm);
    verify_refusal_json(
        VerifyRefusalCode::UnknownAlgorithm,
        m.as_str(),
        two_texts("algorithm", algorithm, "member_path", member_path),
    )
}

/// Whether a path starts with `/` or `\\`.
pub open spec fn is_absolute(p: Seq<char>) -> bool {
    p.len() > 0 && (p[0] == '/' || p[0] == '\\')
}

/// Whether a `..` segment, split at `sep`, starts at `i`.
pub open spec fn dotdot_at(p: Seq<char>, sep: char, i: int) -> bool {
    &&& 0 <= i
    &&& i + 2 <= p.len()
    &&& p[i] == '.'
    &&& p[i + 1] == '.'
    &&& (i == 0 || p[i - 1] == sep)
    &&& (i + 2 == p.len() || p[i + 2] == sep)
}

/// Whether splitting at `/` or at `\\` gives a `..` segment.
pub open spec fn has_traversal(p: Seq<char>) -> bool {
    exists|i: int| dotdot_at(p, '/', i) || dotdot_at(p, '\\', i)
}

/// The text before the first `:`, or all of it.
pub open spec fn algorithm_prefix(h: Seq<char>) -> Seq<char>
    decreases h.len(),
{
    if h.len() == 0 || h[0] == ':' {
        seq![]
    } else {
        seq![h[0]] + algorithm_prefix(h.drop_first())
    }
}

/// The hash algorithms a lockfile may name.
pub open spec fn known_algorithm(a: Seq<char>) -> bool {
    a == "sha256"@ || a == "blake3"@
}

/// The text of a string field, or the empty text.
pub open spec fn text_field_or_empty(v: Json, key: Seq<char>) -> Seq<char> {
    match str_of(field(v, key)) {
        Some(s) => s,
        None => seq![],
    }
}

/// The refusal a member draws, if any.
pub open spec fn member_problem(i: int, m: Json) -> Option<Seq<char>> {
    let p = text_field_or_empty(m, "path"@);
    if is_absolute(p) {
        Some(
            verify_refusal_text(
                VerifyRefusalCode::BadLockfile,
                "member path is absolute: "@ + p,
                Json::Object(seq![("member_index"@, Json::Int(i)), ("member_path"@, Json::Str(p))]),
            ),
        )
    } else if has_traversal(p) {
        Some(
            verify_refusal_text(
                VerifyRefusalCode::BadLockfile,
                "member path contains traversal: "@ + p,
                Json::Object(seq![("member_index"@, Json::Int(i)), ("member_path"@, Json::Str(p))]),
            ),
        )
    } else {
        match str_of(field(m, "bytes_hash"@)) {
            Some(h) => if known_algorithm(algorithm_prefix(h)) {
                None
            } else {
                Some(
                    verify_refusal_text(
                        VerifyRefusalCode::UnknownAlgorithm,
                        "unrecognized hash algorithm: "@ + algorithm_prefix(h),
                        Json::Object(seq![("algorithm"@, Json::Str(algorithm_prefix(h))), ("member_path"@, Json::Str(p))]),
                    ),
                )
            },
            None => None,
        }
    }
}

/// The refusal of the first member from `i` on that draws one.
pub open spec fn members_problem(ms: Seq<Json>, i: int) -> Option<Seq<char>>
    decreases ms.len() - i,
{
    if i < 0 || i >= ms.len() {
        None
    } else {
        match member_problem(i, ms[i]) {
            Some(t) => Some(t),
            None => members_problem(ms, i + 1),
        }
    }
}

/// The required top-level fields that are missing, in order.
pub open spec fn missing_fields(v: Json) -> Seq<Seq<char>> {
    let a = if field(v, "version"@) is None { seq!["version"@] } else { seq![] };
    let b = if field(v, "lock_hash"@) is None { seq!["lock_hash"@] } else { seq![] };
    let c = if field(v, "members"@) is None { seq!["members"@] } else { seq![] };
    a + b + c
}

/// The refusal a parsed lockfile draws, if any.
pub open spec fn shape_problem(v: Json) -> Option<Seq<char>> {
    let missing = missing_fields(v);
    let version = text_field_or_empty(v, "version"@);
    if missing.len() > 0 {
        Some(
            verify_refusal_text(
                VerifyRefusalCode::BadLockfile,
                "lockfile missing required fields"@,
                Json::Object(seq![("missing_fields"@, Json::Array(missing.map_values(|f: Seq<char>| Json::Str(f))))]),
            ),
        )
    } else if version != "lock.v0"@ {
        Some(
            verify_refusal_text(
                VerifyRefusalCode::UnsupportedVersion,
                "unsupported lockfile version: "@ + version,
                Json::Object(seq![("version"@, Json::Str(version))]),
            ),
        )
    } else {
        match field(v, "members"@) {
            Some(Json::Array(ms)) => members_problem(ms, 0),
            _ => None,
        }
    }
}

/// A lockfile that passed the shape checks, or the refusal text.
#[derive(Debug)]
pub enum ValidationResult {
    Valid(JsonValue),
    Refusal(String),
}

fn text_or_empty_of(v: &JsonValue, key: &str) -> (r: String)
    ensures
        r@ == text_field_or_empty(v@, key@),
{
    match v.get(key) {
        Some(x) => match x.as_str() {
            Some(s) => s.to_owned(),
            None => String::new(),
        },
        None => String::new(),
    }
}

/// Whether the path starts with a separator.
pub fn path_is_absolute(p: &str) -> (r: bool)
    ensures
        r == is_absolute(p@),
{
    let cs = chars_of(p);
    cs.len() > 0 && (cs[0] == '/' || cs[0] == '\\')
}

/// Whether the path has a `..` segment, splitting at `/` or at `\\`.
pub fn path_has_traversal(p: &str) -> (r: bool)
    ensures
        r == has_traversal(p@),
{
    let cs = chars_of(p);
    let n = cs.len();
    let mut i: usize = 0;
    while n > 0 && i < n - 1
        invariant
            i <= n,
            cs@ == p@,
            n == cs@.len(),
            forall|j: int| 0 <= j < i ==> !dotdot_at(p@, '/', j) && !dotdot_at(p@, '\\', j),
        decreases n - i,
    {
        if cs[i] == '.' && cs[i + 1] == '.' {
            let before_slash = i == 0 || cs[i - 1] == '/';
            let after_slash = i + 2 == n || cs[i + 2] == '/';
            let before_back = i == 0 || cs[i - 1] == '\\';
            let after_back = i + 2 == n || cs[i + 2] == '\\';
            if before_slash && after_slash {
                assert(dotdot_at(p@, '/', i as int));
                return true;
            }
            if before_back && after_back {
                assert(dotdot_at(p@, '\\', i as int));
                return true;
            }
        }
        i = i + 1;
    }
    assert forall|j: int| !dotdot_at(p@, '/', j) && !dotdot_at(p@, '\\', j) by {
        if 0 <= j < i {
        }
    }
    false
}

/// The text before the first `:` of a hash.
pub fn hash_prefix(h: &str) -> (r: String)
    ensures
        r@ == algorithm_prefix(h@),
{
    let cs = chars_of(h);
    let mut out = String::new();
    let mut i: usize = 0;
    assert(h@.skip(0) =~= h@);
    assert(out@ + algorithm_prefix(h@) =~= algorithm_prefix(h@));
    while i < cs.len() && cs[i] != ':'
        invariant
            i <= cs@.len(),
            cs@ == h@,
            forall|j: int| 0 <= j < i ==> cs@[j] != ':',
            out@ + algorithm_prefix(h@.skip(i as int)) == algorithm_prefix(h@),
        decreases cs.len() - i,
    {
        let ghost rest = h@.skip(i as int);
        assert(rest.drop_first() =~= h@.skip(i + 1));
        let ghost before = out@;
        crate::text::push_char(&mut out, cs[i]);
        assert(seq![rest[0]] + algorithm_prefix(rest.drop_first()) == algorithm_prefix(rest));
        assert(out@ + algorithm_prefix(h@.skip(i + 1)) =~= before + algorithm_prefix(rest));
        i = i + 1;
    }
    assert(algorithm_prefix(h@.skip(i as int)) =~= seq![]);
    assert(out@ + seq![] =~= out@);
    out
}

fn member_check(i: usize, m: &JsonValue) -> (r: Option<String>)
    ensures
        match r {
            Some(t) => member_problem(i as int, m@) == Some(t@),
            None => member_problem(i as int, m@) is None,
        },
{
    let path = text_or_empty_of(m, "path");
    if path_is_absolute(path.as_str()) {
        return Some(refusal_bad_lockfile_absolute_path(i, path.as_str()));
    }
    if path_has_traversal(path.as_str()) {
        return Some(refusal_bad_lockfile_traversal(i, path.as_str()));
    }
    match m.get("bytes_hash") {
        Some(x) => match x.as_str() {
            Some(h) => {
                let prefix = hash_prefix(h);
                proof { reveal_strlit("sha256"); reveal_strlit("blake3"); }
                if text_eq(prefix.as_str(), "sha256") || text_eq(prefix.as_str(), "blake3") {
                    None
                } else {
                    Some(refusal_unknown_algorithm(path.as_str(), prefix.as_str()))
                }
            },
            None => None,
        },
        None => None,
    }
}

/// Checks a lockfile's JSON text: it parses, has `version`, `lock_hash`
/// and `members`, has version `lock.v0`, and each member has a relative
/// path without `..` and a known hash algorithm.
pub fn validate_lockfile_json(json: &str) -> (r: ValidationResult)
    ensures
        match parsed_json(json@) {
            None => r is Refusal && exists|e: Seq<char>| r->Refusal_0@ == parse_refusal_text(e),
            Some(v) => match shape_problem(v) {
                Some(t) => r is Refusal && r->Refusal_0@ == t,
                None => r is Valid && r->Valid_0@ == v,
            },
        },
{
    let value = match parse_text(json) {
        Ok(v) => v,
        Err(e) => {
            let t = refusal_bad_lockfile_parse(e.as_str());
            assert(t@ == parse_refusal_text(e@));
            return ValidationResult::Refusal(t);
        },
    };
    let mut missing: Vec<&str> = Vec::new();
    if value.get("version").is_none() {
        missing.push("version");
    }
    if value.get("lock_hash").is_none() {
        missing.push("lock_hash");
    }
    if value.get("members").is_none() {
        missing.push("members");
    }
    assert(missing@.map_values(|f: &str| f@) =~= missing_fields(value@));
    if missing.len() > 0 {
        let t = refusal_bad_lockfile_missing_fields(missing.as_slice());
        assert(missing@.map_values(|f: &str| Json::Str(f@)) =~= missing_fields(value@).map_values(|f: Seq<char>| Json::Str(f)));
        return ValidationResult::Refusal(t);
    }
    let version = text_or_empty_of(&value, "version");
    proof { reveal_strlit("lock.v0"); }
    if !text_eq(version.as_str(), "lock.v0") {
        return ValidationResult::Refusal(refusal_unsupported_version(version.as_str()));
    }
    let problem = match value.get("members") {
        Some(JsonValue::Array(ms)) => {
            let ghost vs = view_items(ms@);
            proof { lemma_view_items(ms@); }
            let mut i: usize = 0;
            let mut found: Option<String> = None;
            while i < ms.len() && found.is_none()
                invariant
                    i <= ms@.len(),
                    vs == view_items(ms@),
                    vs.len() == ms@.len(),
                    forall|j: int| 0 <= j < ms@.len() ==> #[trigger] vs[j] == ms@[j]@,
                    match found {
                        None => members_problem(vs, 0) == members_problem(vs, i as int),
                        Some(t) => members_problem(vs, 0) == Some(t@),
                    },
                decreases ms.len() - i,
            {
                found = member_check(i, &ms[i]);
                i = i + 1;
            }
            assert(match found {
                Some(t) => members_problem(vs, 0) == Some(t@),
                None => members_problem(vs, 0) is None,
            });
            found
        },
        _ => None,
    };
    match problem {
        Some(t) => ValidationResult::Refusal(t),
        None => ValidationResult::Valid(value),
    }
}

} // verus!
