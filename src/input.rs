//! Input records: JSONL lines, the version gate and the hash gate.

use vstd::prelude::*;
use crate::json::{field, parse_text, parsed_json, str_of, bool_of, Json, JsonValue};
use crate::text::{blank, chars_of, is_blank, nat_text, push_nat, push_text, text_eq, text_from_chars};

verus! {

/// Record versions the lock accepts.
pub open spec fn accepted_version(s: Seq<char>) -> bool {
    s == "vacuum.v0"@ || s == "hash.v0"@ || s == "fingerprint.v0"@
}

/// The most paths a missing-hash report lists.
pub const MISSING_HASH_SAMPLE_LIMIT: usize = 5;

/// One parsed input line.
#[derive(Debug)]
pub struct InputRecord {
    pub line_number: usize,
    pub value: JsonValue,
}

/// The records read, or `Empty` when there were none.
#[derive(Debug)]
pub enum ReadResult {
    Empty,
    Records(Vec<InputRecord>),
}

#[derive(Debug, Clone, PartialEq, Eq)]
pub struct ParseErrorDetail {
    pub line: usize,
    pub error: String,
}

#[derive(Debug, Clone, PartialEq, Eq)]
pub struct VersionErrorDetail {
    pub line: usize,
    pub version: Option<String>,
}

#[derive(Debug, Clone, PartialEq, Eq)]
pub struct MissingHashDetail {
    pub count: usize,
    pub sample_paths: Vec<String>,
}

/// Reading the input failed.
#[derive(Debug)]
pub enum InputError {
    /// The input could not be read; the message says why.
    Io(String),
    Parse(ParseErrorDetail),
}

#[derive(Debug, Clone, PartialEq, Eq)]
pub enum ValidationError {
    BadVersion(VersionErrorDetail),
    MissingHash(MissingHashDetail),
}

/// The message of a read error.
pub open spec fn input_error_message(e: InputError) -> Seq<char> {
    match e {
        InputError::Io(m) => "I/O error while reading input: "@ + m@,
        InputError::Parse(d) => "JSON parse error at input line "@ + nat_text(d.line as nat) + ": "@ + d.error@,
    }
}

impl InputError {
    /// A one-line message for the error.
    pub fn message(&self) -> (r: String)
        ensures
            r@ == input_error_message(*self),
    {
        let mut out = String::new();
        match self {
            InputError::Io(m) => {
                push_text(&mut out, "I/O error while reading input: ");
                push_text(&mut out, m.as_str());
            },
            InputError::Parse(d) => {
                push_text(&mut out, "JSON parse error at input line ");
                push_nat(&mut out, d.line as u128);
                push_text(&mut out, ": ");
                push_text(&mut out, d.error.as_str());
            },
        }
        assert(out@ =~= input_error_message(*self));
        out
    }

    /// The parse detail, when reading failed on a line.
    pub fn parse_detail(&self) -> (r: Option<&ParseErrorDetail>)
        ensures
            match *self {
                InputError::Parse(d) => r is Some && *r->0 == d,
                InputError::Io(_) => r is None,
            },
    {
        match self {
            InputError::Parse(detail) => Some(detail),
            InputError::Io(_) => None,
        }
    }
}

/// A line without its final carriage return.
pub open spec fn strip_cr(l: Seq<char>) -> Seq<char> {
    if l.len() > 0 && l.last() == '\r' { l.drop_last() } else { l }
}

/// The finished lines and the line under way after reading `t`.
pub open spec fn scan_lines(t: Seq<char>) -> (Seq<Seq<char>>, Seq<char>)
    decreases t.len(),
{
    if t.len() == 0 {
        (seq![], seq![])
    } else {
        let (done, cur) = scan_lines(t.drop_last());
        if t.last() == '\n' {
            (done.push(strip_cr(cur)), seq![])
        } else {
            (done, cur.push(t.last()))
        }
    }
}

/// The lines of a text: split at `\n`, a `\r` before it dropped, a final
/// line kept when it is not empty.
pub open spec fn text_lines(t: Seq<char>) -> Seq<Seq<char>> {
    let (done, cur) = scan_lines(t);
    if cur.len() > 0 { done.push(cur) } else { done }
}

/// The lines of a text.
pub fn split_lines(text: &str) -> (r: Vec<String>)
    ensures
        r@.map_values(|s: String| s@) == text_lines(text@),
{
    let cs = chars_of(text);
    let mut done: Vec<String> = Vec::new();
    let mut cur: Vec<char> = Vec::new();
    let mut i: usize = 0;
    while i < cs.len()
        invariant
            i <= cs@.len(),
            cs@ == text@,
            (done@.map_values(|s: String| s@), cur@) == scan_lines(text@.take(i as int)),
        decreases cs.len() - i,
    {
        assert(text@.take(i + 1).drop_last() =~= text@.take(i as int));
        let ghost prev = done@;
        if cs[i] == '\n' {
            if cur.len() > 0 && cur[cur.len() - 1] == '\r' {
                cur.pop();
            }
            let line = text_from_chars(&cur);
            done.push(line);
            cur = Vec::new();
            assert(done@.map_values(|s: String| s@) =~= prev.map_values(|s: String| s@).push(line@));
        } else {
            cur.push(cs[i]);
        }
        i = i + 1;
    }
    assert(text@.take(i as int) =~= text@);
    if cur.len() > 0 {
        let ghost prev = done@;
        let line = text_from_chars(&cur);
        done.push(line);
        assert(done@.map_values(|s: String| s@) =~= prev.map_values(|s: String| s@).push(line@));
    }
    done
}

/// The message for a blank input line.
pub open spec fn empty_line_message() -> Seq<char> {
    "line is empty; expected one JSON value per line"@
}

/// Whether a line is a JSON value: not blank, and parses.
pub open spec fn line_ok(l: Seq<char>) -> bool {
    !is_blank(l) && parsed_json(l) is Some
}

/// Reads JSONL text: one JSON value per line, numbered from 1.
pub fn read_jsonl_text(text: &str) -> (r: Result<ReadResult, InputError>)
    ensures
        ({
            let ls = text_lines(text@);
            match r {
                Ok(ReadResult::Empty) => ls.len() == 0,
                Ok(ReadResult::Records(rs)) => {
                    &&& ls.len() > 0
                    &&& rs@.len() == ls.len()
                    &&& forall|k: int| 0 <= k < ls.len() ==> line_ok(#[trigger] ls[k])
                    &&& forall|k: int| 0 <= k < rs@.len() ==> {
                        &&& (#[trigger] rs@[k]).line_number == k + 1
                        &&& parsed_json(ls[k]) == Some(rs@[k].value@)
                    }
                },
                Err(InputError::Parse(d)) => {
                    &&& 1 <= d.line <= ls.len()
                    &&& !line_ok(ls[d.line - 1])
                    &&& forall|k: int| 0 <= k < d.line - 1 ==> line_ok(#[trigger] ls[k])
                    &&& is_blank(ls[d.line - 1]) ==> d.error@ == empty_line_message()
                },
                Err(InputError::Io(_)) => false,
            }
        }),
{
    let lines = split_lines(text);
    let ghost ls = text_lines(text@);
    assert(lines@.len() == ls.len());
    let mut records: Vec<InputRecord> = Vec::new();
    let mut i: usize = 0;
    while i < lines.len()
        invariant
            i <= lines@.len(),
            ls == text_lines(text@),
            lines@.map_values(|s: String| s@) == ls,
            records@.len() == i,
            forall|k: int| 0 <= k < i ==> line_ok(#[trigger] ls[k]),
            forall|k: int| 0 <= k < i ==> {
                &&& (#[trigger] records@[k]).line_number == k + 1
                &&& parsed_json(ls[k]) == Some(records@[k].value@)
            },
        decreases lines.len() - i,
    {
        assert(lines@[i as int]@ == ls[i as int]);
        if blank(lines[i].as_str()) {
            return Err(InputError::Parse(ParseErrorDetail {
                line: i + 1,
                error: "line is empty; expected one JSON value per line".to_owned(),
            }));
        }
        match parse_text(lines[i].as_str()) {
            Ok(value) => {
                records.push(InputRecord { line_number: i + 1, value });
            },
            Err(e) => {
                return Err(InputError::Parse(ParseErrorDetail { line: i + 1, error: e }));
            },
        }
        i = i + 1;
    }
    if records.len() == 0 {
        Ok(ReadResult::Empty)
    } else {
        Ok(ReadResult::Records(records))
    }
}

/// Whether a record is marked skipped.
pub open spec fn skipped_record(v: Json) -> bool {
    bool_of(field(v, "_skipped"@)) == Some(true)
}

/// Whether the field is a string with a non-whitespace character.
pub open spec fn has_text_field(v: Json, key: Seq<char>) -> bool {
    match str_of(field(v, key)) {
        Some(s) => !is_blank(s),
        None => false,
    }
}

/// The path a missing-hash report names for a record.
pub open spec fn missing_hash_path(v: Json) -> Seq<char> {
    let chosen = match field(v, "relative_path"@) {
        Some(x) => Some(x),
        None => field(v, "path"@),
    };
    match str_of(chosen) {
        Some(p) => p,
        None => "<unknown>"@,
    }
}

/// Whether a record's version is accepted.
pub open spec fn version_ok(v: Json) -> bool {
    match str_of(field(v, "version"@)) {
        Some(s) => accepted_version(s),
        None => false,
    }
}

/// Whether a record needs a hash and has none.
pub open spec fn lacks_hash(v: Json) -> bool {
    !skipped_record(v) && !has_text_field(v, "bytes_hash"@)
}

/// The paths of the records that lack a hash, in input order.
pub open spec fn missing_hash_paths(recs: Seq<InputRecord>) -> Seq<Seq<char>>
    decreases recs.len(),
{
    if recs.len() == 0 {
        seq![]
    } else {
        let prev = missing_hash_paths(recs.drop_last());
        if lacks_hash(recs.last().value@) {
            prev.push(missing_hash_path(recs.last().value@))
        } else {
            prev
        }
    }
}

/// The first `MISSING_HASH_SAMPLE_LIMIT` paths.
pub open spec fn sample_of(paths: Seq<Seq<char>>) -> Seq<Seq<char>> {
    if paths.len() <= 5 { paths } else { paths.take(5) }
}

fn validate_version(record: &InputRecord) -> (r: Result<(), ValidationError>)
    ensures
        match r {
            Ok(()) => version_ok(record.value@),
            Err(ValidationError::BadVersion(d)) => {
                &&& !version_ok(record.value@)
                &&& d.line == record.line_number
                &&& opt_text(d.version) == str_of(field(record.value@, "version"@))
            },
            Err(_) => false,
        },
{
    proof {
        reveal_strlit("vacuum.v0");
        reveal_strlit("hash.v0");
        reveal_strlit("fingerprint.v0");
    }
    let version = match record.value.get("version") {
        Some(v) => v.as_str(),
        None => None,
    };
    match version {
        Some(s) => {
            if text_eq(s, "vacuum.v0") || text_eq(s, "hash.v0") || text_eq(s, "fingerprint.v0") {
                Ok(())
            } else {
                Err(ValidationError::BadVersion(VersionErrorDetail {
                    line: record.line_number,
                    version: Some(s.to_owned()),
                }))
            }
        },
        None => Err(ValidationError::BadVersion(VersionErrorDetail {
            line: record.line_number,
            version: None,
        })),
    }
}

/// The view of an optional text.
pub open spec fn opt_text(o: Option<String>) -> Option<Seq<char>> {
    match o {
        Some(s) => Some(s@),
        None => None,
    }
}

fn is_skipped(record: &InputRecord) -> (r: bool)
    ensures
        r == skipped_record(record.value@),
{
    match record.value.get("_skipped") {
        Some(v) => match v.as_bool() {
            Some(b) => b,
            None => false,
        },
        None => false,
    }
}

fn has_non_empty_string_field(value: &JsonValue, key: &str) -> (r: bool)
    ensures
        r == has_text_field(value@, key@),
{
    match value.get(key) {
        Some(v) => match v.as_str() {
            Some(s) => !blank(s),
            None => false,
        },
        None => false,
    }
}

fn path_for_missing_hash(record: &InputRecord) -> (r: String)
    ensures
        r@ == missing_hash_path(record.value@),
{
    let chosen = match record.value.get("relative_path") {
        Some(x) => Some(x),
        None => record.value.get("path"),
    };
    match chosen {
        Some(x) => match x.as_str() {
            Some(p) => p.to_owned(),
            None => "<unknown>".to_owned(),
        },
        None => "<unknown>".to_owned(),
    }
}

/// Checks every record's version, then that every record that is not
/// skipped has a non-blank `bytes_hash`.
pub fn validate_records(records: &[InputRecord]) -> (r: Result<(), ValidationError>)
    ensures
        match r {
            Ok(()) => {
                &&& forall|k: int| 0 <= k < records@.len() ==> version_ok(#[trigger] records@[k].value@)
                &&& missing_hash_paths(records@).len() == 0
            },
            Err(ValidationError::BadVersion(d)) => exists|k: int| {
                &&& 0 <= k < records@.len()
                &&& forall|j: int| 0 <= j < k ==> version_ok(#[trigger] records@[j].value@)
                &&& !version_ok(#[trigger] records@[k].value@)
                &&& d.line == records@[k].line_number
                &&& opt_text(d.version) == str_of(field(records@[k].value@, "version"@))
            },
            Err(ValidationError::MissingHash(d)) => {
                &&& forall|k: int| 0 <= k < records@.len() ==> version_ok(#[trigger] records@[k].value@)
                &&& d.count == missing_hash_paths(records@).len()
                &&& d.count > 0
                &&& d.sample_paths@.map_values(|s: String| s@) == sample_of(missing_hash_paths(records@))
            },
        },
{
    let mut missing: Vec<String> = Vec::new();
    let mut i: usize = 0;
    while i < records.len()
        invariant
            i <= records@.len(),
            forall|k: int| 0 <= k < i ==> version_ok(#[trigger] records@[k].value@),
            missing@.map_values(|s: String| s@) == missing_hash_paths(records@.take(i as int)),
        decreases records.len() - i,
    {
        assert(records@.take(i + 1).drop_last() =~= records@.take(i as int));
        match validate_version(&records[i]) {
            Ok(()) => {},
            Err(e) => {
                return Err(e);
            },
        }
        let ghost prev = missing@;
        if !is_skipped(&records[i]) && !has_non_empty_string_field(&records[i].value, "bytes_hash") {
            let p = path_for_missing_hash(&records[i]);
            missing.push(p);
            assert(missing@.map_values(|s: String| s@) =~= prev.map_values(|s: String| s@).push(p@));
        }
        i = i + 1;
    }
    assert(records@.take(i as int) =~= records@);
    if missing.len() == 0 {
        Ok(())
    } else {
        let mut sample: Vec<String> = Vec::new();
        let mut j: usize = 0;
        while j < missing.len() && j < MISSING_HASH_SAMPLE_LIMIT
            invariant
                j <= missing@.len(),
                j <= 5,
                sample@.map_values(|s: String| s@) == missing@.map_values(|s: String| s@).take(j as int),
            decreases missing.len() - j,
        {
            let ghost prev = sample@;
            let p = missing[j].clone();
            sample.push(p);
            assert(sample@.map_values(|s: String| s@) =~= prev.map_values(|s: String| s@).push(p@));
            assert(missing@.map_values(|s: String| s@).take(j + 1) =~= missing@.map_values(|s: String| s@).take(j as int).push(missing@[j as int]@));
            j = j + 1;
        }
        let ghost all = missing@.map_values(|s: String| s@);
        assert(sample@.map_values(|s: String| s@) =~= sample_of(all));
        Err(ValidationError::MissingHash(MissingHashDetail { count: missing.len(), sample_paths: sample }))
    }
}

} // verus!
