//! The witness ledger: records of every run, their filters and queries, and
//! how a new record is chained to the last one.

use vstd::prelude::*;
use crate::cli::WitnessFilters;
use crate::json::{copy_json, field, lemma_view_entries, lemma_view_entries_push, lemma_view_items, opt_view, str_of, view_entries, view_items, Json, JsonValue};
use crate::text::{blank, chars_of, is_blank, is_white, less_than, text_eq, text_from_chars, text_lt, white};
use crate::canonical::{canon, to_canonical_text};
use crate::digest::{blake3_label, blake3_of_bytes, utf8};
use crate::input::{split_lines, text_lines};
use crate::json::{parse_text, parsed_json, push_entry, text_json};
use vstd::utf8::{decode_utf8, valid_utf8};

verus! {

/// A record read from the ledger. Fields other ledgers' tools may leave out
/// are optional; unknown fields are kept in `extra`.
#[derive(Debug)]
pub struct WitnessRecord {
    pub id: Option<String>,
    pub tool: Option<String>,
    pub version: Option<String>,
    pub outcome: Option<String>,
    pub exit_code: Option<i32>,
    pub ts: Option<String>,
    pub output_hash: Option<String>,
    pub inputs: Option<Vec<JsonValue>>,
    pub params: Option<JsonValue>,
    pub prev: Option<String>,
    pub binary_hash: Option<String>,
    pub extra: Vec<(String, JsonValue)>,
}

/// An optional text field: missing or `null` is `Some(None)`, a string is
/// `Some(Some(..))`, anything else does not decode.
pub open spec fn opt_text_field(v: Json, k: Seq<char>) -> Option<Option<Seq<char>>> {
    match field(v, k) {
        None => Some(None),
        Some(Json::Null) => Some(None),
        Some(Json::Str(s)) => Some(Some(s)),
        _ => None,
    }
}

/// An optional `i32` field.
pub open spec fn opt_i32_field(v: Json, k: Seq<char>) -> Option<Option<i32>> {
    match field(v, k) {
        None => Some(None),
        Some(Json::Null) => Some(None),
        Some(Json::Int(n)) => if i32::MIN <= n <= i32::MAX {
            Some(Some(n as i32))
        } else {
            None
        },
        _ => None,
    }
}

/// An optional array field.
pub open spec fn opt_array_field(v: Json, k: Seq<char>) -> Option<Option<Seq<Json>>> {
    match field(v, k) {
        None => Some(None),
        Some(Json::Null) => Some(None),
        Some(Json::Array(xs)) => Some(Some(xs)),
        _ => None,
    }
}

/// An optional field of any value; `null` counts as missing.
pub open spec fn opt_any_field(v: Json, k: Seq<char>) -> Option<Json> {
    match field(v, k) {
        Some(Json::Null) => None,
        other => other,
    }
}

/// The fields a witness record names.
pub open spec fn known_key(k: Seq<char>) -> bool {
    k == "id"@ || k == "tool"@ || k == "version"@ || k == "outcome"@ || k == "exit_code"@
        || k == "ts"@ || k == "output_hash"@ || k == "inputs"@ || k == "params"@
        || k == "prev"@ || k == "binary_hash"@
}

/// The entries whose keys a witness record does not name, in order.
pub open spec fn extra_entries(es: Seq<(Seq<char>, Json)>) -> Seq<(Seq<char>, Json)>
    decreases es.len(),
{
    if es.len() == 0 {
        seq![]
    } else {
        let prev = extra_entries(es.drop_last());
        if known_key(es.last().0) {
            prev
        } else {
            prev.push(es.last())
        }
    }
}

/// Whether a value decodes as a witness record.
pub open spec fn decodes_as_record(v: Json) -> bool {
    &&& v is Object
    &&& opt_text_field(v, "id"@) is Some
    &&& opt_text_field(v, "tool"@) is Some
    &&& opt_text_field(v, "version"@) is Some
    &&& opt_text_field(v, "outcome"@) is Some
    &&& opt_i32_field(v, "exit_code"@) is Some
    &&& opt_text_field(v, "ts"@) is Some
    &&& opt_text_field(v, "output_hash"@) is Some
    &&& opt_array_field(v, "inputs"@) is Some
    &&& opt_text_field(v, "prev"@) is Some
    &&& opt_text_field(v, "binary_hash"@) is Some
}

/// Whether a record holds the fields of a value.
pub open spec fn record_of(r: WitnessRecord, v: Json) -> bool {
    &&& Some(opt_view(r.id)) == opt_text_field(v, "id"@)
    &&& Some(opt_view(r.tool)) == opt_text_field(v, "tool"@)
    &&& Some(opt_view(r.version)) == opt_text_field(v, "version"@)
    &&& Some(opt_view(r.outcome)) == opt_text_field(v, "outcome"@)
    &&& Some(r.exit_code) == opt_i32_field(v, "exit_code"@)
    &&& Some(opt_view(r.ts)) == opt_text_field(v, "ts"@)
    &&& Some(opt_view(r.output_hash)) == opt_text_field(v, "output_hash"@)
    &&& Some(opt_view(r.prev)) == opt_text_field(v, "prev"@)
    &&& Some(opt_view(r.binary_hash)) == opt_text_field(v, "binary_hash"@)
    &&& opt_array_field(v, "inputs"@) == Some(
        match r.inputs {
            Some(xs) => Some(view_items(xs@)),
            None => None,
        },
    )
    &&& opt_any_field(v, "params"@) == match r.params {
        Some(p) => Some(p@),
        None => None,
    }
    &&& view_entries(r.extra@) == extra_entries(v->Object_0)
}

fn text_field_of(v: &JsonValue, k: &str) -> (r: Result<Option<String>, ()>)
    ensures
        match r {
            Ok(o) => opt_text_field(v@, k@) == Some(opt_view(o)),
            Err(()) => opt_text_field(v@, k@) is None,
        },
{
    match v.get(k) {
        None => Ok(None),
        Some(JsonValue::Null) => Ok(None),
        Some(JsonValue::Str(s)) => Ok(Some(s.clone())),
        Some(_) => Err(()),
    }
}

/// Decodes a ledger line's value as a witness record.
pub fn record_from_value(v: &JsonValue) -> (r: Option<WitnessRecord>)
    ensures
        match r {
            Some(rec) => decodes_as_record(v@) && record_of(rec, v@),
            None => !decodes_as_record(v@),
        },
{
    let es = match v {
        JsonValue::Object(es) => es,
        _ => return None,
    };
    let id = match text_field_of(v, "id") { Ok(o) => o, Err(()) => return None };
    let tool = match text_field_of(v, "tool") { Ok(o) => o, Err(()) => return None };
    let version = match text_field_of(v, "version") { Ok(o) => o, Err(()) => return None };
    let outcome = match text_field_of(v, "outcome") { Ok(o) => o, Err(()) => return None };
    let exit_code = match v.get("exit_code") {
        None => None,
        Some(JsonValue::Null) => None,
        Some(JsonValue::Int(n)) => if -0x8000_0000 <= *n && *n <= 0x7fff_ffff {
            Some(*n as i32)
        } else {
            return None;
        },
        Some(_) => return None,
    };
    let ts = match text_field_of(v, "ts") { Ok(o) => o, Err(()) => return None };
    let output_hash = match text_field_of(v, "output_hash") { Ok(o) => o, Err(()) => return None };
    let inputs = match v.get("inputs") {
        None => None,
        Some(JsonValue::Null) => None,
        Some(JsonValue::Array(xs)) => {
            let mut out: Vec<JsonValue> = Vec::new();
            let mut i: usize = 0;
            proof { lemma_view_items(xs@); }
            while i < xs.len()
                invariant
                    i <= xs@.len(),
                    view_items(out@) == view_items(xs@).take(i as int),
                    view_items(xs@).len() == xs@.len(),
                    forall|j: int| 0 <= j < xs@.len() ==> #[trigger] view_items(xs@)[j] == xs@[j]@,
                decreases xs.len() - i,
            {
                let c = copy_json(&xs[i]);
                proof { crate::json::lemma_view_items_push(out@, c); }
                out.push(c);
                assert(view_items(xs@).take(i + 1) =~= view_items(xs@).take(i as int).push(xs@[i as int]@));
                i = i + 1;
            }
            assert(view_items(xs@).take(i as int) =~= view_items(xs@));
            Some(out)
        },
        Some(_) => return None,
    };
    let params = match v.get("params") {
        None => None,
        Some(JsonValue::Null) => None,
        Some(p) => Some(copy_json(p)),
    };
    let prev = match text_field_of(v, "prev") { Ok(o) => o, Err(()) => return None };
    let binary_hash = match text_field_of(v, "binary_hash") { Ok(o) => o, Err(()) => return None };
    let mut extra: Vec<(String, JsonValue)> = Vec::new();
    let ghost vs = view_entries(es@);
    proof { lemma_view_entries(es@); }
    let mut i: usize = 0;
    while i < es.len()
        invariant
            i <= es@.len(),
            vs == view_entries(es@),
            vs.len() == es@.len(),
            forall|j: int| 0 <= j < es@.len() ==> #[trigger] vs[j] == (es@[j].0@, es@[j].1@),
            view_entries(extra@) == extra_entries(vs.take(i as int)),
        decreases es.len() - i,
    {
        assert(vs.take(i + 1).drop_last() =~= vs.take(i as int));
        let k = es[i].0.as_str();
        proof {
            reveal_strlit("id"); reveal_strlit("tool"); reveal_strlit("version");
            reveal_strlit("outcome"); reveal_strlit("exit_code"); reveal_strlit("ts");
            reveal_strlit("output_hash"); reveal_strlit("inputs"); reveal_strlit("params");
            reveal_strlit("prev"); reveal_strlit("binary_hash");
        }
        let known = text_eq(k, "id") || text_eq(k, "tool") || text_eq(k, "version")
            || text_eq(k, "outcome") || text_eq(k, "exit_code") || text_eq(k, "ts")
            || text_eq(k, "output_hash") || text_eq(k, "inputs") || text_eq(k, "params")
            || text_eq(k, "prev") || text_eq(k, "binary_hash");
        if !known {
            let e = (es[i].0.clone(), copy_json(&es[i].1));
            proof { lemma_view_entries_push(extra@, e); }
            extra.push(e);
        }
        i = i + 1;
    }
    assert(vs.take(i as int) =~= vs);
    Some(WitnessRecord {
        id,
        tool,
        version,
        outcome,
        exit_code,
        ts,
        output_hash,
        inputs,
        params,
        prev,
        binary_hash,
        extra,
    })
}

/// The instant an RFC 3339 timestamp denotes, as seconds since the epoch
/// and nanoseconds; `None` when the text is not RFC 3339.
pub uninterp spec fn rfc3339_instant(s: Seq<char>) -> Option<(i64, u32)>;

/// Relies on chrono's `DateTime::parse_from_rfc3339`, read back with
/// `timestamp` and `timestamp_subsec_nanos`.
#[verifier::external_body]
fn parse_instant(s: &str) -> (r: Option<(i64, u32)>)
    ensures
        r == rfc3339_instant(s@),
{
    chrono::DateTime::parse_from_rfc3339(s).ok().map(|d| (d.timestamp(), d.timestamp_subsec_nanos()))
}

/// Whether instant `a` is before instant `b`.
pub open spec fn instant_lt(a: (i64, u32), b: (i64, u32)) -> bool {
    a.0 < b.0 || (a.0 == b.0 && a.1 < b.1)
}

/// Whether `needle` occurs in `hay`.
pub open spec fn text_contains(hay: Seq<char>, needle: Seq<char>) -> bool {
    exists|i: int| 0 <= i && i + needle.len() <= hay.len() && #[trigger] hay.subrange(i, i + needle.len()) == needle
}

/// Whether some input's `hash` contains the text.
pub open spec fn inputs_match_hash(inputs: Option<Vec<JsonValue>>, needle: Seq<char>) -> bool {
    match inputs {
        Some(xs) => exists|i: int| 0 <= i < xs@.len() && (match #[trigger] str_of(field(xs@[i]@, "hash"@)) {
            Some(h) => text_contains(h, needle),
            None => false,
        }),
        None => false,
    }
}

/// The record's timestamp as an instant.
pub open spec fn record_instant(r: WitnessRecord) -> Option<(i64, u32)> {
    match r.ts {
        Some(t) => rfc3339_instant(t@),
        None => None,
    }
}

/// Whether a record passes every filter that is set.
pub open spec fn matches_filters_spec(r: WitnessRecord, f: WitnessFilters) -> bool {
    &&& (f.tool matches Some(t) ==> opt_view(r.tool) == Some(t@))
    &&& (f.outcome matches Some(o) ==> opt_view(r.outcome) == Some(o@))
    &&& (f.input_hash matches Some(h) ==> inputs_match_hash(r.inputs, h@))
    &&& (f.since matches Some(s) ==> (rfc3339_instant(s@) is Some && record_instant(r) is Some
        && instant_lt(rfc3339_instant(s@)->0, record_instant(r)->0)))
    &&& (f.until matches Some(u) ==> (rfc3339_instant(u@) is Some && record_instant(r) is Some
        && instant_lt(record_instant(r)->0, rfc3339_instant(u@)->0)))
}

fn matches_at(h: &Vec<char>, n: &Vec<char>, i: usize) -> (r: bool)
    requires
        i + n@.len() <= h@.len(),
        h@.len() <= usize::MAX,
    ensures
        r == (h@.subrange(i as int, i + n@.len()) == n@),
{
    let mut j: usize = 0;
    while j < n.len()
        invariant
            i + n@.len() <= h@.len(),
            h@.len() <= usize::MAX,
            j <= n@.len(),
            forall|m: int| 0 <= m < j ==> h@[i + m] == n@[m],
        decreases n.len() - j,
    {
        if h[i + j] != n[j] {
            assert(h@.subrange(i as int, i + n@.len())[j as int] != n@[j as int]);
            return false;
        }
        j = j + 1;
    }
    assert(h@.subrange(i as int, i + n@.len()) =~= n@);
    true
}

/// Whether `needle` occurs in `hay`.
pub fn contains_text(hay: &str, needle: &str) -> (r: bool)
    ensures
        r == text_contains(hay@, needle@),
{
    let h = chars_of(hay);
    let n = chars_of(needle);
    let hl = h.len();
    let nl = n.len();
    if nl > hl {
        return false;
    }
    if nl == 0 {
        assert(hay@.subrange(0, 0 + needle@.len() as int) =~= needle@);
        assert(text_contains(hay@, needle@));
        return true;
    }
    let mut i: usize = 0;
    while i <= hl - nl
        invariant
            h@ == hay@,
            n@ == needle@,
            hl == h@.len(),
            nl == n@.len(),
            1 <= nl <= hl,
            i <= hl - nl + 1,
            forall|k: int| 0 <= k < i ==> #[trigger] hay@.subrange(k, k + needle@.len()) != needle@,
        decreases hl - nl + 1 - i,
    {
        if matches_at(&h, &n, i) {
            assert(hay@.subrange(i as int, i + needle@.len()) == needle@);
            return true;
        }
        i = i + 1;
    }
    false
}

fn inputs_have_hash(inputs: &Option<Vec<JsonValue>>, needle: &str) -> (r: bool)
    ensures
        r == inputs_match_hash(*inputs, needle@),
{
    match inputs {
        Some(xs) => {
            let mut i: usize = 0;
            while i < xs.len()
                invariant
                    i <= xs@.len(),
                    *inputs == Some(*xs),
                    forall|k: int| 0 <= k < i ==> !(match #[trigger] str_of(field(xs@[k]@, "hash"@)) {
                        Some(h) => text_contains(h, needle@),
                        None => false,
                    }),
                decreases xs.len() - i,
            {
                let found = match xs[i].get("hash") {
                    Some(x) => match x.as_str() {
                        Some(h) => contains_text(h, needle),
                        None => false,
                    },
                    None => false,
                };
                if found {
                    return true;
                }
                i = i + 1;
            }
            false
        },
        None => false,
    }
}

fn opt_text_is(o: &Option<String>, t: &String) -> (r: bool)
    ensures
        r == (opt_view(*o) == Some(t@)),
{
    match o {
        Some(s) => text_eq(s.as_str(), t.as_str()),
        None => false,
    }
}

fn ts_instant(r: &WitnessRecord) -> (i: Option<(i64, u32)>)
    ensures
        i == record_instant(*r),
{
    match &r.ts {
        Some(t) => parse_instant(t.as_str()),
        None => None,
    }
}

fn before(a: (i64, u32), b: (i64, u32)) -> (r: bool)
    ensures
        r == instant_lt(a, b),
{
    a.0 < b.0 || (a.0 == b.0 && a.1 < b.1)
}

/// Whether a record passes every filter that is set; a time filter whose
/// bound or record timestamp is not RFC 3339 matches nothing.
pub fn matches_filters(record: &WitnessRecord, filters: &WitnessFilters) -> (r: bool)
    ensures
        r == matches_filters_spec(*record, *filters),
{
    if let Some(tool) = &filters.tool {
        if !opt_text_is(&record.tool, tool) {
            return false;
        }
    }
    if let Some(outcome) = &filters.outcome {
        if !opt_text_is(&record.outcome, outcome) {
            return false;
        }
    }
    if let Some(hash_sub) = &filters.input_hash {
        if !inputs_have_hash(&record.inputs, hash_sub.as_str()) {
            return false;
        }
    }
    if let Some(since) = &filters.since {
        let since_ts = match parse_instant(since.as_str()) {
            Some(t) => t,
            None => return false,
        };
        let record_ts = match ts_instant(record) {
            Some(t) => t,
            None => return false,
        };
        if !before(since_ts, record_ts) {
            return false;
        }
    }
    if let Some(until) = &filters.until {
        let until_ts = match parse_instant(until.as_str()) {
            Some(t) => t,
            None => return false,
        };
        let record_ts = match ts_instant(record) {
            Some(t) => t,
            None => return false,
        };
        if !before(record_ts, until_ts) {
            return false;
        }
    }
    true
}

/// The positions of the records that pass the filters, in order.
pub open spec fn matching_positions(recs: Seq<WitnessRecord>, f: WitnessFilters) -> Seq<usize>
    decreases recs.len(),
{
    if recs.len() == 0 {
        seq![]
    } else {
        let prev = matching_positions(recs.drop_last(), f);
        if matches_filters_spec(recs.last(), f) {
            prev.push((recs.len() - 1) as usize)
        } else {
            prev
        }
    }
}

/// The positions of the records that pass the filters, in ledger order.
pub fn apply_filters(records: &[WitnessRecord], filters: &WitnessFilters) -> (r: Vec<usize>)
    ensures
        r@ == matching_positions(records@, *filters),
        forall|k: int| 0 <= k < r@.len() ==> #[trigger] r@[k] < records@.len(),
{
    let mut out: Vec<usize> = Vec::new();
    let mut i: usize = 0;
    while i < records.len()
        invariant
            i <= records@.len(),
            out@ == matching_positions(records@.take(i as int), *filters),
            forall|k: int| 0 <= k < out@.len() ==> #[trigger] out@[k] < i,
        decreases records.len() - i,
    {
        assert(records@.take(i + 1).drop_last() =~= records@.take(i as int));
        assert(records@.take(i + 1).last() == records@[i as int]);
        if matches_filters(&records[i], filters) {
            out.push(i);
        }
        i = i + 1;
    }
    assert(records@.take(i as int) =~= records@);
    out
}

/// How many records pass the filters.
pub fn count_matching(records: &[WitnessRecord], filters: &WitnessFilters) -> (r: usize)
    ensures
        r == matching_positions(records@, *filters).len(),
{
    apply_filters(records, filters).len()
}

/// Whether optional text `x` orders before `y`: nothing first, then by code point.
pub open spec fn opt_text_lt(x: Option<Seq<char>>, y: Option<Seq<char>>) -> bool {
    match (x, y) {
        (None, Some(_)) => true,
        (Some(p), Some(q)) => text_lt(p, q),
        _ => false,
    }
}

/// Whether record `a` is more recent than `b`: by instant when both
/// timestamps parse, else by the raw timestamp text.
pub open spec fn more_recent(a: WitnessRecord, b: WitnessRecord) -> bool {
    match (record_instant(a), record_instant(b)) {
        (Some(x), Some(y)) => instant_lt(y, x),
        _ => opt_text_lt(opt_view(b.ts), opt_view(a.ts)),
    }
}

fn opt_less(x: &Option<String>, y: &Option<String>) -> (r: bool)
    ensures
        r == opt_text_lt(opt_view(*x), opt_view(*y)),
{
    match (x, y) {
        (None, Some(_)) => true,
        (Some(p), Some(q)) => less_than(p.as_str(), q.as_str()),
        _ => false,
    }
}

/// Whether record `a` is more recent than `b`.
pub fn is_more_recent(a: &WitnessRecord, b: &WitnessRecord) -> (r: bool)
    ensures
        r == more_recent(*a, *b),
{
    match (ts_instant(a), ts_instant(b)) {
        (Some(x), Some(y)) => before(y, x),
        _ => opt_less(&b.ts, &a.ts),
    }
}

/// Inserts `e` before the first item it precedes.
pub open spec fn insert_when<T>(lt: spec_fn(T, T) -> bool, e: T, s: Seq<T>) -> Seq<T>
    decreases s.len(),
{
    if s.len() == 0 {
        seq![e]
    } else if lt(e, s[0]) {
        seq![e] + s
    } else {
        seq![s[0]] + insert_when(lt, e, s.drop_first())
    }
}

/// Stable sort by a precedence relation.
pub open spec fn sort_when<T>(lt: spec_fn(T, T) -> bool, s: Seq<T>) -> Seq<T>
    decreases s.len(),
{
    if s.len() == 0 {
        s
    } else {
        insert_when(lt, s.last(), sort_when(lt, s.drop_last()))
    }
}

proof fn lemma_insert_when_at<T>(lt: spec_fn(T, T) -> bool, e: T, s: Seq<T>, p: int)
    requires
        0 <= p <= s.len(),
        forall|j: int| 0 <= j < p ==> !lt(e, #[trigger] s[j]),
        p < s.len() ==> lt(e, s[p]),
    ensures
        insert_when(lt, e, s) == s.insert(p, e),
    decreases s.len(),
{
    if s.len() == 0 {
        assert(seq![e] =~= s.insert(p, e));
    } else if p == 0 {
        assert(seq![e] + s =~= s.insert(p, e));
    } else {
        let t = s.drop_first();
        assert forall|j: int| 0 <= j < p - 1 implies !lt(e, #[trigger] t[j]) by {
            assert(t[j] == s[j + 1]);
        }
        lemma_insert_when_at(lt, e, t, p - 1);
        assert(seq![s[0]] + t.insert(p - 1, e) =~= s.insert(p, e));
    }
}

/// Positions ordered most recent first.
pub open spec fn recency(recs: Seq<WitnessRecord>) -> spec_fn(usize, usize) -> bool {
    |i: usize, j: usize| more_recent(recs[i as int], recs[j as int])
}

/// The positions of the matching records, most recent first, at most `limit`.
pub open spec fn query_positions(recs: Seq<WitnessRecord>, f: WitnessFilters, limit: usize) -> Seq<usize> {
    let sorted = sort_when(recency(recs), matching_positions(recs, f));
    if sorted.len() <= limit { sorted } else { sorted.take(limit as int) }
}

/// The matching records, most recent first (stable among equals), at most
/// `limit` of them, as positions in the ledger.
pub fn query_records(records: &[WitnessRecord], filters: &WitnessFilters, limit: usize) -> (r: Vec<usize>)
    ensures
        r@ == query_positions(records@, *filters, limit),
{
    let matched = apply_filters(records, filters);
    let ghost lt = recency(records@);
    let mut sorted: Vec<usize> = Vec::new();
    let mut i: usize = 0;
    while i < matched.len()
        invariant
            i <= matched@.len(),
            lt == recency(records@),
            matched@ == matching_positions(records@, *filters),
            forall|k: int| 0 <= k < matched@.len() ==> #[trigger] matched@[k] < records@.len(),
            forall|k: int| 0 <= k < sorted@.len() ==> #[trigger] sorted@[k] < records@.len(),
            sorted@ == sort_when(lt, matched@.take(i as int)),
        decreases matched.len() - i,
    {
        let e = matched[i];
        let mut p: usize = 0;
        while p < sorted.len() && !is_more_recent(&records[e], &records[sorted[p]])
            invariant
                p <= sorted@.len(),
                e < records@.len(),
                lt == recency(records@),
                forall|k: int| 0 <= k < sorted@.len() ==> #[trigger] sorted@[k] < records@.len(),
                forall|j: int| 0 <= j < p ==> !lt(e, #[trigger] sorted@[j]),
            decreases sorted.len() - p,
        {
            p = p + 1;
        }
        proof {
            lemma_insert_when_at(lt, e, sorted@, p as int);
            assert(matched@.take(i + 1).drop_last() =~= matched@.take(i as int));
            assert(matched@.take(i + 1).last() == e);
        }
        sorted.insert(p, e);
        i = i + 1;
    }
    assert(matched@.take(i as int) =~= matched@);
    if sorted.len() > limit {
        sorted.truncate(limit);
        assert(sorted@ =~= sort_when(lt, matched@).take(limit as int));
    }
    sorted
}

/// The position `max_by` picks: a later record replaces the best so far
/// unless the best is strictly more recent.
pub open spec fn last_position(recs: Seq<WitnessRecord>) -> int
    decreases recs.len(),
{
    if recs.len() <= 1 {
        0
    } else {
        let b = last_position(recs.drop_last());
        if more_recent(recs[b], recs.last()) {
            b
        } else {
            recs.len() - 1
        }
    }
}

proof fn lemma_last_position_bounds(recs: Seq<WitnessRecord>)
    requires
        recs.len() > 0,
    ensures
        0 <= last_position(recs) < recs.len(),
    decreases recs.len(),
{
    if recs.len() > 1 {
        lemma_last_position_bounds(recs.drop_last());
    }
}

/// The most recent record, the last of equals; `None` for an empty ledger.
pub fn last_record(records: &[WitnessRecord]) -> (r: Option<usize>)
    ensures
        records@.len() == 0 ==> r is None,
        records@.len() > 0 ==> r == Some(last_position(records@) as usize),
{
    if records.len() == 0 {
        return None;
    }
    let mut best: usize = 0;
    let mut i: usize = 1;
    while i < records.len()
        invariant
            1 <= i <= records@.len(),
            best as int == last_position(records@.take(i as int)),
            best < i,
        decreases records.len() - i,
    {
        proof {
            assert(records@.take(i + 1).drop_last() =~= records@.take(i as int));
            assert(records@.take(i + 1).last() == records@[i as int]);
            assert(records@.take(i + 1)[best as int] == records@[best as int]);
        }
        if !is_more_recent(&records[best], &records[i]) {
            best = i;
        }
        i = i + 1;
    }
    assert(records@.take(i as int) =~= records@);
    Some(best)
}

/// The text without surrounding whitespace.
pub open spec fn trim_text(t: Seq<char>) -> Seq<char> {
    let a = lead_white(t, 0);
    let e = trail_end(t, t.len() as int);
    if a < e { t.subrange(a, e) } else { seq![] }
}

/// The first position from `i` on that is not whitespace.
pub open spec fn lead_white(t: Seq<char>, i: int) -> int
    decreases t.len() - i,
{
    if i < 0 || i >= t.len() {
        t.len() as int
    } else if is_white(t[i]) {
        lead_white(t, i + 1)
    } else {
        i
    }
}

/// The end of the text before `e` once trailing whitespace is dropped.
pub open spec fn trail_end(t: Seq<char>, e: int) -> int
    decreases e,
{
    if e <= 0 || e > t.len() {
        0
    } else if is_white(t[e - 1]) {
        trail_end(t, e - 1)
    } else {
        e
    }
}

proof fn lemma_trim_bounds(t: Seq<char>)
    ensures
        0 <= lead_white(t, 0) <= t.len(),
        0 <= trail_end(t, t.len() as int) <= t.len(),
        is_blank(t) ==> lead_white(t, 0) == t.len() && trail_end(t, t.len() as int) == 0,
        !is_blank(t) ==> lead_white(t, 0) < trail_end(t, t.len() as int),
{
    lemma_lead(t, 0);
    lemma_trail(t, t.len() as int);
}

proof fn lemma_lead(t: Seq<char>, i: int)
    requires
        0 <= i <= t.len(),
    ensures
        i <= lead_white(t, i) <= t.len(),
        forall|k: int| i <= k < lead_white(t, i) ==> is_white(#[trigger] t[k]),
        lead_white(t, i) < t.len() ==> !is_white(t[lead_white(t, i)]),
    decreases t.len() - i,
{
    if i < t.len() && is_white(t[i]) {
        lemma_lead(t, i + 1);
    }
}

proof fn lemma_trail(t: Seq<char>, e: int)
    requires
        0 <= e <= t.len(),
    ensures
        0 <= trail_end(t, e) <= e,
        forall|k: int| trail_end(t, e) <= k < e ==> is_white(#[trigger] t[k]),
        trail_end(t, e) > 0 ==> !is_white(t[trail_end(t, e) - 1]),
    decreases e,
{
    if e > 0 && is_white(t[e - 1]) {
        lemma_trail(t, e - 1);
    }
}

/// The text without surrounding whitespace.
pub fn trim(t: &str) -> (r: String)
    ensures
        r@ == trim_text(t@),
{
    let cs = chars_of(t);
    let n = cs.len();
    let mut a: usize = 0;
    while a < n && white(cs[a])
        invariant
            a <= n,
            n == t@.len(),
            cs@ == t@,
            lead_white(t@, 0) == lead_white(t@, a as int),
        decreases n - a,
    {
        a = a + 1;
    }
    let mut e: usize = n;
    while e > 0 && white(cs[e - 1])
        invariant
            e <= n,
            n == t@.len(),
            cs@ == t@,
            trail_end(t@, n as int) == trail_end(t@, e as int),
        decreases e,
    {
        e = e - 1;
    }
    proof { lemma_trim_bounds(t@); }
    assert(lead_white(t@, a as int) == a);
    assert(trail_end(t@, e as int) == e);
    let mut out: Vec<char> = Vec::new();
    if a < e {
        let mut k: usize = a;
        while k < e
            invariant
                a <= k <= e,
                e <= n,
                n == t@.len(),
                cs@ == t@,
                out@ == t@.subrange(a as int, k as int),
            decreases e - k,
        {
            out.push(cs[k]);
            assert(out@ =~= t@.subrange(a as int, k + 1));
            k = k + 1;
        }
    } else {
        assert(out@ =~= trim_text(t@));
    }
    text_from_chars(&out)
}

/// The values of the ledger's non-blank lines that are JSON, in order.
pub open spec fn ledger_values(lines: Seq<Seq<char>>) -> Seq<Json>
    decreases lines.len(),
{
    if lines.len() == 0 {
        seq![]
    } else {
        let prev = ledger_values(lines.drop_last());
        let t = trim_text(lines.last());
        if t.len() > 0 && parsed_json(t) is Some && decodes_as_record(parsed_json(t)->0) {
            prev.push(parsed_json(t)->0)
        } else {
            prev
        }
    }
}

/// The records of a ledger's text: each non-blank line that decodes as a
/// record, in order; other lines are passed over.
pub fn parse_ledger(text: &str) -> (r: Vec<WitnessRecord>)
    ensures
        r@.len() == ledger_values(text_lines(text@)).len(),
        forall|k: int| 0 <= k < r@.len() ==> record_of(#[trigger] r@[k], ledger_values(text_lines(text@))[k]),
{
    let lines = split_lines(text);
    let ghost ls = text_lines(text@);
    let mut out: Vec<WitnessRecord> = Vec::new();
    let mut i: usize = 0;
    while i < lines.len()
        invariant
            i <= lines@.len(),
            lines@.map_values(|s: String| s@) == ls,
            out@.len() == ledger_values(ls.take(i as int)).len(),
            forall|k: int| 0 <= k < out@.len() ==> record_of(#[trigger] out@[k], ledger_values(ls.take(i as int))[k]),
        decreases lines.len() - i,
    {
        assert(ls.take(i + 1).drop_last() =~= ls.take(i as int));
        assert(ls.take(i + 1).last() == lines@[i as int]@);
        let t = trim(lines[i].as_str());
        if !t.as_str().is_empty() {
            match parse_text(t.as_str()) {
                Ok(v) => match record_from_value(&v) {
                    Some(rec) => {
                        out.push(rec);
                    },
                    None => {},
                },
                Err(_) => {},
            }
        } else {
            assert(t@.len() == 0);
        }
        i = i + 1;
    }
    assert(ls.take(i as int) =~= ls);
    out
}

/// Where the ledger's content ends once trailing newlines are dropped.
pub open spec fn content_end(b: Seq<u8>) -> int
    decreases b.len(),
{
    if b.len() > 0 && b.last() == 10u8 {
        content_end(b.drop_last())
    } else {
        b.len() as int
    }
}

/// Where the line that ends at `e` begins.
pub open spec fn line_begin(b: Seq<u8>, e: int) -> int
    decreases e,
{
    if e <= 0 || e > b.len() {
        0
    } else if b[e - 1] == 10u8 {
        e
    } else {
        line_begin(b, e - 1)
    }
}

/// The bytes of the ledger's last line that is not empty.
pub open spec fn last_line_bytes(b: Seq<u8>) -> Seq<u8> {
    b.subrange(line_begin(b, content_end(b)), content_end(b))
}

/// The `id` of the ledger's last record: the last non-empty line, when it
/// is UTF-8, not blank, JSON, and has a string `id`.
pub open spec fn last_record_id(b: Seq<u8>) -> Option<Seq<char>> {
    let l = last_line_bytes(b);
    if !valid_utf8(l) {
        None
    } else {
        let t = trim_text(decode_utf8(l));
        if t.len() == 0 {
            None
        } else {
            match parsed_json(t) {
                Some(v) => str_of(field(v, "id"@)),
                None => None,
            }
        }
    }
}

/// The bytes of the ledger's last line that is not empty.
pub fn last_non_empty_line(b: &[u8]) -> (r: Vec<u8>)
    ensures
        r@ == last_line_bytes(b@),
{
    let mut e: usize = b.len();
    assert(b@.take(e as int) =~= b@);
    while e > 0 && b[e - 1] == 10u8
        invariant
            e <= b@.len(),
            content_end(b@) == content_end(b@.take(e as int)),
        decreases e,
    {
        assert(b@.take(e as int).drop_last() =~= b@.take(e - 1));
        e = e - 1;
    }
    assert(content_end(b@.take(e as int)) == e) by {
        if e > 0 {
            assert(b@.take(e as int).last() == b@[e - 1]);
        }
    }
    let mut s: usize = e;
    while s > 0 && b[s - 1] != 10u8
        invariant
            s <= e,
            e <= b@.len(),
            line_begin(b@, e as int) == line_begin(b@, s as int),
        decreases s,
    {
        s = s - 1;
    }
    let mut out: Vec<u8> = Vec::new();
    let mut k: usize = s;
    while k < e
        invariant
            s <= k <= e,
            e <= b@.len(),
            out@ == b@.subrange(s as int, k as int),
        decreases e - k,
    {
        out.push(b[k]);
        assert(out@ =~= b@.subrange(s as int, k + 1));
        k = k + 1;
    }
    out
}

/// The `id` of the ledger's last record, which a new record links to.
pub fn read_last_record_id(ledger: &[u8]) -> (r: Option<String>)
    ensures
        opt_view(r) == last_record_id(ledger@),
{
    let line = last_non_empty_line(ledger);
    let text = match crate::text::text_from_utf8(line) {
        Some(t) => t,
        None => return None,
    };
    let t = trim(text.as_str());
    if t.as_str().is_empty() {
        return None;
    }
    match parse_text(t.as_str()) {
        Ok(v) => match v.get("id") {
            Some(x) => match x.as_str() {
                Some(s) => Some(s.to_owned()),
                None => None,
            },
            None => None,
        },
        Err(_) => None,
    }
}

/// The JSON form of a record this tool appends.
pub open spec fn witness_json(
    id: Seq<char>,
    outcome: Seq<char>,
    exit_code: u8,
    output_hash: Seq<char>,
    params: Json,
    inputs: Json,
    prev: Option<Seq<char>>,
    ts: Seq<char>,
    version: Seq<char>,
) -> Json {
    Json::Object(
        seq![
            ("binary_hash"@, Json::Null),
            ("exit_code"@, Json::Int(exit_code as int)),
            ("id"@, Json::Str(id)),
            ("inputs"@, inputs),
            ("outcome"@, Json::Str(outcome)),
            ("output_hash"@, Json::Str(output_hash)),
            ("params"@, params),
            ("prev"@, text_json(prev)),
            ("tool"@, Json::Str("lock"@)),
            ("ts"@, Json::Str(ts)),
            ("version"@, Json::Str(version)),
        ],
    )
}

fn witness_value(
    id: &str,
    outcome: &str,
    exit_code: u8,
    output_hash: &str,
    params: &JsonValue,
    inputs: &JsonValue,
    prev: &Option<String>,
    ts: &str,
    version: &str,
) -> (r: JsonValue)
    ensures
        r@ == witness_json(id@, outcome@, exit_code, output_hash@, params@, inputs@, opt_view(*prev), ts@, version@),
{
    let mut es: Vec<(String, JsonValue)> = Vec::new();
    push_entry(&mut es, "binary_hash", JsonValue::Null);
    push_entry(&mut es, "exit_code", JsonValue::Int(exit_code as i128));
    push_entry(&mut es, "id", JsonValue::Str(id.to_owned()));
    push_entry(&mut es, "inputs", copy_json(inputs));
    push_entry(&mut es, "outcome", JsonValue::Str(outcome.to_owned()));
    push_entry(&mut es, "output_hash", JsonValue::Str(output_hash.to_owned()));
    push_entry(&mut es, "params", copy_json(params));
    push_entry(&mut es, "prev", crate::json::opt_text_value(prev));
    push_entry(&mut es, "tool", JsonValue::Str("lock".to_owned()));
    push_entry(&mut es, "ts", JsonValue::Str(ts.to_owned()));
    push_entry(&mut es, "version", JsonValue::Str(version.to_owned()));
    assert(view_entries(Seq::<(String, JsonValue)>::empty()) =~= seq![]);
    assert(view_entries(es@) =~= witness_json(id@, outcome@, exit_code, output_hash@, params@, inputs@, opt_view(*prev), ts@, version@)->Object_0);
    JsonValue::Object(es)
}

/// A record ready to append: its line, its id, and the id it links to.
#[derive(Debug, Clone)]
pub struct WitnessLine {
    pub line: String,
    pub id: String,
    pub prev: Option<String>,
}

/// The id of a record: `blake3:` and the BLAKE3 digest of its canonical
/// form with an empty `id`.
pub open spec fn record_id(
    outcome: Seq<char>,
    exit_code: u8,
    output_hash: Seq<char>,
    params: Json,
    inputs: Json,
    prev: Option<Seq<char>>,
    ts: Seq<char>,
    version: Seq<char>,
) -> Seq<char> {
    blake3_label(utf8(canon(witness_json(seq![], outcome, exit_code, output_hash, params, inputs, prev, ts, version))))
}

/// Builds the record that follows the ledger's last record: linked to
/// that record's id, hashing the run's output, and content-addressed.
pub fn build_witness_line(
    ledger: &[u8],
    outcome: &str,
    exit_code: u8,
    output_bytes: &[u8],
    params: &JsonValue,
    inputs: &JsonValue,
    ts: &str,
    version: &str,
) -> (r: WitnessLine)
    ensures
        opt_view(r.prev) == last_record_id(ledger@),
        r.id@ == record_id(outcome@, exit_code, blake3_label(output_bytes@), params@, inputs@, opt_view(r.prev), ts@, version@),
        r.line@ == canon(witness_json(r.id@, outcome@, exit_code, blake3_label(output_bytes@), params@, inputs@, opt_view(r.prev), ts@, version@)),
{
    let prev = read_last_record_id(ledger);
    let output_hash = blake3_of_bytes(output_bytes);
    let pre = witness_value("", outcome, exit_code, output_hash.as_str(), params, inputs, &prev, ts, version);
    proof { reveal_strlit(""); }
    assert(""@ =~= Seq::<char>::empty());
    let pre_text = to_canonical_text(&pre);
    let id = blake3_of_bytes(pre_text.as_str().as_bytes());
    let full = witness_value(id.as_str(), outcome, exit_code, output_hash.as_str(), params, inputs, &prev, ts, version);
    let line = to_canonical_text(&full);
    WitnessLine { line, id, prev }
}

/// The `inputs` of a record: one input with a path and no hash or size.
pub open spec fn path_inputs_json(path: Seq<char>) -> Json {
    Json::Array(seq![Json::Object(seq![("bytes"@, Json::Null), ("hash"@, Json::Null), ("path"@, Json::Str(path))])])
}

/// The `inputs` of a record for one input path.
pub fn path_inputs(path: &str) -> (r: JsonValue)
    ensures
        r@ == path_inputs_json(path@),
{
    let mut es: Vec<(String, JsonValue)> = Vec::new();
    push_entry(&mut es, "bytes", JsonValue::Null);
    push_entry(&mut es, "hash", JsonValue::Null);
    push_entry(&mut es, "path", JsonValue::Str(path.to_owned()));
    assert(view_entries(Seq::<(String, JsonValue)>::empty()) =~= seq![]);
    assert(view_entries(es@) =~= seq![("bytes"@, Json::Null), ("hash"@, Json::Null), ("path"@, Json::Str(path@))]);
    let item = JsonValue::Object(es);
    let mut items: Vec<JsonValue> = Vec::new();
    proof { crate::json::lemma_view_items_push(items@, item); }
    items.push(item);
    assert(view_items(Seq::<JsonValue>::empty()) =~= seq![]);
    assert(view_items(items@) =~= seq![item@]);
    JsonValue::Array(items)
}

/// The `params` of a lock run's record.
pub open spec fn lock_params_json(dataset_id: Option<Seq<char>>, as_of: Option<Seq<char>>, note: Option<Seq<char>>) -> Json {
    Json::Object(seq![("as_of"@, text_json(as_of)), ("dataset_id"@, text_json(dataset_id)), ("note"@, text_json(note))])
}

/// The `params` of a lock run's record: its run metadata.
pub fn lock_params(dataset_id: &Option<String>, as_of: &Option<String>, note: &Option<String>) -> (r: JsonValue)
    ensures
        r@ == lock_params_json(opt_view(*dataset_id), opt_view(*as_of), opt_view(*note)),
{
    let mut es: Vec<(String, JsonValue)> = Vec::new();
    push_entry(&mut es, "as_of", crate::json::opt_text_value(as_of));
    push_entry(&mut es, "dataset_id", crate::json::opt_text_value(dataset_id));
    push_entry(&mut es, "note", crate::json::opt_text_value(note));
    assert(view_entries(Seq::<(String, JsonValue)>::empty()) =~= seq![]);
    assert(view_entries(es@) =~= lock_params_json(opt_view(*dataset_id), opt_view(*as_of), opt_view(*note))->Object_0);
    JsonValue::Object(es)
}

/// The `params` of a verify run's record.
pub open spec fn verify_params_json(root: Option<Seq<char>>, strict: bool) -> Json {
    Json::Object(seq![("root"@, text_json(root)), ("strict"@, Json::Bool(strict)), ("subcommand"@, Json::Str("verify"@))])
}

/// The `params` of a verify run's record: the root and strictness.
pub fn verify_params(root: &Option<String>, strict: bool) -> (r: JsonValue)
    ensures
        r@ == verify_params_json(opt_view(*root), strict),
{
    let mut es: Vec<(String, JsonValue)> = Vec::new();
    push_entry(&mut es, "root", crate::json::opt_text_value(root));
    push_entry(&mut es, "strict", JsonValue::Bool(strict));
    push_entry(&mut es, "subcommand", JsonValue::Str("verify".to_owned()));
    assert(view_entries(Seq::<(String, JsonValue)>::empty()) =~= seq![]);
    assert(view_entries(es@) =~= verify_params_json(opt_view(*root), strict)->Object_0);
    JsonValue::Object(es)
}

/// One link of the ledger's chain.
pub struct Link {
    pub id: Seq<char>,
    pub prev: Option<Seq<char>>,
}

/// The chain after appending a record with this id: it links to the last
/// record's id, or to nothing when the ledger is empty.
pub open spec fn append_link(chain: Seq<Link>, id: Seq<char>) -> Seq<Link> {
    chain.push(Link { id, prev: if chain.len() == 0 { None } else { Some(chain.last().id) } })
}

/// The chain built by appending records with these ids in turn.
pub open spec fn chain_of(ids: Seq<Seq<char>>) -> Seq<Link>
    decreases ids.len(),
{
    if ids.len() == 0 {
        seq![]
    } else {
        append_link(chain_of(ids.drop_last()), ids.last())
    }
}

/// For any sequence of appends, record `k + 1` links to record `k`, and
/// the first record links to nothing. This is a statement about a model of
/// the chain (ids and links only): `build_witness_line` takes its link
/// from `last_record_id` of the ledger bytes, and that the next run reads
/// back the id just written rests on serde_json parsing the canonical line,
/// which no trusted item states.
pub proof fn lemma_witness_chain(ids: Seq<Seq<char>>)
    ensures
        chain_of(ids).len() == ids.len(),
        forall|k: int| 0 <= k < ids.len() ==> (#[trigger] chain_of(ids)[k]).id == ids[k],
        ids.len() > 0 ==> chain_of(ids)[0].prev is None,
        forall|k: int| 0 <= k < ids.len() - 1 ==> (#[trigger] chain_of(ids)[k + 1]).prev == Some(chain_of(ids)[k].id),
    decreases ids.len(),
{
    if ids.len() > 0 {
        lemma_witness_chain(ids.drop_last());
    }
}

} // verus!
