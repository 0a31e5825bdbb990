//! The lockfile's self-hash: SHA-256 of its canonical form with `lock_hash` blank.

use vstd::prelude::*;
use crate::canonical::{canon, to_canonical_text};
use crate::digest::{sha256_label, sha256_of_text};
use crate::json::{entry_lookup, field, lemma_view_entries, lemma_view_entries_push, parse_text, parsed_json, str_of, view_entries, view_json, Json, JsonValue};
use crate::lockfile::{lockfile_json, lockfile_value_with_hash, with_lock_hash, Lockfile, LockfileView};
use crate::text::{text_eq};

verus! {

/// The self-hash of a lockfile: `sha256:` and the digest of its canonical
/// form with `lock_hash` empty.
pub open spec fn lock_hash_of(l: LockfileView) -> Seq<char> {
    sha256_label(canon(lockfile_json(with_lock_hash(l, seq![]))))
}

/// The lockfile's self-hash.
pub fn compute_lock_hash(lockfile: &Lockfile) -> (r: String)
    ensures
        r@ == lock_hash_of(lockfile@),
        r@.len() == 71,
        crate::digest::hex64(r@.skip(7)),
{
    let blank = lockfile_value_with_hash(lockfile, "");
    proof { reveal_strlit(""); }
    assert(""@ =~= Seq::<char>::empty());
    let text = to_canonical_text(&blank);
    sha256_of_text(text.as_str())
}

/// Whether the stored `lock_hash` equals a fresh computation.
pub fn verify_lock_hash(lockfile: &Lockfile) -> (r: bool)
    ensures
        r == (lockfile@.lock_hash == lock_hash_of(lockfile@)),
{
    let expected = compute_lock_hash(lockfile);
    lockfile.lock_hash == expected
}

/// The entries with the value of the first `key` entry replaced, or the
/// entry appended when there is none.
pub open spec fn set_entry(es: Seq<(Seq<char>, Json)>, key: Seq<char>, v: Json) -> Seq<(Seq<char>, Json)>
    decreases es.len(),
{
    if es.len() == 0 {
        seq![(key, v)]
    } else if es[0].0 == key {
        es.update(0, (key, v))
    } else {
        seq![es[0]] + set_entry(es.drop_first(), key, v)
    }
}

/// The value with `lock_hash` set to the empty string, when it is an object.
pub open spec fn blank_lock_hash(v: Json) -> Json {
    match v {
        Json::Object(es) => Json::Object(set_entry(es, "lock_hash"@, Json::Str(seq![]))),
        _ => v,
    }
}

/// The stored `lock_hash` text, empty when missing or not a string.
pub open spec fn stored_lock_hash(v: Json) -> Seq<char> {
    match str_of(field(v, "lock_hash"@)) {
        Some(h) => h,
        None => seq![],
    }
}

/// Whether a JSON value's stored `lock_hash` matches its recomputation.
pub open spec fn json_lock_hash_valid(v: Json) -> bool {
    stored_lock_hash(v) == sha256_label(canon(blank_lock_hash(v)))
}

/// Replaces the value of the first `key` entry, or appends the entry.
fn set_field(es: &mut Vec<(String, JsonValue)>, key: &str, v: JsonValue)
    ensures
        view_entries(final(es)@) == set_entry(view_entries(old(es)@), key@, v@),
{
    let ghost vs = view_entries(es@);
    proof { lemma_view_entries(es@); }
    let mut i: usize = 0;
    while i < es.len()
        invariant
            i <= es@.len(),
            vs == view_entries(old(es)@),
            es@ == old(es)@,
            vs.len() == es@.len(),
            forall|j: int| 0 <= j < es@.len() ==> #[trigger] vs[j] == (es@[j].0@, view_json(es@[j].1)),
            forall|j: int| 0 <= j < i ==> vs[j].0 != key@,
        decreases es.len() - i,
    {
        if text_eq(es[i].0.as_str(), key) {
            let k = key.to_owned();
            proof {
                lemma_set_entry_at(vs, key@, v@, i as int);
                lemma_view_entries(es@.update(i as int, (k, v)));
            }
            es.set(i, (k, v));
            assert(view_entries(es@) =~= vs.update(i as int, (key@, v@)));
            return;
        }
        i = i + 1;
    }
    let k = key.to_owned();
    proof {
        lemma_set_entry_at(vs, key@, v@, i as int);
        lemma_view_entries_push(es@, (k, v));
    }
    es.push((k, v));
}

/// Where the first entry with `key` stands, `set_entry` replaces it.
proof fn lemma_set_entry_at(es: Seq<(Seq<char>, Json)>, key: Seq<char>, v: Json, i: int)
    requires
        0 <= i <= es.len(),
        forall|j: int| 0 <= j < i ==> es[j].0 != key,
        i < es.len() ==> es[i].0 == key,
    ensures
        i < es.len() ==> set_entry(es, key, v) == es.update(i, (key, v)),
        i == es.len() ==> set_entry(es, key, v) == es.push((key, v)),
    decreases es.len(),
{
    if es.len() == 0 {
        assert(seq![(key, v)] =~= es.push((key, v)));
    } else if i == 0 {
    } else {
        let t = es.drop_first();
        assert forall|j: int| 0 <= j < i - 1 implies t[j].0 != key by {
            assert(t[j] == es[j + 1]);
        }
        lemma_set_entry_at(t, key, v, i - 1);
        if i < es.len() {
            assert(seq![es[0]] + t.update(i - 1, (key, v)) =~= es.update(i, (key, v)));
        } else {
            assert(seq![es[0]] + t.push((key, v)) =~= es.push((key, v)));
        }
    }
}

/// Checks the self-hash of a parsed lockfile value.
pub fn verify_lock_hash_value(v: JsonValue) -> (r: bool)
    ensures
        r == json_lock_hash_valid(v@),
{
    lock_hash_detail_of(v).valid
}

/// Checks the self-hash of a lockfile given as JSON text; an error when the
/// text is not JSON.
pub fn verify_lock_hash_from_json(json: &str) -> (r: Result<bool, String>)
    ensures
        match r {
            Ok(b) => parsed_json(json@) is Some && b == json_lock_hash_valid(parsed_json(json@)->0),
            Err(_) => parsed_json(json@) is None,
        },
{
    match parse_text(json) {
        Ok(v) => Ok(verify_lock_hash_value(v)),
        Err(e) => Err(e),
    }
}

/// The stored and recomputed self-hash of a lockfile's JSON, and whether
/// they agree.
#[derive(Debug, Clone)]
pub struct HashDetail {
    pub stored: String,
    pub computed: String,
    pub valid: bool,
}

/// The stored and recomputed self-hash of a parsed lockfile value.
pub fn lock_hash_detail_of(v: JsonValue) -> (r: HashDetail)
    ensures
        r.stored@ == stored_lock_hash(v@),
        r.computed@ == sha256_label(canon(blank_lock_hash(v@))),
        r.valid == json_lock_hash_valid(v@),
{
    let stored = match v.get("lock_hash") {
        Some(h) => match h.as_str() {
            Some(s) => s.to_owned(),
            None => String::new(),
        },
        None => String::new(),
    };
    let blank = match v {
        JsonValue::Object(mut es) => {
            proof { reveal_strlit(""); }
            assert(""@ =~= Seq::<char>::empty());
            set_field(&mut es, "lock_hash", JsonValue::Str("".to_owned()));
            JsonValue::Object(es)
        },
        other => other,
    };
    let text = to_canonical_text(&blank);
    let computed = sha256_of_text(text.as_str());
    let valid = stored == computed;
    HashDetail { stored, computed, valid }
}

/// The self-hash detail of a lockfile given as JSON text; an error when
/// the text is not JSON.
pub fn verify_lock_hash_detail(json: &str) -> (r: Result<HashDetail, String>)
    ensures
        match r {
            Ok(d) => parsed_json(json@) is Some && d.valid == json_lock_hash_valid(parsed_json(json@)->0)
                && d.stored@ == stored_lock_hash(parsed_json(json@)->0)
                && d.computed@ == sha256_label(canon(blank_lock_hash(parsed_json(json@)->0))),
            Err(_) => parsed_json(json@) is None,
        },
{
    match parse_text(json) {
        Ok(v) => Ok(lock_hash_detail_of(v)),
        Err(e) => Err(e),
    }
}

/// A lockfile whose `lock_hash` was set to its computed self-hash verifies.
pub proof fn lemma_self_hash_round_trip(l: LockfileView)
    ensures
        with_lock_hash(l, lock_hash_of(l)).lock_hash == lock_hash_of(with_lock_hash(l, lock_hash_of(l))),
{
    assert(with_lock_hash(with_lock_hash(l, lock_hash_of(l)), seq![]) == with_lock_hash(l, seq![]));
}

/// A lockfile whose `lock_hash` is its computed self-hash passes the check
/// on its JSON form: blanking `lock_hash` there gives the hashed preimage.
pub proof fn lemma_json_round_trip(l: LockfileView)
    ensures
        json_lock_hash_valid(lockfile_json(with_lock_hash(l, lock_hash_of(l)))),
{
    let h = lock_hash_of(l);
    let full = with_lock_hash(l, h);
    let es = lockfile_json(full)->Object_0;
    let key = "lock_hash"@;
    reveal_strlit("lock_hash");
    reveal_strlit("as_of");
    reveal_strlit("created");
    reveal_strlit("dataset_id");
    assert(es[0].0[0] != key[0]);
    assert(es[1].0[0] != key[0]);
    assert(es[2].0[0] != key[0]);
    assert(es[3].0 == key);
    lemma_set_entry_at(es, key, Json::Str(seq![]), 3);
    assert(set_entry(es, key, Json::Str(seq![])) =~= lockfile_json(with_lock_hash(l, seq![]))->Object_0);
    assert(with_lock_hash(full, seq![]) == with_lock_hash(l, seq![]));
    let e1 = es.drop_first();
    let e2 = e1.drop_first();
    let e3 = e2.drop_first();
    assert(es[0].0 != key);
    assert(e1[0] == es[1] && e1[0].0 != key);
    assert(e2[0] == es[2] && e2[0].0 != key);
    assert(e3[0] == es[3]);
    assert(entry_lookup(e3, key) == Some(Json::Str(h)));
    assert(entry_lookup(e2, key) == entry_lookup(e3, key));
    assert(entry_lookup(e1, key) == entry_lookup(e2, key));
    assert(entry_lookup(es, key) == entry_lookup(e1, key));
    assert(field(lockfile_json(full), key) == Some(Json::Str(h)));
}

} // verus!
