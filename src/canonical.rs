//! Canonical JSON: keys sorted by code point at every depth, no whitespace,
//! no trailing newline.

use vstd::prelude::*;
use crate::json::{lemma_view_entries, lemma_view_items, view_entries, view_items, view_json, Json, JsonValue};
use crate::text::{int_text, less_than, push_char, push_int, push_text, text_lt, lemma_text_lt_asym, lemma_text_lt_total, lemma_text_lt_trans};

verus! {

/// A lowercase hexadecimal digit for `d < 16`.
pub open spec fn hex_char(d: nat) -> char {
    if d < 10 { crate::text::digit_char(d) }
    else if d == 10 { 'a' }
    else if d == 11 { 'b' }
    else if d == 12 { 'c' }
    else if d == 13 { 'd' }
    else if d == 14 { 'e' }
    else { 'f' }
}

/// How one character is written inside a JSON string: `"` and `\` after a
/// backslash; `\b \t \n \f \r` for those controls; other characters below
/// U+0020 as `\u00` and two lowercase hex digits; anything else as itself.
pub open spec fn escape_char(c: char) -> Seq<char> {
    let u = c as u32;
    if c == '"' {
        seq!['\\', '"']
    } else if c == '\\' {
        seq!['\\', '\\']
    } else if u == 0x08 {
        seq!['\\', 'b']
    } else if u == 0x09 {
        seq!['\\', 't']
    } else if u == 0x0a {
        seq!['\\', 'n']
    } else if u == 0x0c {
        seq!['\\', 'f']
    } else if u == 0x0d {
        seq!['\\', 'r']
    } else if u < 0x20 {
        seq!['\\', 'u', '0', '0', hex_char((u / 16) as nat), hex_char((u % 16) as nat)]
    } else {
        seq![c]
    }
}

/// The characters of a text, each written as inside a JSON string.
pub open spec fn escaped(s: Seq<char>) -> Seq<char>
    decreases s.len(),
{
    if s.len() == 0 {
        seq![]
    } else {
        escaped(s.drop_last()) + escape_char(s.last())
    }
}

/// The JSON string literal of a text: the escaped characters in quotes.
#[verifier::opaque]
pub open spec fn json_string_text(s: Seq<char>) -> Seq<char> {
    seq!['"'] + escaped(s) + seq!['"']
}

/// Relies on serde_json::to_string on a str: the text in quotes with
/// serde_json's escapes (ser.rs `ESCAPE` table and `HEX_DIGITS`).
#[verifier::external_body]
fn quote_text(s: &str) -> (r: String)
    ensures
        r@ == json_string_text(s@),
{
    serde_json::to_string(s).unwrap_or_default()
}

/// Inserts `e` into `s` after every item whose key is not greater than its own.
pub open spec fn insert_by<T>(key: spec_fn(T) -> Seq<char>, e: T, s: Seq<T>) -> Seq<T>
    decreases s.len(),
{
    if s.len() == 0 {
        seq![e]
    } else if text_lt(key(e), key(s[0])) {
        seq![e] + s
    } else {
        seq![s[0]] + insert_by(key, e, s.drop_first())
    }
}

/// Stable sort by key: items with equal keys keep their relative order.
pub open spec fn sort_by<T>(key: spec_fn(T) -> Seq<char>, s: Seq<T>) -> Seq<T>
    decreases s.len(),
{
    if s.len() == 0 {
        s
    } else {
        insert_by(key, s.last(), sort_by(key, s.drop_last()))
    }
}

/// Inserting at the first position whose key is greater is `insert_by`.
pub proof fn lemma_insert_by_at<T>(key: spec_fn(T) -> Seq<char>, e: T, s: Seq<T>, p: int)
    requires
        0 <= p <= s.len(),
        forall|j: int| 0 <= j < p ==> !text_lt(key(e), #[trigger] key(s[j])),
        p < s.len() ==> text_lt(key(e), key(s[p])),
    ensures
        insert_by(key, e, s) == s.insert(p, e),
    decreases s.len(),
{
    if s.len() == 0 {
        assert(seq![e] =~= s.insert(p, e));
    } else if p == 0 {
        assert(seq![e] + s =~= s.insert(p, e));
    } else {
        assert(!text_lt(key(e), key(s[0])));
        let t = s.drop_first();
        assert forall|j: int| 0 <= j < p - 1 implies !text_lt(key(e), #[trigger] key(t[j])) by {
            assert(t[j] == s[j + 1]);
        }
        lemma_insert_by_at(key, e, t, p - 1);
        assert(seq![s[0]] + t.insert(p - 1, e) =~= s.insert(p, e));
    }
}

/// The positions `0 .. n` in order.
pub open spec fn positions(n: nat) -> Seq<usize> {
    Seq::new(n, |i: int| i as usize)
}

/// The key of the entry at a position.
pub open spec fn entry_key(es: Seq<(Seq<char>, Json)>) -> spec_fn(usize) -> Seq<char> {
    |i: usize| es[i as int].0
}

/// Positions of the entries in ascending key order; equal keys keep their order.
pub open spec fn key_order(es: Seq<(Seq<char>, Json)>) -> Seq<usize> {
    sort_by(entry_key(es), positions(es.len()))
}

/// The canonical text of a value.
pub open spec fn canon(v: Json) -> Seq<char>
    decreases v, 0nat,
{
    match v {
        Json::Null => seq!['n', 'u', 'l', 'l'],
        Json::Bool(b) => if b {
            seq!['t', 'r', 'u', 'e']
        } else {
            seq!['f', 'a', 'l', 's', 'e']
        },
        Json::Int(n) => int_text(n),
        Json::Float(t) => t,
        Json::Str(s) => json_string_text(s),
        Json::Array(items) => seq!['['] + canon_items(items) + seq![']'],
        Json::Object(es) => seq!['{'] + canon_entries(es, key_order(es)) + seq!['}'],
    }
}

/// The canonical texts of the items, separated by commas.
pub open spec fn canon_items(s: Seq<Json>) -> Seq<char>
    decreases s, 0nat,
{
    if s.len() == 0 {
        seq![]
    } else if s.len() == 1 {
        canon(s[0])
    } else {
        canon_items(s.drop_last()) + seq![','] + canon(s.last())
    }
}

/// The canonical texts of the entries at the positions of `ord`, separated by commas.
pub open spec fn canon_entries(es: Seq<(Seq<char>, Json)>, ord: Seq<usize>) -> Seq<char>
    decreases es, ord.len(),
{
    if ord.len() == 0 {
        seq![]
    } else {
        let prefix = canon_entries(es, ord.drop_last());
        let sep = if ord.len() == 1 { seq![] } else { seq![','] };
        let k = ord.last() as int;
        if 0 <= k < es.len() {
            prefix + sep + json_string_text(es[k].0) + seq![':'] + canon(es[k].1)
        } else {
            prefix + sep
        }
    }
}

/// The positions of the entries in ascending key order, equal keys in input order.
fn sorted_entry_order(es: &Vec<(String, JsonValue)>) -> (r: Vec<usize>)
    ensures
        r@ == key_order(view_entries(es@)),
        forall|j: int| 0 <= j < r@.len() ==> #[trigger] r@[j] < es@.len(),
{
    let ghost vs = view_entries(es@);
    let ghost key = entry_key(vs);
    proof { lemma_view_entries(es@); }
    let mut ord: Vec<usize> = Vec::new();
    let mut i: usize = 0;
    assert(positions(0) =~= Seq::<usize>::empty());
    while i < es.len()
        invariant
            i <= es@.len(),
            key == entry_key(vs),
            vs.len() == es@.len(),
            forall|j: int| 0 <= j < es@.len() ==> #[trigger] vs[j] == (es@[j].0@, view_json(es@[j].1)),
            ord@ == sort_by(key, positions(i as nat)),
            forall|j: int| 0 <= j < ord@.len() ==> #[trigger] ord@[j] < i,
        decreases es.len() - i,
    {
        let mut p: usize = 0;
        while p < ord.len() && !less_than(es[i].0.as_str(), es[ord[p]].0.as_str())
            invariant
                p <= ord@.len(),
                i < es@.len(),
                key == entry_key(vs),
                vs.len() == es@.len(),
                forall|j: int| 0 <= j < es@.len() ==> #[trigger] vs[j] == (es@[j].0@, view_json(es@[j].1)),
                forall|j: int| 0 <= j < ord@.len() ==> #[trigger] ord@[j] < i,
                forall|j: int| 0 <= j < p ==> !text_lt(key(i), #[trigger] key(ord@[j])),
            decreases ord.len() - p,
        {
            p = p + 1;
        }
        proof {
            assert(p < ord@.len() ==> text_lt(key(i), key(ord@[p as int])));
            lemma_insert_by_at(key, i, ord@, p as int);
            assert(positions((i + 1) as nat).drop_last() =~= positions(i as nat));
            assert(positions((i + 1) as nat).last() == i);
        }
        ord.insert(p, i);
        i = i + 1;
    }
    ord
}

/// Appends the canonical text of `v`.
pub fn write_canonical(v: &JsonValue, out: &mut String)
    ensures
        final(out)@ == old(out)@ + canon(v@),
    decreases v,
{
    proof { reveal_strlit("null"); reveal_strlit("true"); reveal_strlit("false"); }
    match v {
        JsonValue::Null => push_text(out, "null"),
        JsonValue::Bool(b) => if *b {
            push_text(out, "true")
        } else {
            push_text(out, "false")
        },
        JsonValue::Int(n) => push_int(out, *n),
        JsonValue::Float(t) => push_text(out, t.as_str()),
        JsonValue::Str(s) => {
            let q = quote_text(s.as_str());
            push_text(out, q.as_str());
        },
        JsonValue::Array(items) => {
            let ghost start = out@;
            let ghost vs = view_items(items@);
            proof { lemma_view_items(items@); }
            push_char(out, '[');
            let mut i: usize = 0;
            assert(items@.take(0) =~= Seq::<JsonValue>::empty());
            while i < items.len()
                invariant
                    i <= items@.len(),
                    *v == JsonValue::Array(*items),
                    vs == view_items(items@),
                    vs.len() == items@.len(),
                    forall|j: int| 0 <= j < items@.len() ==> #[trigger] vs[j] == view_json(items@[j]),
                    out@ == start + seq!['['] + canon_items(vs.take(i as int)),
                decreases items.len() - i,
            {
                assert(vs.take(i + 1).drop_last() =~= vs.take(i as int));
                if i > 0 {
                    push_char(out, ',');
                }
                proof {
                    assert(decreases_to!(*v => v->Array_0));
                    assert(decreases_to!(v->Array_0 => v->Array_0@));
                    assert(decreases_to!(v->Array_0@ => v->Array_0@[i as int]));
                    assert(decreases_to!(*v => (*items)@[i as int]));
                }
                write_canonical(&items[i], out);
                i = i + 1;
            }
            assert(vs.take(i as int) =~= vs);
            push_char(out, ']');
        },
        JsonValue::Object(es) => {
            let ghost start = out@;
            let ghost vs = view_entries(es@);
            proof { lemma_view_entries(es@); }
            let ord = sorted_entry_order(es);
            push_char(out, '{');
            let mut j: usize = 0;
            assert(ord@.take(0) =~= Seq::<usize>::empty());
            while j < ord.len()
                invariant
                    j <= ord@.len(),
                    *v == JsonValue::Object(*es),
                    vs == view_entries(es@),
                    vs.len() == es@.len(),
                    forall|m: int| 0 <= m < es@.len() ==> #[trigger] vs[m] == (es@[m].0@, view_json(es@[m].1)),
                    ord@ == key_order(vs),
                    forall|m: int| 0 <= m < ord@.len() ==> #[trigger] ord@[m] < es@.len(),
                    out@ == start + seq!['{'] + canon_entries(vs, ord@.take(j as int)),
                decreases ord.len() - j,
            {
                assert(ord@.take(j + 1).drop_last() =~= ord@.take(j as int));
                assert(ord@.take(j + 1).last() == ord@[j as int]);
                if j > 0 {
                    push_char(out, ',');
                }
                let k = ord[j];
                let q = quote_text(es[k].0.as_str());
                push_text(out, q.as_str());
                push_char(out, ':');
                proof {
                    assert(decreases_to!(*v => v->Object_0));
                    assert(decreases_to!(v->Object_0 => v->Object_0@));
                    assert(decreases_to!(v->Object_0@ => v->Object_0@[k as int]));
                    assert(decreases_to!(v->Object_0@[k as int] => v->Object_0@[k as int].1));
                    assert(decreases_to!(*v => (*es)@[k as int].1));
                }
                write_canonical(&es[k].1, out);
                j = j + 1;
            }
            assert(ord@.take(j as int) =~= ord@);
            push_char(out, '}');
        },
    }
}

/// The canonical JSON text of a value.
pub fn to_canonical_text(v: &JsonValue) -> (r: String)
    ensures
        r@ == canon(v@),
{
    let mut out = String::new();
    write_canonical(v, &mut out);
    assert(out@ =~= canon(v@));
    out
}

/// Items in non-decreasing key order.
pub open spec fn sorted_by<T>(key: spec_fn(T) -> Seq<char>, s: Seq<T>) -> bool {
    forall|i: int, j: int| 0 <= i < j < s.len() ==> !text_lt(#[trigger] key(s[j]), #[trigger] key(s[i]))
}

/// `insert_by` inserts at the first position whose key is greater.
proof fn lemma_insert_by_position<T>(key: spec_fn(T) -> Seq<char>, e: T, s: Seq<T>) -> (p: int)
    ensures
        0 <= p <= s.len(),
        insert_by(key, e, s) == s.insert(p, e),
        forall|j: int| 0 <= j < p ==> !text_lt(key(e), #[trigger] key(s[j])),
        p < s.len() ==> text_lt(key(e), key(s[p])),
    decreases s.len(),
{
    if s.len() == 0 {
        assert(seq![e] =~= s.insert(0, e));
        0
    } else if text_lt(key(e), key(s[0])) {
        assert(seq![e] + s =~= s.insert(0, e));
        0
    } else {
        let t = s.drop_first();
        let q = lemma_insert_by_position(key, e, t);
        assert(seq![s[0]] + t.insert(q, e) =~= s.insert(q + 1, e));
        assert forall|j: int| 0 <= j < q + 1 implies !text_lt(key(e), #[trigger] key(s[j])) by {
            if j > 0 {
                assert(s[j] == t[j - 1]);
            }
        }
        q + 1
    }
}

/// Inserting into a sorted sequence keeps it sorted.
proof fn lemma_insert_by_sorted<T>(key: spec_fn(T) -> Seq<char>, e: T, s: Seq<T>)
    requires
        sorted_by(key, s),
    ensures
        sorted_by(key, insert_by(key, e, s)),
{
    let p = lemma_insert_by_position(key, e, s);
    let r = s.insert(p, e);
    assert forall|i: int, j: int| 0 <= i < j < r.len() implies !text_lt(#[trigger] key(r[j]), #[trigger] key(r[i])) by {
        if i < p && j < p {
            assert(r[i] == s[i] && r[j] == s[j]);
        } else if i < p && j == p {
            assert(r[i] == s[i] && r[j] == e);
            lemma_text_lt_total(key(e), key(s[i]));
            lemma_text_lt_asym(key(s[i]), key(e));
        } else if i < p && j > p {
            assert(r[i] == s[i] && r[j] == s[j - 1]);
        } else if i == p {
            assert(r[i] == e && r[j] == s[j - 1]);
            if j - 1 == p {
                lemma_text_lt_asym(key(s[p]), key(s[p]));
            } else {
                assert(!text_lt(key(s[j - 1]), key(s[p])));
            }
            lemma_text_lt_total(key(s[p]), key(s[j - 1]));
            if key(s[p]) != key(s[j - 1]) {
                lemma_text_lt_trans(key(e), key(s[p]), key(s[j - 1]));
            }
            lemma_text_lt_asym(key(e), key(s[j - 1]));
        } else {
            assert(r[i] == s[i - 1] && r[j] == s[j - 1]);
        }
    }
}

/// The key order of `n` positions: each position once, sorted by key.
proof fn lemma_sorted_positions(key: spec_fn(usize) -> Seq<char>, n: nat)
    requires
        n <= usize::MAX,
    ensures
        sort_by(key, positions(n)).len() == n,
        sorted_by(key, sort_by(key, positions(n))),
        forall|i: int| 0 <= i < n ==> (#[trigger] sort_by(key, positions(n))[i]) < n,
        forall|i: int, j: int| 0 <= i < j < n ==> #[trigger] sort_by(key, positions(n))[i] != #[trigger] sort_by(key, positions(n))[j],
        forall|m: usize| m < n ==> sort_by(key, positions(n)).contains(m),
    decreases n,
{
    if n > 0 {
        let m = (n - 1) as nat;
        lemma_sorted_positions(key, m);
        assert(positions(n).drop_last() =~= positions(m));
        assert(positions(n).last() == m as usize);
        let s = sort_by(key, positions(m));
        assert(forall|i: int, j: int| 0 <= i < j < m ==> #[trigger] s[i] != #[trigger] s[j]);
        assert(forall|i: int| 0 <= i < m ==> #[trigger] s[i] < m);
        lemma_insert_by_sorted(key, m as usize, s);
        let p = lemma_insert_by_position(key, m as usize, s);
        let r = s.insert(p, m as usize);
        assert(sort_by(key, positions(n)) == r);
        assert forall|i: int| 0 <= i < n implies (#[trigger] r[i]) < n by {
            if i < p { assert(r[i] == s[i]); } else if i > p { assert(r[i] == s[i - 1]); }
        }
        assert forall|i: int, j: int| 0 <= i < j < n implies r[i] != r[j] by {
            if i < p && j < p {
                assert(r[i] == s[i] && r[j] == s[j]);
                assert(s[i] != s[j]);
            } else if i < p && j == p {
                assert(r[i] == s[i] && s[i] < m);
                assert(r[j] == m as usize);
            } else if i < p {
                assert(r[i] == s[i] && r[j] == s[j - 1]);
                assert(s[i] != s[j - 1]);
            } else if i == p {
                assert(r[j] == s[j - 1] && s[j - 1] < m);
                assert(r[i] == m as usize);
            } else {
                assert(r[i] == s[i - 1] && r[j] == s[j - 1]);
                assert(s[i - 1] != s[j - 1]);
            }
        }
        assert forall|x: usize| x < n implies r.contains(x) by {
            if x == m {
                assert(r[p] == x);
            } else {
                assert(s.contains(x));
                let i = choose|i: int| 0 <= i < s.len() && s[i] == x;
                if i < p { assert(r[i] == x); } else { assert(r[i + 1] == x); }
            }
        }
    }
}

/// Two strictly increasing sequences of texts with the same elements are equal.
proof fn lemma_strict_sorted_unique(u: Seq<Seq<char>>, v: Seq<Seq<char>>)
    requires
        u.len() == v.len(),
        forall|i: int, j: int| 0 <= i < j < u.len() ==> text_lt(#[trigger] u[i], #[trigger] u[j]),
        forall|i: int, j: int| 0 <= i < j < v.len() ==> text_lt(#[trigger] v[i], #[trigger] v[j]),
        forall|i: int| 0 <= i < u.len() ==> v.contains(#[trigger] u[i]),
        forall|i: int| 0 <= i < v.len() ==> u.contains(#[trigger] v[i]),
    ensures
        u == v,
{
    assert forall|t: int| 0 <= t < u.len() implies u[t] == v[t] by {
        lemma_same_at(u, v, t);
    }
    assert(u =~= v);
}

proof fn lemma_same_at(u: Seq<Seq<char>>, v: Seq<Seq<char>>, t: int)
    requires
        u.len() == v.len(),
        0 <= t < u.len(),
        forall|i: int, j: int| 0 <= i < j < u.len() ==> text_lt(#[trigger] u[i], #[trigger] u[j]),
        forall|i: int, j: int| 0 <= i < j < v.len() ==> text_lt(#[trigger] v[i], #[trigger] v[j]),
        forall|i: int| 0 <= i < u.len() ==> v.contains(#[trigger] u[i]),
        forall|i: int| 0 <= i < v.len() ==> u.contains(#[trigger] v[i]),
    ensures
        u[t] == v[t],
    decreases t,
{
    assert forall|k: int| 0 <= k < t implies u[k] == v[k] by {
        lemma_same_at(u, v, k);
    }
    if u[t] != v[t] {
        lemma_text_lt_total(u[t], v[t]);
        if text_lt(u[t], v[t]) {
            assert(v.contains(u[t]));
            let s = choose|s: int| 0 <= s < v.len() && v[s] == u[t];
            if s < t {
                assert(u[s] == v[s]);
                assert(text_lt(u[s], u[t]));
                lemma_text_lt_asym(u[s], u[s]);
            } else if s > t {
                assert(text_lt(v[t], v[s]));
                lemma_text_lt_asym(u[t], v[t]);
            }
        } else {
            assert(u.contains(v[t]));
            let s = choose|s: int| 0 <= s < u.len() && u[s] == v[t];
            if s < t {
                assert(u[s] == v[s]);
                assert(text_lt(v[s], v[t]));
                lemma_text_lt_asym(v[s], v[s]);
            } else if s > t {
                assert(text_lt(u[t], u[s]));
                lemma_text_lt_asym(v[t], u[t]);
            }
        }
    }
}

/// No two items share a key.
pub open spec fn distinct_keys<T>(key: spec_fn(T) -> Seq<char>, s: Seq<T>) -> bool {
    forall|i: int, j: int| 0 <= i < j < s.len() ==> #[trigger] key(s[i]) != #[trigger] key(s[j])
}

/// Sorting keeps the items and their number, orders them, and keeps keys distinct.
pub proof fn lemma_sort_by_facts<T>(key: spec_fn(T) -> Seq<char>, s: Seq<T>)
    ensures
        sort_by(key, s).len() == s.len(),
        sorted_by(key, sort_by(key, s)),
        forall|x: T| sort_by(key, s).contains(x) <==> s.contains(x),
        distinct_keys(key, s) ==> distinct_keys(key, sort_by(key, s)),
    decreases s.len(),
{
    if s.len() > 0 {
        let q = s.drop_last();
        let x = s.last();
        lemma_sort_by_facts(key, q);
        let r = sort_by(key, q);
        lemma_insert_by_sorted(key, x, r);
        let p = lemma_insert_by_position(key, x, r);
        let t = r.insert(p, x);
        assert(q.push(x) =~= s);
        assert forall|y: T| t.contains(y) <==> s.contains(y) by {
            if t.contains(y) {
                let i = choose|i: int| 0 <= i < t.len() && t[i] == y;
                if i < p {
                    assert(r[i] == y);
                    assert(r.contains(y));
                    assert(q.contains(y));
                    let k = choose|k: int| 0 <= k < q.len() && q[k] == y;
                    assert(s[k] == q[k]);
                } else if i > p {
                    assert(r[i - 1] == y);
                    assert(r.contains(y));
                    assert(q.contains(y));
                    let k = choose|k: int| 0 <= k < q.len() && q[k] == y;
                    assert(s[k] == q[k]);
                } else {
                    assert(s[s.len() - 1] == y);
                }
            }
            if s.contains(y) {
                let k = choose|k: int| 0 <= k < s.len() && s[k] == y;
                if k < s.len() - 1 {
                    assert(q[k] == y);
                    assert(q.contains(y));
                    assert(r.contains(y));
                    let i = choose|i: int| 0 <= i < r.len() && r[i] == y;
                    if i < p {
                        assert(t[i] == y);
                    } else {
                        assert(t[i + 1] == y);
                    }
                } else {
                    assert(t[p] == y);
                }
            }
        }
        if distinct_keys(key, s) {
            assert(distinct_keys(key, q)) by {
                assert forall|i: int, j: int| 0 <= i < j < q.len() implies #[trigger] key(q[i]) != #[trigger] key(q[j]) by {
                    assert(q[i] == s[i] && q[j] == s[j]);
                }
            }
            assert forall|i: int| 0 <= i < r.len() implies #[trigger] key(r[i]) != key(x) by {
                assert(r.contains(r[i]));
                assert(q.contains(r[i]));
                let k = choose|k: int| 0 <= k < q.len() && q[k] == r[i];
                assert(s[k] == q[k]);
                assert(key(s[k]) != key(s[s.len() - 1]));
            }
            assert forall|i: int, j: int| 0 <= i < j < t.len() implies #[trigger] key(t[i]) != #[trigger] key(t[j]) by {
                if i < p && j < p {
                    assert(t[i] == r[i] && t[j] == r[j]);
                } else if i < p && j == p {
                    assert(t[i] == r[i]);
                } else if i < p {
                    assert(t[i] == r[i] && t[j] == r[j - 1]);
                } else if i == p {
                    assert(t[j] == r[j - 1]);
                } else {
                    assert(t[i] == r[i - 1] && t[j] == r[j - 1]);
                }
            }
        }
    }
}

/// Sort stability: two orders of the same items, no two sharing a key,
/// sort to the same sequence.
pub proof fn lemma_sort_order_independent<T>(key: spec_fn(T) -> Seq<char>, s1: Seq<T>, s2: Seq<T>)
    requires
        s1.to_multiset() == s2.to_multiset(),
        distinct_keys(key, s1),
        distinct_keys(key, s2),
    ensures
        sort_by(key, s1) == sort_by(key, s2),
{
    broadcast use vstd::seq_lib::to_multiset_contains, vstd::seq_lib::to_multiset_len;
    lemma_sort_by_facts(key, s1);
    lemma_sort_by_facts(key, s2);
    let r1 = sort_by(key, s1);
    let r2 = sort_by(key, s2);
    assert(s1.len() == s1.to_multiset().len());
    assert(s2.len() == s2.to_multiset().len());
    let k1 = r1.map_values(key);
    let k2 = r2.map_values(key);
    assert forall|i: int, j: int| 0 <= i < j < k1.len() implies text_lt(#[trigger] k1[i], #[trigger] k1[j]) by {
        assert(!text_lt(key(r1[j]), key(r1[i])));
        lemma_text_lt_total(k1[i], k1[j]);
    }
    assert forall|i: int, j: int| 0 <= i < j < k2.len() implies text_lt(#[trigger] k2[i], #[trigger] k2[j]) by {
        assert(!text_lt(key(r2[j]), key(r2[i])));
        lemma_text_lt_total(k2[i], k2[j]);
    }
    assert forall|t: int| 0 <= t < k1.len() implies k2.contains(#[trigger] k1[t]) by {
        assert(r1.contains(r1[t]));
        assert(s1.contains(r1[t]));
        assert(s1.to_multiset().count(r1[t]) > 0);
        assert(s2.contains(r1[t]));
        assert(r2.contains(r1[t]));
        let u = choose|u: int| 0 <= u < r2.len() && r2[u] == r1[t];
        assert(k2[u] == k1[t]);
    }
    assert forall|t: int| 0 <= t < k2.len() implies k1.contains(#[trigger] k2[t]) by {
        assert(r2.contains(r2[t]));
        assert(s2.contains(r2[t]));
        assert(s2.to_multiset().count(r2[t]) > 0);
        assert(s1.contains(r2[t]));
        assert(r1.contains(r2[t]));
        let u = choose|u: int| 0 <= u < r1.len() && r1[u] == r2[t];
        assert(k1[u] == k2[t]);
    }
    lemma_strict_sorted_unique(k1, k2);
    assert forall|t: int| 0 <= t < r1.len() implies r1[t] == r2[t] by {
        assert(r1.contains(r1[t]));
        assert(s1.contains(r1[t]));
        assert(s1.to_multiset().count(r1[t]) > 0);
        assert(s2.contains(r1[t]));
        assert(r2.contains(r1[t]));
        let u = choose|u: int| 0 <= u < r2.len() && r2[u] == r1[t];
        assert(k1[t] == k2[t]);
        assert(key(r2[u]) == key(r2[t]));
        if u < t {
            assert(key(r2[u]) != key(r2[t]));
        } else if u > t {
            assert(key(r2[t]) != key(r2[u]));
        }
    }
    assert(r1 =~= r2);
}

/// Whether two values are equal up to the order of object keys.
pub open spec fn json_equiv(a: Json, b: Json) -> bool
    decreases a,
{
    match a {
        Json::Array(xs) => match b {
            Json::Array(ys) => xs.len() == ys.len() && forall|i: int|
                0 <= i < xs.len() ==> json_equiv(#[trigger] xs[i], ys[i]),
            _ => false,
        },
        Json::Object(xs) => match b {
            Json::Object(ys) => {
                &&& xs.len() == ys.len()
                &&& forall|i: int| 0 <= i < xs.len() ==> exists|j: int|
                    0 <= j < ys.len() && (#[trigger] ys[j]).0 == (#[trigger] xs[i]).0 && json_equiv(xs[i].1, ys[j].1)
                &&& forall|j: int| 0 <= j < ys.len() ==> exists|i: int|
                    0 <= i < xs.len() && (#[trigger] xs[i]).0 == (#[trigger] ys[j]).0
            },
            _ => false,
        },
        _ => a == b,
    }
}

/// Object keys are distinct at every depth and objects fit in memory.
pub open spec fn well_formed(v: Json) -> bool
    decreases v,
{
    match v {
        Json::Array(xs) => forall|i: int| 0 <= i < xs.len() ==> well_formed(#[trigger] xs[i]),
        Json::Object(xs) => {
            &&& xs.len() <= usize::MAX
            &&& forall|i: int, j: int| 0 <= i < j < xs.len() ==> (#[trigger] xs[i]).0 != (#[trigger] xs[j]).0
            &&& forall|i: int| 0 <= i < xs.len() ==> well_formed(#[trigger] xs[i].1)
        },
        _ => true,
    }
}

/// Canonicality: values equal up to key order have the same canonical text.
#[verifier::spinoff_prover]
#[verifier::rlimit(40)]
pub proof fn lemma_canonicality(a: Json, b: Json)
    requires
        well_formed(a),
        well_formed(b),
        json_equiv(a, b),
    ensures
        canon(a) == canon(b),
    decreases a, 0nat,
{
    match a {
        Json::Array(xs) => {
            let ys = b->Array_0;
            lemma_canon_items_equiv(xs, ys);
        },
        Json::Object(xs) => {
            let ys = b->Object_0;
            let n = xs.len();
            let ox = key_order(xs);
            let oy = key_order(ys);
            lemma_sorted_positions(entry_key(xs), n);
            lemma_sorted_positions(entry_key(ys), n);
            let kx = ox.map_values(|k: usize| xs[k as int].0);
            let ky = oy.map_values(|k: usize| ys[k as int].0);
            assert forall|i: int, j: int| 0 <= i < j < kx.len() implies text_lt(#[trigger] kx[i], #[trigger] kx[j]) by {
                assert(!text_lt(entry_key(xs)(ox[j]), entry_key(xs)(ox[i])));
                assert(ox[i] != ox[j]);
                lemma_text_lt_total(kx[i], kx[j]);
            }
            assert forall|i: int, j: int| 0 <= i < j < ky.len() implies text_lt(#[trigger] ky[i], #[trigger] ky[j]) by {
                assert(!text_lt(entry_key(ys)(oy[j]), entry_key(ys)(oy[i])));
                assert(oy[i] != oy[j]);
                lemma_text_lt_total(ky[i], ky[j]);
            }
            assert forall|t: int| 0 <= t < kx.len() implies ky.contains(#[trigger] kx[t]) by {
                let m = ox[t] as int;
                assert(xs[m].0 == kx[t]);
                let j = choose|j: int| 0 <= j < ys.len() && (#[trigger] ys[j]).0 == xs[m].0 && json_equiv(xs[m].1, ys[j].1);
                assert(oy.contains(j as usize));
                let s = choose|s: int| 0 <= s < oy.len() && oy[s] == j as usize;
                assert(ky[s] == kx[t]);
            }
            assert forall|t: int| 0 <= t < ky.len() implies kx.contains(#[trigger] ky[t]) by {
                let m = oy[t] as int;
                assert(ys[m].0 == ky[t]);
                let i = choose|i: int| 0 <= i < xs.len() && (#[trigger] xs[i]).0 == ys[m].0;
                assert(ox.contains(i as usize));
                let s = choose|s: int| 0 <= s < ox.len() && ox[s] == i as usize;
                assert(kx[s] == ky[t]);
            }
            lemma_strict_sorted_unique(kx, ky);
            lemma_canon_entries_equiv(xs, ys, n as int);
            assert(ox.take(n as int) =~= ox);
            assert(oy.take(n as int) =~= oy);
        },
        _ => {},
    }
}

proof fn lemma_canon_items_equiv(xs: Seq<Json>, ys: Seq<Json>)
    requires
        xs.len() == ys.len(),
        forall|i: int| 0 <= i < xs.len() ==> json_equiv(#[trigger] xs[i], ys[i]),
        forall|i: int| 0 <= i < xs.len() ==> well_formed(#[trigger] xs[i]),
        forall|i: int| 0 <= i < ys.len() ==> well_formed(#[trigger] ys[i]),
    ensures
        canon_items(xs) == canon_items(ys),
    decreases xs, 0nat,
{
    if xs.len() > 0 {
        let n = xs.len() as int;
        assert(json_equiv(xs[n - 1], ys[n - 1]));
        assert(well_formed(ys[n - 1]));
        lemma_canonicality(xs.last(), ys.last());
        if xs.len() > 1 {
            lemma_canon_items_equiv(xs.drop_last(), ys.drop_last());
        } else {
            assert(json_equiv(xs[0], ys[0]));
            lemma_canonicality(xs[0], ys[0]);
        }
    }
}

/// The first `t` entries in key order have the same canonical text.
#[verifier::spinoff_prover]
#[verifier::rlimit(40)]
proof fn lemma_canon_entries_equiv(xs: Seq<(Seq<char>, Json)>, ys: Seq<(Seq<char>, Json)>, t: int)
    requires
        well_formed(Json::Object(xs)),
        well_formed(Json::Object(ys)),
        json_equiv(Json::Object(xs), Json::Object(ys)),
        0 <= t <= xs.len(),
        key_order(xs).len() == xs.len(),
        key_order(ys).len() == ys.len(),
        forall|i: int| 0 <= i < xs.len() ==> (#[trigger] key_order(xs)[i]) < xs.len(),
        forall|i: int| 0 <= i < ys.len() ==> (#[trigger] key_order(ys)[i]) < ys.len(),
        key_order(xs).map_values(|k: usize| xs[k as int].0) == key_order(ys).map_values(|k: usize| ys[k as int].0),
    ensures
        canon_entries(xs, key_order(xs).take(t)) == canon_entries(ys, key_order(ys).take(t)),
    decreases xs, t,
{
    let ox = key_order(xs);
    let oy = key_order(ys);
    if t > 0 {
        lemma_canon_entries_equiv(xs, ys, t - 1);
        assert(ox.take(t).drop_last() =~= ox.take(t - 1));
        assert(oy.take(t).drop_last() =~= oy.take(t - 1));
        let m = ox[t - 1] as int;
        let k = oy[t - 1] as int;
        assert(ox.take(t).last() == ox[t - 1]);
        assert(oy.take(t).last() == oy[t - 1]);
        assert(ox.map_values(|q: usize| xs[q as int].0)[t - 1] == oy.map_values(|q: usize| ys[q as int].0)[t - 1]);
        assert(xs[m].0 == ys[k].0);
        let j = choose|j: int| 0 <= j < ys.len() && (#[trigger] ys[j]).0 == xs[m].0 && json_equiv(xs[m].1, ys[j].1);
        if j != k {
            if j < k {
                assert(ys[j].0 != ys[k].0);
            } else {
                assert(ys[k].0 != ys[j].0);
            }
        }
        assert(well_formed(xs[m].1));
        assert(well_formed(ys[k].1));
        lemma_canonicality(xs[m].1, ys[k].1);
    }
}

} // verus!
