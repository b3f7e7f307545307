//! JSON values as the event log hashes them: every object with its keys in
//! sorted order, at every level, so that the hash of a payload does not
//! depend on the order its keys were written in.

use vstd::prelude::*;
use crate::text::{lemma_str_lt_total, lemma_str_lt_transitive, str_eq, str_lt, sorted_strict, text_lt};

verus! {

/// A JSON value. Numbers are kept as their JSON text; an object is its
/// entries in order, as keys and values.
#[derive(Debug, PartialEq, Eq)]
pub enum JsonValue {
    Null,
    Bool(bool),
    Number(String),
    String(String),
    Array(Vec<JsonValue>),
    Object(Vec<(String, JsonValue)>),
}

/// The keys of an object's entries, in order.
pub open spec fn obj_keys(m: Seq<(String, JsonValue)>) -> Seq<Seq<char>> {
    m.map_values(|e: (String, JsonValue)| e.0@)
}

/// Entry `i` is the last of `m[..upto]` with its key.
pub open spec fn last_before(m: Seq<(String, JsonValue)>, upto: int, i: int) -> bool {
    &&& 0 <= i < upto
    &&& forall|k: int| i < k < upto ==> (#[trigger] m[k]).0@ != m[i].0@
}

/// Some entry of `m` has key `k`.
pub open spec fn has_key(m: Seq<(String, JsonValue)>, k: Seq<char>) -> bool {
    exists|i: int| 0 <= i < m.len() && #[trigger] m[i].0@ == k
}

/// Each key of `n` is the key of some entry of `m`.
pub open spec fn keys_from(n: Seq<(String, JsonValue)>, m: Seq<(String, JsonValue)>) -> bool {
    forall|j: int| 0 <= j < n.len() ==> has_key(m, (#[trigger] n[j]).0@)
}

/// `out` is `inp` with the entries of every object sorted by key, at
/// every level: an object's keys are those of the input object, each once,
/// in strictly increasing order, and each with the canonical form of the
/// value of its last entry in the input, as a JSON object (a map) keeps a
/// key that occurs more than once.
pub open spec fn canonical_of(out: JsonValue, inp: JsonValue) -> bool
    decreases inp,
{
    match inp {
        JsonValue::Array(a) => out matches JsonValue::Array(b) && b@.len() == a@.len() && forall|i: int|
            0 <= i < a@.len() ==> canonical_of(#[trigger] b@[i], a@[i]),
        JsonValue::Object(m) => out matches JsonValue::Object(n) && {
            &&& sorted_strict(obj_keys(n@))
            &&& forall|i: int| 0 <= i < m@.len() ==> obj_keys(n@).contains(#[trigger] m@[i].0@)
            &&& keys_from(n@, m@)
            &&& forall|i: int, j: int|
                0 <= i < m@.len() && 0 <= j < n@.len() && last_before(m@, m@.len() as int, i) && (
                #[trigger] n@[j]).0@ == (#[trigger] m@[i]).0@ ==> canonical_of(n@[j].1, m@[i].1)
        },
        _ => out == inp,
    }
}

/// Puts `x` under key `k` into the key-sorted entries `v`: replaces the
/// value of an entry with that key, or inserts a new entry in key order.
fn put_entry(v: &mut Vec<(String, JsonValue)>, k: String, x: JsonValue)
    requires
        sorted_strict(obj_keys(old(v)@)),
    ensures
        sorted_strict(obj_keys(final(v)@)),
        exists|j: int| 0 <= j < final(v)@.len() && (#[trigger] final(v)@[j]).0@ == k@ && final(v)@[j].1 == x,
        forall|j: int|
            0 <= j < final(v)@.len() && (#[trigger] final(v)@[j]).0@ != k@ ==> exists|j2: int|
                0 <= j2 < old(v)@.len() && old(v)@[j2] == final(v)@[j],
        forall|j2: int|
            0 <= j2 < old(v)@.len() && (#[trigger] old(v)@[j2]).0@ != k@ ==> exists|j: int|
                0 <= j < final(v)@.len() && final(v)@[j] == old(v)@[j2],
{
    let ghost keys0 = obj_keys(v@);
    let mut i: usize = 0;
    while i < v.len() && text_lt(v[i].0.as_str(), k.as_str())
        invariant
            0 <= i <= v@.len(),
            v@ == old(v)@,
            keys0 == obj_keys(v@),
            sorted_strict(keys0),
            forall|t: int| 0 <= t < i ==> str_lt(#[trigger] keys0[t], k@),
        decreases v.len() - i,
    {
        i = i + 1;
    }
    if i < v.len() && str_eq(v[i].0.as_str(), k.as_str()) {
        let ghost old_v = v@;
        v.set(i, (k, x));
        proof {
            let nk = obj_keys(v@);
            assert(nk =~= keys0);
            assert(v@[i as int].0@ == old_v[i as int].0@);
            assert forall|j: int| 0 <= j < v@.len() && (#[trigger] v@[j]).0@ != v@[i as int].0@ implies exists|j2: int|
                0 <= j2 < old_v.len() && old_v[j2] == v@[j] by {
                assert(j != i);
                assert(old_v[j] == v@[j]);
            }
            assert forall|j2: int| 0 <= j2 < old_v.len() && (#[trigger] old_v[j2]).0@ != v@[i as int].0@ implies exists|j: int|
                0 <= j < v@.len() && v@[j] == old_v[j2] by {
                assert(j2 != i);
                assert(v@[j2] == old_v[j2]);
            }
            assert(v@[i as int].1 == x);
        }
        return;
    }
    proof {
        if i < v.len() {
            lemma_str_lt_total(keys0[i as int], k@);
        }
    }
    let ghost old_v = v@;
    let ghost kv = k@;
    v.insert(i, (k, x));
    proof {
        let after = obj_keys(v@);
        assert(after =~= keys0.insert(i as int, kv));
        assert forall|a: int, b: int| 0 <= a < b < after.len() implies str_lt(
            #[trigger] after[a],
            #[trigger] after[b],
        ) by {
            if b < i {
            } else if a < i && b == i {
            } else if a < i && b > i {
                assert(after[b] == keys0[b - 1]);
                if (b - 1) as int != i as int {
                    assert(str_lt(keys0[i as int], keys0[b - 1]));
                }
                lemma_str_lt_transitive(after[a], kv, keys0[i as int]);
                if b - 1 > i {
                    lemma_str_lt_transitive(after[a], keys0[i as int], keys0[b - 1]);
                }
            } else if a == i {
                assert(after[b] == keys0[b - 1]);
                if b - 1 > i {
                    lemma_str_lt_transitive(kv, keys0[i as int], keys0[b - 1]);
                }
            } else {
                assert(after[a] == keys0[a - 1]);
                assert(after[b] == keys0[b - 1]);
            }
        }
        assert(v@[i as int].0@ == kv && v@[i as int].1 == x);
        assert forall|j: int| 0 <= j < v@.len() && (#[trigger] v@[j]).0@ != kv implies exists|j2: int|
            0 <= j2 < old_v.len() && old_v[j2] == v@[j] by {
            if j < i {
                assert(old_v[j] == v@[j]);
            } else {
                assert(j > i);
                assert(old_v[j - 1] == v@[j]);
            }
        }
        assert forall|j2: int| 0 <= j2 < old_v.len() && (#[trigger] old_v[j2]).0@ != kv implies exists|j: int|
            0 <= j < v@.len() && v@[j] == old_v[j2] by {
            if j2 < i {
                assert(v@[j2] == old_v[j2]);
            } else {
                assert(v@[j2 + 1] == old_v[j2]);
            }
        }
    }
}

/// `value` with the entries of every object sorted by key, at every level;
/// where a key occurs more than once in an object, its last value is kept.
pub fn canonicalize_json(value: &JsonValue) -> (res: JsonValue)
    ensures
        canonical_of(res, *value),
    decreases value,
{
    match value {
        JsonValue::Null => JsonValue::Null,
        JsonValue::Bool(b) => JsonValue::Bool(*b),
        JsonValue::Number(n) => JsonValue::Number(n.clone()),
        JsonValue::String(s) => JsonValue::String(s.clone()),
        JsonValue::Array(a) => {
            let mut out: Vec<JsonValue> = Vec::new();
            let mut i: usize = 0;
            while i < a.len()
                invariant
                    *value == JsonValue::Array(*a),
                    0 <= i <= a@.len(),
                    out@.len() == i,
                    forall|t: int| 0 <= t < i ==> canonical_of(#[trigger] out@[t], a@[t]),
                decreases a.len() - i,
            {
                assert(decreases_to!(*value => value->Array_0));
                assert(decreases_to!(*a => a@));
                assert(decreases_to!(a@ => a@[i as int]));
                let c = canonicalize_json(&a[i]);
                out.push(c);
                i = i + 1;
            }
            JsonValue::Array(out)
        },
        JsonValue::Object(m) => {
            let mut out: Vec<(String, JsonValue)> = Vec::new();
            let mut i: usize = 0;
            while i < m.len()
                invariant
                    *value == JsonValue::Object(*m),
                    0 <= i <= m@.len(),
                    sorted_strict(obj_keys(out@)),
                    forall|t: int| 0 <= t < i ==> obj_keys(out@).contains(#[trigger] m@[t].0@),
                    forall|j: int|
                        0 <= j < out@.len() ==> exists|t: int| 0 <= t < i && #[trigger] m@[t].0@ == (#[trigger] out@[j]).0@,
                    forall|t: int, j: int|
                        0 <= t < i && 0 <= j < out@.len() && last_before(m@, i as int, t) && (#[trigger] out@[j]).0@
                            == (#[trigger] m@[t]).0@ ==> canonical_of(out@[j].1, m@[t].1),
                decreases m.len() - i,
            {
                assert(decreases_to!(*value => value->Object_0));
                assert(decreases_to!(*m => m@));
                assert(decreases_to!(m@ => m@[i as int]));
                assert(decreases_to!(m@[i as int] => m@[i as int].1));
                let c = canonicalize_json(&m[i].1);
                let ghost before = out@;
                let ghost key = m@[i as int].0@;
                put_entry(&mut out, m[i].0.clone(), c);
                proof {
                    let j1 = choose|j1: int| 0 <= j1 < out@.len() && (#[trigger] out@[j1]).0@ == key && out@[j1].1 == c;
                    assert forall|j: int| 0 <= j < out@.len() && (#[trigger] out@[j]).0@ == key implies j == j1 by {
                        assert(obj_keys(out@)[j1] == obj_keys(out@)[j]);
                        if j1 < j {
                            assert(str_lt(obj_keys(out@)[j1], obj_keys(out@)[j]));
                            crate::text::lemma_str_lt_irreflexive(key);
                        } else if j < j1 {
                            assert(str_lt(obj_keys(out@)[j], obj_keys(out@)[j1]));
                            crate::text::lemma_str_lt_irreflexive(key);
                        }
                    }
                    assert forall|t: int| 0 <= t < i + 1 implies obj_keys(out@).contains(#[trigger] m@[t].0@) by {
                        if m@[t].0@ == key {
                            assert(obj_keys(out@)[j1] == key);
                        } else {
                            assert(t < i);
                            assert(obj_keys(before).contains(m@[t].0@));
                            let j2 = choose|j2: int| 0 <= j2 < before.len() && obj_keys(before)[j2] == m@[t].0@;
                            assert(before[j2].0@ == m@[t].0@);
                            let j = choose|j: int| 0 <= j < out@.len() && out@[j] == before[j2];
                            assert(obj_keys(out@)[j] == m@[t].0@);
                        }
                    }
                    assert forall|j: int| 0 <= j < out@.len() implies exists|t: int|
                        0 <= t < i + 1 && #[trigger] m@[t].0@ == (#[trigger] out@[j]).0@ by {
                        if out@[j].0@ == key {
                            assert(m@[i as int].0@ == out@[j].0@);
                        } else {
                            let j2 = choose|j2: int| 0 <= j2 < before.len() && before[j2] == out@[j];
                            assert(before[j2] == out@[j]);
                            let t = choose|t: int| 0 <= t < i && #[trigger] m@[t].0@ == (#[trigger] before[j2]).0@;
                            assert(m@[t].0@ == out@[j].0@);
                        }
                    }
                    assert forall|t: int, j: int|
                        0 <= t < i + 1 && 0 <= j < out@.len() && last_before(m@, i + 1, t) && (#[trigger] out@[j]).0@
                            == (#[trigger] m@[t]).0@ implies canonical_of(out@[j].1, m@[t].1) by {
                        if t == i {
                            assert(j == j1);
                        } else {
                            assert(m@[i as int].0@ != m@[t].0@);
                            assert(out@[j].0@ != key);
                            let j2 = choose|j2: int| 0 <= j2 < before.len() && before[j2] == out@[j];
                            assert(before[j2] == out@[j]);
                            assert(last_before(m@, i as int, t));
                            assert(before[j2].0@ == m@[t].0@);
                        }
                    }
                }
                i = i + 1;
            }
            proof {
                assert forall|j: int| 0 <= j < out@.len() implies has_key(m@, (#[trigger] out@[j]).0@) by {
                    let t = choose|t: int| 0 <= t < i && #[trigger] m@[t].0@ == (#[trigger] out@[j]).0@;
                    assert(m@[t].0@ == out@[j].0@);
                }
                assert(keys_from(out@, m@));
            }
            JsonValue::Object(out)
        },
    }
}

/// No two entries of `m` have the same key.
pub open spec fn distinct_keys(m: Seq<(String, JsonValue)>) -> bool {
    forall|a: int, b: int| 0 <= a < b < m.len() ==> (#[trigger] m[a]).0@ != (#[trigger] m[b]).0@
}

/// The canonical form of an object does not depend on the order of its
/// entries: two objects with the same entries, each key once, in any order,
/// have the same canonical forms.
pub proof fn law_entry_order_irrelevant(out: JsonValue, m1: Vec<(String, JsonValue)>, m2: Vec<(String, JsonValue)>)
    requires
        canonical_of(out, JsonValue::Object(m1)),
        distinct_keys(m1@),
        distinct_keys(m2@),
        forall|i: int| 0 <= i < m2@.len() ==> m1@.contains(#[trigger] m2@[i]),
        forall|i: int| 0 <= i < m1@.len() ==> m2@.contains(#[trigger] m1@[i]),
    ensures
        canonical_of(out, JsonValue::Object(m2)),
{
    let n = out->Object_0;
    assert forall|i: int| 0 <= i < m2@.len() implies obj_keys(n@).contains(#[trigger] m2@[i].0@) by {
        assert(m1@.contains(m2@[i]));
        let i1 = choose|i1: int| 0 <= i1 < m1@.len() && m1@[i1] == m2@[i];
        assert(obj_keys(n@).contains(m1@[i1].0@));
    }
    assert forall|j: int| 0 <= j < n@.len() implies has_key(m2@, (#[trigger] n@[j]).0@) by {
        assert(has_key(m1@, n@[j].0@));
        let i1 = choose|i1: int| 0 <= i1 < m1@.len() && #[trigger] m1@[i1].0@ == n@[j].0@;
        assert(m2@.contains(m1@[i1]));
        let i2 = choose|i2: int| 0 <= i2 < m2@.len() && m2@[i2] == m1@[i1];
        assert(m2@[i2].0@ == n@[j].0@);
    }
    assert forall|i: int, j: int|
        0 <= i < m2@.len() && 0 <= j < n@.len() && last_before(m2@, m2@.len() as int, i) && (#[trigger] n@[j]).0@ == (
        #[trigger] m2@[i]).0@ implies canonical_of(n@[j].1, m2@[i].1) by {
        assert(m1@.contains(m2@[i]));
        let i1 = choose|i1: int| 0 <= i1 < m1@.len() && m1@[i1] == m2@[i];
        assert(last_before(m1@, m1@.len() as int, i1));
        assert(n@[j].0@ == m1@[i1].0@);
    }
}

} // verus!
