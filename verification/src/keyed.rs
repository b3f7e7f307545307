//! Maps held as parallel vectors of distinct keys (compared by their views)
//! and values: what they stand for, and how updates in place, appends and
//! removals change that.

use vstd::prelude::*;
use crate::text::str_eq;

verus! {

/// No key occurs twice.
pub open spec fn keys_unique<K: View>(ids: Seq<K>) -> bool {
    forall|i: int, j: int| 0 <= i < ids.len() && 0 <= j < ids.len() && i != j ==> (#[trigger] ids[i])@ != (
    #[trigger] ids[j])@
}

/// The map that parallel keys `ids` and values `vps` stand for.
pub open spec fn keyed_map<K: View, V>(ids: Seq<K>, vps: Seq<V>) -> Map<K::V, V> {
    Map::new(
        |k: K::V| exists|i: int| 0 <= i < ids.len() && (#[trigger] ids[i])@ == k,
        |k: K::V| vps[choose|i: int| 0 <= i < ids.len() && (#[trigger] ids[i])@ == k],
    )
}

/// Value `i` is what the map holds under key `i`.
pub proof fn lemma_keyed_entry<K: View, V>(ids: Seq<K>, vps: Seq<V>, i: int)
    requires
        keys_unique(ids),
        ids.len() == vps.len(),
        0 <= i < ids.len(),
    ensures
        keyed_map(ids, vps).dom().contains(ids[i]@),
        keyed_map(ids, vps)[ids[i]@] == vps[i],
{
    let m = keyed_map(ids, vps);
    assert(m.dom().contains(ids[i]@));
    let j = choose|j: int| 0 <= j < ids.len() && (#[trigger] ids[j])@ == ids[i]@;
    assert(ids[j]@ == ids[i]@);
}

/// The position of `id` among `ids`, if it is there.
pub fn find_key(ids: &Vec<String>, id: &str) -> (res: Option<usize>)
    ensures
        match res {
            Some(i) => i < ids@.len() && ids@[i as int]@ == id@,
            None => forall|i: int| 0 <= i < ids@.len() ==> (#[trigger] ids@[i])@ != id@,
        },
{
    let mut i: usize = 0;
    while i < ids.len()
        invariant
            0 <= i <= ids@.len(),
            forall|j: int| 0 <= j < i ==> (#[trigger] ids@[j])@ != id@,
        decreases ids.len() - i,
    {
        if str_eq(ids[i].as_str(), id) {
            return Some(i);
        }
        i = i + 1;
    }
    None
}

/// Replacing value `i` replaces the map's entry for its key.
pub proof fn lemma_keyed_set<K: View, V>(ids: Seq<K>, vps: Seq<V>, i: int, v: V)
    requires
        keys_unique(ids),
        ids.len() == vps.len(),
        0 <= i < ids.len(),
    ensures
        keyed_map(ids, vps.update(i, v)) == keyed_map(ids, vps).insert(ids[i]@, v),
{
    let m0 = keyed_map(ids, vps);
    let m1 = keyed_map(ids, vps.update(i, v));
    let m2 = m0.insert(ids[i]@, v);
    assert forall|k: K::V| m1.dom().contains(k) <==> m2.dom().contains(k) by {
        if m2.dom().contains(k) && k != ids[i]@ {
            assert(m0.dom().contains(k));
        }
        if k == ids[i]@ {
            assert(m1.dom().contains(ids[i]@));
        }
    }
    assert forall|k: K::V| m1.dom().contains(k) implies m1[k] == m2[k] by {
        let j = choose|j: int| 0 <= j < ids.len() && (#[trigger] ids[j])@ == k;
        lemma_keyed_entry(ids, vps.update(i, v), j);
        if j != i {
            lemma_keyed_entry(ids, vps, j);
        }
    }
    assert(m1 =~= m2);
}

/// Appending a new key with its value inserts it into the map.
pub proof fn lemma_keyed_push<K: View, V>(ids: Seq<K>, vps: Seq<V>, id: K, v: V)
    requires
        keys_unique(ids),
        ids.len() == vps.len(),
        forall|i: int| 0 <= i < ids.len() ==> (#[trigger] ids[i])@ != id@,
    ensures
        keys_unique(ids.push(id)),
        keyed_map(ids.push(id), vps.push(v)) == keyed_map(ids, vps).insert(id@, v),
{
    let ids2 = ids.push(id);
    let vps2 = vps.push(v);
    assert forall|i: int, j: int| 0 <= i < ids2.len() && 0 <= j < ids2.len() && i != j implies (
    #[trigger] ids2[i])@ != (#[trigger] ids2[j])@ by {
        if i < ids.len() && j < ids.len() {
            assert(ids2[i] == ids[i] && ids2[j] == ids[j]);
        }
    }
    let m0 = keyed_map(ids, vps);
    let m1 = keyed_map(ids2, vps2);
    let m2 = m0.insert(id@, v);
    assert forall|k: K::V| m1.dom().contains(k) <==> m2.dom().contains(k) by {
        if m1.dom().contains(k) && k != id@ {
            let j = choose|j: int| 0 <= j < ids2.len() && (#[trigger] ids2[j])@ == k;
            assert(ids2[j] == ids[j]);
        }
        if m2.dom().contains(k) && k != id@ {
            let j = choose|j: int| 0 <= j < ids.len() && (#[trigger] ids[j])@ == k;
            assert(ids2[j] == ids[j]);
        }
        if k == id@ {
            assert(ids2[ids.len() as int] == id);
        }
    }
    assert forall|k: K::V| m1.dom().contains(k) implies m1[k] == m2[k] by {
        let j = choose|j: int| 0 <= j < ids2.len() && (#[trigger] ids2[j])@ == k;
        lemma_keyed_entry(ids2, vps2, j);
        if j < ids.len() {
            assert(ids2[j] == ids[j]);
            lemma_keyed_entry(ids, vps, j);
        }
    }
    assert(m1 =~= m2);
}

/// Removing entry `i` removes its key from the map.
pub proof fn lemma_keyed_remove<K: View, V>(ids: Seq<K>, vps: Seq<V>, i: int)
    requires
        keys_unique(ids),
        ids.len() == vps.len(),
        0 <= i < ids.len(),
    ensures
        keys_unique(ids.remove(i)),
        keyed_map(ids.remove(i), vps.remove(i)) == keyed_map(ids, vps).remove(ids[i]@),
{
    let ids2 = ids.remove(i);
    let vps2 = vps.remove(i);
    assert forall|a: int, b: int| 0 <= a < ids2.len() && 0 <= b < ids2.len() && a != b implies (
    #[trigger] ids2[a])@ != (#[trigger] ids2[b])@ by {
        let a0 = if a < i { a } else { a + 1 };
        let b0 = if b < i { b } else { b + 1 };
        assert(ids2[a] == ids[a0] && ids2[b] == ids[b0]);
    }
    let m0 = keyed_map(ids, vps);
    let m1 = keyed_map(ids2, vps2);
    let m2 = m0.remove(ids[i]@);
    assert forall|k: K::V| m1.dom().contains(k) <==> m2.dom().contains(k) by {
        if m1.dom().contains(k) {
            let j = choose|j: int| 0 <= j < ids2.len() && (#[trigger] ids2[j])@ == k;
            let j0 = if j < i { j } else { j + 1 };
            assert(ids2[j] == ids[j0]);
        }
        if m2.dom().contains(k) {
            let j = choose|j: int| 0 <= j < ids.len() && (#[trigger] ids[j])@ == k;
            assert(j != i);
            let j2 = if j < i { j } else { j - 1 };
            assert(ids2[j2] == ids[j]);
        }
    }
    assert forall|k: K::V| m1.dom().contains(k) implies m1[k] == m2[k] by {
        let j = choose|j: int| 0 <= j < ids2.len() && (#[trigger] ids2[j])@ == k;
        let j0 = if j < i { j } else { j + 1 };
        assert(ids2[j] == ids[j0] && vps2[j] == vps[j0]);
        lemma_keyed_entry(ids2, vps2, j);
        lemma_keyed_entry(ids, vps, j0);
    }
    assert(m1 =~= m2);
}

} // verus!
