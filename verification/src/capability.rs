//! Capability levels and fine-grained access rights.
//!
//! An access-rights list is modelled by its view: a sequence of
//! `(type, actions)` pairs of character sequences. What a list grants is the
//! set of `(type, action)` pairs it names (`has_pair`); the *canonical* form of
//! a list orders its types strictly and the actions of each type strictly, so
//! that two canonical lists with the same content are the same list.

use vstd::prelude::*;
use crate::text::{
    clone_strings,
    contains_str, insert_sorted, insert_sorted_unique, lemma_sorted_unique, lemma_str_lt_irreflexive,
    sorted_strict, sorted_weak, str_eq, str_lt, strs,
};

verus! {

/// Preset capability levels, ordered from least to most privileged.
#[derive(Debug, Clone, Copy, PartialEq, Eq, Structural, PartialOrd, Ord, Hash)]
pub enum Capability {
    View,
    Collaborate,
    Admin,
    Owner,
}

impl Capability {
    /// The rank of a capability: `View` is 0 and `Owner` is 3.
    pub open spec fn level(self) -> u8 {
        match self {
            Capability::View => 0,
            Capability::Collaborate => 1,
            Capability::Admin => 2,
            Capability::Owner => 3,
        }
    }
}

/// The lowercase name of a capability.
pub open spec fn capability_name(c: Capability) -> Seq<char> {
    match c {
        Capability::View => "view"@,
        Capability::Collaborate => "collaborate"@,
        Capability::Admin => "admin"@,
        Capability::Owner => "owner"@,
    }
}

impl Capability {
    /// The lowercase name (the capability's display text).
    pub fn as_str(&self) -> (res: &str)
        ensures
            res@ == capability_name(*self),
    {
        match self {
            Capability::View => "view",
            Capability::Collaborate => "collaborate",
            Capability::Admin => "admin",
            Capability::Owner => "owner",
        }
    }

    /// Parses a lowercase capability name.
    pub fn parse(s: &str) -> (res: Result<Capability, String>)
        ensures
            res matches Ok(c) ==> capability_name(c) == s@,
            res matches Err(m) ==> (forall|c: Capability| capability_name(c) != s@) && m@ == "unknown capability: "@
                + s@,
    {
        if str_eq(s, "view") {
            Ok(Capability::View)
        } else if str_eq(s, "collaborate") {
            Ok(Capability::Collaborate)
        } else if str_eq(s, "admin") {
            Ok(Capability::Admin)
        } else if str_eq(s, "owner") {
            Ok(Capability::Owner)
        } else {
            let mut m = String::new();
            crate::text::push_str(&mut m, "unknown capability: ");
            crate::text::push_str(&mut m, s);
            proof {
                assert forall|c: Capability| capability_name(c) != s@ by {
                    match c {
                        Capability::View => {},
                        Capability::Collaborate => {},
                        Capability::Admin => {},
                        Capability::Owner => {},
                    }
                }
            }
            Err(m)
        }
    }
}

/// The rights each capability grants, entry by entry, as the preset lists
/// them (before entries of the same type are merged and sorted).
pub open spec fn raw_preset(c: Capability) -> Seq<(Seq<char>, Seq<Seq<char>>)> {
    let view = seq![("content"@, seq!["read"@]), ("terminals"@, seq!["read"@])];
    let collaborate = seq![
        ("terminals"@, seq!["input"@]),
        ("chat"@, seq!["send"@]),
        ("tasks"@, seq!["read"@, "create"@, "edit"@]),
        ("instances"@, seq!["create"@]),
    ];
    let admin = seq![
        ("members"@, seq!["read"@, "invite"@, "suspend"@, "reinstate"@, "remove"@, "update"@]),
    ];
    let owner = seq![("instance"@, seq!["manage"@, "transfer"@])];
    view + (if c.level() >= 1 { collaborate } else { seq![] }) + (if c.level() >= 2 { admin } else { seq![] })
        + (if c.level() >= 3 { owner } else { seq![] })
}

/// `r` is the rights list of capability `c`: the canonical list, with no
/// empty entry, that grants exactly the types and pairs of `raw_preset(c)`.
pub open spec fn is_preset(c: Capability, r: Seq<(Seq<char>, Seq<Seq<char>>)>) -> bool {
    &&& canonical(r)
    &&& nonempty_actions(r)
    &&& same_content(r, raw_preset(c))
}

/// The capability whose preset is exactly `r`, trying the most privileged first.
pub open spec fn preset_of(r: Seq<(Seq<char>, Seq<Seq<char>>)>) -> Option<Capability> {
    if is_preset(Capability::Owner, r) {
        Some(Capability::Owner)
    } else if is_preset(Capability::Admin, r) {
        Some(Capability::Admin)
    } else if is_preset(Capability::Collaborate, r) {
        Some(Capability::Collaborate)
    } else if is_preset(Capability::View, r) {
        Some(Capability::View)
    } else {
        None
    }
}

/// The view of an access-rights list.
pub type RightsView = Seq<(Seq<char>, Seq<Seq<char>>)>;

/// One resource type together with the actions allowed on it.
#[derive(Debug, Clone, PartialEq, Eq)]
pub struct AccessRight {
    pub type_: String,
    pub actions: Vec<String>,
}

impl View for AccessRight {
    type V = (Seq<char>, Seq<Seq<char>>);

    open spec fn view(&self) -> (Seq<char>, Seq<Seq<char>>) {
        (self.type_@, strs(self.actions@))
    }
}

/// A list of access rights.
#[derive(Debug, Clone, PartialEq, Eq)]
pub struct AccessRights(pub Vec<AccessRight>);

/// The views of a sequence of access rights.
pub open spec fn rights_view(v: Seq<AccessRight>) -> RightsView {
    v.map_values(|r: AccessRight| r@)
}

impl View for AccessRights {
    type V = RightsView;

    open spec fn view(&self) -> RightsView {
        rights_view(self.0@)
    }
}

/// Some entry of `r` has type `t`.
pub open spec fn has_type(r: RightsView, t: Seq<char>) -> bool {
    exists|i: int| 0 <= i < r.len() && (#[trigger] r[i]).0 == t
}

/// Some entry of `r` has type `t` and lists action `a`.
pub open spec fn has_pair(r: RightsView, t: Seq<char>, a: Seq<char>) -> bool {
    exists|i: int| 0 <= i < r.len() && (#[trigger] r[i]).0 == t && r[i].1.contains(a)
}

/// The types of `r`, in order.
pub open spec fn types_of(r: RightsView) -> Seq<Seq<char>> {
    r.map_values(|e: (Seq<char>, Seq<Seq<char>>)| e.0)
}

/// Types strictly increasing, and the actions of every entry strictly increasing.
pub open spec fn canonical(r: RightsView) -> bool {
    &&& sorted_strict(types_of(r))
    &&& forall|i: int| 0 <= i < r.len() ==> sorted_strict(#[trigger] r[i].1)
}

/// Every entry lists at least one action.
pub open spec fn nonempty_actions(r: RightsView) -> bool {
    forall|i: int| 0 <= i < r.len() ==> (#[trigger] r[i]).1.len() > 0
}

/// Same types and same `(type, action)` pairs.
pub open spec fn same_content(r1: RightsView, r2: RightsView) -> bool {
    &&& forall|t: Seq<char>| has_type(r1, t) == has_type(r2, t)
    &&& forall|t: Seq<char>, a: Seq<char>| has_pair(r1, t, a) == has_pair(r2, t, a)
}

/// Same `(type, action)` pairs.
pub open spec fn same_pairs(r1: RightsView, r2: RightsView) -> bool {
    forall|t: Seq<char>, a: Seq<char>| has_pair(r1, t, a) == has_pair(r2, t, a)
}

/// `r` is the intersection of `a` and `b`: canonical, no empty entry, and
/// granting exactly the pairs that both grant.
pub open spec fn is_intersection(a: RightsView, b: RightsView, r: RightsView) -> bool {
    &&& canonical(r)
    &&& nonempty_actions(r)
    &&& forall|t: Seq<char>, x: Seq<char>| #[trigger] has_pair(r, t, x) == (has_pair(a, t, x) && has_pair(b, t, x))
}

/// `r` lists what `to` grants and `from` does not: canonical, no empty entry.
pub open spec fn is_difference(from: RightsView, to: RightsView, r: RightsView) -> bool {
    &&& canonical(r)
    &&& nonempty_actions(r)
    &&& forall|t: Seq<char>, x: Seq<char>| #[trigger] has_pair(r, t, x) == (has_pair(to, t, x) && !has_pair(from, t, x))
}

/// In a canonical list, the entry of a type is unique.
pub proof fn lemma_canonical_type_index(r: RightsView, i: int, j: int)
    requires
        canonical(r),
        0 <= i < r.len(),
        0 <= j < r.len(),
        r[i].0 == r[j].0,
    ensures
        i == j,
{
    if i < j {
        assert(str_lt(types_of(r)[i], types_of(r)[j]));
        lemma_str_lt_irreflexive(r[i].0);
    } else if j < i {
        assert(str_lt(types_of(r)[j], types_of(r)[i]));
        lemma_str_lt_irreflexive(r[i].0);
    }
}

/// Two canonical lists with the same content are equal.
pub proof fn lemma_canonical_unique(r1: RightsView, r2: RightsView)
    requires
        canonical(r1),
        canonical(r2),
        same_content(r1, r2),
    ensures
        r1 == r2,
{
    let t1 = types_of(r1);
    let t2 = types_of(r2);
    assert forall|x: Seq<char>| t1.contains(x) <==> t2.contains(x) by {
        if t1.contains(x) {
            let i = choose|i: int| 0 <= i < t1.len() && t1[i] == x;
            assert(has_type(r1, x));
            assert(has_type(r2, x));
            let j = choose|j: int| 0 <= j < r2.len() && (#[trigger] r2[j]).0 == x;
            assert(t2[j] == x);
        }
        if t2.contains(x) {
            let i = choose|i: int| 0 <= i < t2.len() && t2[i] == x;
            assert(has_type(r2, x));
            assert(has_type(r1, x));
            let j = choose|j: int| 0 <= j < r1.len() && (#[trigger] r1[j]).0 == x;
            assert(t1[j] == x);
        }
    }
    lemma_sorted_unique(t1, t2);
    assert(r1.len() == t1.len());
    assert(r2.len() == t2.len());
    assert forall|i: int| 0 <= i < r1.len() implies r1[i] == r2[i] by {
        assert(t1[i] == t2[i]);
        let t = r1[i].0;
        assert forall|a: Seq<char>| r1[i].1.contains(a) <==> r2[i].1.contains(a) by {
            if r1[i].1.contains(a) {
                assert(has_pair(r1, t, a));
                assert(has_pair(r2, t, a));
                let j = choose|j: int| 0 <= j < r2.len() && (#[trigger] r2[j]).0 == t && r2[j].1.contains(a);
                lemma_canonical_type_index(r2, i, j);
            }
            if r2[i].1.contains(a) {
                assert(has_pair(r2, t, a));
                assert(has_pair(r1, t, a));
                let j = choose|j: int| 0 <= j < r1.len() && (#[trigger] r1[j]).0 == t && r1[j].1.contains(a);
                lemma_canonical_type_index(r1, i, j);
            }
        }
        lemma_sorted_unique(r1[i].1, r2[i].1);
    }
    assert(r1 =~= r2);
}

/// When every entry lists an action, the pairs determine the types.
pub proof fn lemma_pairs_give_types(r1: RightsView, r2: RightsView)
    requires
        nonempty_actions(r1),
        nonempty_actions(r2),
        same_pairs(r1, r2),
    ensures
        same_content(r1, r2),
{
    assert forall|t: Seq<char>| has_type(r1, t) implies has_type(r2, t) by {
        let i = choose|i: int| 0 <= i < r1.len() && (#[trigger] r1[i]).0 == t;
        let a = r1[i].1[0];
        assert(r1[i].1.contains(a));
        assert(has_pair(r1, t, a));
        let j = choose|j: int| 0 <= j < r2.len() && (#[trigger] r2[j]).0 == t && r2[j].1.contains(a);
    }
    assert forall|t: Seq<char>| has_type(r2, t) implies has_type(r1, t) by {
        let i = choose|i: int| 0 <= i < r2.len() && (#[trigger] r2[i]).0 == t;
        let a = r2[i].1[0];
        assert(r2[i].1.contains(a));
        assert(has_pair(r2, t, a));
        let j = choose|j: int| 0 <= j < r1.len() && (#[trigger] r1[j]).0 == t && r1[j].1.contains(a);
    }
}


/// The views of a slice of string slices.
pub open spec fn str_slice_view(v: Seq<&str>) -> Seq<Seq<char>> {
    v.map_values(|a: &str| a@)
}

/// `(t, a)` is a pair of `r` exactly when `r` is subsumed by ... (pairs of `small` are pairs of `big`).
pub open spec fn pairs_subset(small: RightsView, big: RightsView) -> bool {
    forall|t: Seq<char>, a: Seq<char>| has_pair(small, t, a) ==> has_pair(big, t, a)
}

/// Adding an entry adds its type.
pub proof fn lemma_has_type_push(r: RightsView, e: (Seq<char>, Seq<Seq<char>>), t: Seq<char>)
    ensures
        has_type(r.push(e), t) == (has_type(r, t) || e.0 == t),
{
    let r2 = r.push(e);
    if has_type(r, t) {
        let i = choose|i: int| 0 <= i < r.len() && (#[trigger] r[i]).0 == t;
        assert(r2[i] == r[i]);
    }
    if e.0 == t {
        assert(r2[r.len() as int] == e);
    }
    if has_type(r2, t) {
        let i = choose|i: int| 0 <= i < r2.len() && (#[trigger] r2[i]).0 == t;
        if i < r.len() {
            assert(r2[i] == r[i]);
        }
    }
}

/// Adding an entry adds its pairs.
pub proof fn lemma_has_pair_push(r: RightsView, e: (Seq<char>, Seq<Seq<char>>), t: Seq<char>, a: Seq<char>)
    ensures
        has_pair(r.push(e), t, a) == (has_pair(r, t, a) || (e.0 == t && e.1.contains(a))),
{
    let r2 = r.push(e);
    if has_pair(r, t, a) {
        let i = choose|i: int| 0 <= i < r.len() && (#[trigger] r[i]).0 == t && r[i].1.contains(a);
        assert(r2[i] == r[i]);
    }
    if e.0 == t && e.1.contains(a) {
        assert(r2[r.len() as int] == e);
    }
    if has_pair(r2, t, a) {
        let i = choose|i: int| 0 <= i < r2.len() && (#[trigger] r2[i]).0 == t && r2[i].1.contains(a);
        if i < r.len() {
            assert(r2[i] == r[i]);
        }
    }
}

/// Sorts and merges a list of rights: the result is canonical and grants the
/// same types and pairs as the input.
pub fn normalize(rights: &Vec<AccessRight>) -> (res: Vec<AccessRight>)
    ensures
        canonical(rights_view(res@)),
        same_content(rights_view(res@), rights_view(rights@)),
{
    let ghost rv = rights_view(rights@);
    let n = rights.len();
    let mut types: Vec<String> = Vec::new();
    let mut i: usize = 0;
    assert(rv.take(0) =~= Seq::<(Seq<char>, Seq<Seq<char>>)>::empty());
    while i < n
        invariant
            n == rights.len(),
            rv == rights_view(rights@),
            0 <= i <= n,
            sorted_strict(strs(types@)),
            forall|t: Seq<char>| strs(types@).contains(t) <==> has_type(rv.take(i as int), t),
        decreases n - i,
    {
        let t = rights[i].type_.clone();
        insert_sorted_unique(&mut types, t);
        proof {
            assert(rv.take(i + 1) =~= rv.take(i as int).push(rv[i as int]));
            assert forall|x: Seq<char>| strs(types@).contains(x) <==> has_type(rv.take(i + 1), x) by {
                lemma_has_type_push(rv.take(i as int), rv[i as int], x);
            }
        }
        i = i + 1;
    }
    assert(rv.take(n as int) =~= rv);
    let mut res: Vec<AccessRight> = Vec::new();
    let mut j: usize = 0;
    while j < types.len()
        invariant
            n == rights.len(),
            rv == rights_view(rights@),
            sorted_strict(strs(types@)),
            forall|t: Seq<char>| strs(types@).contains(t) <==> has_type(rv, t),
            0 <= j <= types.len(),
            res.len() == j,
            forall|p: int| 0 <= p < j ==> (#[trigger] rights_view(res@)[p]).0 == strs(types@)[p],
            forall|p: int| 0 <= p < j ==> sorted_strict(#[trigger] rights_view(res@)[p].1),
            forall|p: int, a: Seq<char>| 0 <= p < j ==> (#[trigger] rights_view(res@)[p].1.contains(a)
                <==> has_pair(rv, strs(types@)[p], a)),
        decreases types.len() - j,
    {
        let t: &String = &types[j];
        let ghost tv = t@;
        let mut acts: Vec<String> = Vec::new();
        let mut k: usize = 0;
        while k < n
            invariant
                n == rights.len(),
                rv == rights_view(rights@),
                0 <= k <= n,
                t@ == tv,
                sorted_strict(strs(acts@)),
                forall|a: Seq<char>| strs(acts@).contains(a) <==> has_pair(rv.take(k as int), tv, a),
            decreases n - k,
        {
            let r: &AccessRight = &rights[k];
            assert(rv[k as int] == r@);
            proof {
                assert(rv.take(k + 1) =~= rv.take(k as int).push(rv[k as int]));
            }
            if str_eq(r.type_.as_str(), t.as_str()) {
                let mut q: usize = 0;
                while q < r.actions.len()
                    invariant
                        n == rights.len(),
                        rv == rights_view(rights@),
                        0 <= k < n,
                        rv[k as int] == r@,
                        r@.0 == tv,
                        0 <= q <= r.actions.len(),
                        sorted_strict(strs(acts@)),
                        forall|a: Seq<char>| strs(acts@).contains(a) <==> (has_pair(rv.take(k as int), tv, a)
                            || r@.1.take(q as int).contains(a)),
                    decreases r.actions.len() - q,
                {
                    let a = r.actions[q].clone();
                    let ghost av = a@;
                    insert_sorted_unique(&mut acts, a);
                    proof {
                        assert(r@.1.take(q + 1) =~= r@.1.take(q as int).push(av));
                        assert(av == r@.1[q as int]);
                        assert forall|x: Seq<char>| r@.1.take(q + 1).contains(x) <==> (r@.1.take(q as int).contains(x) || x == av) by {
                            let s0 = r@.1.take(q as int);
                            if s0.push(av).contains(x) {
                                let w = choose|w: int| 0 <= w < s0.len() + 1 && s0.push(av)[w] == x;
                                if w < s0.len() {
                                    assert(s0[w] == x);
                                }
                            }
                            if s0.contains(x) {
                                let w = choose|w: int| 0 <= w < s0.len() && s0[w] == x;
                                assert(s0.push(av)[w] == x);
                            }
                            if x == av {
                                assert(s0.push(av)[s0.len() as int] == x);
                            }
                        }
                        assert forall|x: Seq<char>| strs(acts@).contains(x) <==> (has_pair(rv.take(k as int), tv, x)
                            || r@.1.take(q + 1).contains(x)) by {
                            assert(r@.1.take(q + 1).contains(x) <==> (r@.1.take(q as int).contains(x) || x == av));
                        }
                    }
                    q = q + 1;
                }
                proof {
                    assert(r@.1.take(r.actions.len() as int) =~= r@.1);
                    assert forall|a: Seq<char>| strs(acts@).contains(a) <==> has_pair(rv.take(k + 1), tv, a) by {
                        lemma_has_pair_push(rv.take(k as int), rv[k as int], tv, a);
                    }
                }
            } else {
                proof {
                    assert forall|a: Seq<char>| strs(acts@).contains(a) <==> has_pair(rv.take(k + 1), tv, a) by {
                        lemma_has_pair_push(rv.take(k as int), rv[k as int], tv, a);
                    }
                }
            }
            k = k + 1;
        }
        assert(rv.take(n as int) =~= rv);
        let entry = AccessRight { type_: t.clone(), actions: acts };
        let ghost old_res = rights_view(res@);
        res.push(entry);
        proof {
            assert(rights_view(res@) =~= old_res.push(entry@));
            assert(strs(types@)[j as int] == tv);
        }
        j = j + 1;
    }
    proof {
        let resv = rights_view(res@);
        assert(types_of(resv) =~= strs(types@));
        assert forall|t: Seq<char>| has_type(resv, t) == has_type(rv, t) by {
            if has_type(resv, t) {
                let p = choose|p: int| 0 <= p < resv.len() && (#[trigger] resv[p]).0 == t;
                assert(strs(types@)[p] == t);
                assert(strs(types@).contains(t));
            }
            if has_type(rv, t) {
                assert(strs(types@).contains(t));
                let p = choose|p: int| 0 <= p < strs(types@).len() && strs(types@)[p] == t;
                assert(resv[p].0 == t);
            }
        }
        assert forall|t: Seq<char>, a: Seq<char>| has_pair(resv, t, a) == has_pair(rv, t, a) by {
            if has_pair(resv, t, a) {
                let p = choose|p: int| 0 <= p < resv.len() && (#[trigger] resv[p]).0 == t && resv[p].1.contains(a);
                assert(strs(types@)[p] == t);
            }
            if has_pair(rv, t, a) {
                let i = choose|i: int| 0 <= i < rv.len() && (#[trigger] rv[i]).0 == t && rv[i].1.contains(a);
                assert(has_type(rv, t));
                assert(strs(types@).contains(t));
                let p = choose|p: int| 0 <= p < strs(types@).len() && strs(types@)[p] == t;
                assert(resv[p].1.contains(a));
            }
        }
    }
    res
}

/// Keeps the actions of `src` that `other` lists (when `keep_shared`) or does
/// not list (otherwise), in their order.
fn filter_actions(src: &Vec<String>, other: &Vec<String>, keep_shared: bool) -> (res: Vec<String>)
    requires
        sorted_strict(strs(src@)),
    ensures
        sorted_strict(strs(res@)),
        forall|x: Seq<char>| strs(res@).contains(x) <==> (strs(src@).contains(x)
            && strs(other@).contains(x) == keep_shared),
{
    let ghost sv = strs(src@);
    let mut res: Vec<String> = Vec::new();
    let mut q: usize = 0;
    while q < src.len()
        invariant
            sv == strs(src@),
            sorted_strict(sv),
            0 <= q <= src.len(),
            sorted_strict(strs(res@)),
            forall|p: int, w: int| 0 <= p < res.len() && q <= w < sv.len()
                ==> str_lt(#[trigger] strs(res@)[p], #[trigger] sv[w]),
            forall|x: Seq<char>| strs(res@).contains(x) <==> (sv.take(q as int).contains(x)
                && strs(other@).contains(x) == keep_shared),
        decreases src.len() - q,
    {
        let x = &src[q];
        let ghost xv = x@;
        assert(sv[q as int] == xv);
        let shared = contains_str(other, x.as_str());
        let ghost old_res = strs(res@);
        if shared == keep_shared {
            res.push(x.clone());
            proof {
                assert(strs(res@) =~= old_res.push(xv));
                assert forall|a: int, b: int| 0 <= a < b < strs(res@).len() implies str_lt(
                    #[trigger] strs(res@)[a], #[trigger] strs(res@)[b]) by {
                    if b == old_res.len() {
                        assert(strs(res@)[a] == old_res[a]);
                    } else {
                        assert(strs(res@)[a] == old_res[a]);
                        assert(strs(res@)[b] == old_res[b]);
                    }
                }
                assert forall|p: int, w: int| 0 <= p < res.len() && q + 1 <= w < sv.len()
                    implies str_lt(#[trigger] strs(res@)[p], #[trigger] sv[w]) by {
                    if p == old_res.len() {
                        assert(str_lt(sv[q as int], sv[w]));
                    } else {
                        assert(strs(res@)[p] == old_res[p]);
                    }
                }
            }
        }
        proof {
            assert(sv.take(q + 1) =~= sv.take(q as int).push(xv));
            assert forall|y: Seq<char>| sv.take(q + 1).contains(y) <==> (sv.take(q as int).contains(y) || y == xv) by {
                let s0 = sv.take(q as int);
                if s0.push(xv).contains(y) {
                    let w = choose|w: int| 0 <= w < s0.len() + 1 && s0.push(xv)[w] == y;
                    if w < s0.len() {
                        assert(s0[w] == y);
                    }
                }
                if s0.contains(y) {
                    let w = choose|w: int| 0 <= w < s0.len() && s0[w] == y;
                    assert(s0.push(xv)[w] == y);
                }
                if y == xv {
                    assert(s0.push(xv)[s0.len() as int] == y);
                }
            }
            assert forall|y: Seq<char>| strs(res@).contains(y) <==> (sv.take(q + 1).contains(y)
                && strs(other@).contains(y) == keep_shared) by {
                if shared == keep_shared {
                    if strs(res@).contains(y) {
                        let w = choose|w: int| 0 <= w < strs(res@).len() && strs(res@)[w] == y;
                        if w < old_res.len() {
                            assert(old_res[w] == y);
                        }
                    }
                    if old_res.contains(y) {
                        let w = choose|w: int| 0 <= w < old_res.len() && old_res[w] == y;
                        assert(strs(res@)[w] == y);
                    }
                    if y == xv {
                        assert(strs(res@)[old_res.len() as int] == y);
                    }
                }
            }
        }
        q = q + 1;
    }
    assert(sv.take(src.len() as int) =~= sv);
    res
}

/// The actions that a canonical list grants on `t`, sorted.
fn actions_of(norm: &Vec<AccessRight>, t: &str) -> (res: Vec<String>)
    requires
        canonical(rights_view(norm@)),
    ensures
        sorted_strict(strs(res@)),
        forall|x: Seq<char>| strs(res@).contains(x) <==> has_pair(rights_view(norm@), t@, x),
{
    let ghost nv = rights_view(norm@);
    let mut i: usize = 0;
    while i < norm.len()
        invariant
            nv == rights_view(norm@),
            canonical(nv),
            0 <= i <= norm.len(),
            forall|k: int| 0 <= k < i ==> (#[trigger] nv[k]).0 != t@,
        decreases norm.len() - i,
    {
        assert(nv[i as int] == norm@[i as int]@);
        if str_eq(norm[i].type_.as_str(), t) {
            let res = clone_strings(&norm[i].actions);
            proof {
                assert(strs(res@) == nv[i as int].1);
                assert forall|x: Seq<char>| strs(res@).contains(x) <==> has_pair(nv, t@, x) by {
                    if has_pair(nv, t@, x) {
                        let j = choose|j: int| 0 <= j < nv.len() && (#[trigger] nv[j]).0 == t@ && nv[j].1.contains(x);
                        lemma_canonical_type_index(nv, i as int, j);
                    }
                }
            }
            return res;
        }
        i = i + 1;
    }
    let res: Vec<String> = Vec::new();
    assert(strs(res@) =~= Seq::<Seq<char>>::empty());
    res
}

/// Whether two lists are equal entry by entry.
fn rights_equal(a: &Vec<AccessRight>, b: &Vec<AccessRight>) -> (res: bool)
    ensures
        res == (rights_view(a@) == rights_view(b@)),
{
    let ghost av = rights_view(a@);
    let ghost bv = rights_view(b@);
    if a.len() != b.len() {
        assert(av.len() != bv.len());
        return false;
    }
    let mut i: usize = 0;
    while i < a.len()
        invariant
            av == rights_view(a@),
            bv == rights_view(b@),
            a.len() == b.len(),
            0 <= i <= a.len(),
            forall|k: int| 0 <= k < i ==> #[trigger] av[k] == bv[k],
        decreases a.len() - i,
    {
        assert(av[i as int] == a@[i as int]@);
        assert(bv[i as int] == b@[i as int]@);
        if !str_eq(a[i].type_.as_str(), b[i].type_.as_str()) {
            return false;
        }
        if a[i].actions.len() != b[i].actions.len() {
            assert(av[i as int].1.len() != bv[i as int].1.len());
            return false;
        }
        let mut j: usize = 0;
        while j < a[i].actions.len()
            invariant
                av == rights_view(a@),
                bv == rights_view(b@),
                a.len() == b.len(),
                0 <= i < a.len(),
                av[i as int] == a@[i as int]@,
                bv[i as int] == b@[i as int]@,
                a@[i as int].actions.len() == b@[i as int].actions.len(),
                0 <= j <= a@[i as int].actions.len(),
                forall|k: int| 0 <= k < j ==> #[trigger] av[i as int].1[k] == bv[i as int].1[k],
            decreases a@[i as int].actions.len() - j,
        {
            if !str_eq(a[i].actions[j].as_str(), b[i].actions[j].as_str()) {
                assert(av[i as int].1[j as int] != bv[i as int].1[j as int]);
                return false;
            }
            j = j + 1;
        }
        assert(av[i as int].1 =~= bv[i as int].1);
        i = i + 1;
    }
    assert(av =~= bv);
    true
}

impl AccessRight {
    /// An entry for `type_` whose actions are `actions`, sorted.
    pub fn new(type_: &str, actions: &[&str]) -> (res: Self)
        ensures
            res@.0 == type_@,
            sorted_weak(res@.1),
            res@.1.to_multiset() =~= str_slice_view(actions@).to_multiset(),
            forall|a: Seq<char>| res@.1.contains(a) <==> str_slice_view(actions@).contains(a),
    {
        broadcast use vstd::seq_lib::group_to_multiset_ensures;

        let mut sorted: Vec<String> = Vec::new();
        let mut i: usize = 0;
        while i < actions.len()
            invariant
                0 <= i <= actions.len(),
                sorted_weak(strs(sorted@)),
                strs(sorted@).to_multiset() =~= str_slice_view(actions@.take(i as int)).to_multiset(),
            decreases actions.len() - i,
        {
            let a: &str = actions[i];
            let owned: String = a.to_owned();
            insert_sorted(&mut sorted, owned);
            proof {
                let prev = str_slice_view(actions@.take(i as int));
                assert(str_slice_view(actions@.take(i + 1)) =~= prev.push(a@));
                prev.to_multiset_ensures();
            }
            i = i + 1;
        }
        assert(actions@.take(actions.len() as int) =~= actions@);
        let res = AccessRight { type_: type_.to_owned(), actions: sorted };
        proof {
            assert forall|a: Seq<char>| res@.1.contains(a) <==> str_slice_view(actions@).contains(a) by {
                assert(res@.1.contains(a) <==> res@.1.to_multiset().count(a) > 0);
                assert(str_slice_view(actions@).contains(a) <==> str_slice_view(actions@).to_multiset().count(a) > 0);
            }
        }
        res
    }
}

impl AccessRights {
    /// No rights at all.
    pub fn empty() -> (res: Self)
        ensures
            res@ == Seq::<(Seq<char>, Seq<Seq<char>>)>::empty(),
    {
        let res = AccessRights(Vec::new());
        assert(res@ =~= Seq::<(Seq<char>, Seq<Seq<char>>)>::empty());
        res
    }

    /// The single right `type_:action`.
    pub fn single(type_: &str, action: &str) -> (res: Self)
        ensures
            res@ == seq![(type_@, seq![action@])],
    {
        let acts: [&str; 1] = [action];
        let r = AccessRight::new(type_, &acts);
        proof {
            assert(str_slice_view(acts@) =~= seq![action@]);
            assert(r@.1.len() == 1) by {
                r@.1.to_multiset_ensures();
                assert(seq![action@].to_multiset().len() == 1) by {
                    seq![action@].to_multiset_ensures();
                }
            }
            assert(r@.1.contains(r@.1[0]));
            assert(r@.1 =~= seq![action@]);
        }
        let mut v: Vec<AccessRight> = Vec::new();
        v.push(r);
        let res = AccessRights(v);
        assert(res@ =~= seq![(type_@, seq![action@])]);
        res
    }

    /// Does this list grant action `action` on type `type_`?
    pub fn contains(&self, type_: &str, action: &str) -> (res: bool)
        ensures
            res == has_pair(self@, type_@, action@),
    {
        let mut i: usize = 0;
        while i < self.0.len()
            invariant
                0 <= i <= self.0.len(),
                forall|k: int| 0 <= k < i ==> !((#[trigger] self@[k]).0 == type_@ && self@[k].1.contains(action@)),
            decreases self.0.len() - i,
        {
            let r = &self.0[i];
            if str_eq(r.type_.as_str(), type_) && contains_str(&r.actions, action) {
                assert(self@[i as int] == r@);
                return true;
            }
            assert(self@[i as int] == r@);
            i = i + 1;
        }
        false
    }

    /// Does this list grant every right that `other` grants?
    pub fn is_superset_of(&self, other: &AccessRights) -> (res: bool)
        ensures
            res == pairs_subset(other@, self@),
    {
        let mut i: usize = 0;
        while i < other.0.len()
            invariant
                0 <= i <= other.0.len(),
                forall|k: int, j: int| #![trigger other@[k].1[j]] 0 <= k < i && 0 <= j < other@[k].1.len()
                    ==> has_pair(self@, other@[k].0, other@[k].1[j]),
            decreases other.0.len() - i,
        {
            let r = &other.0[i];
            assert(other@[i as int] == r@);
            let mut j: usize = 0;
            while j < r.actions.len()
                invariant
                    0 <= j <= r.actions.len(),
                    0 <= i < other.0.len(),
                    other@[i as int] == r@,
                    forall|k: int, jj: int| #![trigger other@[k].1[jj]] 0 <= k < i && 0 <= jj < other@[k].1.len()
                        ==> has_pair(self@, other@[k].0, other@[k].1[jj]),
                    forall|jj: int| 0 <= jj < j ==> has_pair(self@, r@.0, #[trigger] r@.1[jj]),
                decreases r.actions.len() - j,
            {
                if !self.contains(r.type_.as_str(), r.actions[j].as_str()) {
                    assert(has_pair(other@, r@.0, r@.1[j as int])) by {
                        assert(r@.1.contains(r@.1[j as int]));
                    }
                    return false;
                }
                j = j + 1;
            }
            i = i + 1;
        }
        proof {
            assert forall|t: Seq<char>, a: Seq<char>| has_pair(other@, t, a) implies has_pair(self@, t, a) by {
                let k = choose|k: int| 0 <= k < other@.len() && (#[trigger] other@[k]).0 == t && other@[k].1.contains(a);
                let j = choose|j: int| 0 <= j < other@[k].1.len() && other@[k].1[j] == a;
            }
        }
        true
    }

    /// The canonical form of this list: types sorted, actions of each type
    /// sorted and deduplicated, entries of the same type merged.
    pub fn normalized(&self) -> (res: Vec<AccessRight>)
        ensures
            canonical(rights_view(res@)),
            same_content(rights_view(res@), self@),
    {
        normalize(&self.0)
    }

    /// Merges entries that share a type into a canonical list.
    fn from_merged(rights: Vec<AccessRight>) -> (res: Self)
        ensures
            canonical(res@),
            same_content(res@, rights_view(rights@)),
    {
        AccessRights(normalize(&rights))
    }

    /// Intersection: for each type present in both, the actions present in
    /// both; types left with no action are dropped.
    pub fn intersect(&self, other: &AccessRights) -> (res: AccessRights)
        ensures
            is_intersection(self@, other@, res@),
    {
        let a = self.normalized();
        let b = other.normalized();
        let ghost av = rights_view(a@);
        let ghost bv = rights_view(b@);
        let mut result: Vec<AccessRight> = Vec::new();
        let mut i: usize = 0;
        assert(av.take(0) =~= Seq::<(Seq<char>, Seq<Seq<char>>)>::empty());
        while i < a.len()
            invariant
                av == rights_view(a@),
                bv == rights_view(b@),
                canonical(av),
                canonical(bv),
                0 <= i <= a.len(),
                canonical(rights_view(result@)),
                nonempty_actions(rights_view(result@)),
                forall|p: int, w: int| 0 <= p < result.len() && i <= w < av.len()
                    ==> str_lt((#[trigger] rights_view(result@)[p]).0, (#[trigger] av[w]).0),
                forall|t: Seq<char>, x: Seq<char>| #[trigger] has_pair(rights_view(result@), t, x)
                    == (has_pair(av.take(i as int), t, x) && has_pair(bv, t, x)),
            decreases a.len() - i,
        {
            let ar = &a[i];
            assert(av[i as int] == ar@);
            assert(sorted_strict(av[i as int].1));
            let shared_with = actions_of(&b, ar.type_.as_str());
            let actions = filter_actions(&ar.actions, &shared_with, true);
            let ghost old_rv = rights_view(result@);
            proof {
                assert(av.take(i + 1) =~= av.take(i as int).push(av[i as int]));
            }
            if actions.len() > 0 {
                let entry = AccessRight { type_: ar.type_.clone(), actions };
                let ghost ev = entry@;
                result.push(entry);
                proof {
                    assert(ev.0 == av[i as int].0);
                    assert forall|x: Seq<char>| ev.1.contains(x) <==> (av[i as int].1.contains(x)
                        && has_pair(bv, av[i as int].0, x)) by {}
                    let rv = rights_view(result@);
                    assert(rv =~= old_rv.push(ev));
                    assert(types_of(rv) =~= types_of(old_rv).push(ev.0));
                    assert forall|p: int, q: int| 0 <= p < q < types_of(rv).len() implies str_lt(
                        #[trigger] types_of(rv)[p], #[trigger] types_of(rv)[q]) by {
                        if q == old_rv.len() {
                            assert(types_of(rv)[p] == old_rv[p].0);
                        } else {
                            assert(types_of(rv)[p] == types_of(old_rv)[p]);
                            assert(types_of(rv)[q] == types_of(old_rv)[q]);
                        }
                    }
                    assert forall|p: int| 0 <= p < rv.len() implies sorted_strict(#[trigger] rv[p].1) by {
                        if p < old_rv.len() {
                            assert(rv[p] == old_rv[p]);
                        }
                    }
                    assert forall|p: int| 0 <= p < rv.len() implies (#[trigger] rv[p]).1.len() > 0 by {
                        if p < old_rv.len() {
                            assert(rv[p] == old_rv[p]);
                        }
                    }
                    assert forall|p: int, w: int| 0 <= p < rv.len() && i + 1 <= w < av.len()
                        implies str_lt((#[trigger] rv[p]).0, (#[trigger] av[w]).0) by {
                        if p == old_rv.len() {
                            assert(str_lt(types_of(av)[i as int], types_of(av)[w]));
                        } else {
                            assert(rv[p] == old_rv[p]);
                        }
                    }
                    assert forall|t: Seq<char>, x: Seq<char>| has_pair(rv, t, x)
                        == (has_pair(av.take(i + 1), t, x) && has_pair(bv, t, x)) by {
                        assert(has_pair(old_rv, t, x) == (has_pair(av.take(i as int), t, x) && has_pair(bv, t, x)));
                        lemma_has_pair_push(old_rv, ev, t, x);
                        lemma_has_pair_push(av.take(i as int), av[i as int], t, x);
                    }
                }
            } else {
                proof {
                    assert forall|t: Seq<char>, x: Seq<char>| has_pair(old_rv, t, x)
                        == (has_pair(av.take(i + 1), t, x) && has_pair(bv, t, x)) by {
                        assert(has_pair(old_rv, t, x) == (has_pair(av.take(i as int), t, x) && has_pair(bv, t, x)));
                        lemma_has_pair_push(av.take(i as int), av[i as int], t, x);
                        if t == av[i as int].0 && av[i as int].1.contains(x) && has_pair(bv, t, x) {
                            assert(strs(actions@).contains(x));
                        }
                    }
                    assert forall|p: int, w: int| 0 <= p < old_rv.len() && i + 1 <= w < av.len()
                        implies str_lt((#[trigger] old_rv[p]).0, (#[trigger] av[w]).0) by {
                    }
                }
            }
            i = i + 1;
        }
        assert(av.take(a.len() as int) =~= av);
        let res = AccessRights(result);
        assert forall|t: Seq<char>, x: Seq<char>| has_pair(res@, t, x) == (has_pair(self@, t, x)
            && has_pair(other@, t, x)) by {
            assert(has_pair(av, t, x) == has_pair(self@, t, x));
            assert(has_pair(bv, t, x) == has_pair(other@, t, x));
        }
        res
    }

    /// Difference: `(added, removed)` where `added` holds the rights of
    /// `other` missing from `self` and `removed` the rights of `self`
    /// missing from `other`, both canonical.
    pub fn diff(&self, other: &AccessRights) -> (res: (AccessRights, AccessRights))
        ensures
            is_difference(self@, other@, res.0@),
            is_difference(other@, self@, res.1@),
    {
        let a_norm = self.normalized();
        let b_norm = other.normalized();
        let ghost av = rights_view(a_norm@);
        let ghost bv = rights_view(b_norm@);
        let mut all_types: Vec<String> = Vec::new();
        let mut i: usize = 0;
        assert(av.take(0) =~= Seq::<(Seq<char>, Seq<Seq<char>>)>::empty());
        while i < a_norm.len()
            invariant
                av == rights_view(a_norm@),
                0 <= i <= a_norm.len(),
                sorted_strict(strs(all_types@)),
                forall|t: Seq<char>| #[trigger] strs(all_types@).contains(t) <==> has_type(av.take(i as int), t),
            decreases a_norm.len() - i,
        {
            insert_sorted_unique(&mut all_types, a_norm[i].type_.clone());
            proof {
                assert(av[i as int] == a_norm@[i as int]@);
                assert(av.take(i + 1) =~= av.take(i as int).push(av[i as int]));
                assert forall|t: Seq<char>| #[trigger] strs(all_types@).contains(t) <==> has_type(av.take(i + 1), t) by {
                    lemma_has_type_push(av.take(i as int), av[i as int], t);
                }
            }
            i = i + 1;
        }
        assert(av.take(a_norm.len() as int) =~= av);
        let mut j: usize = 0;
        assert(bv.take(0) =~= Seq::<(Seq<char>, Seq<Seq<char>>)>::empty());
        while j < b_norm.len()
            invariant
                av == rights_view(a_norm@),
                bv == rights_view(b_norm@),
                0 <= j <= b_norm.len(),
                sorted_strict(strs(all_types@)),
                forall|t: Seq<char>| #[trigger] strs(all_types@).contains(t) <==> (has_type(av, t)
                    || has_type(bv.take(j as int), t)),
            decreases b_norm.len() - j,
        {
            insert_sorted_unique(&mut all_types, b_norm[j].type_.clone());
            proof {
                assert(bv[j as int] == b_norm@[j as int]@);
                assert(bv.take(j + 1) =~= bv.take(j as int).push(bv[j as int]));
                assert forall|t: Seq<char>| #[trigger] strs(all_types@).contains(t) <==> (has_type(av, t)
                    || has_type(bv.take(j + 1), t)) by {
                    lemma_has_type_push(bv.take(j as int), bv[j as int], t);
                }
            }
            j = j + 1;
        }
        assert(bv.take(b_norm.len() as int) =~= bv);
        let ghost tv = strs(all_types@);
        let mut added: Vec<AccessRight> = Vec::new();
        let mut removed: Vec<AccessRight> = Vec::new();
        let mut k: usize = 0;
        while k < all_types.len()
            invariant
                av == rights_view(a_norm@),
                bv == rights_view(b_norm@),
                canonical(av),
                canonical(bv),
                tv == strs(all_types@),
                sorted_strict(tv),
                0 <= k <= all_types.len(),
                canonical(rights_view(added@)),
                nonempty_actions(rights_view(added@)),
                canonical(rights_view(removed@)),
                nonempty_actions(rights_view(removed@)),
                forall|p: int, w: int| 0 <= p < added.len() && k <= w < tv.len()
                    ==> str_lt((#[trigger] rights_view(added@)[p]).0, #[trigger] tv[w]),
                forall|p: int, w: int| 0 <= p < removed.len() && k <= w < tv.len()
                    ==> str_lt((#[trigger] rights_view(removed@)[p]).0, #[trigger] tv[w]),
                forall|t: Seq<char>, x: Seq<char>| #[trigger] has_pair(rights_view(added@), t, x)
                    == (tv.take(k as int).contains(t) && has_pair(bv, t, x) && !has_pair(av, t, x)),
                forall|t: Seq<char>, x: Seq<char>| #[trigger] has_pair(rights_view(removed@), t, x)
                    == (tv.take(k as int).contains(t) && has_pair(av, t, x) && !has_pair(bv, t, x)),
            decreases all_types.len() - k,
        {
            let t: &String = &all_types[k];
            let ghost tk = t@;
            assert(tv[k as int] == tk);
            let a_actions = actions_of(&a_norm, t.as_str());
            let b_actions = actions_of(&b_norm, t.as_str());
            let add = filter_actions(&b_actions, &a_actions, false);
            let rem = filter_actions(&a_actions, &b_actions, false);
            proof {
                assert(tv.take(k + 1) =~= tv.take(k as int).push(tk));
                assert forall|y: Seq<char>| tv.take(k + 1).contains(y) <==> (tv.take(k as int).contains(y) || y == tk) by {
                    let s0 = tv.take(k as int);
                    if s0.push(tk).contains(y) {
                        let w = choose|w: int| 0 <= w < s0.len() + 1 && s0.push(tk)[w] == y;
                        if w < s0.len() {
                            assert(s0[w] == y);
                        }
                    }
                    if s0.contains(y) {
                        let w = choose|w: int| 0 <= w < s0.len() && s0[w] == y;
                        assert(s0.push(tk)[w] == y);
                    }
                    if y == tk {
                        assert(s0.push(tk)[s0.len() as int] == y);
                    }
                }
                assert forall|w: int| k + 1 <= w < tv.len() implies str_lt(tk, #[trigger] tv[w]) by {}
                assert(!tv.take(k as int).contains(tk)) by {
                    if tv.take(k as int).contains(tk) {
                        let w = choose|w: int| 0 <= w < k && tv.take(k as int)[w] == tk;
                        assert(str_lt(tv[w], tv[k as int]));
                        lemma_str_lt_irreflexive(tk);
                    }
                }
            }
            let ghost old_added = rights_view(added@);
            let ghost old_removed = rights_view(removed@);
            if add.len() > 0 {
                let entry = AccessRight { type_: t.clone(), actions: add };
                let ghost ev = entry@;
                added.push(entry);
                proof {
                    let rv = rights_view(added@);
                    assert(ev.0 == tk);
                    assert(rv =~= old_added.push(ev));
                    assert(types_of(rv) =~= types_of(old_added).push(tk));
                    assert forall|p: int, q: int| 0 <= p < q < types_of(rv).len() implies str_lt(
                        #[trigger] types_of(rv)[p], #[trigger] types_of(rv)[q]) by {
                        if q == old_added.len() {
                            assert(types_of(rv)[p] == old_added[p].0);
                        } else {
                            assert(types_of(rv)[p] == types_of(old_added)[p]);
                            assert(types_of(rv)[q] == types_of(old_added)[q]);
                        }
                    }
                    assert forall|p: int| 0 <= p < rv.len() implies sorted_strict(#[trigger] rv[p].1) by {
                        if p < old_added.len() {
                            assert(rv[p] == old_added[p]);
                        }
                    }
                    assert forall|p: int| 0 <= p < rv.len() implies (#[trigger] rv[p]).1.len() > 0 by {
                        if p < old_added.len() {
                            assert(rv[p] == old_added[p]);
                        }
                    }
                    assert forall|p: int, w: int| 0 <= p < rv.len() && k + 1 <= w < tv.len()
                        implies str_lt((#[trigger] rv[p]).0, #[trigger] tv[w]) by {
                        if p < old_added.len() {
                            assert(rv[p] == old_added[p]);
                        }
                    }
                    assert forall|t2: Seq<char>, x: Seq<char>| #[trigger] has_pair(rv, t2, x)
                        == (tv.take(k + 1).contains(t2) && has_pair(bv, t2, x) && !has_pair(av, t2, x)) by {
                        assert(has_pair(old_added, t2, x) == (tv.take(k as int).contains(t2)
                            && has_pair(bv, t2, x) && !has_pair(av, t2, x)));
                        lemma_has_pair_push(old_added, ev, t2, x);
                    }
                }
            } else {
                proof {
                    assert forall|t2: Seq<char>, x: Seq<char>| #[trigger] has_pair(old_added, t2, x)
                        == (tv.take(k + 1).contains(t2) && has_pair(bv, t2, x) && !has_pair(av, t2, x)) by {
                        assert(has_pair(old_added, t2, x) == (tv.take(k as int).contains(t2)
                            && has_pair(bv, t2, x) && !has_pair(av, t2, x)));
                        if t2 == tk && has_pair(bv, t2, x) && !has_pair(av, t2, x) {
                            assert(strs(add@).contains(x));
                        }
                    }
                }
            }
            if rem.len() > 0 {
                let entry = AccessRight { type_: t.clone(), actions: rem };
                let ghost ev = entry@;
                removed.push(entry);
                proof {
                    let rv = rights_view(removed@);
                    assert(ev.0 == tk);
                    assert(rv =~= old_removed.push(ev));
                    assert(types_of(rv) =~= types_of(old_removed).push(tk));
                    assert forall|p: int, q: int| 0 <= p < q < types_of(rv).len() implies str_lt(
                        #[trigger] types_of(rv)[p], #[trigger] types_of(rv)[q]) by {
                        if q == old_removed.len() {
                            assert(types_of(rv)[p] == old_removed[p].0);
                        } else {
                            assert(types_of(rv)[p] == types_of(old_removed)[p]);
                            assert(types_of(rv)[q] == types_of(old_removed)[q]);
                        }
                    }
                    assert forall|p: int| 0 <= p < rv.len() implies sorted_strict(#[trigger] rv[p].1) by {
                        if p < old_removed.len() {
                            assert(rv[p] == old_removed[p]);
                        }
                    }
                    assert forall|p: int| 0 <= p < rv.len() implies (#[trigger] rv[p]).1.len() > 0 by {
                        if p < old_removed.len() {
                            assert(rv[p] == old_removed[p]);
                        }
                    }
                    assert forall|p: int, w: int| 0 <= p < rv.len() && k + 1 <= w < tv.len()
                        implies str_lt((#[trigger] rv[p]).0, #[trigger] tv[w]) by {
                        if p < old_removed.len() {
                            assert(rv[p] == old_removed[p]);
                        }
                    }
                    assert forall|t2: Seq<char>, x: Seq<char>| #[trigger] has_pair(rv, t2, x)
                        == (tv.take(k + 1).contains(t2) && has_pair(av, t2, x) && !has_pair(bv, t2, x)) by {
                        assert(has_pair(old_removed, t2, x) == (tv.take(k as int).contains(t2)
                            && has_pair(av, t2, x) && !has_pair(bv, t2, x)));
                        lemma_has_pair_push(old_removed, ev, t2, x);
                    }
                }
            } else {
                proof {
                    assert forall|t2: Seq<char>, x: Seq<char>| #[trigger] has_pair(old_removed, t2, x)
                        == (tv.take(k + 1).contains(t2) && has_pair(av, t2, x) && !has_pair(bv, t2, x)) by {
                        assert(has_pair(old_removed, t2, x) == (tv.take(k as int).contains(t2)
                            && has_pair(av, t2, x) && !has_pair(bv, t2, x)));
                        if t2 == tk && has_pair(av, t2, x) && !has_pair(bv, t2, x) {
                            assert(strs(rem@).contains(x));
                        }
                    }
                }
            }
            k = k + 1;
        }
        assert(tv.take(all_types.len() as int) =~= tv);
        let res = (AccessRights(added), AccessRights(removed));
        proof {
            assert forall|t2: Seq<char>, x: Seq<char>| has_pair(res.0@, t2, x) == (has_pair(other@, t2, x)
                && !has_pair(self@, t2, x)) by {
                assert(has_pair(av, t2, x) == has_pair(self@, t2, x));
                assert(has_pair(bv, t2, x) == has_pair(other@, t2, x));
                assert(has_pair(res.0@, t2, x) == (tv.contains(t2) && has_pair(bv, t2, x) && !has_pair(av, t2, x)));
                if has_pair(bv, t2, x) {
                    assert(has_type(bv, t2));
                    assert(tv.contains(t2));
                }
            }
            assert forall|t2: Seq<char>, x: Seq<char>| has_pair(res.1@, t2, x) == (has_pair(self@, t2, x)
                && !has_pair(other@, t2, x)) by {
                assert(has_pair(av, t2, x) == has_pair(self@, t2, x));
                assert(has_pair(bv, t2, x) == has_pair(other@, t2, x));
                assert(has_pair(res.1@, t2, x) == (tv.contains(t2) && has_pair(av, t2, x) && !has_pair(bv, t2, x)));
                if has_pair(av, t2, x) {
                    assert(has_type(av, t2));
                    assert(tv.contains(t2));
                }
            }
        }
        res
    }
}

/// Lists that agree entry by entry on types and on which actions they list
/// have the same content.
pub proof fn lemma_same_content_entrywise(r1: RightsView, r2: RightsView)
    requires
        r1.len() == r2.len(),
        forall|i: int| 0 <= i < r1.len() ==> (#[trigger] r1[i]).0 == r2[i].0,
        forall|i: int, a: Seq<char>| 0 <= i < r1.len() ==> (#[trigger] r1[i].1.contains(a) <==> r2[i].1.contains(a)),
    ensures
        same_content(r1, r2),
{
    assert forall|t: Seq<char>| has_type(r1, t) == has_type(r2, t) by {
        if has_type(r1, t) {
            let i = choose|i: int| 0 <= i < r1.len() && (#[trigger] r1[i]).0 == t;
            assert(r2[i].0 == t);
        }
        if has_type(r2, t) {
            let i = choose|i: int| 0 <= i < r2.len() && (#[trigger] r2[i]).0 == t;
            assert(r1[i].0 == t);
        }
    }
    assert forall|t: Seq<char>, a: Seq<char>| has_pair(r1, t, a) == has_pair(r2, t, a) by {
        if has_pair(r1, t, a) {
            let i = choose|i: int| 0 <= i < r1.len() && (#[trigger] r1[i]).0 == t && r1[i].1.contains(a);
            assert(r1[i].1.contains(a));
            assert(r2[i].1.contains(a));
        }
        if has_pair(r2, t, a) {
            let i = choose|i: int| 0 <= i < r2.len() && (#[trigger] r2[i]).0 == t && r2[i].1.contains(a);
            assert(r2[i].1.contains(a) == r1[i].1.contains(a));
        }
    }
}

/// A canonical list with the content of a list without empty entries has no
/// empty entry either.
pub proof fn lemma_canonical_nonempty(r: RightsView, src: RightsView)
    requires
        canonical(r),
        same_content(r, src),
        nonempty_actions(src),
    ensures
        nonempty_actions(r),
{
    assert forall|p: int| 0 <= p < r.len() implies (#[trigger] r[p]).1.len() > 0 by {
        let t = r[p].0;
        assert(has_type(r, t));
        assert(has_type(src, t));
        let i = choose|i: int| 0 <= i < src.len() && (#[trigger] src[i]).0 == t;
        let a = src[i].1[0];
        assert(src[i].1.contains(a));
        assert(has_pair(src, t, a));
        assert(has_pair(r, t, a));
        let q = choose|q: int| 0 <= q < r.len() && (#[trigger] r[q]).0 == t && r[q].1.contains(a);
        lemma_canonical_type_index(r, p, q);
    }
}

impl Capability {
    /// The access rights this capability grants.
    pub fn access_rights(&self) -> (res: AccessRights)
        ensures
            is_preset(*self, res@),
    {
        let level: u8 = match self {
            Capability::View => 0,
            Capability::Collaborate => 1,
            Capability::Admin => 2,
            Capability::Owner => 3,
        };
        assert(level == self.level());
        let mut rights: Vec<AccessRight> = Vec::new();
        let read: [&str; 1] = ["read"];
        rights.push(AccessRight::new("content", &read));
        rights.push(AccessRight::new("terminals", &read));
        assert(str_slice_view(read@) =~= seq!["read"@]);
        if level >= 1 {
            let input: [&str; 1] = ["input"];
            let send: [&str; 1] = ["send"];
            let tasks: [&str; 3] = ["read", "create", "edit"];
            let create: [&str; 1] = ["create"];
            rights.push(AccessRight::new("terminals", &input));
            rights.push(AccessRight::new("chat", &send));
            rights.push(AccessRight::new("tasks", &tasks));
            rights.push(AccessRight::new("instances", &create));
            assert(str_slice_view(input@) =~= seq!["input"@]);
            assert(str_slice_view(send@) =~= seq!["send"@]);
            assert(str_slice_view(tasks@) =~= seq!["read"@, "create"@, "edit"@]);
            assert(str_slice_view(create@) =~= seq!["create"@]);
        }
        if level >= 2 {
            let members: [&str; 6] = ["read", "invite", "suspend", "reinstate", "remove", "update"];
            rights.push(AccessRight::new("members", &members));
            assert(str_slice_view(members@) =~= seq!["read"@, "invite"@, "suspend"@, "reinstate"@, "remove"@, "update"@]);
        }
        if level >= 3 {
            let instance: [&str; 2] = ["manage", "transfer"];
            rights.push(AccessRight::new("instance", &instance));
            assert(str_slice_view(instance@) =~= seq!["manage"@, "transfer"@]);
        }
        proof {
            let rv = rights_view(rights@);
            let raw = raw_preset(*self);
            assert(rv.len() == raw.len());
            assert forall|i: int| 0 <= i < rv.len() implies (#[trigger] rv[i]).0 == raw[i].0 by {}
            assert forall|i: int, a: Seq<char>| 0 <= i < rv.len() implies (#[trigger] rv[i].1.contains(a)
                <==> raw[i].1.contains(a)) by {}
            lemma_same_content_entrywise(rv, raw);
        }
        let res = AccessRights::from_merged(rights);
        proof {
            let raw = raw_preset(*self);
            assert forall|i: int| 0 <= i < raw.len() implies (#[trigger] raw[i]).1.len() > 0 by {}
            lemma_canonical_nonempty(res@, raw);
        }
        res
    }

    /// Reverse mapping: the capability whose preset equals `access` exactly,
    /// if any.
    pub fn from_access(access: &AccessRights) -> (res: Option<Capability>)
        ensures
            res == preset_of(access@),
    {
        let order: [Capability; 4] = [
            Capability::Owner,
            Capability::Admin,
            Capability::Collaborate,
            Capability::View,
        ];
        let mut i: usize = 0;
        while i < 4
            invariant
                0 <= i <= 4,
                order@ == seq![Capability::Owner, Capability::Admin, Capability::Collaborate, Capability::View],
                forall|k: int| 0 <= k < i ==> !is_preset(#[trigger] order@[k], access@),
            decreases 4 - i,
        {
            let cap = order[i];
            let preset = cap.access_rights();
            let same = rights_equal(&preset.0, &access.0);
            proof {
                if is_preset(cap, access@) {
                    lemma_canonical_unique(preset@, access@);
                }
            }
            if same {
                return Some(cap);
            }
            i = i + 1;
        }
        None
    }
}


// --- Laws ---

/// A canonical list without empty entries that grants nothing is empty.
pub proof fn lemma_no_pairs_empty(r: RightsView)
    requires
        nonempty_actions(r),
        forall|t: Seq<char>, x: Seq<char>| !has_pair(r, t, x),
    ensures
        r.len() == 0,
{
    if r.len() > 0 {
        assert(r[0].1.contains(r[0].1[0]));
        assert(has_pair(r, r[0].0, r[0].1[0]));
    }
}

/// Intersection is commutative: `a ∩ b` and `b ∩ a` are the same list.
pub proof fn law_intersect_commutative(a: RightsView, b: RightsView, ab: RightsView, ba: RightsView)
    requires
        is_intersection(a, b, ab),
        is_intersection(b, a, ba),
    ensures
        ab == ba,
{
    assert forall|t: Seq<char>, x: Seq<char>| has_pair(ab, t, x) == has_pair(ba, t, x) by {
        assert(has_pair(ab, t, x) == (has_pair(a, t, x) && has_pair(b, t, x)));
        assert(has_pair(ba, t, x) == (has_pair(b, t, x) && has_pair(a, t, x)));
    }
    lemma_pairs_give_types(ab, ba);
    lemma_canonical_unique(ab, ba);
}

/// Intersection is idempotent: a canonical list without empty entries
/// intersected with itself is itself.
pub proof fn law_intersect_idempotent(a: RightsView, aa: RightsView)
    requires
        canonical(a),
        nonempty_actions(a),
        is_intersection(a, a, aa),
    ensures
        aa == a,
{
    assert forall|t: Seq<char>, x: Seq<char>| has_pair(aa, t, x) == has_pair(a, t, x) by {
        assert(has_pair(aa, t, x) == (has_pair(a, t, x) && has_pair(a, t, x)));
    }
    lemma_pairs_give_types(aa, a);
    lemma_canonical_unique(aa, a);
}

/// Intersection narrows: every right of `a ∩ b` is a right of `a` and of `b`.
pub proof fn law_intersect_narrows(a: RightsView, b: RightsView, ab: RightsView)
    requires
        is_intersection(a, b, ab),
    ensures
        pairs_subset(ab, a),
        pairs_subset(ab, b),
{
    assert forall|t: Seq<char>, x: Seq<char>| has_pair(ab, t, x) implies has_pair(a, t, x) && has_pair(b, t, x) by {
        assert(has_pair(ab, t, x) == (has_pair(a, t, x) && has_pair(b, t, x)));
    }
}

/// Rights follow rank: a capability of higher or equal level grants every
/// right of a lower one.
pub proof fn law_superset_follows_level(c1: Capability, c2: Capability, r1: RightsView, r2: RightsView)
    requires
        is_preset(c1, r1),
        is_preset(c2, r2),
        c1.level() >= c2.level(),
    ensures
        pairs_subset(r2, r1),
{
    let raw1 = raw_preset(c1);
    let raw2 = raw_preset(c2);
    assert(raw2.len() <= raw1.len());
    assert forall|i: int| 0 <= i < raw2.len() implies #[trigger] raw2[i] == raw1[i] by {}
    assert forall|t: Seq<char>, x: Seq<char>| has_pair(r2, t, x) implies has_pair(r1, t, x) by {
        assert(has_pair(raw2, t, x));
        let i = choose|i: int| 0 <= i < raw2.len() && (#[trigger] raw2[i]).0 == t && raw2[i].1.contains(x);
        assert(raw1[i] == raw2[i]);
        assert(has_pair(raw1, t, x));
    }
}

/// A pair that only the more privileged presets grant.
proof fn lemma_marker_pairs(c: Capability)
    ensures
        has_pair(raw_preset(c), "chat"@, "send"@) == (c.level() >= 1),
        has_pair(raw_preset(c), "members"@, "invite"@) == (c.level() >= 2),
        has_pair(raw_preset(c), "instance"@, "manage"@) == (c.level() >= 3),
{
    reveal_strlit("content");
    reveal_strlit("terminals");
    reveal_strlit("chat");
    reveal_strlit("tasks");
    reveal_strlit("instances");
    reveal_strlit("members");
    reveal_strlit("instance");
    reveal_strlit("send");
    reveal_strlit("invite");
    reveal_strlit("manage");
    reveal_strlit("read");
    reveal_strlit("input");
    let raw = raw_preset(c);
    if c.level() >= 1 {
        assert(raw[3].0 == "chat"@ && raw[3].1.contains("send"@)) by {
            assert(raw[3].1[0] == "send"@);
        }
    }
    if c.level() >= 2 {
        assert(raw[6].0 == "members"@ && raw[6].1.contains("invite"@)) by {
            assert(raw[6].1[1] == "invite"@);
        }
    }
    if c.level() >= 3 {
        assert(raw[7].0 == "instance"@ && raw[7].1.contains("manage"@)) by {
            assert(raw[7].1[0] == "manage"@);
        }
    }
    assert forall|i: int| 0 <= i < raw.len() && (#[trigger] raw[i]).0 == "chat"@ implies i == 3 by {
        lemma_type_names_distinct(c, i);
    }
    assert forall|i: int| 0 <= i < raw.len() && (#[trigger] raw[i]).0 == "members"@ implies i == 6 by {
        lemma_type_names_distinct(c, i);
    }
    assert forall|i: int| 0 <= i < raw.len() && (#[trigger] raw[i]).0 == "instance"@ implies i == 7 by {
        lemma_type_names_distinct(c, i);
    }
}

/// The marker types name only their own entries.
proof fn lemma_type_names_distinct(c: Capability, i: int)
    requires
        0 <= i < raw_preset(c).len(),
    ensures
        raw_preset(c)[i].0 == "chat"@ ==> i == 3,
        raw_preset(c)[i].0 == "members"@ ==> i == 6,
        raw_preset(c)[i].0 == "instance"@ ==> i == 7,
{
    reveal_strlit("content");
    reveal_strlit("terminals");
    reveal_strlit("chat");
    reveal_strlit("tasks");
    reveal_strlit("instances");
    reveal_strlit("members");
    reveal_strlit("instance");
    let raw = raw_preset(c);
    let t = raw[i].0;
    if i == 0 {
        assert(t.len() == 7 && t[0] == 'c' && t[1] == 'o');
        assert("members"@[0] == 'm');
    } else if i == 1 || i == 2 {
        assert(t.len() == 9);
    } else if i == 3 {
        assert(t.len() == 4);
    } else if i == 4 {
        assert(t.len() == 5);
    } else if i == 5 {
        assert(t.len() == 9);
    } else if i == 6 {
        assert(t.len() == 7);
    } else if i == 7 {
        assert(t.len() == 8);
    }
}

/// `from_access` maps the rights of every capability back to it.
pub proof fn law_from_access_roundtrip(c: Capability, r: RightsView)
    requires
        is_preset(c, r),
    ensures
        preset_of(r) == Some(c),
{
    assert forall|d: Capability| d.level() > c.level() implies !is_preset(d, r) by {
        lemma_marker_pairs(c);
        lemma_marker_pairs(d);
        if is_preset(d, r) {
            if d.level() == 1 {
                assert(has_pair(raw_preset(d), "chat"@, "send"@));
                assert(has_pair(r, "chat"@, "send"@));
            } else if d.level() == 2 {
                assert(has_pair(raw_preset(d), "members"@, "invite"@));
                assert(has_pair(r, "members"@, "invite"@));
            } else {
                assert(has_pair(raw_preset(d), "instance"@, "manage"@));
                assert(has_pair(r, "instance"@, "manage"@));
            }
        }
    }
    assert(Capability::Owner.level() == 3);
    assert(Capability::Admin.level() == 2);
    assert(Capability::Collaborate.level() == 1);
}

/// The rights list of a capability is unique.
pub proof fn law_preset_unique(c: Capability, r1: RightsView, r2: RightsView)
    requires
        is_preset(c, r1),
        is_preset(c, r2),
    ensures
        r1 == r2,
{
    lemma_canonical_unique(r1, r2);
}

/// Rights strictly follow rank: a capability of lower level never grants
/// every right of a higher one.
pub proof fn law_preset_strictly_ordered(c1: Capability, c2: Capability, r1: RightsView, r2: RightsView)
    requires
        is_preset(c1, r1),
        is_preset(c2, r2),
        c1.level() > c2.level(),
    ensures
        !pairs_subset(r1, r2),
{
    lemma_marker_pairs(c1);
    lemma_marker_pairs(c2);
    if c1.level() == 1 {
        assert(has_pair(r1, "chat"@, "send"@));
        assert(!has_pair(r2, "chat"@, "send"@));
    } else if c1.level() == 2 {
        assert(has_pair(r1, "members"@, "invite"@));
        assert(!has_pair(r2, "members"@, "invite"@));
    } else {
        assert(has_pair(r1, "instance"@, "manage"@));
        assert(!has_pair(r2, "instance"@, "manage"@));
    }
}

/// `from_access` gives a capability exactly for that capability's own
/// rights list, as it is (a list with the same rights merged or ordered
/// otherwise gives none), and gives none exactly when no capability has
/// that list.
pub proof fn law_from_access_exact(r: RightsView, c: Capability, preset: RightsView)
    requires
        is_preset(c, preset),
    ensures
        preset_of(r) == Some(c) <==> r == preset,
        preset_of(r) is None <==> forall|d: Capability| !is_preset(d, r),
{
    if preset_of(r) == Some(c) {
        assert(is_preset(c, r));
        law_preset_unique(c, r, preset);
    }
    if r == preset {
        law_from_access_roundtrip(c, r);
    }
    if preset_of(r) is None {
        assert forall|d: Capability| !is_preset(d, r) by {
            match d {
                Capability::View => {},
                Capability::Collaborate => {},
                Capability::Admin => {},
                Capability::Owner => {},
            }
        }
    }
}

/// The rights `new` grants are either added by `old.diff(new)` or already
/// shared by `old` and `new`.
pub proof fn law_diff_covers_new(old: RightsView, new: RightsView, added: RightsView, shared: RightsView)
    requires
        is_difference(old, new, added),
        is_intersection(old, new, shared),
    ensures
        forall|t: Seq<char>, x: Seq<char>| has_pair(new, t, x) ==> (has_pair(added, t, x) || has_pair(shared, t, x)),
{
    assert forall|t: Seq<char>, x: Seq<char>| has_pair(new, t, x) implies (has_pair(added, t, x) || has_pair(shared, t, x)) by {
        assert(has_pair(added, t, x) == (has_pair(new, t, x) && !has_pair(old, t, x)));
        assert(has_pair(shared, t, x) == (has_pair(old, t, x) && has_pair(new, t, x)));
    }
}

/// When `new` grants everything `old` does, moving from `old` to `new`
/// removes nothing.
pub proof fn law_diff_of_widening_removes_nothing(old: RightsView, new: RightsView, removed: RightsView)
    requires
        pairs_subset(old, new),
        is_difference(new, old, removed),
    ensures
        removed.len() == 0,
{
    assert forall|t: Seq<char>, x: Seq<char>| !has_pair(removed, t, x) by {
        assert(has_pair(removed, t, x) == (has_pair(old, t, x) && !has_pair(new, t, x)));
    }
    lemma_no_pairs_empty(removed);
}

/// A list is a superset of the single right `t:x` exactly when it contains it.
pub proof fn law_contains_is_single_superset(r: RightsView, t: Seq<char>, x: Seq<char>)
    ensures
        pairs_subset(seq![(t, seq![x])], r) == has_pair(r, t, x),
{
    let single = seq![(t, seq![x])];
    assert(single[0].1.contains(x)) by {
        assert(single[0].1[0] == x);
    }
    assert(has_pair(single, t, x));
    assert forall|t2: Seq<char>, x2: Seq<char>| has_pair(single, t2, x2) implies t2 == t && x2 == x by {
        let i = choose|i: int| 0 <= i < single.len() && (#[trigger] single[i]).0 == t2 && single[i].1.contains(x2);
        let j = choose|j: int| 0 <= j < single[i].1.len() && single[i].1[j] == x2;
    }
}


/// An entry's action list, written out, contains exactly the actions named.
proof fn lemma_actions1(x0: Seq<char>, a: Seq<char>)
    ensures
        seq![x0].contains(a) == (a == x0),
{
    let s = seq![x0];
    if a == x0 {
        assert(s[0] == a);
    }
}

proof fn lemma_actions2(x0: Seq<char>, x1: Seq<char>, a: Seq<char>)
    ensures
        seq![x0, x1].contains(a) == (a == x0 || a == x1),
{
    let s = seq![x0, x1];
    if a == x0 {
        assert(s[0] == a);
    }
    if a == x1 {
        assert(s[1] == a);
    }
}

proof fn lemma_actions3(x0: Seq<char>, x1: Seq<char>, x2: Seq<char>, a: Seq<char>)
    ensures
        seq![x0, x1, x2].contains(a) == (a == x0 || a == x1 || a == x2),
{
    let s = seq![x0, x1, x2];
    if a == x0 {
        assert(s[0] == a);
    }
    if a == x1 {
        assert(s[1] == a);
    }
    if a == x2 {
        assert(s[2] == a);
    }
}

proof fn lemma_actions6(x0: Seq<char>, x1: Seq<char>, x2: Seq<char>, x3: Seq<char>, x4: Seq<char>, x5: Seq<char>, a: Seq<char>)
    ensures
        seq![x0, x1, x2, x3, x4, x5].contains(a) == (a == x0 || a == x1 || a == x2 || a == x3 || a == x4 || a == x5),
{
    let s = seq![x0, x1, x2, x3, x4, x5];
    if a == x0 {
        assert(s[0] == a);
    }
    if a == x1 {
        assert(s[1] == a);
    }
    if a == x2 {
        assert(s[2] == a);
    }
    if a == x3 {
        assert(s[3] == a);
    }
    if a == x4 {
        assert(s[4] == a);
    }
    if a == x5 {
        assert(s[5] == a);
    }
}

/// What each capability grants, pair by pair: every capability may read
/// content and terminals; Collaborate and above may also type into
/// terminals, send chat, read, create and edit tasks, and create instances;
/// Admin and above may also read, invite, suspend, reinstate, remove and
/// update members; Owner alone may also manage and transfer the instance.
/// No other pair is granted.
pub proof fn law_preset_contents(c: Capability, r: RightsView)
    requires
        is_preset(c, r),
    ensures
        forall|t: Seq<char>, a: Seq<char>| #[trigger] has_pair(r, t, a) <==> {
            ||| (t == "content"@ && a == "read"@)
            ||| (t == "terminals"@ && a == "read"@)
            ||| (c.level() >= 1 && t == "terminals"@ && a == "input"@)
            ||| (c.level() >= 1 && t == "chat"@ && a == "send"@)
            ||| (c.level() >= 1 && t == "tasks"@ && (a == "read"@ || a == "create"@ || a == "edit"@))
            ||| (c.level() >= 1 && t == "instances"@ && a == "create"@)
            ||| (c.level() >= 2 && t == "members"@ && (a == "read"@ || a == "invite"@ || a == "suspend"@
                || a == "reinstate"@ || a == "remove"@ || a == "update"@))
            ||| (c.level() >= 3 && t == "instance"@ && (a == "manage"@ || a == "transfer"@))
        },
{
    assert forall|t: Seq<char>, a: Seq<char>| #[trigger] has_pair(r, t, a) <==> {
        ||| (t == "content"@ && a == "read"@)
        ||| (t == "terminals"@ && a == "read"@)
        ||| (c.level() >= 1 && t == "terminals"@ && a == "input"@)
        ||| (c.level() >= 1 && t == "chat"@ && a == "send"@)
        ||| (c.level() >= 1 && t == "tasks"@ && (a == "read"@ || a == "create"@ || a == "edit"@))
        ||| (c.level() >= 1 && t == "instances"@ && a == "create"@)
        ||| (c.level() >= 2 && t == "members"@ && (a == "read"@ || a == "invite"@ || a == "suspend"@
            || a == "reinstate"@ || a == "remove"@ || a == "update"@))
        ||| (c.level() >= 3 && t == "instance"@ && (a == "manage"@ || a == "transfer"@))
    } by {
        let e0 = ("content"@, seq!["read"@]);
        let e1 = ("terminals"@, seq!["read"@]);
        let e2 = ("terminals"@, seq!["input"@]);
        let e3 = ("chat"@, seq!["send"@]);
        let e4 = ("tasks"@, seq!["read"@, "create"@, "edit"@]);
        let e5 = ("instances"@, seq!["create"@]);
        let e6 = ("members"@, seq!["read"@, "invite"@, "suspend"@, "reinstate"@, "remove"@, "update"@]);
        let e7 = ("instance"@, seq!["manage"@, "transfer"@]);
        lemma_actions1("read"@, a);
        lemma_actions1("input"@, a);
        lemma_actions1("send"@, a);
        lemma_actions3("read"@, "create"@, "edit"@, a);
        lemma_actions1("create"@, a);
        lemma_actions6("read"@, "invite"@, "suspend"@, "reinstate"@, "remove"@, "update"@, a);
        lemma_actions2("manage"@, "transfer"@, a);
        let v0 = Seq::<(Seq<char>, Seq<Seq<char>>)>::empty();
        let v1 = v0.push(e0);
        let v2 = v1.push(e1);
        let v3 = v2.push(e2);
        let v4 = v3.push(e3);
        let v5 = v4.push(e4);
        let v6 = v5.push(e5);
        let v7 = v6.push(e6);
        let v8 = v7.push(e7);
        assert(!has_pair(v0, t, a));
        lemma_has_pair_push(v0, e0, t, a);
        lemma_has_pair_push(v1, e1, t, a);
        lemma_has_pair_push(v2, e2, t, a);
        lemma_has_pair_push(v3, e3, t, a);
        lemma_has_pair_push(v4, e4, t, a);
        lemma_has_pair_push(v5, e5, t, a);
        lemma_has_pair_push(v6, e6, t, a);
        lemma_has_pair_push(v7, e7, t, a);
        let raw = raw_preset(c);
        assert(has_pair(r, t, a) == has_pair(raw, t, a));
        if c.level() == 0 {
            assert(raw =~= v2);
        } else if c.level() == 1 {
            assert(raw =~= v6);
        } else if c.level() == 2 {
            assert(raw =~= v7);
        } else {
            assert(raw =~= v8);
        }
    }
}

} // verus!
