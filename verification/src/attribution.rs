//! What the server remembers of input sent to an instance, to tie
//! conversation entries back to who typed them: the first inputs before a
//! session is discovered (when they began, and the lines typed, for
//! matching candidate sessions), and a queue of recent inputs per instance
//! awaiting their conversation entries.
//!
//! How input text is normalized, and when a normalized prefix matches an
//! entry's text, is up to the caller: it hands in both as functions.

use std::collections::VecDeque;
use vstd::prelude::*;
use crate::keyed::{
    find_key, keyed_map, keys_unique, lemma_keyed_entry, lemma_keyed_push, lemma_keyed_remove, lemma_keyed_set,
};
use crate::signal::answered;
use crate::text::{chars_of, push_char, push_str};
use crate::tty::{keep_last, views};

verus! {

/// Content prefixes kept per instance before its session is found.
pub const FIRST_INPUT_PREFIX_CAP: usize = 20;

/// `n` is what `normalize` gives for text `s`.
pub open spec fn normalized_to<F: Fn(&str) -> String>(normalize: F, s: Seq<char>, n: Seq<char>) -> bool {
    exists|a: &str, r: String| a@ == s && r@ == n && #[trigger] call_ensures(normalize, (a,), r)
}

/// Splitting `s` at every `\r` and `\n`, left to right: the pieces ended so
/// far, and the piece not yet ended.
pub open spec fn split_breaks(s: Seq<char>) -> (Seq<Seq<char>>, Seq<char>)
    decreases s.len(),
{
    if s.len() == 0 {
        (Seq::empty(), Seq::empty())
    } else {
        let (done, cur) = split_breaks(s.drop_last());
        if s.last() == '\r' || s.last() == '\n' {
            (done.push(cur), Seq::empty())
        } else {
            (done, cur.push(s.last()))
        }
    }
}

/// The pieces of `s` between line breaks (`\r` or `\n`), empty ones
/// included (`str::split(['\r', '\n'])`).
pub open spec fn break_parts(s: Seq<char>) -> Seq<Seq<char>> {
    split_breaks(s).0.push(split_breaks(s).1)
}

/// `s` holds a line break.
pub open spec fn has_break(s: Seq<char>) -> bool {
    s.contains('\r') || s.contains('\n')
}

/// A single keystroke that types no text: empty, a control character, or
/// delete (an escape sequence starts with one).
pub open spec fn is_control_input(s: Seq<char>) -> bool {
    s.len() == 0 || (s[0] as u32) < 0x20 || s[0] == '\x7f'
}

/// `ps` with the non-empty normalized prefixes `ns` added in order while
/// fewer than `cap` are kept.
pub open spec fn add_prefixes(ps: Seq<Seq<char>>, ns: Seq<Seq<char>>, cap: nat) -> Seq<Seq<char>>
    decreases ns.len(),
{
    if ns.len() == 0 {
        ps
    } else {
        let prev = add_prefixes(ps, ns.drop_last(), cap);
        if prev.len() >= cap || ns.last().len() == 0 {
            prev
        } else {
            prev.push(ns.last())
        }
    }
}

/// What first-input data is kept for an instance: when input first came,
/// the normalized prefixes of the lines sent, and the line being typed.
pub type FirstInputView = (i64, Seq<Seq<char>>, Seq<char>);

/// How input `content` changes an instance's first-input data, with
/// `normalize` for prefixes. Once the cap is reached nothing changes. Input
/// with a line break ends the line being typed: the typed text and the
/// input are split at line breaks and each piece's normalized, non-empty
/// prefix is kept, up to the cap. Other input is a keystroke: added to the
/// line being typed unless it is a control keystroke.
pub open spec fn first_input_after<F: Fn(&str) -> String>(
    normalize: F,
    before: FirstInputView,
    content: Seq<char>,
    after: FirstInputView,
) -> bool {
    let cap = FIRST_INPUT_PREFIX_CAP as nat;
    if before.1.len() >= cap {
        after == before
    } else if has_break(content) {
        let parts = break_parts(before.2 + content);
        &&& after.0 == before.0
        &&& after.2 == Seq::<char>::empty()
        &&& exists|ns: Seq<Seq<char>>|
            {
                &&& ns.len() <= parts.len()
                &&& forall|i: int| 0 <= i < ns.len() ==> normalized_to(normalize, parts[i], #[trigger] ns[i])
                &&& ns.len() < parts.len() ==> add_prefixes(before.1, ns, cap).len() >= cap
                &&& after.1 == add_prefixes(before.1, ns, cap)
            }
    } else if is_control_input(content) {
        after == before
    } else {
        after == (before.0, before.1, before.2 + content)
    }
}

/// Data kept for the first inputs to an instance before its session is
/// discovered.
#[derive(Debug, Clone)]
pub struct FirstInputData {
    /// When the first input came (milliseconds since the Unix epoch).
    pub timestamp_ms: i64,
    /// Normalized prefixes of the lines sent, for matching sessions.
    pub content_prefixes: Vec<String>,
    /// The line being typed keystroke by keystroke.
    pending_line: String,
}

impl View for FirstInputData {
    type V = FirstInputView;

    closed spec fn view(&self) -> FirstInputView {
        (self.timestamp_ms, views(self.content_prefixes@), self.pending_line@)
    }
}

/// A copy of a list of strings.
fn copy_strings(v: &Vec<String>) -> (res: Vec<String>)
    ensures
        views(res@) == views(v@),
{
    let mut out: Vec<String> = Vec::new();
    let mut i: usize = 0;
    while i < v.len()
        invariant
            0 <= i <= v@.len(),
            views(out@) == views(v@).take(i as int),
        decreases v.len() - i,
    {
        let ghost before = views(out@);
        out.push(v[i].clone());
        assert(views(out@) =~= before.push(v@[i as int]@));
        assert(views(v@).take(i + 1) =~= views(v@).take(i as int).push(v@[i as int]@));
        i = i + 1;
    }
    assert(views(v@).take(v@.len() as int) =~= views(v@));
    out
}

/// The pieces of `s` between line breaks.
fn split_at_breaks(s: &str) -> (res: Vec<String>)
    ensures
        views(res@) == break_parts(s@),
{
    let cs = chars_of(s);
    let mut done: Vec<String> = Vec::new();
    let mut cur = String::new();
    let mut k: usize = 0;
    while k < cs.len()
        invariant
            0 <= k <= cs@.len(),
            cs@ == s@,
            (views(done@), cur@) == split_breaks(s@.take(k as int)),
        decreases cs.len() - k,
    {
        let c = cs[k];
        proof {
            assert(s@.take(k + 1).drop_last() =~= s@.take(k as int));
            assert(s@.take(k + 1).last() == c);
        }
        let ghost before = views(done@);
        if c == '\r' || c == '\n' {
            let ghost ended = cur@;
            done.push(cur);
            cur = String::new();
            proof {
                assert(views(done@) =~= before.push(ended));
            }
        } else {
            push_char(&mut cur, c);
        }
        k = k + 1;
    }
    assert(s@.take(cs@.len() as int) =~= s@);
    let ghost before = views(done@);
    done.push(cur);
    assert(views(done@) =~= break_parts(s@));
    done
}

/// Whether `s` holds a line break.
fn contains_break(s: &str) -> (r: bool)
    ensures
        r == has_break(s@),
{
    let cs = chars_of(s);
    let mut i: usize = 0;
    while i < cs.len()
        invariant
            0 <= i <= cs@.len(),
            cs@ == s@,
            forall|j: int| 0 <= j < i ==> s@[j] != '\r' && s@[j] != '\n',
        decreases cs.len() - i,
    {
        if cs[i] == '\r' || cs[i] == '\n' {
            assert(s@[i as int] == cs@[i as int]);
            return true;
        }
        i = i + 1;
    }
    false
}

/// Whether `s` is a control keystroke.
fn control_input(s: &str) -> (r: bool)
    ensures
        r == is_control_input(s@),
{
    let cs = chars_of(s);
    if cs.len() == 0 {
        return true;
    }
    let c = cs[0];
    (c as u32) < 0x20 || c == '\x7f'
}

/// First-input data by instance.
pub struct FirstInputs {
    instances: Vec<String>,
    data: Vec<FirstInputData>,
}

/// The views of a keyed map of first-input data.
pub open spec fn first_views(m: Map<Seq<char>, FirstInputData>) -> Map<Seq<char>, FirstInputView> {
    m.map_values(|d: FirstInputData| d@)
}

impl FirstInputs {
    /// One entry per instance.
    pub closed spec fn wf(&self) -> bool {
        self.instances@.len() == self.data@.len() && keys_unique(self.instances@)
    }

    /// Instance id to its first-input data.
    pub closed spec fn entries(&self) -> Map<Seq<char>, FirstInputView> {
        first_views(keyed_map(self.instances@, self.data@))
    }

    /// Nothing recorded.
    pub fn new() -> (res: Self)
        ensures
            res.wf(),
            res.entries() == Map::<Seq<char>, FirstInputView>::empty(),
    {
        let res = FirstInputs { instances: Vec::new(), data: Vec::new() };
        assert(res.entries() =~= Map::<Seq<char>, FirstInputView>::empty());
        res
    }

    /// Records input `content` sent to `instance_id` at `now_ms`; says
    /// whether it was the first input to it. The first input starts the
    /// instance's data, timed `now_ms`.
    pub fn mark_first_input<F: Fn(&str) -> String>(
        &mut self,
        instance_id: &str,
        content: &str,
        now_ms: i64,
        normalize: &F,
    ) -> (res: bool)
        requires
            old(self).wf(),
            forall|s: &str| #[trigger] call_requires(*normalize, (s,)),
        ensures
            final(self).wf(),
            res == !old(self).entries().dom().contains(instance_id@),
            final(self).entries().dom().contains(instance_id@),
            final(self).entries() == old(self).entries().insert(instance_id@, final(self).entries()[instance_id@]),
            first_input_after(
                *normalize,
                if res {
                    (now_ms, Seq::<Seq<char>>::empty(), Seq::<char>::empty())
                } else {
                    old(self).entries()[instance_id@]
                },
                content@,
                final(self).entries()[instance_id@],
            ),
    {
        let found = find_key(&self.instances, instance_id);
        let is_first = found.is_none();
        let current: FirstInputData = match found {
            Some(i) => {
                proof {
                    lemma_keyed_entry(self.instances@, self.data@, i as int);
                }
                let d = &self.data[i];
                FirstInputData {
                    timestamp_ms: d.timestamp_ms,
                    content_prefixes: copy_strings(&d.content_prefixes),
                    pending_line: d.pending_line.clone(),
                }
            },
            None => FirstInputData { timestamp_ms: now_ms, content_prefixes: Vec::new(), pending_line: String::new() },
        };
        proof {
            assert(views(Seq::<String>::empty()) =~= Seq::<Seq<char>>::empty());
        }
        let updated = Self::apply_input(current, content, normalize);
        match found {
            Some(i) => {
                let ghost ids = self.instances@;
                let ghost ds = self.data@;
                self.data.set(i, updated);
                proof {
                    lemma_keyed_set(ids, ds, i as int, updated);
                    lemma_keyed_entry(ids, ds.update(i as int, updated), i as int);
                    assert(self.entries() =~= old(self).entries().insert(instance_id@, updated@));
                }
            },
            None => {
                let ghost ids = self.instances@;
                let ghost ds = self.data@;
                let key = instance_id.to_owned();
                self.instances.push(key);
                self.data.push(updated);
                proof {
                    lemma_keyed_push(ids, ds, key, updated);
                    assert(self.entries() =~= old(self).entries().insert(instance_id@, updated@));
                }
            },
        }
        is_first
    }

    /// The data after input `content`.
    fn apply_input<F: Fn(&str) -> String>(data: FirstInputData, content: &str, normalize: &F) -> (res:
        FirstInputData)
        requires
            forall|s: &str| #[trigger] call_requires(*normalize, (s,)),
        ensures
            first_input_after(*normalize, data@, content@, res@),
    {
        let cap = FIRST_INPUT_PREFIX_CAP;
        if data.content_prefixes.len() >= cap {
            return data;
        }
        if contains_break(content) {
            let mut combined = data.pending_line.clone();
            push_str(&mut combined, content);
            let parts = split_at_breaks(combined.as_str());
            let ghost parts_v = views(parts@);
            let ghost start = views(data.content_prefixes@);
            let mut prefixes = data.content_prefixes;
            let ghost mut ns: Seq<Seq<char>> = Seq::empty();
            let mut k: usize = 0;
            while k < parts.len()
                invariant_except_break
                    0 <= k <= parts@.len(),
                    parts_v == views(parts@),
                    ns.len() == k,
                    forall|i: int| 0 <= i < k ==> normalized_to(*normalize, parts_v[i], #[trigger] ns[i]),
                    views(prefixes@) == add_prefixes(start, ns, cap as nat),
                    forall|s: &str| #[trigger] call_requires(*normalize, (s,)),
                ensures
                    ns.len() <= parts_v.len(),
                    forall|i: int| 0 <= i < ns.len() ==> normalized_to(*normalize, parts_v[i], #[trigger] ns[i]),
                    ns.len() < parts_v.len() ==> add_prefixes(start, ns, cap as nat).len() >= cap,
                    views(prefixes@) == add_prefixes(start, ns, cap as nat),
                decreases parts.len() - k,
            {
                if prefixes.len() >= cap {
                    break;
                }
                let part = parts[k].as_str();
                let p = normalize(part);
                proof {
                    assert(call_ensures(*normalize, (part,), p));
                    assert(normalized_to(*normalize, parts_v[k as int], p@));
                    assert(ns.push(p@).drop_last() =~= ns);
                }
                let ghost before = views(prefixes@);
                if !p.as_str().is_empty() {
                    prefixes.push(p);
                    proof {
                        assert(views(prefixes@) =~= before.push(ns.push(p@).last()));
                    }
                }
                proof {
                    ns = ns.push(p@);
                }
                k = k + 1;
            }
            let res = FirstInputData { timestamp_ms: data.timestamp_ms, content_prefixes: prefixes, pending_line: String::new() };
            proof {
                assert(parts_v == break_parts(data.pending_line@ + content@));
                assert(res@.2 =~= Seq::<char>::empty());
            }
            return res;
        }
        if control_input(content) {
            return data;
        }
        let mut line = data.pending_line;
        push_str(&mut line, content);
        FirstInputData { timestamp_ms: data.timestamp_ms, content_prefixes: data.content_prefixes, pending_line: line }
    }

    /// Forgets what was recorded for `instance_id`.
    pub fn remove(&mut self, instance_id: &str)
        requires
            old(self).wf(),
        ensures
            final(self).wf(),
            final(self).entries() == old(self).entries().remove(instance_id@),
    {
        match find_key(&self.instances, instance_id) {
            Some(i) => {
                let ghost ids = self.instances@;
                let ghost ds = self.data@;
                self.instances.remove(i);
                self.data.remove(i);
                proof {
                    lemma_keyed_remove(ids, ds, i as int);
                    assert(self.entries() =~= old(self).entries().remove(instance_id@));
                }
            },
            None => {
                proof {
                    assert(self.entries() =~= old(self).entries().remove(instance_id@));
                }
            },
        }
    }

    /// When input first came to `instance_id`.
    pub fn get_first_input_at(&self, instance_id: &str) -> (res: Option<i64>)
        requires
            self.wf(),
        ensures
            match res {
                Some(t) => self.entries().dom().contains(instance_id@) && t == self.entries()[instance_id@].0,
                None => !self.entries().dom().contains(instance_id@),
            },
    {
        match find_key(&self.instances, instance_id) {
            Some(i) => {
                proof {
                    lemma_keyed_entry(self.instances@, self.data@, i as int);
                }
                Some(self.data[i].timestamp_ms)
            },
            None => None,
        }
    }

    /// The content prefixes kept for `instance_id`; none when nothing was
    /// recorded.
    pub fn get_discovery_content_prefixes(&self, instance_id: &str) -> (res: Vec<String>)
        requires
            self.wf(),
        ensures
            self.entries().dom().contains(instance_id@) ==> views(res@) == self.entries()[instance_id@].1,
            !self.entries().dom().contains(instance_id@) ==> res@.len() == 0,
    {
        match find_key(&self.instances, instance_id) {
            Some(i) => {
                proof {
                    lemma_keyed_entry(self.instances@, self.data@, i as int);
                }
                copy_strings(&self.data[i].content_prefixes)
            },
            None => Vec::new(),
        }
    }
}

/// Pending attributions kept per instance (the newest fifty).
pub const PENDING_ATTRIBUTION_CAP: usize = 50;

/// Age in milliseconds past which an unmatched pending attribution is
/// dropped (sixty seconds).
pub const ATTRIBUTION_MAX_AGE_MS: i64 = 60000;

/// Input a user sent through the WebSocket, waiting for the conversation
/// entry it became.
#[derive(Debug, Clone)]
pub struct PendingAttribution {
    pub user_id: String,
    pub display_name: String,
    /// The normalized start of the input.
    pub content_prefix: String,
    /// When it was sent (milliseconds since the Unix epoch).
    pub timestamp_ms: i64,
    /// The task it was sent for, if any.
    pub task_id: Option<i64>,
}

/// User, display name, content prefix, time and task of an attribution.
pub type AttributionView = (Seq<char>, Seq<char>, Seq<char>, i64, Option<i64>);

impl View for PendingAttribution {
    type V = AttributionView;

    open spec fn view(&self) -> AttributionView {
        (self.user_id@, self.display_name@, self.content_prefix@, self.timestamp_ms, self.task_id)
    }
}

/// The views of a queue of attributions.
pub open spec fn attr_views(q: Seq<PendingAttribution>) -> Seq<AttributionView> {
    q.map_values(|a: PendingAttribution| a@)
}

/// The attributions of `q` younger than the maximum age at `now_ms`, in
/// order.
pub open spec fn fresh_only(q: Seq<AttributionView>, now_ms: i64) -> Seq<AttributionView>
    decreases q.len(),
{
    if q.len() == 0 {
        q
    } else {
        let prev = fresh_only(q.drop_last(), now_ms);
        if q.last().3 > now_ms - ATTRIBUTION_MAX_AGE_MS {
            prev.push(q.last())
        } else {
            prev
        }
    }
}

/// The queue of `instance_id` in `m`; empty when it has none.
pub open spec fn queue_of(m: Map<Seq<char>, Seq<AttributionView>>, instance_id: Seq<char>) -> Seq<AttributionView> {
    if m.dom().contains(instance_id) {
        m[instance_id]
    } else {
        Seq::empty()
    }
}

/// What consuming an attribution for conversation text `entry` does, with
/// `matches` deciding whether a prefix matches the text: the first queued
/// attribution that matches is taken out and returned; when none does,
/// the queue keeps only those younger than the maximum age.
pub open spec fn consumed<G: Fn(&str, &str) -> bool>(
    matches: G,
    before: Map<Seq<char>, Seq<AttributionView>>,
    instance_id: Seq<char>,
    entry: &str,
    now_ms: i64,
    res: Option<AttributionView>,
    after: Map<Seq<char>, Seq<AttributionView>>,
) -> bool {
    if !before.dom().contains(instance_id) {
        res is None && after == before
    } else {
        let q = before[instance_id];
        match res {
            Some(a) => exists|i: int|
                {
                    &&& 0 <= i < q.len()
                    &&& q[i] == a
                    &&& answered(matches, q[i].2, entry, true)
                    &&& forall|j: int| 0 <= j < i ==> #[trigger] answered(matches, q[j].2, entry, false)
                    &&& after == before.insert(instance_id, q.remove(i))
                },
            None => {
                &&& forall|j: int| 0 <= j < q.len() ==> #[trigger] answered(matches, q[j].2, entry, false)
                &&& after == before.insert(instance_id, fresh_only(q, now_ms))
            },
        }
    }
}

/// The views of each queue.
pub open spec fn queue_views(qs: Seq<VecDeque<PendingAttribution>>) -> Seq<Seq<AttributionView>> {
    qs.map_values(|q: VecDeque<PendingAttribution>| attr_views(q@))
}

/// The position of the first attribution in `q` whose prefix `matches`
/// the text `entry`.
fn first_match<G: Fn(&str, &str) -> bool>(q: &VecDeque<PendingAttribution>, entry: &str, matches: &G) -> (res:
    Option<usize>)
    requires
        forall|p: &str, t: &str| #[trigger] call_requires(*matches, (p, t)),
    ensures
        match res {
            Some(i) => {
                &&& i < q@.len()
                &&& answered(*matches, q@[i as int].content_prefix@, entry, true)
                &&& forall|j: int| 0 <= j < i ==> #[trigger] answered(*matches, q@[j].content_prefix@, entry, false)
            },
            None => forall|j: int| 0 <= j < q@.len() ==> #[trigger] answered(*matches, q@[j].content_prefix@, entry, false),
        },
{
    let mut j: usize = 0;
    while j < q.len()
        invariant
            0 <= j <= q@.len(),
            forall|p: &str, t: &str| #[trigger] call_requires(*matches, (p, t)),
            forall|k: int| 0 <= k < j ==> #[trigger] answered(*matches, q@[k].content_prefix@, entry, false),
        decreases q@.len() - j,
    {
        let prefix = q[j].content_prefix.as_str();
        let m = matches(prefix, entry);
        proof {
            assert(call_ensures(*matches, (prefix, entry), m));
        }
        if m {
            assert(answered(*matches, q@[j as int].content_prefix@, entry, true));
            return Some(j);
        }
        assert(answered(*matches, q@[j as int].content_prefix@, entry, false));
        j = j + 1;
    }
    None
}

/// The attributions of `q` younger than the maximum age at `now_ms`.
fn keep_fresh(q: &VecDeque<PendingAttribution>, now_ms: i64) -> (res: VecDeque<PendingAttribution>)
    ensures
        attr_views(res@) == fresh_only(attr_views(q@), now_ms),
{
    let mut out: VecDeque<PendingAttribution> = VecDeque::new();
    let cutoff: i128 = now_ms as i128 - ATTRIBUTION_MAX_AGE_MS as i128;
    let mut j: usize = 0;
    while j < q.len()
        invariant
            0 <= j <= q@.len(),
            cutoff == now_ms - ATTRIBUTION_MAX_AGE_MS,
            attr_views(out@) == fresh_only(attr_views(q@).take(j as int), now_ms),
        decreases q@.len() - j,
    {
        let ghost before = attr_views(out@);
        proof {
            assert(attr_views(q@).take(j + 1).drop_last() =~= attr_views(q@).take(j as int));
            assert(attr_views(q@).take(j + 1).last() == q@[j as int]@);
        }
        if (q[j].timestamp_ms as i128) > cutoff {
            let a = &q[j];
            out.push_back(
                PendingAttribution {
                    user_id: a.user_id.clone(),
                    display_name: a.display_name.clone(),
                    content_prefix: a.content_prefix.clone(),
                    timestamp_ms: a.timestamp_ms,
                    task_id: a.task_id,
                },
            );
            assert(attr_views(out@) =~= before.push(q@[j as int]@));
        }
        j = j + 1;
    }
    assert(attr_views(q@).take(q@.len() as int) =~= attr_views(q@));
    out
}

/// Pending attributions by instance.
pub struct PendingAttributions {
    instances: Vec<String>,
    queues: Vec<VecDeque<PendingAttribution>>,
}

impl PendingAttributions {
    /// One queue per instance.
    pub closed spec fn wf(&self) -> bool {
        self.instances@.len() == self.queues@.len() && keys_unique(self.instances@)
    }

    /// Instance id to its queue, oldest first.
    pub closed spec fn queued(&self) -> Map<Seq<char>, Seq<AttributionView>> {
        keyed_map(self.instances@, queue_views(self.queues@))
    }

    /// Nothing pending.
    pub fn new() -> (res: Self)
        ensures
            res.wf(),
            res.queued() == Map::<Seq<char>, Seq<AttributionView>>::empty(),
    {
        let res = PendingAttributions { instances: Vec::new(), queues: Vec::new() };
        assert(res.queued() =~= Map::<Seq<char>, Seq<AttributionView>>::empty());
        res
    }

    /// Records that `user_id` sent `content` to `instance_id` at `now_ms`:
    /// queues its normalized prefix, unless that is empty, keeping the
    /// newest `PENDING_ATTRIBUTION_CAP` of the queue.
    pub fn push_pending_attribution<F: Fn(&str) -> String>(
        &mut self,
        instance_id: &str,
        user_id: String,
        display_name: String,
        content: &str,
        task_id: Option<i64>,
        now_ms: i64,
        normalize: &F,
    )
        requires
            old(self).wf(),
            forall|s: &str| #[trigger] call_requires(*normalize, (s,)),
        ensures
            final(self).wf(),
            exists|n: Seq<char>|
                {
                    &&& #[trigger] normalized_to(*normalize, content@, n)
                    &&& n.len() == 0 ==> final(self).queued() == old(self).queued()
                    &&& n.len() > 0 ==> final(self).queued() == old(self).queued().insert(
                        instance_id@,
                        keep_last(
                            queue_of(old(self).queued(), instance_id@).push(
                                (user_id@, display_name@, n, now_ms, task_id),
                            ),
                            PENDING_ATTRIBUTION_CAP as nat,
                        ),
                    )
                },
    {
        let prefix = normalize(content);
        proof {
            assert(call_ensures(*normalize, (content,), prefix));
            assert(normalized_to(*normalize, content@, prefix@));
        }
        if prefix.as_str().is_empty() {
            return;
        }
        let ghost n = prefix@;
        let a = PendingAttribution { user_id, display_name, content_prefix: prefix, timestamp_ms: now_ms, task_id };
        let ghost av = a@;
        let ghost ids = self.instances@;
        let ghost qs = queue_views(self.queues@);
        let mut q: VecDeque<PendingAttribution> = VecDeque::new();
        let found = find_key(&self.instances, instance_id);
        match found {
            Some(i) => {
                proof {
                    lemma_keyed_entry(ids, qs, i as int);
                }
                std::mem::swap(&mut q, &mut self.queues[i]);
            },
            None => {},
        }
        let ghost start = attr_views(q@);
        proof {
            assert(start == queue_of(old(self).queued(), instance_id@)) by {
                if found is None {
                    assert(attr_views(q@) =~= Seq::<AttributionView>::empty());
                    if old(self).queued().dom().contains(instance_id@) {
                        let t = choose|t: int| 0 <= t < ids.len() && (#[trigger] ids[t])@ == instance_id@;
                    }
                }
            }
        }
        q.push_back(a);
        let ghost full = start.push(av);
        proof {
            assert(attr_views(q@) =~= full);
        }
        let ghost mut dropped: int = 0;
        while q.len() > PENDING_ATTRIBUTION_CAP
            invariant
                attr_views(q@) == full.skip(dropped),
                0 <= dropped <= full.len(),
                q@.len() + dropped == full.len(),
                dropped > 0 ==> q@.len() >= PENDING_ATTRIBUTION_CAP,
            decreases q@.len(),
        {
            let ghost before = q@;
            let popped = q.pop_front();
            proof {
                assert(popped is Some);
                assert(q@ =~= before.subrange(1, before.len() as int));
                assert(attr_views(before) == full.skip(dropped));
                assert forall|k: int| 0 <= k < q@.len() implies attr_views(q@)[k] == full.skip(dropped + 1)[k] by {
                    assert(q@[k] == before[k + 1]);
                    assert(attr_views(before)[k + 1] == full.skip(dropped)[k + 1]);
                }
                assert(attr_views(q@) =~= full.skip(dropped + 1));
                dropped = dropped + 1;
            }
        }
        proof {
            assert(attr_views(q@) =~= keep_last(full, PENDING_ATTRIBUTION_CAP as nat));
        }
        match found {
            Some(i) => {
                let ghost qs_now = self.queues@;
                self.queues.set(i, q);
                proof {
                    assert(queue_views(self.queues@) =~= qs.update(i as int, attr_views(q@)));
                    lemma_keyed_set(ids, qs, i as int, attr_views(q@));
                }
            },
            None => {
                let key = instance_id.to_owned();
                self.instances.push(key);
                self.queues.push(q);
                proof {
                    assert(queue_views(self.queues@) =~= qs.push(attr_views(q@)));
                    lemma_keyed_push(ids, qs, key, attr_views(q@));
                }
            },
        }
    }

    /// Forgets the queue of `instance_id`.
    pub fn remove(&mut self, instance_id: &str)
        requires
            old(self).wf(),
        ensures
            final(self).wf(),
            final(self).queued() == old(self).queued().remove(instance_id@),
    {
        match find_key(&self.instances, instance_id) {
            Some(i) => {
                let ghost ids = self.instances@;
                let ghost qs = queue_views(self.queues@);
                self.instances.remove(i);
                self.queues.remove(i);
                proof {
                    assert(queue_views(self.queues@) =~= qs.remove(i as int));
                    lemma_keyed_remove(ids, qs, i as int);
                }
            },
            None => {
                proof {
                    assert(self.queued() =~= old(self).queued().remove(instance_id@));
                }
            },
        }
    }

    /// Takes the attribution for conversation text `entry_content` of
    /// `instance_id`, as of `now_ms`, with `normalize` and `matches` as
    /// given. Text that normalizes to nothing matches nothing and changes
    /// nothing.
    pub fn consume_pending_attribution<F: Fn(&str) -> String, G: Fn(&str, &str) -> bool>(
        &mut self,
        instance_id: &str,
        entry_content: &str,
        now_ms: i64,
        normalize: &F,
        matches: &G,
    ) -> (res: Option<PendingAttribution>)
        requires
            old(self).wf(),
            forall|s: &str| #[trigger] call_requires(*normalize, (s,)),
            forall|p: &str, t: &str| #[trigger] call_requires(*matches, (p, t)),
        ensures
            final(self).wf(),
            exists|n: Seq<char>|
                {
                    &&& #[trigger] normalized_to(*normalize, entry_content@, n)
                    &&& n.len() == 0 ==> res is None && final(self).queued() == old(self).queued()
                    &&& n.len() > 0 ==> consumed(
                        *matches,
                        old(self).queued(),
                        instance_id@,
                        entry_content,
                        now_ms,
                        match res {
                            Some(a) => Some(a@),
                            None => None,
                        },
                        final(self).queued(),
                    )
                },
    {
        let normalized = normalize(entry_content);
        proof {
            assert(call_ensures(*normalize, (entry_content,), normalized));
            assert(normalized_to(*normalize, entry_content@, normalized@));
        }
        if normalized.as_str().is_empty() {
            return None;
        }
        let ghost ids = self.instances@;
        let ghost qs = queue_views(self.queues@);
        match find_key(&self.instances, instance_id) {
            None => {
                proof {
                    if old(self).queued().dom().contains(instance_id@) {
                        let t = choose|t: int| 0 <= t < ids.len() && (#[trigger] ids[t])@ == instance_id@;
                    }
                }
                None
            },
            Some(i) => {
                proof {
                    lemma_keyed_entry(ids, qs, i as int);
                }
                let mut q: VecDeque<PendingAttribution> = VecDeque::new();
                std::mem::swap(&mut q, &mut self.queues[i]);
                let ghost qv = attr_views(q@);
                match first_match(&q, entry_content, matches) {
                    Some(j) => {
                        let taken = q.remove(j);
                        proof {
                            assert(attr_views(q@) =~= qv.remove(j as int));
                            lemma_keyed_set(ids, qs, i as int, attr_views(q@));
                            assert forall|k: int| 0 <= k < j implies #[trigger] answered(*matches, qv[k].2, entry_content, false) by {
                                assert(qv[k].2 == old(self).queues@[i as int]@[k].content_prefix@);
                            }
                        }
                        self.queues.set(i, q);
                        proof {
                            assert(queue_views(self.queues@) =~= qs.update(i as int, qv.remove(j as int)));
                            let tv = qv[j as int];
                            assert(taken == Some(old(self).queues@[i as int]@[j as int]));
                            assert(answered(*matches, qv[j as int].2, entry_content, true));
                            assert(self.queued() == old(self).queued().insert(instance_id@, qv.remove(j as int)));
                            assert(consumed(*matches, old(self).queued(), instance_id@, entry_content, now_ms, Some(tv), self.queued()));
                        }
                        taken
                    },
                    None => {
                        let kept = keep_fresh(&q, now_ms);
                        proof {
                            lemma_keyed_set(ids, qs, i as int, attr_views(kept@));
                            assert forall|k: int| 0 <= k < qv.len() implies #[trigger] answered(*matches, qv[k].2, entry_content, false) by {
                                assert(qv[k].2 == q@[k].content_prefix@);
                            }
                        }
                        self.queues.set(i, kept);
                        proof {
                            assert(queue_views(self.queues@) =~= qs.update(i as int, fresh_only(qv, now_ms)));
                            assert(consumed(*matches, old(self).queued(), instance_id@, entry_content, now_ms, None, self.queued()));
                        }
                        None
                    },
                }
            },
        }
    }
}

} // verus!
