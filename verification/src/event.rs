//! Hash-chained event log and signed checkpoints.
//!
//! Each event commits to the hash of the event before it (the first one to
//! the hash of the instance key), so dropping, reordering or editing an
//! event breaks the chain. The payload is carried as its canonical JSON
//! text (object keys sorted), which is what the hash covers.

use vstd::prelude::*;
use vstd::utf8::encode_utf8;
use crate::digest::{sha256, spec_sha256};
use crate::error::AuthError;
use crate::keys::{lemma_public_key_view_injective, spec_ed25519_sign, spec_ed25519_verify, verify, PublicKey, Signature, SigningKey};
use crate::text::{decimal, push_decimal, push_str, str_eq};
use crate::wire::{lemma_encode_utf8_differs, lemma_middle_differs, lemma_u64_roundtrip, push_bytes, push_u64_be, u64_be};

verus! {

/// The kinds of event in an instance's log.
#[derive(Debug, Clone, Copy, PartialEq, Eq, Structural, Hash)]
pub enum EventType {
    MemberJoined,
    MemberSuspended,
    MemberReinstated,
    MemberRemoved,
    MemberReplaced,
    GrantCapabilityChanged,
    GrantAccessChanged,
    InviteCreated,
    InviteRedeemed,
    InviteRevoked,
    InviteNounCreated,
    InviteNounResolved,
    IdentityUpdated,
}

/// The dotted name of an event type.
pub open spec fn event_type_name(t: EventType) -> Seq<char> {
    match t {
        EventType::MemberJoined => "member.joined"@,
        EventType::MemberSuspended => "member.suspended"@,
        EventType::MemberReinstated => "member.reinstated"@,
        EventType::MemberRemoved => "member.removed"@,
        EventType::MemberReplaced => "member.replaced"@,
        EventType::GrantCapabilityChanged => "grant.capability_changed"@,
        EventType::GrantAccessChanged => "grant.access_changed"@,
        EventType::InviteCreated => "invite.created"@,
        EventType::InviteRedeemed => "invite.redeemed"@,
        EventType::InviteRevoked => "invite.revoked"@,
        EventType::InviteNounCreated => "invite.noun_created"@,
        EventType::InviteNounResolved => "invite.noun_resolved"@,
        EventType::IdentityUpdated => "identity.updated"@,
    }
}

impl EventType {
    /// The dotted name (the type's display text).
    pub fn as_str(&self) -> (res: &str)
        ensures
            res@ == event_type_name(*self),
    {
        match self {
            EventType::MemberJoined => "member.joined",
            EventType::MemberSuspended => "member.suspended",
            EventType::MemberReinstated => "member.reinstated",
            EventType::MemberRemoved => "member.removed",
            EventType::MemberReplaced => "member.replaced",
            EventType::GrantCapabilityChanged => "grant.capability_changed",
            EventType::GrantAccessChanged => "grant.access_changed",
            EventType::InviteCreated => "invite.created",
            EventType::InviteRedeemed => "invite.redeemed",
            EventType::InviteRevoked => "invite.revoked",
            EventType::InviteNounCreated => "invite.noun_created",
            EventType::InviteNounResolved => "invite.noun_resolved",
            EventType::IdentityUpdated => "identity.updated",
        }
    }

    /// Parses a dotted event-type name.
    pub fn parse(s: &str) -> (res: Result<EventType, String>)
        ensures
            res matches Ok(t) ==> event_type_name(t) == s@,
            res matches Err(m) ==> (forall|t: EventType| event_type_name(t) != s@) && m@
                == "unknown event type: "@ + s@,
    {
        if str_eq(s, "member.joined") {
            Ok(EventType::MemberJoined)
        } else if str_eq(s, "member.suspended") {
            Ok(EventType::MemberSuspended)
        } else if str_eq(s, "member.reinstated") {
            Ok(EventType::MemberReinstated)
        } else if str_eq(s, "member.removed") {
            Ok(EventType::MemberRemoved)
        } else if str_eq(s, "member.replaced") {
            Ok(EventType::MemberReplaced)
        } else if str_eq(s, "grant.capability_changed") {
            Ok(EventType::GrantCapabilityChanged)
        } else if str_eq(s, "grant.access_changed") {
            Ok(EventType::GrantAccessChanged)
        } else if str_eq(s, "invite.created") {
            Ok(EventType::InviteCreated)
        } else if str_eq(s, "invite.redeemed") {
            Ok(EventType::InviteRedeemed)
        } else if str_eq(s, "invite.revoked") {
            Ok(EventType::InviteRevoked)
        } else if str_eq(s, "invite.noun_created") {
            Ok(EventType::InviteNounCreated)
        } else if str_eq(s, "invite.noun_resolved") {
            Ok(EventType::InviteNounResolved)
        } else if str_eq(s, "identity.updated") {
            Ok(EventType::IdentityUpdated)
        } else {
            let mut m = String::new();
            push_str(&mut m, "unknown event type: ");
            push_str(&mut m, s);
            proof {
                assert forall|t: EventType| event_type_name(t) != s@ by {
                    match t {
                        EventType::MemberJoined => {},
                        EventType::MemberSuspended => {},
                        EventType::MemberReinstated => {},
                        EventType::MemberRemoved => {},
                        EventType::MemberReplaced => {},
                        EventType::GrantCapabilityChanged => {},
                        EventType::GrantAccessChanged => {},
                        EventType::InviteCreated => {},
                        EventType::InviteRedeemed => {},
                        EventType::InviteRevoked => {},
                        EventType::InviteNounCreated => {},
                        EventType::InviteNounResolved => {},
                        EventType::IdentityUpdated => {},
                    }
                }
            }
            Err(m)
        }
    }
}

/// No two event types share a name, so parsing a type's name gives the
/// type back.
pub proof fn law_event_type_names_distinct(a: EventType, b: EventType)
    ensures
        event_type_name(a) == event_type_name(b) ==> a == b,
{
    reveal_strlit("member.joined");
    reveal_strlit("member.suspended");
    reveal_strlit("member.reinstated");
    reveal_strlit("member.removed");
    reveal_strlit("member.replaced");
    reveal_strlit("grant.capability_changed");
    reveal_strlit("grant.access_changed");
    reveal_strlit("invite.created");
    reveal_strlit("invite.redeemed");
    reveal_strlit("invite.revoked");
    reveal_strlit("invite.noun_created");
    reveal_strlit("invite.noun_resolved");
    reveal_strlit("identity.updated");
    if event_type_name(a) == event_type_name(b) {
        let na = event_type_name(a);
        let nb = event_type_name(b);
        assert(na.len() == nb.len());
        assert(na[0] == nb[0]);
        assert(na[7] == nb[7]);
        assert(na[8] == nb[8]);
        assert(na[9] == nb[9]);
        assert(na[na.len() - 1] == nb[nb.len() - 1]);
    }
}

/// One event of the log. `payload` holds the canonical JSON text of the
/// event's payload.
#[derive(Debug, Clone, PartialEq, Eq)]
pub struct Event {
    pub id: u64,
    pub prev_hash: [u8; 32],
    pub event_type: EventType,
    pub actor: Option<PublicKey>,
    pub target: Option<PublicKey>,
    pub payload: Vec<u8>,
    pub created_at: String,
    pub hash: [u8; 32],
}

/// A flag byte, then the key if there is one.
pub open spec fn key_section(k: Option<PublicKey>) -> Seq<u8> {
    match k {
        Some(pk) => seq![1u8] + pk@,
        None => seq![0u8],
    }
}

/// The bytes an event's hash covers.
pub open spec fn event_hash_input(
    id: u64,
    prev_hash: Seq<u8>,
    t: EventType,
    actor: Option<PublicKey>,
    target: Option<PublicKey>,
    payload: Seq<u8>,
    created_at: Seq<char>,
) -> Seq<u8> {
    u64_be(id) + prev_hash + encode_utf8(event_type_name(t)) + key_section(actor) + key_section(target) + payload
        + encode_utf8(created_at)
}

/// Different optional keys have different sections.
proof fn lemma_key_section_differs(a: Option<PublicKey>, b: Option<PublicKey>)
    requires
        a != b,
    ensures
        key_section(a) != key_section(b),
{
    match (a, b) {
        (Some(k1), Some(k2)) => {
            lemma_public_key_view_injective(k1, k2);
            assert(key_section(a).drop_first() =~= k1@);
            assert(key_section(b).drop_first() =~= k2@);
        },
        (Some(k1), None) => {
            assert(key_section(a)[0] == 1u8);
            assert(key_section(b)[0] == 0u8);
        },
        (None, Some(k2)) => {
            assert(key_section(a)[0] == 0u8);
            assert(key_section(b)[0] == 1u8);
        },
        (None, None) => {},
    }
}

/// An event's hash covers every one of its fields: the id (as 8 big-endian
/// bytes), the previous hash, the type, the actor and the target (each a
/// flag byte and the key), the payload and the timestamp. Changing any one
/// field, the others kept, changes the bytes that are hashed.
pub proof fn law_hash_covers_every_field(
    id: u64,
    prev_hash: Seq<u8>,
    t: EventType,
    actor: Option<PublicKey>,
    target: Option<PublicKey>,
    payload: Seq<u8>,
    created_at: Seq<char>,
    id2: u64,
    prev_hash2: Seq<u8>,
    t2: EventType,
    actor2: Option<PublicKey>,
    target2: Option<PublicKey>,
    payload2: Seq<u8>,
    created_at2: Seq<char>,
)
    ensures
        id != id2 ==> event_hash_input(id, prev_hash, t, actor, target, payload, created_at) != event_hash_input(
            id2,
            prev_hash,
            t,
            actor,
            target,
            payload,
            created_at,
        ),
        prev_hash != prev_hash2 ==> event_hash_input(id, prev_hash, t, actor, target, payload, created_at)
            != event_hash_input(id, prev_hash2, t, actor, target, payload, created_at),
        t != t2 ==> event_hash_input(id, prev_hash, t, actor, target, payload, created_at) != event_hash_input(
            id,
            prev_hash,
            t2,
            actor,
            target,
            payload,
            created_at,
        ),
        actor != actor2 ==> event_hash_input(id, prev_hash, t, actor, target, payload, created_at)
            != event_hash_input(id, prev_hash, t, actor2, target, payload, created_at),
        target != target2 ==> event_hash_input(id, prev_hash, t, actor, target, payload, created_at)
            != event_hash_input(id, prev_hash, t, actor, target2, payload, created_at),
        payload != payload2 ==> event_hash_input(id, prev_hash, t, actor, target, payload, created_at)
            != event_hash_input(id, prev_hash, t, actor, target, payload2, created_at),
        created_at != created_at2 ==> event_hash_input(id, prev_hash, t, actor, target, payload, created_at)
            != event_hash_input(id, prev_hash, t, actor, target, payload, created_at2),
{
    if id != id2 {
        lemma_hash_covers_id(id, prev_hash, t, actor, target, payload, created_at, id2);
    }
    if prev_hash != prev_hash2 {
        lemma_hash_covers_prev(id, prev_hash, t, actor, target, payload, created_at, prev_hash2);
    }
    if t != t2 {
        lemma_hash_covers_type(id, prev_hash, t, actor, target, payload, created_at, t2);
    }
    if actor != actor2 {
        lemma_hash_covers_actor(id, prev_hash, t, actor, target, payload, created_at, actor2);
    }
    if target != target2 {
        lemma_hash_covers_target(id, prev_hash, t, actor, target, payload, created_at, target2);
    }
    if payload != payload2 {
        lemma_hash_covers_payload(id, prev_hash, t, actor, target, payload, created_at, payload2);
    }
    if created_at != created_at2 {
        lemma_hash_covers_time(id, prev_hash, t, actor, target, payload, created_at, created_at2);
    }
}

proof fn lemma_hash_covers_id(id: u64, prev_hash: Seq<u8>, t: EventType, actor: Option<PublicKey>, target: Option<PublicKey>, payload: Seq<u8>, created_at: Seq<char>, id2: u64)
    requires
        id != id2,
    ensures
        event_hash_input(id, prev_hash, t, actor, target, payload, created_at) != event_hash_input(id2, prev_hash, t, actor, target, payload, created_at),
{
    let a = u64_be(id);
    let b = prev_hash;
    let c = encode_utf8(event_type_name(t));
    let d = key_section(actor);
    let e = key_section(target);
    let f = payload;
    let g = encode_utf8(created_at);
    let h = event_hash_input(id, prev_hash, t, actor, target, payload, created_at);
        lemma_u64_roundtrip(id);
        lemma_u64_roundtrip(id2);
        let z = b + c + d + e + f + g;
        assert(h =~= Seq::<u8>::empty() + a + z);
        assert(event_hash_input(id2, prev_hash, t, actor, target, payload, created_at) =~= Seq::<u8>::empty()
            + u64_be(id2) + z);
        lemma_middle_differs(Seq::<u8>::empty(), a, u64_be(id2), z);
}

proof fn lemma_hash_covers_prev(id: u64, prev_hash: Seq<u8>, t: EventType, actor: Option<PublicKey>, target: Option<PublicKey>, payload: Seq<u8>, created_at: Seq<char>, prev_hash2: Seq<u8>)
    requires
        prev_hash != prev_hash2,
    ensures
        event_hash_input(id, prev_hash, t, actor, target, payload, created_at) != event_hash_input(id, prev_hash2, t, actor, target, payload, created_at),
{
    let a = u64_be(id);
    let b = prev_hash;
    let c = encode_utf8(event_type_name(t));
    let d = key_section(actor);
    let e = key_section(target);
    let f = payload;
    let g = encode_utf8(created_at);
    let h = event_hash_input(id, prev_hash, t, actor, target, payload, created_at);
        let z = c + d + e + f + g;
        assert(h =~= a + b + z);
        assert(event_hash_input(id, prev_hash2, t, actor, target, payload, created_at) =~= a + prev_hash2 + z);
        lemma_middle_differs(a, b, prev_hash2, z);
}

proof fn lemma_hash_covers_type(id: u64, prev_hash: Seq<u8>, t: EventType, actor: Option<PublicKey>, target: Option<PublicKey>, payload: Seq<u8>, created_at: Seq<char>, t2: EventType)
    requires
        t != t2,
    ensures
        event_hash_input(id, prev_hash, t, actor, target, payload, created_at) != event_hash_input(id, prev_hash, t2, actor, target, payload, created_at),
{
    let a = u64_be(id);
    let b = prev_hash;
    let c = encode_utf8(event_type_name(t));
    let d = key_section(actor);
    let e = key_section(target);
    let f = payload;
    let g = encode_utf8(created_at);
    let h = event_hash_input(id, prev_hash, t, actor, target, payload, created_at);
        law_event_type_names_distinct(t, t2);
        lemma_encode_utf8_differs(event_type_name(t), event_type_name(t2));
        let z = d + e + f + g;
        let c2 = encode_utf8(event_type_name(t2));
        assert(h =~= (a + b) + c + z);
        assert(event_hash_input(id, prev_hash, t2, actor, target, payload, created_at) =~= (a + b) + c2 + z);
        lemma_middle_differs(a + b, c, c2, z);
}

proof fn lemma_hash_covers_actor(id: u64, prev_hash: Seq<u8>, t: EventType, actor: Option<PublicKey>, target: Option<PublicKey>, payload: Seq<u8>, created_at: Seq<char>, actor2: Option<PublicKey>)
    requires
        actor != actor2,
    ensures
        event_hash_input(id, prev_hash, t, actor, target, payload, created_at) != event_hash_input(id, prev_hash, t, actor2, target, payload, created_at),
{
    let a = u64_be(id);
    let b = prev_hash;
    let c = encode_utf8(event_type_name(t));
    let d = key_section(actor);
    let e = key_section(target);
    let f = payload;
    let g = encode_utf8(created_at);
    let h = event_hash_input(id, prev_hash, t, actor, target, payload, created_at);
        lemma_key_section_differs(actor, actor2);
        let z = e + f + g;
        let d2 = key_section(actor2);
        assert(h =~= (a + b + c) + d + z);
        assert(event_hash_input(id, prev_hash, t, actor2, target, payload, created_at) =~= (a + b + c) + d2 + z);
        lemma_middle_differs(a + b + c, d, d2, z);
}

proof fn lemma_hash_covers_target(id: u64, prev_hash: Seq<u8>, t: EventType, actor: Option<PublicKey>, target: Option<PublicKey>, payload: Seq<u8>, created_at: Seq<char>, target2: Option<PublicKey>)
    requires
        target != target2,
    ensures
        event_hash_input(id, prev_hash, t, actor, target, payload, created_at) != event_hash_input(id, prev_hash, t, actor, target2, payload, created_at),
{
    let a = u64_be(id);
    let b = prev_hash;
    let c = encode_utf8(event_type_name(t));
    let d = key_section(actor);
    let e = key_section(target);
    let f = payload;
    let g = encode_utf8(created_at);
    let h = event_hash_input(id, prev_hash, t, actor, target, payload, created_at);
        lemma_key_section_differs(target, target2);
        let z = f + g;
        let e2 = key_section(target2);
        assert(h =~= (a + b + c + d) + e + z);
        assert(event_hash_input(id, prev_hash, t, actor, target2, payload, created_at) =~= (a + b + c + d) + e2 + z);
        lemma_middle_differs(a + b + c + d, e, e2, z);
}

proof fn lemma_hash_covers_payload(id: u64, prev_hash: Seq<u8>, t: EventType, actor: Option<PublicKey>, target: Option<PublicKey>, payload: Seq<u8>, created_at: Seq<char>, payload2: Seq<u8>)
    requires
        payload != payload2,
    ensures
        event_hash_input(id, prev_hash, t, actor, target, payload, created_at) != event_hash_input(id, prev_hash, t, actor, target, payload2, created_at),
{
    let a = u64_be(id);
    let b = prev_hash;
    let c = encode_utf8(event_type_name(t));
    let d = key_section(actor);
    let e = key_section(target);
    let f = payload;
    let g = encode_utf8(created_at);
    let h = event_hash_input(id, prev_hash, t, actor, target, payload, created_at);
        assert(h =~= (a + b + c + d + e) + f + g);
        assert(event_hash_input(id, prev_hash, t, actor, target, payload2, created_at) =~= (a + b + c + d + e)
            + payload2 + g);
        lemma_middle_differs(a + b + c + d + e, f, payload2, g);
}

proof fn lemma_hash_covers_time(id: u64, prev_hash: Seq<u8>, t: EventType, actor: Option<PublicKey>, target: Option<PublicKey>, payload: Seq<u8>, created_at: Seq<char>, created_at2: Seq<char>)
    requires
        created_at != created_at2,
    ensures
        event_hash_input(id, prev_hash, t, actor, target, payload, created_at) != event_hash_input(id, prev_hash, t, actor, target, payload, created_at2),
{
    let a = u64_be(id);
    let b = prev_hash;
    let c = encode_utf8(event_type_name(t));
    let d = key_section(actor);
    let e = key_section(target);
    let f = payload;
    let g = encode_utf8(created_at);
    let h = event_hash_input(id, prev_hash, t, actor, target, payload, created_at);
        lemma_encode_utf8_differs(created_at, created_at2);
        let g2 = encode_utf8(created_at2);
        let z = Seq::<u8>::empty();
        assert(h =~= (a + b + c + d + e + f) + g + z);
        assert(event_hash_input(id, prev_hash, t, actor, target, payload, created_at2) =~= (a + b + c + d + e + f)
            + g2 + z);
        lemma_middle_differs(a + b + c + d + e + f, g, g2, z);
}

/// The hash an event's fields call for.
pub open spec fn event_hash_of(e: Event) -> Seq<u8> {
    spec_sha256(event_hash_input(e.id, e.prev_hash@, e.event_type, e.actor, e.target, e.payload@, e.created_at@))
}

fn push_key_section(buf: &mut Vec<u8>, k: &Option<PublicKey>)
    ensures
        final(buf)@ == old(buf)@ + key_section(*k),
{
    match k {
        Some(pk) => {
            buf.push(1u8);
            push_bytes(buf, pk.as_bytes().as_slice());
        },
        None => {
            buf.push(0u8);
        },
    }
    assert(buf@ =~= old(buf)@ + key_section(*k));
}

/// SHA-256 over the id, previous hash, type name, actor and target
/// sections, payload and timestamp.
fn compute_hash(
    id: u64,
    prev_hash: &[u8; 32],
    event_type: &EventType,
    actor: &Option<PublicKey>,
    target: &Option<PublicKey>,
    payload: &[u8],
    created_at: &str,
) -> (res: [u8; 32])
    ensures
        res@ == spec_sha256(event_hash_input(id, prev_hash@, *event_type, *actor, *target, payload@, created_at@)),
{
    let mut buf: Vec<u8> = Vec::new();
    push_u64_be(&mut buf, id);
    push_bytes(&mut buf, prev_hash.as_slice());
    push_bytes(&mut buf, event_type.as_str().as_bytes());
    push_key_section(&mut buf, actor);
    push_key_section(&mut buf, target);
    push_bytes(&mut buf, payload);
    push_bytes(&mut buf, created_at.as_bytes());
    assert(buf@ =~= event_hash_input(id, prev_hash@, *event_type, *actor, *target, payload@, created_at@));
    sha256(buf.as_slice())
}

/// Whether two 32-byte hashes are equal.
fn same_hash(a: &[u8; 32], b: &[u8; 32]) -> (r: bool)
    ensures
        r == (a@ == b@),
{
    let mut i: usize = 0;
    while i < 32
        invariant
            0 <= i <= 32,
            forall|k: int| 0 <= k < i ==> a@[k] == b@[k],
        decreases 32 - i,
    {
        if a[i] != b[i] {
            return false;
        }
        i = i + 1;
    }
    assert(a@ =~= b@);
    true
}

impl Event {
    /// A new event, with its hash computed.
    pub fn new(
        id: u64,
        prev_hash: [u8; 32],
        event_type: EventType,
        actor: Option<PublicKey>,
        target: Option<PublicKey>,
        payload: Vec<u8>,
        created_at: String,
    ) -> (res: Self)
        ensures
            res.id == id,
            res.prev_hash == prev_hash,
            res.event_type == event_type,
            res.actor == actor,
            res.target == target,
            res.payload@ == payload@,
            res.created_at@ == created_at@,
            res.hash@ == event_hash_of(res),
    {
        let hash = compute_hash(
            id,
            &prev_hash,
            &event_type,
            &actor,
            &target,
            payload.as_slice(),
            created_at.as_str(),
        );
        Event { id, prev_hash, event_type, actor, target, payload, created_at, hash }
    }

    /// The previous hash of the first event of an instance's log: the
    /// SHA-256 of the instance key.
    pub fn genesis_prev_hash(instance_node_id: &PublicKey) -> (res: [u8; 32])
        ensures
            res@ == spec_sha256(instance_node_id@),
    {
        sha256(instance_node_id.as_bytes().as_slice())
    }

    /// Recomputes the hash and compares it with the stored one.
    pub fn verify_hash(&self) -> (res: bool)
        ensures
            res == (self.hash@ == event_hash_of(*self)),
    {
        let expected = compute_hash(
            self.id,
            &self.prev_hash,
            &self.event_type,
            &self.actor,
            &self.target,
            self.payload.as_slice(),
            self.created_at.as_str(),
        );
        same_hash(&self.hash, &expected)
    }
}

/// Why a sequence of events is not a valid chain.
#[derive(Debug, Clone, Copy, PartialEq, Eq, Structural)]
pub enum ChainError {
    HashMismatch { id: u64 },
    BrokenLink { id: u64 },
}

impl ChainError {
    /// The error's display text.
    pub fn message(&self) -> (res: String)
        ensures
            res@ == match *self {
                ChainError::HashMismatch { id } => "event "@ + decimal(id as nat)
                    + ": hash mismatch (computed != stored)"@,
                ChainError::BrokenLink { id } => "event "@ + decimal(id as nat)
                    + ": prev_hash does not match previous event's hash"@,
            },
    {
        let mut m = String::new();
        match self {
            ChainError::HashMismatch { id } => {
                push_str(&mut m, "event ");
                push_decimal(&mut m, *id);
                push_str(&mut m, ": hash mismatch (computed != stored)");
            },
            ChainError::BrokenLink { id } => {
                push_str(&mut m, "event ");
                push_decimal(&mut m, *id);
                push_str(&mut m, ": prev_hash does not match previous event's hash");
            },
        }
        m
    }
}

/// The hash that event `i` must name as its previous one.
pub open spec fn expected_prev(events: Seq<Event>, genesis: Seq<u8>, i: int) -> Seq<u8> {
    if i == 0 {
        genesis
    } else {
        events[i - 1].hash@
    }
}

/// Event `i` names the right previous hash and stores its own hash.
pub open spec fn event_linked(events: Seq<Event>, genesis: Seq<u8>, i: int) -> bool {
    &&& events[i].prev_hash@ == expected_prev(events, genesis, i)
    &&& events[i].hash@ == event_hash_of(events[i])
}

/// Events `0..k` are linked.
pub open spec fn chain_prefix_ok(events: Seq<Event>, genesis: Seq<u8>, k: int) -> bool {
    forall|j: int| 0 <= j < k ==> #[trigger] event_linked(events, genesis, j)
}

/// The events form a hash chain anchored at `genesis`.
pub open spec fn chain_ok(events: Seq<Event>, genesis: Seq<u8>) -> bool {
    chain_prefix_ok(events, genesis, events.len() as int)
}

/// Checks that `events` form a hash chain anchored at `genesis_prev_hash`,
/// and reports the first event that breaks it.
pub fn verify_chain(events: &[Event], genesis_prev_hash: &[u8; 32]) -> (res: Result<(), ChainError>)
    ensures
        res is Ok <==> chain_ok(events@, genesis_prev_hash@),
        res matches Err(e) ==> exists|i: int|
            0 <= i < events@.len() && chain_prefix_ok(events@, genesis_prev_hash@, i) && match e {
                ChainError::BrokenLink { id } => id == events@[i].id && #[trigger] events@[i].prev_hash@
                    != expected_prev(events@, genesis_prev_hash@, i),
                ChainError::HashMismatch { id } => id == events@[i].id && events@[i].prev_hash@
                    == expected_prev(events@, genesis_prev_hash@, i) && events@[i].hash@ != event_hash_of(
                    events@[i],
                ),
            },
{
    let mut expected: [u8; 32] = *genesis_prev_hash;
    let mut i: usize = 0;
    while i < events.len()
        invariant
            0 <= i <= events.len(),
            expected@ == expected_prev(events@, genesis_prev_hash@, i as int),
            chain_prefix_ok(events@, genesis_prev_hash@, i as int),
        decreases events.len() - i,
    {
        let event = &events[i];
        if !same_hash(&event.prev_hash, &expected) {
            assert(!event_linked(events@, genesis_prev_hash@, i as int));
            return Err(ChainError::BrokenLink { id: event.id });
        }
        if !event.verify_hash() {
            assert(!event_linked(events@, genesis_prev_hash@, i as int));
            return Err(ChainError::HashMismatch { id: event.id });
        }
        expected = event.hash;
        i = i + 1;
    }
    Ok(())
}

/// What a valid chain is: the first event names the genesis hash, every
/// later event names the stored hash of the event before it, and every
/// event stores the SHA-256 of its own fields (id, previous hash, type,
/// actor, target, payload, timestamp).
pub proof fn law_chain_ok_means(events: Seq<Event>, genesis: Seq<u8>)
    ensures
        chain_ok(events, genesis) <==> {
            &&& events.len() > 0 ==> events[0].prev_hash@ == genesis
            &&& forall|i: int| 1 <= i < events.len() ==> #[trigger] events[i].prev_hash@ == events[i - 1].hash@
            &&& forall|i: int| 0 <= i < events.len() ==> #[trigger] events[i].hash@ == spec_sha256(
                event_hash_input(
                    events[i].id,
                    events[i].prev_hash@,
                    events[i].event_type,
                    events[i].actor,
                    events[i].target,
                    events[i].payload@,
                    events[i].created_at@,
                ),
            )
        },
{
    if chain_ok(events, genesis) {
        if events.len() > 0 {
            assert(event_linked(events, genesis, 0));
        }
        assert forall|i: int| 1 <= i < events.len() implies #[trigger] events[i].prev_hash@ == events[i - 1].hash@ by {
            assert(event_linked(events, genesis, i));
        }
        assert forall|i: int| 0 <= i < events.len() implies #[trigger] events[i].hash@ == spec_sha256(
            event_hash_input(
                events[i].id,
                events[i].prev_hash@,
                events[i].event_type,
                events[i].actor,
                events[i].target,
                events[i].payload@,
                events[i].created_at@,
            ),
        ) by {
            assert(event_linked(events, genesis, i));
        }
    }
}

/// Appending an event that names the chain's last hash (or the genesis
/// hash, for an empty chain) and stores its own hash keeps a chain valid;
/// `Event::new` makes such events.
pub proof fn law_chain_extends(events: Seq<Event>, genesis: Seq<u8>, e: Event)
    requires
        chain_ok(events, genesis),
        e.prev_hash@ == (if events.len() == 0 {
            genesis
        } else {
            events.last().hash@
        }),
        e.hash@ == event_hash_of(e),
    ensures
        chain_ok(events.push(e), genesis),
{
    let ext = events.push(e);
    assert forall|j: int| 0 <= j < ext.len() implies #[trigger] event_linked(ext, genesis, j) by {
        if j < events.len() {
            assert(event_linked(events, genesis, j));
            if j > 0 {
                assert(ext[j - 1] == events[j - 1]);
            }
        }
    }
}

/// A signed statement that the chain head at `event_id` has hash
/// `chain_head_hash`.
#[derive(Debug, Clone, PartialEq, Eq)]
pub struct EventCheckpoint {
    pub event_id: u64,
    pub chain_head_hash: [u8; 32],
    pub signature: Signature,
    pub created_at: String,
}

/// The message a checkpoint signs.
pub open spec fn checkpoint_message(event_id: u64, chain_head_hash: Seq<u8>, created_at: Seq<char>) -> Seq<u8> {
    encode_utf8("crab_city_checkpoint_v1:"@) + u64_be(event_id) + chain_head_hash + encode_utf8(created_at)
}

impl EventCheckpoint {
    /// Signs a checkpoint.
    pub fn sign(signing_key: &SigningKey, event_id: u64, chain_head_hash: [u8; 32], created_at: String) -> (res: Self)
        ensures
            res.event_id == event_id,
            res.chain_head_hash == chain_head_hash,
            res.created_at@ == created_at@,
            res.signature@ == spec_ed25519_sign(
                signing_key@,
                checkpoint_message(event_id, chain_head_hash@, created_at@),
            ),
            spec_ed25519_verify(
                crate::keys::spec_ed25519_public(signing_key@),
                checkpoint_message(event_id, chain_head_hash@, created_at@),
                res.signature@,
            ),
    {
        let msg = Self::signing_message(event_id, &chain_head_hash, created_at.as_str());
        let signature = signing_key.sign(msg.as_slice());
        EventCheckpoint { event_id, chain_head_hash, signature, created_at }
    }

    /// Checks the signature with `verifying_key`.
    pub fn verify(&self, verifying_key: &PublicKey) -> (res: Result<(), AuthError>)
        ensures
            res is Ok <==> spec_ed25519_verify(
                verifying_key@,
                checkpoint_message(self.event_id, self.chain_head_hash@, self.created_at@),
                self.signature@,
            ),
            res matches Err(e) ==> e is InvalidSignature,
    {
        let msg = Self::signing_message(self.event_id, &self.chain_head_hash, self.created_at.as_str());
        verify(verifying_key, msg.as_slice(), &self.signature)
    }

    /// The message a checkpoint signs: a fixed prefix, the event id, the
    /// chain head hash and the timestamp.
    pub fn signing_message(event_id: u64, chain_head_hash: &[u8; 32], created_at: &str) -> (res: Vec<u8>)
        ensures
            res@ == checkpoint_message(event_id, chain_head_hash@, created_at@),
    {
        let mut msg: Vec<u8> = Vec::new();
        push_bytes(&mut msg, "crab_city_checkpoint_v1:".as_bytes());
        push_u64_be(&mut msg, event_id);
        push_bytes(&mut msg, chain_head_hash.as_slice());
        push_bytes(&mut msg, created_at.as_bytes());
        msg
    }
}


/// A checkpoint's signature covers the event id (8 big-endian bytes after
/// the fixed domain prefix), the chain head hash and the timestamp:
/// changing any one of them, the rest kept, changes the signed message.
pub proof fn law_checkpoint_covers_every_field(
    event_id: u64,
    head: Seq<u8>,
    created_at: Seq<char>,
    event_id2: u64,
    head2: Seq<u8>,
    created_at2: Seq<char>,
)
    ensures
        event_id != event_id2 ==> checkpoint_message(event_id, head, created_at) != checkpoint_message(event_id2, head, created_at),
        head != head2 ==> checkpoint_message(event_id, head, created_at) != checkpoint_message(event_id, head2, created_at),
        created_at != created_at2 ==> checkpoint_message(event_id, head, created_at) != checkpoint_message(event_id, head, created_at2),
{
    let p = encode_utf8("crab_city_checkpoint_v1:"@);
    let g = encode_utf8(created_at);
    if event_id != event_id2 {
        lemma_u64_roundtrip(event_id);
        lemma_u64_roundtrip(event_id2);
        assert(checkpoint_message(event_id, head, created_at) =~= p + u64_be(event_id) + (head + g));
        assert(checkpoint_message(event_id2, head, created_at) =~= p + u64_be(event_id2) + (head + g));
        lemma_middle_differs(p, u64_be(event_id), u64_be(event_id2), head + g);
    }
    if head != head2 {
        assert(checkpoint_message(event_id, head, created_at) =~= (p + u64_be(event_id)) + head + g);
        assert(checkpoint_message(event_id, head2, created_at) =~= (p + u64_be(event_id)) + head2 + g);
        lemma_middle_differs(p + u64_be(event_id), head, head2, g);
    }
    if created_at != created_at2 {
        lemma_encode_utf8_differs(created_at, created_at2);
        let x = p + u64_be(event_id) + head;
        let e = Seq::<u8>::empty();
        assert(checkpoint_message(event_id, head, created_at) =~= x + g + e);
        assert(checkpoint_message(event_id, head, created_at2) =~= x + encode_utf8(created_at2) + e);
        lemma_middle_differs(x, g, encode_utf8(created_at2), e);
    }
}

} // verus!
