//! Invite tokens: creation, delegation chains, binary encoding, and
//! verification.
//!
//! An invite is a chain of signed links. Link `i` signs the hash of link
//! `i - 1` (32 zero bytes for the root), the instance and its own fields, so
//! a verified chain can only narrow capabilities and delegation depth.

use vstd::prelude::*;
use crate::capability::{capability_name, Capability};
use crate::digest::{sha256, spec_sha256};
use crate::encoding::{
    ascii_upper_text, base32_facts, crockford_decode, crockford_decode_spec, crockford_encode,
    law_crockford_text_roundtrip, spec_crockford_encode,
};
use crate::error::AuthError;
use crate::keys::{
    lemma_public_key_len, lemma_signature_len, spec_ed25519_public,
    spec_ed25519_sign, spec_ed25519_verify, verify, PublicKey, Signature, SigningKey,
};
use crate::text::{decimal, push_decimal, push_str};
use crate::wire::{
    be_u32, be_u64, lemma_be_u32_bytes, lemma_be_u64_bytes, lemma_middle_differs, lemma_u32_roundtrip, lemma_u64_roundtrip, push_bytes, push_u32_be,
    push_u64_be, read_array16, read_array32, read_array64, read_u32_be, read_u64_be, u32_be,
    u64_be,
};

verus! {

/// Per-link binary size: 32 + 1 + 1 + 4 + 8 + 16 + 64 = 126 bytes.
pub const LINK_SIZE: usize = 126;

/// Maximum delegation chain depth accepted from untrusted input.
pub const MAX_CHAIN_DEPTH: usize = 16;

/// A single link in an invite delegation chain.
#[derive(Debug, Clone, PartialEq, Eq)]
pub struct InviteLink {
    pub issuer: PublicKey,
    pub capability: Capability,
    pub max_depth: u8,
    pub max_uses: u32,
    pub expires_at: Option<u64>,
    pub nonce: [u8; 16],
    pub signature: Signature,
}

/// The view of a link: issuer, capability, depth, uses, expiry, nonce,
/// signature.
pub type LinkView = (Seq<u8>, Capability, u8, u32, Option<u64>, Seq<u8>, Seq<u8>);

impl View for InviteLink {
    type V = LinkView;

    open spec fn view(&self) -> LinkView {
        (
            self.issuer@,
            self.capability,
            self.max_depth,
            self.max_uses,
            self.expires_at,
            self.nonce@,
            self.signature@,
        )
    }
}

/// Decoding errors of the binary format.
#[derive(Debug, Clone, Copy, PartialEq, Eq)]
pub enum InviteParseError {
    TooShort,
    EmptyChain,
    ChainTooDeep(u8),
    WrongSize { expected: usize, actual: usize },
    WrongLinkSize(usize),
    UnknownCapability(u8),
}

/// The byte of a capability.
pub fn capability_to_byte(c: Capability) -> (res: u8)
    ensures
        res == c.level(),
{
    match c {
        Capability::View => 0,
        Capability::Collaborate => 1,
        Capability::Admin => 2,
        Capability::Owner => 3,
    }
}

/// An expiry as stored: 0 for none.
pub open spec fn expiry_raw(e: Option<u64>) -> u64 {
    match e {
        Some(t) => t,
        None => 0,
    }
}

/// The signed fields of a link after the issuer: capability, depth, uses,
/// expiry and nonce.
pub open spec fn grant_fields(cap: Capability, depth: u8, uses: u32, expires: Option<u64>, nonce: Seq<u8>) -> Seq<u8> {
    seq![cap.level(), depth] + u32_be(uses) + u64_be(expiry_raw(expires)) + nonce
}

/// The bytes of a link that its hash covers (everything but the signature).
pub open spec fn link_fields(l: LinkView) -> Seq<u8> {
    l.0 + grant_fields(l.1, l.2, l.3, l.4, l.5)
}

/// The hash of a link.
pub open spec fn link_hash(l: LinkView) -> Seq<u8> {
    spec_sha256(link_fields(l))
}

/// The message a link's signature covers: previous link hash, instance,
/// then the link's fields.
pub open spec fn link_message(prev_hash: Seq<u8>, instance: Seq<u8>, l: LinkView) -> Seq<u8> {
    prev_hash + instance + grant_fields(l.1, l.2, l.3, l.4, l.5)
}

/// The binary encoding of a link.
pub open spec fn encode_link(l: LinkView) -> Seq<u8> {
    link_fields(l) + l.6
}

/// The previous-link hash of the root link.
pub open spec fn genesis_prev_hash() -> Seq<u8> {
    Seq::new(32, |i: int| 0u8)
}

/// Appends the fields after the issuer.
fn push_grant_fields(
    buf: &mut Vec<u8>,
    capability: Capability,
    max_depth: u8,
    max_uses: u32,
    expires_at: Option<u64>,
    nonce: &[u8; 16],
)
    ensures
        final(buf)@ == old(buf)@ + grant_fields(capability, max_depth, max_uses, expires_at, nonce@),
{
    let ghost start = buf@;
    buf.push(capability_to_byte(capability));
    buf.push(max_depth);
    push_u32_be(buf, max_uses);
    let raw: u64 = match expires_at {
        Some(t) => t,
        None => 0,
    };
    push_u64_be(buf, raw);
    push_bytes(buf, nonce.as_slice());
    assert(buf@ =~= start + grant_fields(capability, max_depth, max_uses, expires_at, nonce@));
}

impl InviteLink {
    /// SHA-256 of the link's fields (everything but the signature).
    pub fn hash(&self) -> (res: [u8; 32])
        ensures
            res@ == link_hash(self@),
    {
        let mut buf: Vec<u8> = Vec::new();
        push_bytes(&mut buf, self.issuer.as_bytes().as_slice());
        push_grant_fields(&mut buf, self.capability, self.max_depth, self.max_uses, self.expires_at, &self.nonce);
        assert(buf@ =~= link_fields(self@));
        sha256(buf.as_slice())
    }

    /// The message a link signs: previous link hash, instance, fields.
    fn signing_message(
        prev_link_hash: &[u8; 32],
        instance: &PublicKey,
        capability: Capability,
        max_depth: u8,
        max_uses: u32,
        expires_at: Option<u64>,
        nonce: &[u8; 16],
    ) -> (res: Vec<u8>)
        ensures
            res@ == prev_link_hash@ + instance@ + grant_fields(capability, max_depth, max_uses, expires_at, nonce@),
    {
        let mut msg: Vec<u8> = Vec::new();
        push_bytes(&mut msg, prev_link_hash.as_slice());
        push_bytes(&mut msg, instance.as_bytes().as_slice());
        push_grant_fields(&mut msg, capability, max_depth, max_uses, expires_at, nonce);
        msg
    }

    /// Creates and signs a link with a fresh random nonce.
    pub fn sign<R: rand::CryptoRng + rand::RngCore>(
        signing_key: &SigningKey,
        prev_link_hash: &[u8; 32],
        instance: &PublicKey,
        capability: Capability,
        max_depth: u8,
        max_uses: u32,
        expires_at: Option<u64>,
        rng: &mut R,
    ) -> (res: Self)
        ensures
            res.issuer@ == spec_ed25519_public(signing_key@),
            res.capability == capability,
            res.max_depth == max_depth,
            res.max_uses == max_uses,
            res.expires_at == expires_at,
            res.signature@ == spec_ed25519_sign(signing_key@, link_message(prev_link_hash@, instance@, res@)),
            spec_ed25519_verify(res.issuer@, link_message(prev_link_hash@, instance@, res@), res.signature@),
    {
        let nonce = random_nonce(rng);
        let msg = Self::signing_message(prev_link_hash, instance, capability, max_depth, max_uses, expires_at, &nonce);
        let signature = signing_key.sign(msg.as_slice());
        InviteLink {
            issuer: signing_key.public_key(),
            capability,
            max_depth,
            max_uses,
            expires_at,
            nonce,
            signature,
        }
    }

    /// Verifies this link's signature given the previous link's hash.
    fn verify_signature(&self, prev_link_hash: &[u8; 32], instance: &PublicKey) -> (res: Result<(), AuthError>)
        ensures
            res is Ok <==> spec_ed25519_verify(self.issuer@, link_message(prev_link_hash@, instance@, self@), self.signature@),
            res matches Err(e) ==> e is InvalidSignature,
    {
        let msg = Self::signing_message(
            prev_link_hash,
            instance,
            self.capability,
            self.max_depth,
            self.max_uses,
            self.expires_at,
            &self.nonce,
        );
        verify(&self.issuer, msg.as_slice(), &self.signature)
    }

    /// The 126-byte encoding of the link.
    fn to_bytes(&self) -> (res: Vec<u8>)
        ensures
            res@ == encode_link(self@),
    {
        let mut buf: Vec<u8> = Vec::new();
        push_bytes(&mut buf, self.issuer.as_bytes().as_slice());
        push_grant_fields(&mut buf, self.capability, self.max_depth, self.max_uses, self.expires_at, &self.nonce);
        push_bytes(&mut buf, self.signature.as_bytes().as_slice());
        assert(buf@ =~= encode_link(self@));
        buf
    }
}

/// 16 random bytes from `rng` (`RngCore::fill_bytes`).
#[verifier::external_body]
fn random_nonce<R: rand::CryptoRng + rand::RngCore>(rng: &mut R) -> [u8; 16] {
    let mut nonce = [0u8; 16];
    rng.fill_bytes(&mut nonce);
    nonce
}

/// The capability of a byte, if it names one.
pub open spec fn capability_of_byte(b: u8) -> Option<Capability> {
    if b == 0 {
        Some(Capability::View)
    } else if b == 1 {
        Some(Capability::Collaborate)
    } else if b == 2 {
        Some(Capability::Admin)
    } else if b == 3 {
        Some(Capability::Owner)
    } else {
        None
    }
}

/// What decoding one link gives.
pub open spec fn parse_link_spec(b: Seq<u8>) -> Result<LinkView, InviteParseError> {
    if b.len() != 126 {
        Err(InviteParseError::WrongLinkSize(b.len() as usize))
    } else {
        match capability_of_byte(b[32]) {
            None => Err(InviteParseError::UnknownCapability(b[32])),
            Some(cap) => {
                let raw = be_u64(b.subrange(38, 46));
                Ok(
                    (
                        b.subrange(0, 32),
                        cap,
                        b[33],
                        be_u32(b.subrange(34, 38)),
                        if raw == 0 { None } else { Some(raw) },
                        b.subrange(46, 62),
                        b.subrange(62, 126),
                    ),
                )
            },
        }
    }
}

impl InviteLink {
    /// Decodes one link.
    fn parse_link(bytes: &[u8]) -> (res: Result<Self, InviteParseError>)
        ensures
            match parse_link_spec(bytes@) {
                Ok(v) => res matches Ok(l) && l@ == v,
                Err(e) => res == Err::<Self, InviteParseError>(e),
            },
    {
        if bytes.len() != LINK_SIZE {
            return Err(InviteParseError::WrongLinkSize(bytes.len()));
        }
        let issuer = PublicKey::from_bytes(read_array32(bytes, 0));
        let capability = match bytes[32] {
            0 => Capability::View,
            1 => Capability::Collaborate,
            2 => Capability::Admin,
            3 => Capability::Owner,
            b => {
                return Err(InviteParseError::UnknownCapability(b));
            },
        };
        let max_depth = bytes[33];
        let max_uses = read_u32_be(bytes, 34);
        let expires_raw = read_u64_be(bytes, 38);
        let expires_at = if expires_raw == 0 {
            None
        } else {
            Some(expires_raw)
        };
        let nonce = read_array16(bytes, 46);
        let signature = Signature::from_bytes(read_array64(bytes, 62));
        Ok(InviteLink { issuer, capability, max_depth, max_uses, expires_at, nonce, signature })
    }
}

/// A complete invite token: version, instance and chain of links.
#[derive(Debug, Clone, PartialEq, Eq)]
pub struct Invite {
    pub version: u8,
    pub instance: PublicKey,
    pub links: Vec<InviteLink>,
}

/// The views of a sequence of links.
pub open spec fn links_view(v: Seq<InviteLink>) -> Seq<LinkView> {
    v.map_values(|l: InviteLink| l@)
}

/// The view of an invite: version, instance, links.
pub type InviteView = (u8, Seq<u8>, Seq<LinkView>);

impl View for Invite {
    type V = InviteView;

    open spec fn view(&self) -> InviteView {
        (self.version, self.instance@, links_view(self.links@))
    }
}

/// What a successful verification gives back.
#[derive(Debug, Clone, PartialEq, Eq)]
pub struct InviteClaims {
    pub instance: PublicKey,
    pub capability: Capability,
    pub root_issuer: PublicKey,
    pub leaf_issuer: PublicKey,
    pub chain_depth: usize,
    pub nonce: [u8; 16],
}

/// The outcome of checking one link of a chain; the checks run in the
/// order of the variants.
#[derive(Debug, Clone, Copy, PartialEq, Eq, Structural)]
pub enum LinkCheck {
    Passed,
    BadSignature,
    Escalation,
    DepthExhausted,
    DepthNotDecreasing,
    Expired,
}

/// The previous-link hash that link `i` signs.
pub open spec fn prev_hash_at(links: Seq<LinkView>, i: int) -> Seq<u8> {
    if i == 0 {
        genesis_prev_hash()
    } else {
        link_hash(links[i - 1])
    }
}

/// An expiry that lies before `now`.
pub open spec fn expired_at(expires: Option<u64>, now: u64) -> bool {
    match expires {
        Some(t) => now > t,
        None => false,
    }
}

/// The first check that link `i` fails, or `Passed`.
pub open spec fn link_check(links: Seq<LinkView>, i: int, instance: Seq<u8>, now: u64) -> LinkCheck {
    let l = links[i];
    if !spec_ed25519_verify(l.0, link_message(prev_hash_at(links, i), instance, l), l.6) {
        LinkCheck::BadSignature
    } else if i > 0 && l.1.level() > links[i - 1].1.level() {
        LinkCheck::Escalation
    } else if i > 0 && links[i - 1].2 == 0 {
        LinkCheck::DepthExhausted
    } else if i > 0 && l.2 >= links[i - 1].2 {
        LinkCheck::DepthNotDecreasing
    } else if expired_at(l.4, now) {
        LinkCheck::Expired
    } else {
        LinkCheck::Passed
    }
}

/// Links `0..k` pass every check.
pub open spec fn links_pass(links: Seq<LinkView>, k: int, instance: Seq<u8>, now: u64) -> bool {
    forall|j: int| 0 <= j < k ==> #[trigger] link_check(links, j, instance, now) == LinkCheck::Passed
}

/// An invite that verifies at time `now`.
pub open spec fn chain_valid(inv: InviteView, now: u64) -> bool {
    &&& inv.0 == 1
    &&& inv.2.len() > 0
    &&& links_pass(inv.2, inv.2.len() as int, inv.1, now)
}

/// The message of the error for a failed check `c` of link `i`.
pub open spec fn check_message(links: Seq<LinkView>, i: int, c: LinkCheck) -> Seq<char> {
    match c {
        LinkCheck::Escalation => "capability escalation at link "@ + decimal(i as nat) + ": "@
            + capability_name(links[i].1) + " > "@ + capability_name(links[i - 1].1),
        LinkCheck::DepthExhausted => "depth exhausted at link "@ + decimal(i as nat),
        LinkCheck::DepthNotDecreasing => "depth must decrease at link "@ + decimal(i as nat) + ": "@
            + decimal(links[i].2 as nat) + " >= "@ + decimal(links[i - 1].2 as nat),
        LinkCheck::Expired => "link "@ + decimal(i as nat) + " expired"@,
        _ => Seq::empty(),
    }
}

/// `e` is the error reported for failed check `c` of link `i`.
pub open spec fn is_check_error(links: Seq<LinkView>, i: int, c: LinkCheck, e: AuthError) -> bool {
    if c == LinkCheck::BadSignature {
        e is InvalidSignature
    } else {
        e matches AuthError::InvalidInvite(m) && m@ == check_message(links, i, c)
    }
}

/// `e` is an invalid-invite error with message `m`.
pub open spec fn invalid_invite(e: AuthError, m: Seq<char>) -> bool {
    e matches AuthError::InvalidInvite(s) && s@ == m
}

/// The claims of a verified invite.
pub open spec fn claims_of(inv: InviteView, c: InviteClaims) -> bool {
    let last = inv.2.last();
    &&& c.instance@ == inv.1
    &&& c.capability == last.1
    &&& c.root_issuer@ == inv.2[0].0
    &&& c.leaf_issuer@ == last.0
    &&& c.chain_depth == inv.2.len()
    &&& c.nonce@ == last.5
}

/// What verifying `inv` at time `now` returns.
pub open spec fn verify_outcome(inv: InviteView, now: u64, res: Result<InviteClaims, AuthError>) -> bool {
    match res {
        Ok(c) => chain_valid(inv, now) && claims_of(inv, c),
        Err(e) => if inv.0 != 1 {
            invalid_invite(e, "unsupported version"@)
        } else if inv.2.len() == 0 {
            invalid_invite(e, "empty chain"@)
        } else {
            exists|i: int|
                0 <= i < inv.2.len() && links_pass(inv.2, i, inv.1, now) && #[trigger] link_check(
                    inv.2,
                    i,
                    inv.1,
                    now,
                ) != LinkCheck::Passed && is_check_error(inv.2, i, link_check(inv.2, i, inv.1, now), e)
        },
    }
}

/// The all-zero hash that the root link signs as its previous link.
fn genesis_hash() -> (res: [u8; 32])
    ensures
        res@ == genesis_prev_hash(),
{
    let h = [0u8; 32];
    assert(h@ =~= genesis_prev_hash());
    h
}

impl InviteLink {
    /// Runs the checks of link `i` of `links`, in order, and reports the
    /// first that fails.
    fn check(links: &Vec<InviteLink>, i: usize, prev_hash: &[u8; 32], instance: &PublicKey, now: u64) -> (res: LinkCheck)
        requires
            i < links.len(),
            prev_hash@ == prev_hash_at(links_view(links@), i as int),
        ensures
            res == link_check(links_view(links@), i as int, instance@, now),
    {
        let link = &links[i];
        if link.verify_signature(prev_hash, instance).is_err() {
            return LinkCheck::BadSignature;
        }
        if i > 0 {
            let prev = &links[i - 1];
            if capability_to_byte(link.capability) > capability_to_byte(prev.capability) {
                return LinkCheck::Escalation;
            }
            if prev.max_depth == 0 {
                return LinkCheck::DepthExhausted;
            }
            if link.max_depth >= prev.max_depth {
                return LinkCheck::DepthNotDecreasing;
            }
        }
        match link.expires_at {
            Some(t) => {
                if now > t {
                    return LinkCheck::Expired;
                }
            },
            None => {},
        }
        LinkCheck::Passed
    }
}

/// The error for failed check `c` of link `i`.
fn check_error(links: &Vec<InviteLink>, i: usize, c: LinkCheck) -> (e: AuthError)
    requires
        i < links.len(),
        c != LinkCheck::Passed,
        c == LinkCheck::Escalation || c == LinkCheck::DepthExhausted || c == LinkCheck::DepthNotDecreasing ==> i > 0,
    ensures
        is_check_error(links_view(links@), i as int, c, e),
{
    let mut m = String::new();
    match c {
        LinkCheck::Passed | LinkCheck::BadSignature => {
            return AuthError::InvalidSignature;
        },
        LinkCheck::Escalation => {
            push_str(&mut m, "capability escalation at link ");
            push_decimal(&mut m, i as u64);
            push_str(&mut m, ": ");
            push_str(&mut m, links[i].capability.as_str());
            push_str(&mut m, " > ");
            push_str(&mut m, links[i - 1].capability.as_str());
        },
        LinkCheck::DepthExhausted => {
            push_str(&mut m, "depth exhausted at link ");
            push_decimal(&mut m, i as u64);
        },
        LinkCheck::DepthNotDecreasing => {
            push_str(&mut m, "depth must decrease at link ");
            push_decimal(&mut m, i as u64);
            push_str(&mut m, ": ");
            push_decimal(&mut m, links[i].max_depth as u64);
            push_str(&mut m, " >= ");
            push_decimal(&mut m, links[i - 1].max_depth as u64);
        },
        LinkCheck::Expired => {
            push_str(&mut m, "link ");
            push_decimal(&mut m, i as u64);
            push_str(&mut m, " expired");
        },
    }
    AuthError::InvalidInvite(m)
}

/// Seconds since the Unix epoch from `std::time::SystemTime::now()`, 0 when
/// the clock reads before the epoch. Nothing is stated of the value: it is
/// the time.
#[verifier::external_body]
fn now_unix_secs() -> u64 {
    match std::time::SystemTime::now().duration_since(std::time::UNIX_EPOCH) {
        Ok(d) => d.as_secs(),
        Err(_) => 0,
    }
}

impl Invite {
    /// Verifies the chain against a caller-supplied time (Unix seconds).
    /// Use counts and issuer grants are not checked here.
    pub fn verify_at(&self, now_unix_secs: u64) -> (res: Result<InviteClaims, AuthError>)
        ensures
            verify_outcome(self@, now_unix_secs, res),
    {
        if self.version != 1 {
            return Err(AuthError::InvalidInvite("unsupported version".to_owned()));
        }
        if self.links.len() == 0 {
            return Err(AuthError::InvalidInvite("empty chain".to_owned()));
        }
        let ghost lv = links_view(self.links@);
        let mut prev_hash = genesis_hash();
        let mut i: usize = 0;
        while i < self.links.len()
            invariant
                0 <= i <= self.links.len(),
                self.version == 1,
                lv == links_view(self.links@),
                prev_hash@ == prev_hash_at(lv, i as int),
                links_pass(lv, i as int, self.instance@, now_unix_secs),
            decreases self.links.len() - i,
        {
            let c = InviteLink::check(&self.links, i, &prev_hash, &self.instance, now_unix_secs);
            if c != LinkCheck::Passed {
                let e = check_error(&self.links, i, c);
                assert(self@.2 == lv);
                assert(links_pass(self@.2, i as int, self@.1, now_unix_secs));
                assert(is_check_error(self@.2, i as int, link_check(self@.2, i as int, self@.1, now_unix_secs), e));
                return Err(e);
            }
            prev_hash = self.links[i].hash();
            i = i + 1;
        }
        let root = &self.links[0];
        let leaf = &self.links[self.links.len() - 1];
        Ok(
            InviteClaims {
                instance: self.instance,
                capability: leaf.capability,
                root_issuer: root.issuer,
                leaf_issuer: leaf.issuer,
                chain_depth: self.links.len(),
                nonce: leaf.nonce,
            },
        )
    }

    /// Verifies the chain at the current time.
    pub fn verify(&self) -> (res: Result<InviteClaims, AuthError>)
        ensures
            exists|now: u64| verify_outcome(self@, now, res),
    {
        let now = now_unix_secs();
        let res = self.verify_at(now);
        assert(verify_outcome(self@, now, res));
        res
    }
}

impl InviteLink {
    /// A field-by-field copy of the link.
    fn copy(&self) -> (res: InviteLink)
        ensures
            res@ == self@,
    {
        InviteLink {
            issuer: self.issuer,
            capability: self.capability,
            max_depth: self.max_depth,
            max_uses: self.max_uses,
            expires_at: self.expires_at,
            nonce: self.nonce,
            signature: self.signature,
        }
    }
}

/// A copy of a chain of links.
fn copy_links(links: &Vec<InviteLink>) -> (res: Vec<InviteLink>)
    ensures
        links_view(res@) == links_view(links@),
{
    let mut out: Vec<InviteLink> = Vec::new();
    let mut i: usize = 0;
    while i < links.len()
        invariant
            0 <= i <= links.len(),
            out@.len() == i,
            forall|k: int| 0 <= k < i ==> (#[trigger] out@[k])@ == links@[k]@,
        decreases links.len() - i,
    {
        let c = links[i].copy();
        out.push(c);
        i = i + 1;
    }
    assert(links_view(out@) =~= links_view(links@));
    out
}

impl Invite {
    /// A flat (non-delegated) invite: one link with `max_depth` 0. It
    /// verifies at every time up to its expiry and at no later time.
    pub fn create_flat<R: rand::CryptoRng + rand::RngCore>(
        signing_key: &SigningKey,
        instance: &PublicKey,
        capability: Capability,
        max_uses: u32,
        expires_at: Option<u64>,
        rng: &mut R,
    ) -> (res: Self)
        ensures
            res.version == 1,
            res.instance == *instance,
            res.links.len() == 1,
            res.links[0].issuer@ == spec_ed25519_public(signing_key@),
            res.links[0].capability == capability,
            res.links[0].max_depth == 0,
            res.links[0].max_uses == max_uses,
            res.links[0].expires_at == expires_at,
            res.links[0].signature@ == spec_ed25519_sign(
                signing_key@,
                link_message(genesis_prev_hash(), instance@, res.links[0]@),
            ),
            forall|now: u64| #[trigger] chain_valid(res@, now) <==> !expired_at(expires_at, now),
    {
        let genesis = genesis_hash();
        let link = InviteLink::sign(signing_key, &genesis, instance, capability, 0, max_uses, expires_at, rng);
        let mut links: Vec<InviteLink> = Vec::new();
        links.push(link);
        let res = Invite { version: 1, instance: *instance, links };
        assert forall|now: u64| #[trigger] chain_valid(res@, now) <==> !expired_at(expires_at, now) by {
            assert(res@.2[0] == res.links[0]@);
            if !expired_at(expires_at, now) {
                assert(link_check(res@.2, 0, res@.1, now) == LinkCheck::Passed);
            } else {
                assert(link_check(res@.2, 0, res@.1, now) != LinkCheck::Passed);
            }
        }
        res
    }

    /// Appends a link that hands the leaf's rights, or fewer, to the
    /// holder of `signing_key`, with one less level of delegation. A chain
    /// that verifies still verifies after delegation, as long as the new
    /// link has not expired.
    pub fn delegate<R: rand::CryptoRng + rand::RngCore>(
        parent: &Invite,
        signing_key: &SigningKey,
        capability: Capability,
        max_uses: u32,
        expires_at: Option<u64>,
        rng: &mut R,
    ) -> (res: Result<Self, AuthError>)
        ensures
            match res {
                Ok(child) => {
                    let n = parent@.2.len() as int;
                    let leaf = parent@.2.last();
                    let link = child@.2.last();
                    &&& n > 0
                    &&& leaf.2 > 0
                    &&& capability.level() <= leaf.1.level()
                    &&& child.version == parent.version
                    &&& child.instance == parent.instance
                    &&& child@.2.len() == n + 1
                    &&& child@.2.take(n) == parent@.2
                    &&& link.0 == spec_ed25519_public(signing_key@)
                    &&& link.1 == capability
                    &&& link.2 == leaf.2 - 1
                    &&& link.3 == max_uses
                    &&& link.4 == expires_at
                    &&& link.6 == spec_ed25519_sign(signing_key@, link_message(link_hash(leaf), parent@.1, link))
                    &&& forall|now: u64|
                        chain_valid(parent@, now) && !expired_at(expires_at, now) ==> #[trigger] chain_valid(
                            child@,
                            now,
                        )
                },
                Err(e) => {
                    ||| parent@.2.len() == 0 && invalid_invite(e, "empty chain"@)
                    ||| parent@.2.len() > 0 && parent@.2.last().2 == 0 && invalid_invite(
                        e,
                        "cannot delegate: max_depth is 0"@,
                    )
                    ||| parent@.2.len() > 0 && parent@.2.last().2 > 0 && capability.level()
                        > parent@.2.last().1.level() && invalid_invite(
                        e,
                        "cannot escalate capability beyond parent"@,
                    )
                },
            },
    {
        let n = parent.links.len();
        if n == 0 {
            return Err(AuthError::InvalidInvite("empty chain".to_owned()));
        }
        let leaf = &parent.links[n - 1];
        if leaf.max_depth == 0 {
            return Err(AuthError::InvalidInvite("cannot delegate: max_depth is 0".to_owned()));
        }
        if capability_to_byte(capability) > capability_to_byte(leaf.capability) {
            return Err(AuthError::InvalidInvite("cannot escalate capability beyond parent".to_owned()));
        }
        let prev_hash = leaf.hash();
        let new_depth = leaf.max_depth - 1;
        let link = InviteLink::sign(
            signing_key,
            &prev_hash,
            &parent.instance,
            capability,
            new_depth,
            max_uses,
            expires_at,
            rng,
        );
        let mut links = copy_links(&parent.links);
        links.push(link);
        let child = Invite { version: parent.version, instance: parent.instance, links };
        proof {
            let pl = parent@.2;
            let cl = child@.2;
            assert(cl.take(n as int) =~= pl);
            assert(cl[n as int] == link@);
            assert forall|now: u64|
                chain_valid(parent@, now) && !expired_at(expires_at, now) implies #[trigger] chain_valid(
                child@,
                now,
            ) by {
                assert forall|j: int| 0 <= j < cl.len() implies #[trigger] link_check(cl, j, child@.1, now)
                    == LinkCheck::Passed by {
                    if j < n {
                        assert(cl[j] == pl[j]);
                        if j > 0 {
                            assert(cl[j - 1] == pl[j - 1]);
                        }
                        assert(link_check(cl, j, child@.1, now) == link_check(pl, j, parent@.1, now));
                    } else {
                        assert(j == n);
                        assert(cl[j - 1] == pl[n - 1]);
                    }
                }
            }
        }
        Ok(child)
    }
}

/// Along a chain that verifies, capabilities never widen and the
/// delegation depth drops by at least one per link; so a chain is never
/// longer than its root's depth plus one.
pub proof fn law_verified_chain_narrows(inv: InviteView, now: u64)
    requires
        chain_valid(inv, now),
    ensures
        forall|i: int, j: int|
            0 <= i <= j < inv.2.len() ==> #[trigger] inv.2[j].1.level() <= #[trigger] inv.2[i].1.level()
                && inv.2[j].2 + (j - i) <= inv.2[i].2,
        inv.2.len() <= inv.2[0].2 + 1,
{
    assert forall|i: int, j: int|
        0 <= i <= j < inv.2.len() implies #[trigger] inv.2[j].1.level() <= #[trigger] inv.2[i].1.level()
        && inv.2[j].2 + (j - i) <= inv.2[i].2 by {
        lemma_chain_monotone(inv.2, inv.1, now, i, j);
    }
    lemma_chain_monotone(inv.2, inv.1, now, 0, inv.2.len() - 1);
}

proof fn lemma_chain_monotone(links: Seq<LinkView>, instance: Seq<u8>, now: u64, i: int, j: int)
    requires
        links_pass(links, links.len() as int, instance, now),
        0 <= i <= j < links.len(),
    ensures
        links[j].1.level() <= links[i].1.level(),
        links[j].2 + (j - i) <= links[i].2,
    decreases j - i,
{
    if j > i {
        lemma_chain_monotone(links, instance, now, i, j - 1);
        assert(link_check(links, j, instance, now) == LinkCheck::Passed);
    }
}

/// The concatenated encodings of a sequence of links.
pub open spec fn encode_links(ls: Seq<LinkView>) -> Seq<u8>
    decreases ls.len(),
{
    if ls.len() == 0 {
        Seq::empty()
    } else {
        encode_links(ls.drop_last()) + encode_link(ls.last())
    }
}

/// The binary encoding of an invite: version, instance, chain length (its
/// low byte), links.
pub open spec fn encode_invite(v: InviteView) -> Seq<u8> {
    seq![v.0] + v.1 + seq![v.2.len() as u8] + encode_links(v.2)
}

/// The bytes of link `i` in an encoded invite.
pub open spec fn link_slice(b: Seq<u8>, i: int) -> Seq<u8> {
    b.subrange(34 + 126 * i, 34 + 126 * i + 126)
}

/// Decoding of the first `n` links of an encoded invite; the first link
/// that fails decides the error.
pub open spec fn parse_links_spec(b: Seq<u8>, n: nat) -> Result<Seq<LinkView>, InviteParseError>
    decreases n,
{
    if n == 0 {
        Ok(Seq::empty())
    } else {
        match parse_links_spec(b, (n - 1) as nat) {
            Err(e) => Err(e),
            Ok(ls) => match parse_link_spec(link_slice(b, n - 1)) {
                Err(e) => Err(e),
                Ok(l) => Ok(ls.push(l)),
            },
        }
    }
}

/// What decoding an invite gives.
pub open spec fn parse_invite_spec(b: Seq<u8>) -> Result<InviteView, InviteParseError> {
    if b.len() < 34 {
        Err(InviteParseError::TooShort)
    } else if b[33] == 0 {
        Err(InviteParseError::EmptyChain)
    } else if b[33] > 16 {
        Err(InviteParseError::ChainTooDeep(b[33]))
    } else if b.len() != 34 + 126 * b[33] {
        Err(InviteParseError::WrongSize { expected: (34 + 126 * b[33]) as usize, actual: b.len() as usize })
    } else {
        match parse_links_spec(b, b[33] as nat) {
            Err(e) => Err(e),
            Ok(ls) => Ok((b[0], b.subrange(1, 33), ls)),
        }
    }
}

/// An invite whose header claims a chain longer than `MAX_CHAIN_DEPTH` is
/// refused, whatever else it holds.
pub proof fn law_chain_depth_bound_enforced(b: Seq<u8>)
    requires
        b.len() >= 34,
        b[33] > MAX_CHAIN_DEPTH,
    ensures
        parse_invite_spec(b) is Err,
{
}

/// The message of a decoding error.
pub open spec fn parse_error_message(e: InviteParseError) -> Seq<char> {
    match e {
        InviteParseError::TooShort => "too short"@,
        InviteParseError::EmptyChain => "empty chain"@,
        InviteParseError::ChainTooDeep(n) => "chain length "@ + decimal(n as nat) + " exceeds maximum "@
            + decimal(16),
        InviteParseError::WrongSize { expected, actual } => "wrong size: expected "@ + decimal(
            expected as nat,
        ) + ", got "@ + decimal(actual as nat),
        InviteParseError::WrongLinkSize(n) => "link size "@ + decimal(n as nat) + ", expected "@ + decimal(
            126,
        ),
        InviteParseError::UnknownCapability(b) => "unknown capability byte: "@ + decimal(b as nat),
    }
}

/// A link whose fields have their fixed sizes.
pub open spec fn link_wf(l: LinkView) -> bool {
    &&& l.0.len() == 32
    &&& l.5.len() == 16
    &&& l.6.len() == 64
}

/// An invite that decodes back to itself from its encoding: 1 to 16
/// well-formed links, none with a stored expiry of 0 (which reads back as
/// "no expiry").
pub open spec fn encodable(v: InviteView) -> bool {
    &&& v.1.len() == 32
    &&& 1 <= v.2.len() <= 16
    &&& forall|i: int| 0 <= i < v.2.len() ==> link_wf(#[trigger] v.2[i]) && v.2[i].4 != Some(0u64)
}

proof fn lemma_link_view_wf(l: InviteLink)
    ensures
        link_wf(l@),
{
    lemma_public_key_len(l.issuer);
    lemma_signature_len(l.signature);
}

/// The encoded links have 126 bytes each, link `i` at offset `126 * i`.
proof fn lemma_encode_links(ls: Seq<LinkView>)
    requires
        forall|i: int| 0 <= i < ls.len() ==> link_wf(#[trigger] ls[i]),
    ensures
        encode_links(ls).len() == 126 * ls.len(),
        forall|i: int|
            0 <= i < ls.len() ==> #[trigger] encode_links(ls).subrange(126 * i, 126 * i + 126) == encode_link(
                ls[i],
            ),
    decreases ls.len(),
{
    if ls.len() > 0 {
        let init = ls.drop_last();
        lemma_encode_links(init);
        let e = encode_links(ls);
        assert(encode_link(ls.last()).len() == 126);
        assert forall|i: int| 0 <= i < ls.len() implies #[trigger] e.subrange(126 * i, 126 * i + 126)
            == encode_link(ls[i]) by {
            if i < ls.len() - 1 {
                assert(init[i] == ls[i]);
                assert(e.subrange(126 * i, 126 * i + 126) =~= encode_links(init).subrange(126 * i, 126 * i + 126));
            } else {
                assert(e.subrange(126 * i, 126 * i + 126) =~= encode_link(ls.last()));
            }
        }
    }
}

/// Decoding the encoding of a link gives the link back.
proof fn lemma_link_roundtrip(l: LinkView)
    requires
        link_wf(l),
        l.4 != Some(0u64),
    ensures
        encode_link(l).len() == 126,
        parse_link_spec(encode_link(l)) == Ok::<LinkView, InviteParseError>(l),
{
    let b = encode_link(l);
    let raw = expiry_raw(l.4);
    assert(b =~= l.0 + seq![l.1.level(), l.2] + u32_be(l.3) + u64_be(raw) + l.5 + l.6);
    assert(b[32] == l.1.level());
    assert(capability_of_byte(b[32]) == Some(l.1));
    assert(b[33] == l.2);
    assert(b.subrange(0, 32) =~= l.0);
    assert(b.subrange(34, 38) =~= u32_be(l.3));
    lemma_u32_roundtrip(l.3);
    assert(b.subrange(38, 46) =~= u64_be(raw));
    lemma_u64_roundtrip(raw);
    assert(b.subrange(46, 62) =~= l.5);
    assert(b.subrange(62, 126) =~= l.6);
}

impl Invite {
    /// The compact binary encoding: version, instance, chain length (one
    /// byte) and the links.
    pub fn to_bytes(&self) -> (res: Vec<u8>)
        ensures
            res@ == encode_invite(self@),
    {
        let ghost lv = links_view(self.links@);
        let mut buf: Vec<u8> = Vec::new();
        buf.push(self.version);
        push_bytes(&mut buf, self.instance.as_bytes().as_slice());
        let count: u8 = #[verifier::truncate] (self.links.len() as u8);
        buf.push(count);
        let ghost head = buf@;
        let mut i: usize = 0;
        while i < self.links.len()
            invariant
                0 <= i <= self.links.len(),
                lv == links_view(self.links@),
                buf@ == head + encode_links(lv.take(i as int)),
            decreases self.links.len() - i,
        {
            let lb = self.links[i].to_bytes();
            push_bytes(&mut buf, lb.as_slice());
            assert(lv.take(i + 1).drop_last() =~= lv.take(i as int));
            assert(buf@ =~= head + encode_links(lv.take(i + 1)));
            i = i + 1;
        }
        assert(lv.take(self.links.len() as int) =~= lv);
        assert(buf@ =~= encode_invite(self@));
        buf
    }

    /// Decodes the binary encoding.
    fn parse_invite(bytes: &[u8]) -> (res: Result<Self, InviteParseError>)
        ensures
            match parse_invite_spec(bytes@) {
                Ok(v) => res matches Ok(inv) && inv@ == v,
                Err(e) => res == Err::<Self, InviteParseError>(e),
            },
    {
        if bytes.len() < 34 {
            return Err(InviteParseError::TooShort);
        }
        let version = bytes[0];
        let instance = PublicKey::from_bytes(read_array32(bytes, 1));
        let chain_length = bytes[33];
        if chain_length == 0 {
            return Err(InviteParseError::EmptyChain);
        }
        if chain_length as usize > MAX_CHAIN_DEPTH {
            return Err(InviteParseError::ChainTooDeep(chain_length));
        }
        let n = chain_length as usize;
        let expected = 34 + n * LINK_SIZE;
        if bytes.len() != expected {
            return Err(InviteParseError::WrongSize { expected, actual: bytes.len() });
        }
        let mut links: Vec<InviteLink> = Vec::new();
        assert(links_view(links@) =~= Seq::<LinkView>::empty());
        let mut i: usize = 0;
        while i < n
            invariant
                0 <= i <= n,
                n == bytes@[33],
                1 <= n <= 16,
                bytes@.len() == 34 + 126 * n,
                parse_links_spec(bytes@, i as nat) == Ok::<Seq<LinkView>, InviteParseError>(links_view(links@)),
            decreases n - i,
        {
            let offset = 34 + i * LINK_SIZE;
            let slice: &[u8] = &bytes[offset..offset + LINK_SIZE];
            assert(slice@ == link_slice(bytes@, i as int));
            match InviteLink::parse_link(slice) {
                Ok(l) => {
                    let ghost before = links@;
                    links.push(l);
                    assert(links_view(links@) =~= links_view(before).push(l@));
                },
                Err(e) => {
                    proof {
                        lemma_parse_links_error(bytes@, (i + 1) as nat, n as nat, e);
                    }
                    return Err(e);
                },
            }
            i = i + 1;
        }
        Ok(Invite { version, instance, links })
    }
}

/// Once decoding the first `k` links fails, decoding more fails the same way.
proof fn lemma_parse_links_error(b: Seq<u8>, k: nat, n: nat, e: InviteParseError)
    requires
        k <= n,
        parse_links_spec(b, k) == Err::<Seq<LinkView>, InviteParseError>(e),
    ensures
        parse_links_spec(b, n) == Err::<Seq<LinkView>, InviteParseError>(e),
    decreases n - k,
{
    if k < n {
        lemma_parse_links_error(b, k, (n - 1) as nat, e);
    }
}

/// Decoding the encoding of an invite gives the invite back.
pub proof fn law_invite_bytes_roundtrip(v: InviteView)
    requires
        encodable(v),
    ensures
        parse_invite_spec(encode_invite(v)) == Ok::<InviteView, InviteParseError>(v),
{
    let n = v.2.len();
    let b = encode_invite(v);
    lemma_encode_links(v.2);
    let e = encode_links(v.2);
    assert(b.len() == 34 + 126 * n);
    assert(b[33] == n);
    assert forall|i: int| 0 <= i < n implies #[trigger] link_slice(b, i) == encode_link(v.2[i]) by {
        assert(link_slice(b, i) =~= e.subrange(126 * i, 126 * i + 126));
    }
    lemma_parse_links_prefix(b, v.2, n);
    assert(v.2.take(n as int) =~= v.2);
    assert(b.subrange(1, 33) =~= v.1);
}

/// The first `k` links of an encoding decode to the first `k` links.
proof fn lemma_parse_links_prefix(b: Seq<u8>, ls: Seq<LinkView>, k: nat)
    requires
        k <= ls.len(),
        forall|i: int| 0 <= i < ls.len() ==> link_wf(#[trigger] ls[i]) && ls[i].4 != Some(0u64),
        forall|i: int| 0 <= i < ls.len() ==> #[trigger] link_slice(b, i) == encode_link(ls[i]),
    ensures
        parse_links_spec(b, k) == Ok::<Seq<LinkView>, InviteParseError>(ls.take(k as int)),
    decreases k,
{
    if k == 0 {
        assert(ls.take(0) =~= Seq::<LinkView>::empty());
    } else {
        lemma_parse_links_prefix(b, ls, (k - 1) as nat);
        let i = k - 1;
        assert(link_slice(b, i) == encode_link(ls[i]));
        lemma_link_roundtrip(ls[i]);
        assert(ls.take(k as int) =~= ls.take(i).push(ls[i]));
    }
}

impl Invite {
    /// Decodes the binary encoding, with the error as a message.
    pub fn from_bytes(bytes: &[u8]) -> (res: Result<Self, AuthError>)
        ensures
            match parse_invite_spec(bytes@) {
                Ok(v) => res matches Ok(inv) && inv@ == v,
                Err(pe) => res matches Err(e) && invalid_invite(e, parse_error_message(pe)),
            },
    {
        match Self::parse_invite(bytes) {
            Ok(inv) => Ok(inv),
            Err(e) => {
                let mut m = String::new();
                match e {
                    InviteParseError::TooShort => {
                        push_str(&mut m, "too short");
                    },
                    InviteParseError::EmptyChain => {
                        push_str(&mut m, "empty chain");
                    },
                    InviteParseError::ChainTooDeep(n) => {
                        push_str(&mut m, "chain length ");
                        push_decimal(&mut m, n as u64);
                        push_str(&mut m, " exceeds maximum ");
                        push_decimal(&mut m, MAX_CHAIN_DEPTH as u64);
                    },
                    InviteParseError::WrongSize { expected, actual } => {
                        push_str(&mut m, "wrong size: expected ");
                        push_decimal(&mut m, expected as u64);
                        push_str(&mut m, ", got ");
                        push_decimal(&mut m, actual as u64);
                    },
                    InviteParseError::WrongLinkSize(n) => {
                        push_str(&mut m, "link size ");
                        push_decimal(&mut m, n as u64);
                        push_str(&mut m, ", expected ");
                        push_decimal(&mut m, LINK_SIZE as u64);
                    },
                    InviteParseError::UnknownCapability(b) => {
                        push_str(&mut m, "unknown capability byte: ");
                        push_decimal(&mut m, b as u64);
                    },
                }
                Err(AuthError::InvalidInvite(m))
            },
        }
    }

    /// The Crockford base32 text of the binary encoding.
    pub fn to_base32(&self) -> (res: String)
        requires
            34 + 126 * self.links@.len() <= usize::MAX / 512,
        ensures
            res@ == spec_crockford_encode(encode_invite(self@)),
            base32_facts(encode_invite(self@)),
    {
        proof {
            assert forall|i: int| 0 <= i < self@.2.len() implies link_wf(#[trigger] self@.2[i]) by {
                lemma_link_view_wf(self.links@[i]);
            }
            lemma_encode_links(self@.2);
            lemma_public_key_len(self.instance);
        }
        let bytes = self.to_bytes();
        crockford_encode(bytes.as_slice())
    }
}

/// `res` is an invite with view `v`.
pub open spec fn gives_invite(res: Result<Invite, AuthError>, v: InviteView) -> bool {
    res matches Ok(inv) && inv@ == v
}

/// `res` is an invalid-invite error with message `m`.
pub open spec fn fails_with(res: Result<Invite, AuthError>, m: Seq<char>) -> bool {
    res matches Err(e) && invalid_invite(e, m)
}

impl Invite {
    /// Decodes Crockford base32 text: text that is not Crockford base32 is
    /// refused as "invalid base32", decoded bytes as `from_bytes` decodes
    /// them. The text of an encodable invite, in either case, decodes to
    /// that invite.
    pub fn from_base32(s: &str) -> (res: Result<Self, AuthError>)
        ensures
            match crockford_decode_spec(s@) {
                Err(_) => fails_with(res, "invalid base32"@),
                Ok(b) => match parse_invite_spec(b) {
                    Ok(v) => gives_invite(res, v),
                    Err(pe) => fails_with(res, parse_error_message(pe)),
                },
            },
            forall|v: InviteView|
                encodable(v) && #[trigger] spec_crockford_encode(encode_invite(v)) == ascii_upper_text(s@)
                    && base32_facts(encode_invite(v)) ==> gives_invite(res, v),
    {
        let res = match crockford_decode(s) {
            Ok(bytes) => Self::from_bytes(bytes.as_slice()),
            Err(_) => Err(AuthError::InvalidInvite("invalid base32".to_owned())),
        };
        assert forall|v: InviteView|
            encodable(v) && #[trigger] spec_crockford_encode(encode_invite(v)) == ascii_upper_text(s@)
                && base32_facts(encode_invite(v)) implies gives_invite(res, v) by {
            law_invite_text_roundtrip(v, s@);
        }
        res
    }
}

/// Text round trip of an invite: the text `to_base32` writes for an
/// encodable invite, in upper, lower or mixed case, decodes to the bytes of
/// its encoding, and those bytes decode to the invite, so `from_base32`
/// gives the invite back.
pub proof fn law_invite_text_roundtrip(v: InviteView, s: Seq<char>)
    requires
        encodable(v),
        base32_facts(encode_invite(v)),
        ascii_upper_text(s) == spec_crockford_encode(encode_invite(v)),
    ensures
        crockford_decode_spec(s) == Ok::<Seq<u8>, Seq<char>>(encode_invite(v)),
        parse_invite_spec(encode_invite(v)) == Ok::<InviteView, InviteParseError>(v),
{
    law_crockford_text_roundtrip(encode_invite(v), s);
    law_invite_bytes_roundtrip(v);
}

/// Eight zero bytes.
pub open spec fn zero_bytes8() -> Seq<u8> {
    seq![0u8, 0u8, 0u8, 0u8, 0u8, 0u8, 0u8, 0u8]
}

/// Decoding one link (`InviteLink::parse_link`, whose result is
/// `parse_link_spec`): a size other than 126 bytes is refused with the size,
/// an unknown capability byte with the byte; any other 126 bytes decode to
/// a link that encodes back (`InviteLink::to_bytes`, which writes
/// `encode_link`) to the same bytes, with no expiry exactly when the stored
/// expiry is eight zero bytes.
pub proof fn law_link_bytes_roundtrip(b: Seq<u8>)
    ensures
        b.len() != 126 ==> parse_link_spec(b) == Err::<LinkView, InviteParseError>(
            InviteParseError::WrongLinkSize(b.len() as usize),
        ),
        b.len() == 126 && b[32] > 3 ==> parse_link_spec(b) == Err::<LinkView, InviteParseError>(
            InviteParseError::UnknownCapability(b[32]),
        ),
        b.len() == 126 && b[32] <= 3 ==> (parse_link_spec(b) matches Ok(l) && encode_link(l) == b && (l.4 is None
            <==> b.subrange(38, 46) == zero_bytes8())),
{
    if b.len() == 126 && b[32] <= 3 {
        let l = parse_link_spec(b)->Ok_0;
        let raw = be_u64(b.subrange(38, 46));
        lemma_be_u64_bytes(b.subrange(38, 46));
        lemma_be_u32_bytes(b.subrange(34, 38));
        assert(expiry_raw(l.4) == raw);
        assert(l.1.level() == b[32]);
        assert(u64_be(0) =~= zero_bytes8()) by {
            let z: u64 = 0;
            assert((z >> 56u64) as u8 == 0 && (z >> 48u64) as u8 == 0 && (z >> 40u64) as u8 == 0 && (z >> 32u64) as u8
                == 0 && (z >> 24u64) as u8 == 0 && (z >> 16u64) as u8 == 0 && (z >> 8u64) as u8 == 0 && z as u8 == 0)
                by (bit_vector)
                requires
                    z == 0,
            ;
        }
        assert(encode_link(l) =~= b);
        if b.subrange(38, 46) == zero_bytes8() {
            lemma_u64_roundtrip(0);
        }
    }
}


proof fn lemma_grant_covers_capability(cap: Capability, depth: u8, uses: u32, expires: Option<u64>, nonce: Seq<u8>, cap2: Capability)
    requires
        cap != cap2,
    ensures
        grant_fields(cap, depth, uses, expires, nonce) != grant_fields(cap2, depth, uses, expires, nonce),
{
    assert(grant_fields(cap, depth, uses, expires, nonce)[0] == cap.level());
    assert(grant_fields(cap2, depth, uses, expires, nonce)[0] == cap2.level());
}

proof fn lemma_grant_covers_depth(cap: Capability, depth: u8, uses: u32, expires: Option<u64>, nonce: Seq<u8>, depth2: u8)
    requires
        depth != depth2,
    ensures
        grant_fields(cap, depth, uses, expires, nonce) != grant_fields(cap, depth2, uses, expires, nonce),
{
    assert(grant_fields(cap, depth, uses, expires, nonce)[1] == depth);
    assert(grant_fields(cap, depth2, uses, expires, nonce)[1] == depth2);
}

proof fn lemma_grant_covers_uses(cap: Capability, depth: u8, uses: u32, expires: Option<u64>, nonce: Seq<u8>, uses2: u32)
    requires
        uses != uses2,
    ensures
        grant_fields(cap, depth, uses, expires, nonce) != grant_fields(cap, depth, uses2, expires, nonce),
{
    lemma_u32_roundtrip(uses);
    lemma_u32_roundtrip(uses2);
    let x = seq![cap.level(), depth];
    let z = u64_be(expiry_raw(expires)) + nonce;
    assert(grant_fields(cap, depth, uses, expires, nonce) =~= x + u32_be(uses) + z);
    assert(grant_fields(cap, depth, uses2, expires, nonce) =~= x + u32_be(uses2) + z);
    lemma_middle_differs(x, u32_be(uses), u32_be(uses2), z);
}

proof fn lemma_grant_covers_expiry(cap: Capability, depth: u8, uses: u32, expires: Option<u64>, nonce: Seq<u8>, expires2: Option<u64>)
    requires
        expires != expires2,
        expires != Some(0u64),
        expires2 != Some(0u64),
    ensures
        grant_fields(cap, depth, uses, expires, nonce) != grant_fields(cap, depth, uses, expires2, nonce),
{
    lemma_u64_roundtrip(expiry_raw(expires));
    lemma_u64_roundtrip(expiry_raw(expires2));
    let x = seq![cap.level(), depth] + u32_be(uses);
    assert(grant_fields(cap, depth, uses, expires, nonce) =~= x + u64_be(expiry_raw(expires)) + nonce);
    assert(grant_fields(cap, depth, uses, expires2, nonce) =~= x + u64_be(expiry_raw(expires2)) + nonce);
    lemma_middle_differs(x, u64_be(expiry_raw(expires)), u64_be(expiry_raw(expires2)), nonce);
}

proof fn lemma_grant_covers_nonce(cap: Capability, depth: u8, uses: u32, expires: Option<u64>, nonce: Seq<u8>, nonce2: Seq<u8>)
    requires
        nonce != nonce2,
    ensures
        grant_fields(cap, depth, uses, expires, nonce) != grant_fields(cap, depth, uses, expires, nonce2),
{
    let x = seq![cap.level(), depth] + u32_be(uses) + u64_be(expiry_raw(expires));
    assert(grant_fields(cap, depth, uses, expires, nonce) =~= x + nonce + Seq::<u8>::empty());
    assert(grant_fields(cap, depth, uses, expires, nonce2) =~= x + nonce2 + Seq::<u8>::empty());
    lemma_middle_differs(x, nonce, nonce2, Seq::<u8>::empty());
}

/// A link's signature covers the previous link's hash, the instance and
/// every grant field (capability, depth, uses, expiry, nonce), and its hash
/// covers the issuer and the same grant fields: changing any one of them,
/// the rest kept, changes the signed message and the hashed bytes. (An
/// expiry of 0 is stored as "none", so the two are not told apart.)
pub proof fn law_link_signature_covers_every_field(
    prev_hash: Seq<u8>,
    instance: Seq<u8>,
    l: LinkView,
    prev_hash2: Seq<u8>,
    instance2: Seq<u8>,
    issuer2: Seq<u8>,
    cap2: Capability,
    depth2: u8,
    uses2: u32,
    expires2: Option<u64>,
    nonce2: Seq<u8>,
)
    ensures
        prev_hash != prev_hash2 ==> link_message(prev_hash, instance, l) != link_message(prev_hash2, instance, l),
        instance != instance2 ==> link_message(prev_hash, instance, l) != link_message(prev_hash, instance2, l),
        cap2 != l.1 ==> link_message(prev_hash, instance, l) != link_message(
            prev_hash,
            instance,
            (l.0, cap2, l.2, l.3, l.4, l.5, l.6),
        ) && link_fields(l) != link_fields((l.0, cap2, l.2, l.3, l.4, l.5, l.6)),
        depth2 != l.2 ==> link_message(prev_hash, instance, l) != link_message(
            prev_hash,
            instance,
            (l.0, l.1, depth2, l.3, l.4, l.5, l.6),
        ) && link_fields(l) != link_fields((l.0, l.1, depth2, l.3, l.4, l.5, l.6)),
        uses2 != l.3 ==> link_message(prev_hash, instance, l) != link_message(
            prev_hash,
            instance,
            (l.0, l.1, l.2, uses2, l.4, l.5, l.6),
        ) && link_fields(l) != link_fields((l.0, l.1, l.2, uses2, l.4, l.5, l.6)),
        expires2 != l.4 && expires2 != Some(0u64) && l.4 != Some(0u64) ==> link_message(prev_hash, instance, l)
            != link_message(prev_hash, instance, (l.0, l.1, l.2, l.3, expires2, l.5, l.6)) && link_fields(l)
            != link_fields((l.0, l.1, l.2, l.3, expires2, l.5, l.6)),
        nonce2 != l.5 ==> link_message(prev_hash, instance, l) != link_message(
            prev_hash,
            instance,
            (l.0, l.1, l.2, l.3, l.4, nonce2, l.6),
        ) && link_fields(l) != link_fields((l.0, l.1, l.2, l.3, l.4, nonce2, l.6)),
        issuer2 != l.0 ==> link_fields(l) != link_fields(
            (issuer2, l.1, l.2, l.3, l.4, l.5, l.6),
        ),
{
    let g = grant_fields(l.1, l.2, l.3, l.4, l.5);
    let e = Seq::<u8>::empty();
    if prev_hash != prev_hash2 {
        assert(link_message(prev_hash, instance, l) =~= e + prev_hash + (instance + g));
        assert(link_message(prev_hash2, instance, l) =~= e + prev_hash2 + (instance + g));
        lemma_middle_differs(e, prev_hash, prev_hash2, instance + g);
    }
    if instance != instance2 {
        assert(link_message(prev_hash, instance, l) =~= prev_hash + instance + g);
        assert(link_message(prev_hash, instance2, l) =~= prev_hash + instance2 + g);
        lemma_middle_differs(prev_hash, instance, instance2, g);
    }
    if issuer2 != l.0 {
        assert(link_fields(l) =~= e + l.0 + g);
        assert(link_fields((issuer2, l.1, l.2, l.3, l.4, l.5, l.6)) =~= e + issuer2 + g);
        lemma_middle_differs(e, l.0, issuer2, g);
    }
    if cap2 != l.1 {
        lemma_grant_covers_capability(l.1, l.2, l.3, l.4, l.5, cap2);
        lemma_middle_differs(prev_hash + instance, g, grant_fields(cap2, l.2, l.3, l.4, l.5), e);
        lemma_middle_differs(l.0, g, grant_fields(cap2, l.2, l.3, l.4, l.5), e);
        assert(link_message(prev_hash, instance, l) =~= prev_hash + instance + g + e);
        assert(link_fields(l) =~= l.0 + g + e);
    }
    if depth2 != l.2 {
        lemma_grant_covers_depth(l.1, l.2, l.3, l.4, l.5, depth2);
        lemma_middle_differs(prev_hash + instance, g, grant_fields(l.1, depth2, l.3, l.4, l.5), e);
        lemma_middle_differs(l.0, g, grant_fields(l.1, depth2, l.3, l.4, l.5), e);
        assert(link_message(prev_hash, instance, l) =~= prev_hash + instance + g + e);
        assert(link_fields(l) =~= l.0 + g + e);
    }
    if uses2 != l.3 {
        lemma_grant_covers_uses(l.1, l.2, l.3, l.4, l.5, uses2);
        lemma_middle_differs(prev_hash + instance, g, grant_fields(l.1, l.2, uses2, l.4, l.5), e);
        lemma_middle_differs(l.0, g, grant_fields(l.1, l.2, uses2, l.4, l.5), e);
        assert(link_message(prev_hash, instance, l) =~= prev_hash + instance + g + e);
        assert(link_fields(l) =~= l.0 + g + e);
    }
    if expires2 != l.4 && expires2 != Some(0u64) && l.4 != Some(0u64) {
        lemma_grant_covers_expiry(l.1, l.2, l.3, l.4, l.5, expires2);
        lemma_middle_differs(prev_hash + instance, g, grant_fields(l.1, l.2, l.3, expires2, l.5), e);
        lemma_middle_differs(l.0, g, grant_fields(l.1, l.2, l.3, expires2, l.5), e);
        assert(link_message(prev_hash, instance, l) =~= prev_hash + instance + g + e);
        assert(link_fields(l) =~= l.0 + g + e);
    }
    if nonce2 != l.5 {
        lemma_grant_covers_nonce(l.1, l.2, l.3, l.4, l.5, nonce2);
        lemma_middle_differs(prev_hash + instance, g, grant_fields(l.1, l.2, l.3, l.4, nonce2), e);
        lemma_middle_differs(l.0, g, grant_fields(l.1, l.2, l.3, l.4, nonce2), e);
        assert(link_message(prev_hash, instance, l) =~= prev_hash + instance + g + e);
        assert(link_fields(l) =~= l.0 + g + e);
    }
}

} // verus!
