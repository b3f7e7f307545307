//! Self-issued identity proofs linking a user's keys across instances.
//!
//! Binary layout: version (1) | subject (32) | instance (32) | key count
//! (u32 BE) | keys (32 each) | handle flag (1) [| handle length (u16 BE) |
//! handle UTF-8] | timestamp (u64 BE) | signature (64).

use vstd::prelude::*;
use vstd::utf8::{decode_utf8, encode_utf8, valid_utf8};
use crate::error::AuthError;
use crate::keys::{
    copy_keys, keys_view, spec_ed25519_public,
    spec_ed25519_verify, verify, PublicKey, Signature, SigningKey,
};
use crate::text::{push_decimal, push_str};
use crate::wire::{
    be_u16, be_u32, be_u64, lemma_encode_utf8_differs, lemma_middle_differs, lemma_u16_roundtrip, lemma_u32_roundtrip, lemma_u64_roundtrip,
    push_bytes, push_u16_be, push_u32_be, push_u64_be, read_array32, read_array64, read_u16_be,
    read_u32_be, read_u64_be, u16_be, u32_be, u64_be,
};

verus! {

/// Whether `std::str::from_utf8` accepts `b`, and the string it gives.
#[verifier::external_body]
pub fn utf8_to_string(b: &[u8]) -> (res: Option<String>)
    ensures
        res is Some <==> valid_utf8(b@),
        res matches Some(s) ==> s@ == decode_utf8(b@),
{
    match std::str::from_utf8(b) {
        Ok(s) => Some(s.to_string()),
        Err(_) => None,
    }
}

/// Self-issued identity proof linking a user's keys across instances.
#[derive(Debug, Clone, PartialEq, Eq)]
pub struct IdentityProof {
    pub version: u8,
    pub subject: PublicKey,
    pub instance: PublicKey,
    pub related_keys: Vec<PublicKey>,
    pub registry_handle: Option<String>,
    pub timestamp: u64,
    pub signature: Signature,
}

/// The verified content of a proof.
#[derive(Debug, Clone)]
pub struct IdentityProofClaims {
    pub subject: PublicKey,
    pub instance: PublicKey,
    pub related_keys: Vec<PublicKey>,
    pub registry_handle: Option<String>,
    pub timestamp: u64,
}

/// The view of a proof: version, subject, instance, related keys, handle,
/// timestamp and signature.
pub type ProofView = (u8, Seq<u8>, Seq<u8>, Seq<Seq<u8>>, Option<Seq<char>>, u64, Seq<u8>);

/// The view of an optional string.
pub open spec fn opt_str_view(h: Option<String>) -> Option<Seq<char>> {
    match h {
        Some(s) => Some(s@),
        None => None,
    }
}

impl View for IdentityProof {
    type V = ProofView;

    open spec fn view(&self) -> ProofView {
        (
            self.version,
            self.subject@,
            self.instance@,
            keys_view(self.related_keys@),
            opt_str_view(self.registry_handle),
            self.timestamp,
            self.signature@,
        )
    }
}

/// The keys' bytes one after the other.
pub open spec fn flatten_keys(ks: Seq<Seq<u8>>) -> Seq<u8>
    decreases ks.len(),
{
    if ks.len() == 0 {
        Seq::empty()
    } else {
        flatten_keys(ks.drop_last()) + ks.last()
    }
}

/// The handle section: a 0 byte, or a 1 byte, the UTF-8 length (u16 BE,
/// truncated) and the UTF-8 bytes.
pub open spec fn handle_section(h: Option<Seq<char>>) -> Seq<u8> {
    match h {
        Some(h) => seq![1u8] + u16_be(encode_utf8(h).len() as u16) + encode_utf8(h),
        None => seq![0u8],
    }
}

/// The fields after the version byte, up to the timestamp.
pub open spec fn proof_fields(
    subject: Seq<u8>,
    instance: Seq<u8>,
    keys: Seq<Seq<u8>>,
    handle: Option<Seq<char>>,
    timestamp: u64,
) -> Seq<u8> {
    subject + instance + u32_be(keys.len() as u32) + flatten_keys(keys) + handle_section(handle) + u64_be(
        timestamp,
    )
}

/// The message a proof's signature covers (always with version byte 1).
pub open spec fn proof_message(
    subject: Seq<u8>,
    instance: Seq<u8>,
    keys: Seq<Seq<u8>>,
    handle: Option<Seq<char>>,
    timestamp: u64,
) -> Seq<u8> {
    seq![1u8] + proof_fields(subject, instance, keys, handle, timestamp)
}

/// The binary encoding of a proof.
pub open spec fn encode_proof(v: ProofView) -> Seq<u8> {
    seq![v.0] + proof_fields(v.1, v.2, v.3, v.4, v.5) + v.6
}

/// A proof is accepted: version 1 and a signature by its subject over its
/// message.
pub open spec fn proof_accepted(v: ProofView) -> bool {
    v.0 == 1 && spec_ed25519_verify(v.1, proof_message(v.1, v.2, v.3, v.4, v.5), v.6)
}

/// Appends the handle section.
fn push_handle_section(buf: &mut Vec<u8>, handle: &Option<String>)
    ensures
        final(buf)@ == old(buf)@ + handle_section(opt_str_view(*handle)),
{
    match handle {
        Some(h) => {
            let hb = h.as_str().as_bytes();
            buf.push(1u8);
            push_u16_be(buf, hb.len() as u16);
            push_bytes(buf, hb);
            assert(buf@ =~= old(buf)@ + handle_section(opt_str_view(*handle)));
        },
        None => {
            buf.push(0u8);
            assert(buf@ =~= old(buf)@ + handle_section(opt_str_view(*handle)));
        },
    }
}

/// Appends the proof fields after the version byte.
fn push_proof_fields(
    buf: &mut Vec<u8>,
    subject: &PublicKey,
    instance: &PublicKey,
    related_keys: &Vec<PublicKey>,
    handle: &Option<String>,
    timestamp: u64,
)
    ensures
        final(buf)@ == old(buf)@ + proof_fields(
            subject@,
            instance@,
            keys_view(related_keys@),
            opt_str_view(*handle),
            timestamp,
        ),
{
    let ghost start = buf@;
    push_bytes(buf, subject.as_bytes().as_slice());
    push_bytes(buf, instance.as_bytes().as_slice());
    push_u32_be(buf, related_keys.len() as u32);
    let ghost before_keys = buf@;
    let ghost kv = keys_view(related_keys@);
    let mut i: usize = 0;
    while i < related_keys.len()
        invariant
            0 <= i <= related_keys.len(),
            kv == keys_view(related_keys@),
            buf@ == before_keys + flatten_keys(kv.take(i as int)),
        decreases related_keys.len() - i,
    {
        push_bytes(buf, related_keys[i].as_bytes().as_slice());
        assert(kv.take(i + 1).drop_last() =~= kv.take(i as int));
        assert(buf@ =~= before_keys + flatten_keys(kv.take(i + 1)));
        i = i + 1;
    }
    assert(kv.take(related_keys.len() as int) =~= kv);
    push_handle_section(buf, handle);
    push_u64_be(buf, timestamp);
    assert(buf@ =~= start + proof_fields(subject@, instance@, kv, opt_str_view(*handle), timestamp));
}

/// Parse errors of the binary decoder.
#[derive(Debug, Clone, Copy, PartialEq, Eq)]
pub enum ProofParseError {
    TooShort,
    KeyCountExceedsMax(u32),
    TruncatedKeys,
    TruncatedHandleLen,
    TruncatedHandle,
    InvalidUtf8Handle,
    TruncatedTrailer,
}

/// The related keys stored from offset 69 on.
pub open spec fn stored_keys(b: Seq<u8>, count: nat) -> Seq<Seq<u8>> {
    Seq::new(count, |i: int| b.subrange(69 + 32 * i, 69 + 32 * i + 32))
}

/// The timestamp and signature from offset `q` on, and the proof they end.
pub open spec fn parse_trailer(b: Seq<u8>, q: int, keys: Seq<Seq<u8>>, handle: Option<Seq<char>>) -> Result<
    ProofView,
    ProofParseError,
> {
    if b.len() < q + 72 {
        Err(ProofParseError::TruncatedTrailer)
    } else {
        Ok(
            (
                b[0],
                b.subrange(1, 33),
                b.subrange(33, 65),
                keys,
                handle,
                be_u64(b.subrange(q, q + 8)),
                b.subrange(q + 8, q + 72),
            ),
        )
    }
}

/// What decoding `b` gives. Bytes after the signature are ignored.
pub open spec fn parse_proof(b: Seq<u8>) -> Result<ProofView, ProofParseError> {
    if b.len() < 69 {
        Err(ProofParseError::TooShort)
    } else {
        let kc = be_u32(b.subrange(65, 69));
        if kc > 256 {
            Err(ProofParseError::KeyCountExceedsMax(kc))
        } else if b.len() < 69 + kc * 32 + 1 {
            Err(ProofParseError::TruncatedKeys)
        } else {
            let keys = stored_keys(b, kc as nat);
            let p = 69 + kc * 32;
            if b[p] == 1 {
                if b.len() < p + 3 {
                    Err(ProofParseError::TruncatedHandleLen)
                } else {
                    let hl = be_u16(b.subrange(p + 1, p + 3));
                    if b.len() < p + 3 + hl {
                        Err(ProofParseError::TruncatedHandle)
                    } else if !valid_utf8(b.subrange(p + 3, p + 3 + hl)) {
                        Err(ProofParseError::InvalidUtf8Handle)
                    } else {
                        parse_trailer(b, p + 3 + hl, keys, Some(decode_utf8(b.subrange(p + 3, p + 3 + hl))))
                    }
                }
            } else {
                parse_trailer(b, p + 1, keys, None)
            }
        }
    }
}

/// The message text of each decoding error.
pub open spec fn parse_error_text(e: ProofParseError) -> Seq<char> {
    match e {
        ProofParseError::TooShort => "too short"@,
        ProofParseError::KeyCountExceedsMax(n) => "key count "@ + crate::text::decimal(n as nat)
            + " exceeds maximum 256"@,
        ProofParseError::TruncatedKeys => "truncated keys"@,
        ProofParseError::TruncatedHandleLen => "truncated handle length"@,
        ProofParseError::TruncatedHandle => "truncated handle"@,
        ProofParseError::InvalidUtf8Handle => "invalid utf8 in handle"@,
        ProofParseError::TruncatedTrailer => "truncated timestamp/signature"@,
    }
}

impl IdentityProof {
    /// Maximum number of related keys allowed in an identity proof.
    pub const MAX_RELATED_KEYS: usize = 256;

    /// The message a proof's signature covers.
    fn signing_message(
        subject: &PublicKey,
        instance: &PublicKey,
        related_keys: &Vec<PublicKey>,
        handle: &Option<String>,
        timestamp: u64,
    ) -> (res: Vec<u8>)
        ensures
            res@ == proof_message(
                subject@,
                instance@,
                keys_view(related_keys@),
                opt_str_view(*handle),
                timestamp,
            ),
    {
        let mut msg: Vec<u8> = Vec::new();
        msg.push(1u8);
        push_proof_fields(&mut msg, subject, instance, related_keys, handle, timestamp);
        assert(msg@ =~= proof_message(subject@, instance@, keys_view(related_keys@), opt_str_view(*handle), timestamp));
        msg
    }

    /// Signs a new identity proof whose subject is the signing key's public key.
    pub fn sign(
        signing_key: &SigningKey,
        instance: &PublicKey,
        related_keys: Vec<PublicKey>,
        handle: Option<String>,
        timestamp: u64,
    ) -> (res: Self)
        ensures
            res@ == (
                1u8,
                spec_ed25519_public(signing_key@),
                instance@,
                keys_view(related_keys@),
                opt_str_view(handle),
                timestamp,
                res.signature@,
            ),
            proof_accepted(res@),
    {
        let subject = signing_key.public_key();
        let msg = Self::signing_message(&subject, instance, &related_keys, &handle, timestamp);
        let signature = signing_key.sign(msg.as_slice());
        IdentityProof {
            version: 1u8,
            subject,
            instance: *instance,
            related_keys,
            registry_handle: handle,
            timestamp,
            signature,
        }
    }

    /// Verifies the proof's version and signature; returns its claims.
    pub fn verify(&self) -> (res: Result<IdentityProofClaims, AuthError>)
        ensures
            res is Ok <==> proof_accepted(self@),
            res matches Ok(c) ==> c.subject@ == self.subject@ && c.instance@ == self.instance@
                && keys_view(c.related_keys@) == keys_view(self.related_keys@) && opt_str_view(
                c.registry_handle,
            ) == opt_str_view(self.registry_handle) && c.timestamp == self.timestamp,
            res matches Err(e) ==> e is InvalidSignature,
    {
        if self.version != 1u8 {
            return Err(AuthError::InvalidSignature);
        }
        let msg = Self::signing_message(
            &self.subject,
            &self.instance,
            &self.related_keys,
            &self.registry_handle,
            self.timestamp,
        );
        match verify(&self.subject, msg.as_slice(), &self.signature) {
            Ok(()) => {},
            Err(e) => {
                return Err(e);
            },
        }
        let handle = match &self.registry_handle {
            Some(h) => Some(h.clone()),
            None => None,
        };
        Ok(
            IdentityProofClaims {
                subject: self.subject,
                instance: self.instance,
                related_keys: copy_keys(&self.related_keys),
                registry_handle: handle,
                timestamp: self.timestamp,
            },
        )
    }

    /// Compact binary encoding.
    pub fn to_bytes(&self) -> (res: Vec<u8>)
        ensures
            res@ == encode_proof(self@),
    {
        let mut buf: Vec<u8> = Vec::new();
        buf.push(self.version);
        push_proof_fields(
            &mut buf,
            &self.subject,
            &self.instance,
            &self.related_keys,
            &self.registry_handle,
            self.timestamp,
        );
        push_bytes(&mut buf, self.signature.as_bytes().as_slice());
        assert(buf@ =~= encode_proof(self@));
        buf
    }
}

impl IdentityProof {
    /// Core binary parser.
    fn parse_bytes(bytes: &[u8]) -> (res: Result<Self, ProofParseError>)
        ensures
            match parse_proof(bytes@) {
                Ok(v) => res matches Ok(p) && p@ == v,
                Err(e) => res == Err::<Self, ProofParseError>(e),
            },
    {
        if bytes.len() < 69 {
            return Err(ProofParseError::TooShort);
        }
        let version = bytes[0];
        let subject = PublicKey::from_bytes(read_array32(bytes, 1));
        let instance = PublicKey::from_bytes(read_array32(bytes, 33));
        let key_count = read_u32_be(bytes, 65);
        if key_count as usize > Self::MAX_RELATED_KEYS {
            return Err(ProofParseError::KeyCountExceedsMax(key_count));
        }
        let kc = key_count as usize;
        if bytes.len() < 69 + kc * 32 + 1 {
            return Err(ProofParseError::TruncatedKeys);
        }
        let mut related_keys: Vec<PublicKey> = Vec::new();
        let mut pos: usize = 69;
        let mut i: usize = 0;
        while i < kc
            invariant
                kc <= 256,
                bytes@.len() >= 69 + kc * 32 + 1,
                bytes@.len() == bytes.len(),
                0 <= i <= kc,
                pos == 69 + 32 * i,
                keys_view(related_keys@) =~= stored_keys(bytes@, i as nat),
            decreases kc - i,
        {
            let k = PublicKey::from_bytes(read_array32(bytes, pos));
            let ghost before = keys_view(related_keys@);
            related_keys.push(k);
            proof {
                assert(keys_view(related_keys@) =~= before.push(k@));
                let next = stored_keys(bytes@, (i + 1) as nat);
                assert forall|j: int| 0 <= j < i + 1 implies #[trigger] keys_view(related_keys@)[j] == next[j] by {
                    if j < i {
                        assert(before[j] == stored_keys(bytes@, i as nat)[j]);
                    }
                }
            }
            pos = pos + 32;
            i = i + 1;
        }
        let has_handle = bytes[pos];
        pos = pos + 1;
        let registry_handle: Option<String> = if has_handle == 1u8 {
            if bytes.len() < pos + 2 {
                return Err(ProofParseError::TruncatedHandleLen);
            }
            let hl = read_u16_be(bytes, pos) as usize;
            pos = pos + 2;
            if bytes.len() < pos + hl {
                return Err(ProofParseError::TruncatedHandle);
            }
            let hb: &[u8] = &bytes[pos..pos + hl];
            assert(hb@ == bytes@.subrange(pos as int, pos + hl));
            match utf8_to_string(hb) {
                Some(h) => {
                    pos = pos + hl;
                    Some(h)
                },
                None => {
                    return Err(ProofParseError::InvalidUtf8Handle);
                },
            }
        } else {
            None
        };
        if bytes.len() < pos + 72 {
            return Err(ProofParseError::TruncatedTrailer);
        }
        let timestamp = read_u64_be(bytes, pos);
        let signature = Signature::from_bytes(read_array64(bytes, pos + 8));
        let res = IdentityProof {
            version,
            subject,
            instance,
            related_keys,
            registry_handle,
            timestamp,
            signature,
        };
        Ok(res)
    }

    /// Parses the binary encoding.
    pub fn from_bytes(bytes: &[u8]) -> (res: Result<Self, AuthError>)
        ensures
            match parse_proof(bytes@) {
                Ok(v) => res matches Ok(p) && p@ == v,
                Err(e) => res matches Err(AuthError::InvalidIdentityProof(m)) && m@ == parse_error_text(e),
            },
    {
        match Self::parse_bytes(bytes) {
            Ok(p) => Ok(p),
            Err(e) => {
                let mut m = String::new();
                match e {
                    ProofParseError::TooShort => push_str(&mut m, "too short"),
                    ProofParseError::KeyCountExceedsMax(n) => {
                        push_str(&mut m, "key count ");
                        push_decimal(&mut m, n as u64);
                        push_str(&mut m, " exceeds maximum 256");
                    },
                    ProofParseError::TruncatedKeys => push_str(&mut m, "truncated keys"),
                    ProofParseError::TruncatedHandleLen => push_str(&mut m, "truncated handle length"),
                    ProofParseError::TruncatedHandle => push_str(&mut m, "truncated handle"),
                    ProofParseError::InvalidUtf8Handle => push_str(&mut m, "invalid utf8 in handle"),
                    ProofParseError::TruncatedTrailer => push_str(&mut m, "truncated timestamp/signature"),
                }
                Err(AuthError::InvalidIdentityProof(m))
            },
        }
    }
}

// --- Laws ---

/// The flattened keys have 32 bytes per key, each key in its slot.
pub proof fn lemma_flatten_keys(ks: Seq<Seq<u8>>)
    requires
        forall|i: int| 0 <= i < ks.len() ==> (#[trigger] ks[i]).len() == 32,
    ensures
        flatten_keys(ks).len() == 32 * ks.len(),
        forall|i: int| 0 <= i < ks.len() ==> #[trigger] flatten_keys(ks).subrange(32 * i, 32 * i + 32) == ks[i],
    decreases ks.len(),
{
    if ks.len() > 0 {
        let init = ks.drop_last();
        lemma_flatten_keys(init);
        let f = flatten_keys(ks);
        assert(f == flatten_keys(init) + ks.last());
        assert forall|i: int| 0 <= i < ks.len() implies #[trigger] f.subrange(32 * i, 32 * i + 32) == ks[i] by {
            if i < ks.len() - 1 {
                assert(init[i] == ks[i]);
                assert(f.subrange(32 * i, 32 * i + 32) =~= flatten_keys(init).subrange(32 * i, 32 * i + 32));
            } else {
                assert(f.subrange(32 * i, 32 * i + 32) =~= ks.last());
            }
        }
    }
}

/// A proof claiming more than `IdentityProof::MAX_RELATED_KEYS` related
/// keys is refused, whatever else it holds.
pub proof fn law_key_count_bound_enforced(b: Seq<u8>)
    requires
        b.len() >= 69,
        be_u32(b.subrange(65, 69)) > IdentityProof::MAX_RELATED_KEYS,
    ensures
        parse_proof(b) is Err,
{
}

/// A proof whose parts have their sizes: 32-byte keys, a 64-byte
/// signature, at most 256 related keys and a handle of at most 65535 bytes.
pub open spec fn proof_encodable(v: ProofView) -> bool {
    &&& v.1.len() == 32
    &&& v.2.len() == 32
    &&& v.6.len() == 64
    &&& v.3.len() <= 256
    &&& forall|i: int| 0 <= i < v.3.len() ==> (#[trigger] v.3[i]).len() == 32
    &&& v.4 matches Some(h) ==> encode_utf8(h).len() <= 65535
}

/// Decoding the encoding of a proof gives the proof back.
#[verifier::spinoff_prover]
#[verifier::rlimit(60)]
pub proof fn law_proof_bytes_roundtrip(v: ProofView)
    requires
        proof_encodable(v),
    ensures
        parse_proof(encode_proof(v)) == Ok::<ProofView, ProofParseError>(v),
{
    broadcast use vstd::utf8::encode_utf8_valid_utf8, vstd::utf8::encode_utf8_decode_utf8;

    let n: int = v.3.len() as int;
    lemma_flatten_keys(v.3);
    let f = flatten_keys(v.3);
    let h = handle_section(v.4);
    let b = encode_proof(v);
    let head = seq![v.0] + v.1 + v.2 + u32_be(n as u32);
    assert(b =~= head + f + h + u64_be(v.5) + v.6);
    assert(b.subrange(65, 69) =~= u32_be(n as u32));
    lemma_u32_roundtrip(n as u32);
    let kc = be_u32(b.subrange(65, 69));
    assert(kc == n);
    let p: int = 69 + 32 * n;
    assert forall|i: int| 0 <= i < n implies #[trigger] stored_keys(b, n as nat)[i] == v.3[i] by {
        assert(b.subrange(69 + 32 * i, 69 + 32 * i + 32) =~= f.subrange(32 * i, 32 * i + 32));
    }
    assert(stored_keys(b, n as nat) =~= v.3);
    assert(b[0] == v.0);
    assert(b.subrange(1, 33) =~= v.1);
    assert(b.subrange(33, 65) =~= v.2);
    match v.4 {
        Some(hs) => {
            let e = encode_utf8(hs);
            let hl = e.len() as u16;
            assert(h =~= seq![1u8] + u16_be(hl) + e);
            assert(b[p] == 1);
            assert(b.subrange(p + 1, p + 3) =~= u16_be(hl));
            lemma_u16_roundtrip(hl);
            assert(be_u16(b.subrange(p + 1, p + 3)) == e.len());
            assert(b.subrange(p + 3, p + 3 + e.len()) =~= e);
            let q: int = p + 3 + e.len();
            assert(b.subrange(q, q + 8) =~= u64_be(v.5));
            lemma_u64_roundtrip(v.5);
            assert(b.subrange(q + 8, q + 72) =~= v.6);
        },
        None => {
            assert(b[p] == 0);
            let q: int = p + 1;
            assert(b.subrange(q, q + 8) =~= u64_be(v.5));
            lemma_u64_roundtrip(v.5);
            assert(b.subrange(q + 8, q + 72) =~= v.6);
        },
    }
}


/// Different handles have different handle sections.
proof fn lemma_handle_section_differs(h1: Option<Seq<char>>, h2: Option<Seq<char>>)
    requires
        h1 != h2,
    ensures
        handle_section(h1) != handle_section(h2),
{
    match (h1, h2) {
        (Some(a), Some(b)) => {
            lemma_encode_utf8_differs(a, b);
            let ea = encode_utf8(a);
            let eb = encode_utf8(b);
            if ea.len() == eb.len() {
                let x = seq![1u8] + u16_be(ea.len() as u16);
                assert(handle_section(h1) =~= x + ea + Seq::<u8>::empty());
                assert(handle_section(h2) =~= x + eb + Seq::<u8>::empty());
                lemma_middle_differs(x, ea, eb, Seq::<u8>::empty());
            } else {
                assert(handle_section(h1).len() == 3 + ea.len());
                assert(handle_section(h2).len() == 3 + eb.len());
            }
        },
        (Some(a), None) => {
            assert(handle_section(h1)[0] == 1u8);
            assert(handle_section(h2)[0] == 0u8);
        },
        (None, Some(b)) => {
            assert(handle_section(h1)[0] == 0u8);
            assert(handle_section(h2)[0] == 1u8);
        },
        (None, None) => {},
    }
}

proof fn lemma_message_covers_handle(
    subject: Seq<u8>,
    instance: Seq<u8>,
    keys: Seq<Seq<u8>>,
    handle: Option<Seq<char>>,
    timestamp: u64,
    handle2: Option<Seq<char>>,
)
    requires
        handle != handle2,
    ensures
        proof_message(subject, instance, keys, handle, timestamp) != proof_message(
            subject,
            instance,
            keys,
            handle2,
            timestamp,
        ),
{
    lemma_handle_section_differs(handle, handle2);
    let x = seq![1u8] + subject + instance + u32_be(keys.len() as u32) + flatten_keys(keys);
    let z = u64_be(timestamp);
    assert(proof_message(subject, instance, keys, handle, timestamp) =~= x + handle_section(handle) + z);
    assert(proof_message(subject, instance, keys, handle2, timestamp) =~= x + handle_section(handle2) + z);
    lemma_middle_differs(x, handle_section(handle), handle_section(handle2), z);
}

proof fn lemma_message_covers_timestamp(
    subject: Seq<u8>,
    instance: Seq<u8>,
    keys: Seq<Seq<u8>>,
    handle: Option<Seq<char>>,
    timestamp: u64,
    timestamp2: u64,
)
    requires
        timestamp != timestamp2,
    ensures
        proof_message(subject, instance, keys, handle, timestamp) != proof_message(
            subject,
            instance,
            keys,
            handle,
            timestamp2,
        ),
{
    lemma_u64_roundtrip(timestamp);
    lemma_u64_roundtrip(timestamp2);
    let x = seq![1u8] + subject + instance + u32_be(keys.len() as u32) + flatten_keys(keys) + handle_section(handle);
    let z = Seq::<u8>::empty();
    assert(proof_message(subject, instance, keys, handle, timestamp) =~= x + u64_be(timestamp) + z);
    assert(proof_message(subject, instance, keys, handle, timestamp2) =~= x + u64_be(timestamp2) + z);
    lemma_middle_differs(x, u64_be(timestamp), u64_be(timestamp2), z);
}

proof fn lemma_message_covers_subject(
    subject: Seq<u8>,
    instance: Seq<u8>,
    keys: Seq<Seq<u8>>,
    handle: Option<Seq<char>>,
    timestamp: u64,
    subject2: Seq<u8>,
)
    requires
        subject != subject2,
    ensures
        proof_message(subject, instance, keys, handle, timestamp) != proof_message(
            subject2,
            instance,
            keys,
            handle,
            timestamp,
        ),
{
    let x = seq![1u8];
    let z = instance + u32_be(keys.len() as u32) + flatten_keys(keys) + handle_section(handle) + u64_be(timestamp);
    assert(proof_message(subject, instance, keys, handle, timestamp) =~= x + subject + z);
    assert(proof_message(subject2, instance, keys, handle, timestamp) =~= x + subject2 + z);
    lemma_middle_differs(x, subject, subject2, z);
}

proof fn lemma_message_covers_instance(
    subject: Seq<u8>,
    instance: Seq<u8>,
    keys: Seq<Seq<u8>>,
    handle: Option<Seq<char>>,
    timestamp: u64,
    instance2: Seq<u8>,
)
    requires
        instance != instance2,
    ensures
        proof_message(subject, instance, keys, handle, timestamp) != proof_message(
            subject,
            instance2,
            keys,
            handle,
            timestamp,
        ),
{
    let x = seq![1u8] + subject;
    let z = u32_be(keys.len() as u32) + flatten_keys(keys) + handle_section(handle) + u64_be(timestamp);
    assert(proof_message(subject, instance, keys, handle, timestamp) =~= x + instance + z);
    assert(proof_message(subject, instance2, keys, handle, timestamp) =~= x + instance2 + z);
    lemma_middle_differs(x, instance, instance2, z);
}

proof fn lemma_message_covers_keys(
    subject: Seq<u8>,
    instance: Seq<u8>,
    keys: Seq<Seq<u8>>,
    handle: Option<Seq<char>>,
    timestamp: u64,
    keys2: Seq<Seq<u8>>,
)
    requires
        keys != keys2,
        forall|i: int| 0 <= i < keys.len() ==> (#[trigger] keys[i]).len() == 32,
        forall|i: int| 0 <= i < keys2.len() ==> (#[trigger] keys2[i]).len() == 32,
    ensures
        proof_message(subject, instance, keys, handle, timestamp) != proof_message(
            subject,
            instance,
            keys2,
            handle,
            timestamp,
        ),
{
    lemma_flatten_keys(keys);
    lemma_flatten_keys(keys2);
    let m1 = u32_be(keys.len() as u32) + flatten_keys(keys);
    let m2 = u32_be(keys2.len() as u32) + flatten_keys(keys2);
    if keys.len() == keys2.len() {
        assert(!(keys =~= keys2));
        let i = choose|i: int| 0 <= i < keys.len() && keys[i] != keys2[i];
        assert(flatten_keys(keys).subrange(32 * i, 32 * i + 32) == keys[i]);
        assert(flatten_keys(keys2).subrange(32 * i, 32 * i + 32) == keys2[i]);
        assert(m1.subrange(4, m1.len() as int) =~= flatten_keys(keys));
        assert(m2.subrange(4, m2.len() as int) =~= flatten_keys(keys2));
    } else {
        assert(m1.len() != m2.len());
    }
    let x = seq![1u8] + subject + instance;
    let z = handle_section(handle) + u64_be(timestamp);
    assert(proof_message(subject, instance, keys, handle, timestamp) =~= x + m1 + z);
    assert(proof_message(subject, instance, keys2, handle, timestamp) =~= x + m2 + z);
    lemma_middle_differs(x, m1, m2, z);
}

/// A proof's signature covers every field of the proof: the subject, the
/// instance, the related keys (32 bytes each), the registry handle and the
/// timestamp. Messages of proofs that differ in any one of them, the others
/// kept, differ, so a signature made for one does not carry over to the
/// other.
pub proof fn law_proof_message_covers_every_field(
    subject: Seq<u8>,
    instance: Seq<u8>,
    keys: Seq<Seq<u8>>,
    handle: Option<Seq<char>>,
    timestamp: u64,
    subject2: Seq<u8>,
    instance2: Seq<u8>,
    keys2: Seq<Seq<u8>>,
    handle2: Option<Seq<char>>,
    timestamp2: u64,
)
    requires
        forall|i: int| 0 <= i < keys.len() ==> (#[trigger] keys[i]).len() == 32,
        forall|i: int| 0 <= i < keys2.len() ==> (#[trigger] keys2[i]).len() == 32,
    ensures
        subject != subject2 ==> proof_message(subject, instance, keys, handle, timestamp) != proof_message(subject2, instance, keys, handle, timestamp),
        instance != instance2 ==> proof_message(subject, instance, keys, handle, timestamp) != proof_message(subject, instance2, keys, handle, timestamp),
        keys != keys2 ==> proof_message(subject, instance, keys, handle, timestamp) != proof_message(subject, instance, keys2, handle, timestamp),
        handle != handle2 ==> proof_message(subject, instance, keys, handle, timestamp) != proof_message(subject, instance, keys, handle2, timestamp),
        timestamp != timestamp2 ==> proof_message(subject, instance, keys, handle, timestamp) != proof_message(subject, instance, keys, handle, timestamp2),
{
    if subject != subject2 {
        lemma_message_covers_subject(subject, instance, keys, handle, timestamp, subject2);
    }
    if instance != instance2 {
        lemma_message_covers_instance(subject, instance, keys, handle, timestamp, instance2);
    }
    if keys != keys2 {
        lemma_message_covers_keys(subject, instance, keys, handle, timestamp, keys2);
    }
    if handle != handle2 {
        lemma_message_covers_handle(subject, instance, keys, handle, timestamp, handle2);
    }
    if timestamp != timestamp2 {
        lemma_message_covers_timestamp(subject, instance, keys, handle, timestamp, timestamp2);
    }
}

} // verus!
