//! Ed25519 key types, signatures, and standalone verification.
//!
//! A signing key is held as its 32-byte seed; every operation on it goes
//! through `ed25519_dalek`. The results of the Ed25519 functions are named
//! by `spec_ed25519_public`, `spec_ed25519_sign` and `spec_ed25519_verify`.

use vstd::prelude::*;
use vstd::string::StringSliceAdditionalSpecFns;
use crate::encoding::{
    ascii_bytes, base64_decode, base64_encode, base64_facts, crockford_encode, error_text, push_error_text,
    spec_base64url_decode, spec_base64url_encode, spec_crockford_encode,
};
use crate::error::AuthError;
use crate::text::{chars_of, push_char, push_str};
use ed25519_dalek::{Signer, Verifier};

verus! {

/// The Ed25519 public key (compressed point) derived from a 32-byte seed.
pub uninterp spec fn spec_ed25519_public(seed: Seq<u8>) -> Seq<u8>;

/// The Ed25519 signature of `msg` by the key with seed `seed`.
pub uninterp spec fn spec_ed25519_sign(seed: Seq<u8>, msg: Seq<u8>) -> Seq<u8>;

/// Whether `sig` is accepted by `ed25519_dalek` as a signature of `msg`
/// under the public key bytes `pk`.
pub uninterp spec fn spec_ed25519_verify(pk: Seq<u8>, msg: Seq<u8>, sig: Seq<u8>) -> bool;

/// `ed25519_dalek::SigningKey::from_bytes(seed).verifying_key().to_bytes()`.
#[verifier::external_body]
fn ed25519_public(seed: &[u8; 32]) -> (res: [u8; 32])
    ensures
        res@ == spec_ed25519_public(seed@),
{
    ed25519_dalek::SigningKey::from_bytes(seed).verifying_key().to_bytes()
}

/// `ed25519_dalek::SigningKey::from_bytes(seed).sign(msg)`. A signature made
/// this way verifies under the key's own public key.
#[verifier::external_body]
fn ed25519_sign(seed: &[u8; 32], msg: &[u8]) -> (res: [u8; 64])
    ensures
        res@ == spec_ed25519_sign(seed@, msg@),
        spec_ed25519_verify(spec_ed25519_public(seed@), msg@, res@),
{
    ed25519_dalek::SigningKey::from_bytes(seed).sign(msg).to_bytes()
}

/// `ed25519_dalek::VerifyingKey::from_bytes(pk)` followed by `verify`:
/// `true` when both succeed.
#[verifier::external_body]
fn ed25519_verify(pk: &[u8; 32], msg: &[u8], sig: &[u8; 64]) -> (res: bool)
    ensures
        res == spec_ed25519_verify(pk@, msg@, sig@),
{
    match ed25519_dalek::VerifyingKey::from_bytes(pk) {
        Ok(vk) => vk.verify(msg, &ed25519_dalek::Signature::from_bytes(sig)).is_ok(),
        Err(_) => false,
    }
}

/// An Ed25519 public key.
#[derive(Debug, Clone, Copy, PartialEq, Eq, Hash)]
pub struct PublicKey([u8; 32]);

impl View for PublicKey {
    type V = Seq<u8>;

    closed spec fn view(&self) -> Seq<u8> {
        self.0@
    }
}

/// The key bytes are 32 zeros.
pub open spec fn is_zero_key(k: Seq<u8>) -> bool {
    forall|i: int| 0 <= i < k.len() ==> k[i] == 0
}

/// The fingerprint text of a key: `crab_` and the first 8 Crockford symbols
/// of its bytes.
pub open spec fn fingerprint_of(k: Seq<u8>) -> Seq<char> {
    "crab_"@ + spec_crockford_encode(k).take(8)
}

/// A public key is 32 bytes.
pub broadcast proof fn lemma_public_key_len(k: PublicKey)
    ensures
        (#[trigger] k@).len() == 32,
{
}

/// Text round trip of a key: the text `to_base64` writes for a key reads
/// back (`from_base64`) to that key.
pub proof fn law_public_key_text_roundtrip(k: PublicKey, t: &str)
    requires
        t@ == spec_base64url_encode(k@),
        base64_facts(k@),
    ensures
        t.spec_bytes().len() <= usize::MAX / 8,
        spec_base64url_decode(t.spec_bytes()) == Ok::<Seq<u8>, crate::encoding::EncodingError>(k@),
        k@.len() == 32,
{
    lemma_public_key_len(k);
    assert(vstd::string::is_ascii(t));
    vstd::string::is_ascii_spec_bytes(t);
    assert(t.spec_bytes() =~= ascii_bytes(t@));
}

/// Keys with the same bytes are the same key.
pub proof fn lemma_public_key_view_injective(a: PublicKey, b: PublicKey)
    ensures
        a@ == b@ ==> a == b,
{
    if a@ == b@ {
        assert forall|i: int| 0 <= i < 32 implies a.0[i] == b.0[i] by {
            assert(a.0@[i] == b.0@[i]);
        }
        assert(a.0 == b.0);
    }
}

/// A signature is 64 bytes.
pub broadcast proof fn lemma_signature_len(s: Signature)
    ensures
        (#[trigger] s@).len() == 64,
{
}

/// The views of a sequence of keys.
pub open spec fn keys_view(v: Seq<PublicKey>) -> Seq<Seq<u8>> {
    v.map_values(|k: PublicKey| k@)
}

/// A copy of a list of keys.
pub fn copy_keys(v: &Vec<PublicKey>) -> (res: Vec<PublicKey>)
    ensures
        keys_view(res@) == keys_view(v@),
{
    let mut res: Vec<PublicKey> = Vec::new();
    let mut i: usize = 0;
    while i < v.len()
        invariant
            0 <= i <= v.len(),
            keys_view(res@) =~= keys_view(v@).take(i as int),
        decreases v.len() - i,
    {
        let k = PublicKey(v[i].0);
        res.push(k);
        assert(keys_view(v@).take(i + 1) =~= keys_view(v@).take(i as int).push(v@[i as int]@));
        i = i + 1;
    }
    assert(keys_view(v@).take(v.len() as int) =~= keys_view(v@));
    res
}

impl PublicKey {
    /// The loopback sentinel, 32 zero bytes, used for local CLI/TUI connections.
    pub fn loopback() -> (res: PublicKey)
        ensures
            res@.len() == 32,
            is_zero_key(res@),
    {
        PublicKey([0u8; 32])
    }

    pub fn from_bytes(bytes: [u8; 32]) -> (res: Self)
        ensures
            res@ == bytes@,
    {
        PublicKey(bytes)
    }

    pub fn as_bytes(&self) -> (res: &[u8; 32])
        ensures
            res@ == self@,
    {
        &self.0
    }

    /// The text form of the key: its bytes in URL-safe base64, unpadded.
    pub fn to_base64(&self) -> (res: String)
        ensures
            res@ == spec_base64url_encode(self@),
            base64_facts(self@),
    {
        base64_encode(self.0.as_slice())
    }

    /// Reads the text form of a key: the text must be URL-safe base64 (the
    /// decoding error is reported) of exactly 32 bytes.
    pub fn from_base64(text: &str) -> (res: Result<PublicKey, String>)
        requires
            text.spec_bytes().len() <= usize::MAX / 8,
        ensures
            match spec_base64url_decode(text.spec_bytes()) {
                Ok(b) => if b.len() == 32 {
                    res matches Ok(k) && k@ == b
                } else {
                    res matches Err(m) && m@ == "public key must be 32 bytes"@
                },
                Err(e) => res matches Err(m) && m@ == error_text(e),
            },
    {
        match base64_decode(text.as_bytes()) {
            Ok(v) => {
                if v.len() != 32 {
                    let mut m = String::new();
                    push_str(&mut m, "public key must be 32 bytes");
                    return Err(m);
                }
                let mut key = [0u8; 32];
                let mut i: usize = 0;
                while i < 32
                    invariant
                        0 <= i <= 32,
                        v@.len() == 32,
                        forall|j: int| 0 <= j < i ==> key@[j] == v@[j],
                    decreases 32 - i,
                {
                    key[i] = v[i];
                    i = i + 1;
                }
                assert(key@ =~= v@);
                Ok(PublicKey(key))
            },
            Err(e) => {
                let mut m = String::new();
                push_error_text(&mut m, e);
                Err(m)
            },
        }
    }

    /// Whether this is the loopback sentinel.
    pub fn is_loopback(&self) -> (res: bool)
        ensures
            res == is_zero_key(self@),
    {
        let mut i: usize = 0;
        while i < 32
            invariant
                0 <= i <= 32,
                self@.len() == 32,
                forall|k: int| 0 <= k < i ==> self@[k] == 0,
            decreases 32 - i,
        {
            if self.0[i] != 0 {
                return false;
            }
            i = i + 1;
        }
        true
    }

    /// `crab_` followed by the first 8 Crockford base32 symbols of the key.
    pub fn fingerprint(&self) -> (res: String)
        ensures
            res@ == fingerprint_of(self@),
    {
        let encoded = crockford_encode(self.0.as_slice());
        let chars = chars_of(encoded.as_str());
        assert(chars@.len() == 52);
        let mut out = String::new();
        push_str(&mut out, "crab_");
        let mut i: usize = 0;
        while i < 8
            invariant
                0 <= i <= 8,
                chars@.len() == 52,
                chars@ == spec_crockford_encode(self@),
                out@ == "crab_"@ + chars@.take(i as int),
            decreases 8 - i,
        {
            push_char(&mut out, chars[i]);
            assert(chars@.take(i + 1) =~= chars@.take(i as int).push(chars@[i as int]));
            i = i + 1;
        }
        out
    }
}

/// An Ed25519 signature.
#[derive(Debug, Clone, Copy, PartialEq, Eq)]
pub struct Signature([u8; 64]);

impl View for Signature {
    type V = Seq<u8>;

    closed spec fn view(&self) -> Seq<u8> {
        self.0@
    }
}

impl Signature {
    pub fn from_bytes(bytes: [u8; 64]) -> (res: Self)
        ensures
            res@ == bytes@,
    {
        Signature(bytes)
    }

    pub fn as_bytes(&self) -> (res: &[u8; 64])
        ensures
            res@ == self@,
    {
        &self.0
    }
}

/// An Ed25519 signing key, held as its 32-byte seed.
#[derive(Clone)]
pub struct SigningKey {
    seed: [u8; 32],
}

impl View for SigningKey {
    type V = Seq<u8>;

    closed spec fn view(&self) -> Seq<u8> {
        self.seed@
    }
}

impl SigningKey {
    /// A fresh key from `rng` (`ed25519_dalek::SigningKey::generate`).
    #[verifier::external_body]
    pub fn generate<R: rand::CryptoRng + rand::RngCore>(rng: &mut R) -> Self {
        SigningKey { seed: ed25519_dalek::SigningKey::generate(rng).to_bytes() }
    }

    /// Reconstructs a key from its 32-byte seed.
    pub fn from_bytes(bytes: [u8; 32]) -> (res: Self)
        ensures
            res@ == bytes@,
    {
        SigningKey { seed: bytes }
    }

    /// The 32-byte seed.
    pub fn to_bytes(&self) -> (res: [u8; 32])
        ensures
            res@ == self@,
    {
        self.seed
    }

    /// The public key of this key.
    pub fn public_key(&self) -> (res: PublicKey)
        ensures
            res@ == spec_ed25519_public(self@),
    {
        PublicKey(ed25519_public(&self.seed))
    }

    /// Signs `message`.
    pub fn sign(&self, message: &[u8]) -> (res: Signature)
        ensures
            res@ == spec_ed25519_sign(self@, message@),
            spec_ed25519_verify(spec_ed25519_public(self@), message@, res@),
    {
        Signature(ed25519_sign(&self.seed, message))
    }
}

/// Checks that `signature` is a valid signature of `message` by `public_key`.
pub fn verify(public_key: &PublicKey, message: &[u8], signature: &Signature) -> (res: Result<(), AuthError>)
    ensures
        res is Ok <==> spec_ed25519_verify(public_key@, message@, signature@),
        res matches Err(e) ==> e is InvalidSignature,
{
    if ed25519_verify(&public_key.0, message, &signature.0) {
        Ok(())
    } else {
        Err(AuthError::InvalidSignature)
    }
}

} // verus!
