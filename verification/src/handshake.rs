//! The challenge-response step of the WebSocket authentication handshake:
//! a client proves it holds a key by signing the server's nonce, and sends
//! the key and signature as hex text.

use vstd::prelude::*;
use vstd::utf8::encode_utf8;
use crate::capability::Capability;
use crate::text::push_str;
use crate::hex::{hex_decode, hex_decode_spec, pairs_on_char_boundaries};
use crate::keys::{is_zero_key, spec_ed25519_verify, verify, PublicKey, Signature};
use crate::signal::opt_view;
use crate::wire::{read_array32, read_array64};

verus! {

/// The hex text `h` is split into byte pairs on character boundaries, as
/// decoding it needs (an odd length is refused before any pair is read).
pub open spec fn decodable_hex(h: Seq<char>) -> bool {
    encode_utf8(h).len() % 2 == 0 ==> pairs_on_char_boundaries(encode_utf8(h))
}

/// What the challenge response with key `pk_hex` and signature `sig_hex`
/// gives for `nonce`: the key when it is 32 bytes, not the loopback key,
/// and the 64-byte signature verifies; otherwise the error to report, or
/// none when the hex text itself does not decode.
pub open spec fn challenge_outcome(nonce: Seq<u8>, pk_hex: Seq<char>, sig_hex: Seq<char>) -> Result<Seq<u8>, Option<Seq<char>>> {
    match hex_decode_spec(encode_utf8(pk_hex)) {
        None => Err(None),
        Some(pk) => if pk.len() != 32 {
            Err(Some("invalid public key length"@))
        } else if is_zero_key(pk) {
            Err(Some("loopback key not allowed remotely"@))
        } else {
            match hex_decode_spec(encode_utf8(sig_hex)) {
                None => Err(None),
                Some(sig) => if sig.len() != 64 {
                    Err(Some("invalid signature length"@))
                } else if !spec_ed25519_verify(pk, nonce, sig) {
                    Err(Some("signature verification failed"@))
                } else {
                    Ok(pk)
                },
            }
        },
    }
}

/// Checks a challenge response for `nonce`: the public key it names, or the
/// error message to send back (none when the hex does not decode, in which
/// case the connection is dropped without one).
pub fn verify_challenge_response(nonce: &[u8; 32], public_key_hex: &str, signature_hex: &str) -> (res: Result<
    PublicKey,
    Option<String>,
>)
    requires
        decodable_hex(public_key_hex@),
        decodable_hex(signature_hex@),
    ensures
        match challenge_outcome(nonce@, public_key_hex@, signature_hex@) {
            Ok(k) => res matches Ok(p) && p@ == k,
            Err(e) => res matches Err(r) && opt_view(r) == e,
        },
{
    let pk_bytes = match hex_decode(public_key_hex) {
        Some(b) => b,
        None => return Err(None),
    };
    if pk_bytes.len() != 32 {
        return Err(Some("invalid public key length".to_owned()));
    }
    let public_key = PublicKey::from_bytes(read_array32(pk_bytes.as_slice(), 0));
    proof {
        assert(pk_bytes@.subrange(0, 32) =~= pk_bytes@);
    }
    if public_key.is_loopback() {
        return Err(Some("loopback key not allowed remotely".to_owned()));
    }
    let sig_bytes = match hex_decode(signature_hex) {
        Some(b) => b,
        None => return Err(None),
    };
    if sig_bytes.len() != 64 {
        return Err(Some("invalid signature length".to_owned()));
    }
    let signature = Signature::from_bytes(read_array64(sig_bytes.as_slice(), 0));
    proof {
        assert(sig_bytes@.subrange(0, 64) =~= sig_bytes@);
    }
    match verify(&public_key, nonce.as_slice(), &signature) {
        Ok(()) => Ok(public_key),
        Err(_) => Err(Some("signature verification failed".to_owned())),
    }
}

/// Decides a loopback sign-in: allowed only on a connection from the
/// loopback interface, where the local user gets owner access; refused
/// elsewhere, with the error to send.
pub fn loopback_auth_step(is_loopback: bool) -> (res: Result<Capability, String>)
    ensures
        is_loopback ==> res == Ok::<Capability, String>(Capability::Owner),
        !is_loopback ==> (res matches Err(m) && m@ == "LoopbackAuth only allowed from loopback"@),
{
    if is_loopback {
        Ok(Capability::Owner)
    } else {
        let mut m = String::new();
        push_str(&mut m, "LoopbackAuth only allowed from loopback");
        Err(m)
    }
}

} // verus!
