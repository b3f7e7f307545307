//! Lowercase hexadecimal text for byte strings, as exchanged in the
//! WebSocket authentication handshake.

use vstd::prelude::*;
use vstd::utf8::{encode_utf8, is_continuation_byte};
use crate::text::push_char;

verus! {

/// The ASCII code of hex digit `n` (`0-9`, `a-f`).
pub open spec fn hex_symbol(n: int) -> u8 {
    if n < 10 {
        (48 + n) as u8
    } else {
        (87 + n) as u8
    }
}

/// The ASCII bytes of the lowercase hex text of `b`, two digits per byte.
pub open spec fn hex_bytes(b: Seq<u8>) -> Seq<u8> {
    Seq::new(
        2 * b.len(),
        |i: int|
            if i % 2 == 0 {
                hex_symbol((b[i / 2] / 16) as int)
            } else {
                hex_symbol((b[i / 2] % 16) as int)
            },
    )
}

/// The lowercase hex text of `b`.
pub open spec fn hex_text(b: Seq<u8>) -> Seq<char> {
    hex_bytes(b).map_values(|c: u8| c as char)
}

/// The character of hex digit `n < 16`.
fn hex_char(n: u8) -> (c: char)
    requires
        n < 16,
    ensures
        c == hex_symbol(n as int) as char,
{
    let digits: [char; 16] = ['0', '1', '2', '3', '4', '5', '6', '7', '8', '9', 'a', 'b', 'c', 'd', 'e', 'f'];
    let c = digits[n as usize];
    assert(c == hex_symbol(n as int) as char) by {
        assert(digits@ =~= seq!['0', '1', '2', '3', '4', '5', '6', '7', '8', '9', 'a', 'b', 'c', 'd', 'e', 'f']);
    }
    c
}

/// The lowercase hex text of `bytes`.
pub fn hex_encode(bytes: &[u8]) -> (res: String)
    ensures
        res@ == hex_text(bytes@),
{
    let mut out = String::new();
    let mut i: usize = 0;
    while i < bytes.len()
        invariant
            0 <= i <= bytes@.len(),
            out@ == hex_text(bytes@.take(i as int)),
        decreases bytes.len() - i,
    {
        let b = bytes[i];
        let ghost before = out@;
        push_char(&mut out, hex_char(b / 16));
        push_char(&mut out, hex_char(b % 16));
        assert(out@ =~= hex_text(bytes@.take(i + 1))) by {
            let t = bytes@.take(i + 1);
            assert(t.take(i as int) =~= bytes@.take(i as int));
            assert forall|k: int| 0 <= k < 2 * i implies #[trigger] hex_bytes(t)[k] == hex_bytes(
                bytes@.take(i as int),
            )[k] by {
                assert(t[k / 2] == bytes@.take(i as int)[k / 2]);
            }
        }
        i = i + 1;
    }
    assert(bytes@.take(bytes@.len() as int) =~= bytes@);
    out
}

/// The value of an ASCII hex digit of either case.
pub open spec fn hex_value(c: u8) -> Option<u8> {
    if 48 <= c <= 57 {
        Some((c - 48) as u8)
    } else if 97 <= c <= 102 {
        Some((c - 87) as u8)
    } else if 65 <= c <= 70 {
        Some((c - 55) as u8)
    } else {
        None
    }
}

/// The byte that two characters of hex text stand for, as a radix-16
/// parse of them reads it: two digits, or `+` and one digit.
pub open spec fn pair_value(b0: u8, b1: u8) -> Option<u8> {
    match hex_value(b1) {
        None => None,
        Some(lo) => match hex_value(b0) {
            Some(hi) => Some((16 * hi + lo) as u8),
            None => if b0 == 43 {
                Some(lo)
            } else {
                None
            },
        },
    }
}

/// Every pair of `b` stands for a byte.
pub open spec fn all_pairs_valid(b: Seq<u8>) -> bool {
    forall|k: int| 0 <= k < b.len() / 2 ==> (#[trigger] pair_value(b[2 * k], b[2 * k + 1])) is Some
}

/// What decoding the hex text with UTF-8 bytes `b` gives.
pub open spec fn hex_decode_spec(b: Seq<u8>) -> Option<Seq<u8>> {
    if b.len() % 2 != 0 {
        None
    } else if all_pairs_valid(b) {
        Some(Seq::new(b.len() / 2, |k: int| pair_value(b[2 * k], b[2 * k + 1])->0))
    } else {
        None
    }
}

/// Every even byte offset of `b` starts a character, so the text can be
/// cut into two-byte pieces.
pub open spec fn pairs_on_char_boundaries(b: Seq<u8>) -> bool {
    forall|i: int| 0 <= i < b.len() && i % 2 == 0 ==> !is_continuation_byte(#[trigger] b[i])
}

fn hex_value_exec(c: u8) -> (res: Option<u8>)
    ensures
        res == hex_value(c),
{
    if 48 <= c && c <= 57 {
        Some(c - 48)
    } else if 97 <= c && c <= 102 {
        Some(c - 87)
    } else if 65 <= c && c <= 70 {
        Some(c - 55)
    } else {
        None
    }
}

fn pair_value_exec(b0: u8, b1: u8) -> (res: Option<u8>)
    ensures
        res == pair_value(b0, b1),
{
    match hex_value_exec(b1) {
        None => None,
        Some(lo) => match hex_value_exec(b0) {
            Some(hi) => Some(16 * hi + lo),
            None => if b0 == 43 {
                Some(lo)
            } else {
                None
            },
        },
    }
}

/// Decodes hex text of either case; `None` for text of odd byte length or
/// with a pair that is not a radix-16 number.
pub fn hex_decode(hex: &str) -> (res: Option<Vec<u8>>)
    requires
        encode_utf8(hex@).len() % 2 == 0 ==> pairs_on_char_boundaries(encode_utf8(hex@)),
    ensures
        match hex_decode_spec(encode_utf8(hex@)) {
            Some(v) => res matches Some(r) && r@ == v,
            None => res is None,
        },
{
    let b = hex.as_bytes();
    if b.len() % 2 != 0 {
        return None;
    }
    let len = b.len();
    let n = len / 2;
    let mut out: Vec<u8> = Vec::new();
    let mut k: usize = 0;
    while k < n
        invariant
            0 <= k <= n,
            n == b@.len() / 2,
            len == b@.len(),
            b@.len() % 2 == 0,
            b@ == encode_utf8(hex@),
            out@.len() == k,
            forall|j: int| 0 <= j < k ==> (#[trigger] pair_value(b@[2 * j], b@[2 * j + 1])) is Some,
            forall|j: int| 0 <= j < k ==> out@[j] == pair_value(b@[2 * j], b@[2 * j + 1])->0,
        decreases n - k,
    {
        assert(2 * k + 1 < len);
        let pos: usize = 2 * k;
        match pair_value_exec(b[pos], b[pos + 1]) {
            Some(v) => {
                out.push(v);
            },
            None => {
                assert(!all_pairs_valid(b@));
                return None;
            },
        }
        k = k + 1;
    }
    assert(out@ =~= Seq::new(b@.len() / 2, |j: int| pair_value(b@[2 * j], b@[2 * j + 1])->0));
    Some(out)
}

/// Hex text is ASCII, and decoding it gives the bytes back.
pub proof fn law_hex_roundtrip(b: Seq<u8>)
    ensures
        vstd::utf8::encode_utf8(hex_text(b)) == hex_bytes(b),
        pairs_on_char_boundaries(hex_bytes(b)),
        hex_decode_spec(hex_bytes(b)) == Some(b),
{
    let h = hex_bytes(b);
    let t = hex_text(b);
    assert forall|i: int| 0 <= i < h.len() implies #[trigger] h[i] < 128 by {
        if i % 2 == 0 {
            assert(b[i / 2] / 16 < 16);
        } else {
            assert(b[i / 2] % 16 < 16);
        }
    }
    assert(vstd::utf8::is_ascii_chars(t));
    vstd::utf8::is_ascii_chars_encode_utf8(t);
    assert(vstd::utf8::encode_utf8(t) =~= h);
    assert forall|k: int| 0 <= k < h.len() / 2 implies (#[trigger] pair_value(h[2 * k], h[2 * k + 1])) == Some(
        b[k],
    ) by {
        assert((2 * k) / 2 == k);
        assert((2 * k + 1) / 2 == k);
        assert((2 * k) % 2 == 0);
        assert((2 * k + 1) % 2 == 1);
        let hi = b[k] / 16;
        let lo = b[k] % 16;
        assert(16 * hi + lo == b[k]);
    }
    assert(hex_decode_spec(h) =~= Some(b)) by {
        assert(h.len() / 2 == b.len());
        assert(Seq::new(h.len() / 2, |k: int| pair_value(h[2 * k], h[2 * k + 1])->0) =~= b);
    }
}

} // verus!
