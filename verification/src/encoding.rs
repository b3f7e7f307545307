//! Crockford base32: RFC 4648 base32 (no padding), with the Crockford
//! alphabet `0123456789ABCDEFGHJKMNPQRSTVWXYZ` in place of `A-Z2-7`.

use vstd::prelude::*;
use crate::text::{decimal, push_char, push_decimal, push_str};

verus! {

/// The RFC 4648 base32 encoding of `bytes`, without padding, as ASCII bytes
/// (the result of `data_encoding::BASE32_NOPAD.encode`).
pub uninterp spec fn spec_base32_encode(bytes: Seq<u8>) -> Seq<u8>;

/// Why RFC 4648 text does not decode (`data_encoding::DecodeKind`).
#[derive(Debug, Clone, Copy, PartialEq, Eq, Structural)]
pub enum EncodingFailure {
    /// Invalid length.
    Length,
    /// Invalid symbol.
    Symbol,
    /// Non-zero trailing bits.
    Trailing,
    /// Invalid padding length.
    Padding,
}

/// A decoding error: where it was found, and why
/// (`data_encoding::DecodeError`).
#[derive(Debug, Clone, Copy, PartialEq, Eq, Structural)]
pub struct EncodingError {
    pub position: usize,
    pub kind: EncodingFailure,
}

/// What `data_encoding::BASE32_NOPAD.decode` returns for `text`: the decoded
/// bytes, or its error.
pub uninterp spec fn spec_base32_decode(text: Seq<u8>) -> Result<Seq<u8>, EncodingError>;

/// Base32 text `t` decodes to `b`.
pub open spec fn decodes_to(t: Seq<u8>, b: Seq<u8>) -> bool {
    spec_base32_decode(t) == Ok::<Seq<u8>, EncodingError>(b)
}

/// The text of a decoding failure, as `DecodeKind`'s `Display` writes it.
pub open spec fn failure_text(k: EncodingFailure) -> Seq<char> {
    match k {
        EncodingFailure::Length => "invalid length"@,
        EncodingFailure::Symbol => "invalid symbol"@,
        EncodingFailure::Trailing => "non-zero trailing bits"@,
        EncodingFailure::Padding => "invalid padding length"@,
    }
}

/// The text of a decoding error, as `DecodeError`'s `Display` writes it:
/// the failure, ` at `, and the position.
pub open spec fn error_text(e: EncodingError) -> Seq<char> {
    failure_text(e.kind) + " at "@ + decimal(e.position as nat)
}

/// What `str::to_uppercase` returns for a string with characters `s`.
pub uninterp spec fn spec_to_uppercase(s: Seq<char>) -> Seq<char>;

/// A symbol of the RFC 4648 base32 alphabet `A-Z2-7`.
pub open spec fn is_base32_symbol(b: u8) -> bool {
    (65u8 <= b <= 90u8) || (50u8 <= b <= 55u8)
}

/// Encodes with `data_encoding::BASE32_NOPAD`. The encoding of `n` bytes has
/// `ceil(8n / 5)` symbols of `A-Z2-7`, and decoding it gives the bytes back.
#[verifier::external_body]
fn base32_encode(bytes: &[u8]) -> (res: Vec<u8>)
    requires
        bytes@.len() <= usize::MAX / 512,
    ensures
        res@ == spec_base32_encode(bytes@),
        res@.len() == (8 * bytes@.len() + 4) / 5,
        forall|i: int| 0 <= i < res@.len() ==> is_base32_symbol(#[trigger] res@[i]),
        decodes_to(res@, bytes@),
{
    data_encoding::BASE32_NOPAD.encode(bytes).into_bytes()
}

/// Decodes with `data_encoding::BASE32_NOPAD`; its error is carried over
/// field for field.
#[verifier::external_body]
fn base32_decode(text: &[u8]) -> (res: Result<Vec<u8>, EncodingError>)
    requires
        text@.len() <= usize::MAX / 8,
    ensures
        match res {
            Ok(v) => decodes_to(text@, v@),
            Err(e) => spec_base32_decode(text@) == Err::<Seq<u8>, EncodingError>(e),
        },
{
    match data_encoding::BASE32_NOPAD.decode(text) {
        Ok(v) => Ok(v),
        Err(e) => Err(EncodingError {
            position: e.position,
            kind: match e.kind {
                data_encoding::DecodeKind::Length => EncodingFailure::Length,
                data_encoding::DecodeKind::Symbol => EncodingFailure::Symbol,
                data_encoding::DecodeKind::Trailing => EncodingFailure::Trailing,
                data_encoding::DecodeKind::Padding => EncodingFailure::Padding,
            },
        }),
    }
}

/// `str::to_uppercase`. On ASCII text it upper-cases `a-z` and keeps every
/// other character.
#[verifier::external_body]
pub fn to_uppercase(s: &str) -> (res: String)
    ensures
        res@ == spec_to_uppercase(s@),
        is_ascii_text(s@) ==> res@ == ascii_upper_text(s@),
{
    s.to_uppercase()
}

/// Every character of `s` is ASCII.
pub open spec fn is_ascii_text(s: Seq<char>) -> bool {
    forall|i: int| 0 <= i < s.len() ==> '\0' <= #[trigger] s[i] <= '\u{7f}'
}

/// The upper-cased text of `s`: ASCII upper-casing where `s` is ASCII,
/// `str::to_uppercase` otherwise.
pub open spec fn upper_text(s: Seq<char>) -> Seq<char> {
    if is_ascii_text(s) {
        ascii_upper_text(s)
    } else {
        spec_to_uppercase(s)
    }
}

/// ASCII upper-casing of every character of `s`.
pub open spec fn ascii_upper_text(s: Seq<char>) -> Seq<char> {
    s.map_values(|c: char| ascii_upper(c))
}

/// ASCII upper-casing of one character.
pub open spec fn ascii_upper(c: char) -> char {
    if 'a' <= c && c <= 'z' {
        ((c as u32) - 32) as char
    } else {
        c
    }
}

/// The Crockford base32 alphabet.
pub open spec fn crockford_alphabet() -> Seq<char> {
    seq![
        '0', '1', '2', '3', '4', '5', '6', '7', '8', '9', 'A', 'B', 'C', 'D', 'E', 'F',
        'G', 'H', 'J', 'K', 'M', 'N', 'P', 'Q', 'R', 'S', 'T', 'V', 'W', 'X', 'Y', 'Z',
    ]
}

/// The Crockford symbol standing for the RFC 4648 symbol `b`.
pub open spec fn to_crockford(b: u8) -> char {
    if 65u8 <= b <= 90u8 {
        crockford_alphabet()[(b - 65u8) as int]
    } else if 50u8 <= b <= 55u8 {
        crockford_alphabet()[26 + (b - 50u8)]
    } else {
        crockford_alphabet()[0]
    }
}

/// The position in the Crockford alphabet of the byte that `c` truncates to,
/// if it is there.
pub open spec fn crockford_index(c: char) -> Option<int> {
    let b = (c as u32 % 256) as u8;
    if exists|i: int| 0 <= i < 32 && crockford_alphabet()[i] as u32 == b as u32 {
        Some(choose|i: int| 0 <= i < 32 && crockford_alphabet()[i] as u32 == b as u32)
    } else {
        None
    }
}

/// The RFC 4648 symbol for position `i` of the alphabet.
pub open spec fn standard_symbol(i: int) -> u8 {
    if i < 26 {
        (65u8 + i) as u8
    } else {
        (50u8 + (i - 26)) as u8
    }
}

/// What `BASE32_NOPAD` guarantees of the encoding of `b`: `ceil(8n / 5)`
/// symbols of `A-Z2-7` that decode back to `b`.
pub open spec fn base32_facts(b: Seq<u8>) -> bool {
    &&& b.len() <= usize::MAX / 512
    &&& spec_base32_encode(b).len() == (8 * b.len() + 4) / 5
    &&& forall|i: int| 0 <= i < spec_base32_encode(b).len() ==> is_base32_symbol(#[trigger] spec_base32_encode(b)[i])
    &&& decodes_to(spec_base32_encode(b), b)
}

/// Crockford encoding of `bytes`.
pub open spec fn spec_crockford_encode(bytes: Seq<u8>) -> Seq<char> {
    spec_base32_encode(bytes).map_values(|b: u8| to_crockford(b))
}

/// Symbol `i` of the Crockford alphabet.
fn crockford_symbol(i: u8) -> (c: char)
    requires
        i < 32,
    ensures
        c == crockford_alphabet()[i as int],
{
    let alphabet: [char; 32] = [
        '0', '1', '2', '3', '4', '5', '6', '7', '8', '9', 'A', 'B', 'C', 'D', 'E', 'F',
        'G', 'H', 'J', 'K', 'M', 'N', 'P', 'Q', 'R', 'S', 'T', 'V', 'W', 'X', 'Y', 'Z',
    ];
    assert(alphabet@ =~= crockford_alphabet());
    alphabet[i as usize]
}

/// Encodes bytes as Crockford base32 (upper case).
pub fn crockford_encode(bytes: &[u8]) -> (res: String)
    requires
        bytes@.len() <= usize::MAX / 512,
    ensures
        res@ == spec_crockford_encode(bytes@),
        res@.len() == (8 * bytes@.len() + 4) / 5,
        base32_facts(bytes@),
{
    let standard = base32_encode(bytes);
    let mut out = String::new();
    let mut i: usize = 0;
    while i < standard.len()
        invariant
            0 <= i <= standard.len(),
            standard@ == spec_base32_encode(bytes@),
            out@ == standard@.take(i as int).map_values(|b: u8| to_crockford(b)),
        decreases standard.len() - i,
    {
        let b = standard[i];
        let idx: u8 = if 65u8 <= b && b <= 90u8 {
            b - 65u8
        } else if 50u8 <= b && b <= 55u8 {
            26 + (b - 50u8)
        } else {
            0
        };
        push_char(&mut out, crockford_symbol(idx));
        assert(standard@.take(i + 1) =~= standard@.take(i as int).push(b));
        assert(out@ =~= standard@.take(i + 1).map_values(|b: u8| to_crockford(b)));
        i = i + 1;
    }
    assert(standard@.take(standard.len() as int) =~= standard@);
    out
}

/// Every character of `u` names a Crockford symbol.
pub open spec fn all_crockford(u: Seq<char>) -> bool {
    forall|i: int| 0 <= i < u.len() ==> (#[trigger] crockford_index(u[i])) is Some
}

/// The RFC 4648 text that Crockford text `u` stands for.
pub open spec fn to_standard(u: Seq<char>) -> Seq<u8> {
    u.map_values(|c: char| standard_symbol(crockford_index(c)->0))
}

/// Position of `c` in the Crockford alphabet, comparing the byte `c`
/// truncates to.
fn crockford_position(c: char) -> (res: Option<u8>)
    ensures
        match res {
            Some(i) => crockford_index(c) == Some(i as int),
            None => crockford_index(c) is None,
        },
{
    let b: u32 = (c as u32) % 256;
    let mut k: u8 = 0;
    while k < 32
        invariant
            0 <= k <= 32,
            b == (c as u32 % 256) as u8 as u32,
            forall|j: int| 0 <= j < k ==> crockford_alphabet()[j] as u32 != b,
        decreases 32 - k,
    {
        if (crockford_symbol(k) as u32) == b {
            proof {
                let w = choose|i: int| 0 <= i < 32 && crockford_alphabet()[i] as u32 == (c as u32 % 256) as u8 as u32;
                lemma_alphabet_distinct(w, k as int);
            }
            return Some(k);
        }
        k = k + 1;
    }
    None
}

/// The alphabet is strictly increasing.
proof fn lemma_alphabet_increasing(x: int, y: int)
    requires
        0 <= x < y < 32,
    ensures
        (crockford_alphabet()[x] as u32) < (crockford_alphabet()[y] as u32),
    decreases y - x,
{
    let a = crockford_alphabet();
    assert(forall|k: int| 0 <= k < 31 ==> (a[k] as u32) < (#[trigger] a[k + 1] as u32));
    if y > x + 1 {
        lemma_alphabet_increasing(x, y - 1);
        assert((a[y - 1] as u32) < (a[y] as u32));
    }
}

/// The alphabet has no repeated symbol.
proof fn lemma_alphabet_distinct(i: int, j: int)
    requires
        0 <= i < 32,
        0 <= j < 32,
        crockford_alphabet()[i] as u32 == crockford_alphabet()[j] as u32,
    ensures
        i == j,
{
    if i < j {
        lemma_alphabet_increasing(i, j);
    } else if j < i {
        lemma_alphabet_increasing(j, i);
    }
}

/// The position of the first character of `u` outside the Crockford
/// alphabet; the length of `u` when there is none.
pub open spec fn first_non_crockford(u: Seq<char>) -> int
    decreases u.len(),
{
    if u.len() == 0 {
        0
    } else if crockford_index(u[0]) is None {
        0
    } else {
        1 + first_non_crockford(u.drop_first())
    }
}

proof fn lemma_first_non_crockford(u: Seq<char>, i: int)
    requires
        0 <= i <= u.len(),
        forall|k: int| 0 <= k < i ==> (#[trigger] crockford_index(u[k])) is Some,
        i < u.len() ==> crockford_index(u[i]) is None,
    ensures
        first_non_crockford(u) == i,
    decreases i,
{
    if i > 0 {
        let t = u.drop_first();
        assert forall|k: int| 0 <= k < i - 1 implies (#[trigger] crockford_index(t[k])) is Some by {
            assert(t[k] == u[k + 1]);
        }
        lemma_first_non_crockford(t, i - 1);
    }
}

/// What decoding Crockford text `s` gives: its upper-cased text must be of
/// the Crockford alphabet (the first character that is not is reported),
/// and the RFC 4648 text it stands for must decode (base32's error is
/// reported); text too long to size the decoded bytes in a `usize` is
/// refused.
pub open spec fn crockford_decode_spec(s: Seq<char>) -> Result<Seq<u8>, Seq<char>> {
    let u = upper_text(s);
    let i = first_non_crockford(u);
    if i < u.len() {
        Err("invalid crockford char: "@ + seq![u[i]])
    } else if u.len() > usize::MAX / 8 {
        Err("base32 decode: input too long"@)
    } else {
        match spec_base32_decode(to_standard(u)) {
            Ok(b) => Ok(b),
            Err(e) => Err("base32 decode: "@ + error_text(e)),
        }
    }
}

/// Appends the text of a decoding failure.
fn push_failure(out: &mut String, k: EncodingFailure)
    ensures
        final(out)@ == old(out)@ + failure_text(k),
{
    match k {
        EncodingFailure::Length => push_str(out, "invalid length"),
        EncodingFailure::Symbol => push_str(out, "invalid symbol"),
        EncodingFailure::Trailing => push_str(out, "non-zero trailing bits"),
        EncodingFailure::Padding => push_str(out, "invalid padding length"),
    }
}

/// Decodes Crockford base32 text (either case) back to bytes. Text that
/// `crockford_encode` produced from `b`, in either case, decodes to `b`.
pub fn crockford_decode(s: &str) -> (res: Result<Vec<u8>, String>)
    ensures
        match crockford_decode_spec(s@) {
            Ok(b) => res matches Ok(v) && v@ == b,
            Err(m) => res matches Err(t) && t@ == m,
        },
        forall|b: Seq<u8>| #[trigger] spec_crockford_encode(b) == ascii_upper_text(s@) && base32_facts(b)
            ==> (res matches Ok(v) && v@ == b),
{
    let upper = to_uppercase(s);
    let chars = crate::text::chars_of(upper.as_str());
    let ghost u = upper_text(s@);
    let mut standard: Vec<u8> = Vec::new();
    let mut i: usize = 0;
    while i < chars.len()
        invariant
            chars@ == u,
            u == upper_text(s@),
            0 <= i <= chars.len(),
            forall|k: int| 0 <= k < i ==> (#[trigger] crockford_index(u[k])) is Some,
            standard@ == to_standard(u.take(i as int)),
        decreases chars.len() - i,
    {
        let c = chars[i];
        match crockford_position(c) {
            Some(idx) => {
                let sym: u8 = if idx < 26 {
                    65u8 + idx
                } else {
                    50u8 + (idx - 26)
                };
                standard.push(sym);
                assert(u.take(i + 1) =~= u.take(i as int).push(c));
                assert(standard@ =~= to_standard(u.take(i + 1)));
            },
            None => {
                proof {
                    lemma_first_non_crockford(u, i as int);
                    lemma_encoded_is_crockford_text(s@, u);
                }
                let mut msg = String::new();
                push_str(&mut msg, "invalid crockford char: ");
                push_char(&mut msg, c);
                assert(msg@ =~= "invalid crockford char: "@ + seq![u[i as int]]);
                return Err(msg);
            },
        }
        i = i + 1;
    }
    assert(u.take(chars.len() as int) =~= u);
    proof {
        lemma_first_non_crockford(u, u.len() as int);
        lemma_encoded_is_crockford_text(s@, u);
    }
    if standard.len() > usize::MAX / 8 {
        let mut msg = String::new();
        push_str(&mut msg, "base32 decode: input too long");
        return Err(msg);
    }
    match base32_decode(&standard) {
        Ok(v) => Ok(v),
        Err(e) => {
            let mut msg = String::new();
            push_str(&mut msg, "base32 decode: ");
            push_failure(&mut msg, e.kind);
            push_str(&mut msg, " at ");
            push_decimal(&mut msg, e.position as u64);
            assert(msg@ =~= "base32 decode: "@ + error_text(e));
            Err(msg)
        },
    }
}

/// Text whose ASCII upper-casing is the Crockford text of `b` upper-cases
/// to that text, which maps back to the RFC 4648 text of `b`.
proof fn lemma_encoded_is_crockford_text(s: Seq<char>, u: Seq<char>)
    requires
        u == upper_text(s),
    ensures
        forall|b: Seq<u8>| #[trigger] spec_crockford_encode(b) == ascii_upper_text(s) && base32_facts(b)
            ==> u == ascii_upper_text(s) && all_crockford(u) && to_standard(u) == spec_base32_encode(b),
{
    assert forall|b: Seq<u8>| #[trigger] spec_crockford_encode(b) == ascii_upper_text(s) && base32_facts(b)
        implies u == ascii_upper_text(s) && all_crockford(u) && to_standard(u) == spec_base32_encode(b) by {
        let e = spec_base32_encode(b);
        let a = crockford_alphabet();
        let w = ascii_upper_text(s);
        assert(w.len() == s.len());
        assert(spec_crockford_encode(b).len() == e.len());
        assert forall|i: int| 0 <= i < s.len() implies '\0' <= #[trigger] s[i] <= '\u{7f}' by {
            assert(spec_crockford_encode(b)[i] == to_crockford(e[i]));
            assert(w[i] == to_crockford(e[i]));
            assert(is_base32_symbol(e[i]));
            assert(w[i] == ascii_upper(s[i]));
        }
        assert(is_ascii_text(s));
        assert(u =~= w);
        assert forall|i: int| 0 <= i < u.len() implies (#[trigger] crockford_index(u[i])) is Some
            && standard_symbol(crockford_index(u[i])->0) == e[i] by {
            assert(u[i] == to_crockford(e[i]));
            assert(is_base32_symbol(e[i]));
            let x: int = if 65 <= e[i] <= 90 { (e[i] - 65) as int } else { 26 + (e[i] - 50) };
            assert(a[x] == u[i]);
            assert(a[x] as u32 == (u[i] as u32 % 256) as u8 as u32);
            let k = crockford_index(u[i])->0;
            assert(a[k] as u32 == (u[i] as u32 % 256) as u8 as u32);
            lemma_alphabet_distinct(x, k);
        }
        assert(to_standard(u) =~= e);
    }
}

/// Crockford text round trip: text whose ASCII upper-casing is the
/// Crockford encoding of `b` (the encoding itself, or it in lower or mixed
/// case) decodes to `b`.
pub proof fn law_crockford_text_roundtrip(b: Seq<u8>, s: Seq<char>)
    requires
        base32_facts(b),
        ascii_upper_text(s) == spec_crockford_encode(b),
    ensures
        crockford_decode_spec(s) == Ok::<Seq<u8>, Seq<char>>(b),
{
    let u = upper_text(s);
    lemma_encoded_is_crockford_text(s, u);
    assert(all_crockford(u) && to_standard(u) == spec_base32_encode(b));
    lemma_first_non_crockford(u, u.len() as int);
    assert(u.len() == spec_crockford_encode(b).len());
    assert(u.len() <= usize::MAX / 8) by (nonlinear_arith)
        requires
            u.len() == (8 * b.len() + 4) / 5,
            b.len() <= usize::MAX / 512,
    ;
}

/// The URL-safe base64 text of `bytes`, without padding (what
/// `data_encoding::BASE64URL_NOPAD.encode` returns).
pub uninterp spec fn spec_base64url_encode(bytes: Seq<u8>) -> Seq<char>;

/// What `data_encoding::BASE64URL_NOPAD.decode` returns for `text`: the
/// decoded bytes, or its error.
pub uninterp spec fn spec_base64url_decode(text: Seq<u8>) -> Result<Seq<u8>, EncodingError>;

/// The bytes of ASCII text.
pub open spec fn ascii_bytes(s: Seq<char>) -> Seq<u8> {
    s.map_values(|c: char| c as u8)
}

/// What `BASE64URL_NOPAD` guarantees of the encoding of `b`: `ceil(8n / 6)`
/// ASCII symbols whose bytes decode back to `b`.
pub open spec fn base64_facts(b: Seq<u8>) -> bool {
    &&& spec_base64url_encode(b).len() == (8 * b.len() + 5) / 6
    &&& is_ascii_text(spec_base64url_encode(b))
    &&& decodes64_to(ascii_bytes(spec_base64url_encode(b)), b)
}

/// URL-safe base64 text `t` decodes to `b`.
pub open spec fn decodes64_to(t: Seq<u8>, b: Seq<u8>) -> bool {
    spec_base64url_decode(t) == Ok::<Seq<u8>, EncodingError>(b)
}

/// Encodes with `data_encoding::BASE64URL_NOPAD` (URL-safe base64,
/// unpadded). The encoding of `n` bytes has `ceil(8n / 6)` ASCII symbols,
/// and decoding their bytes gives the bytes back.
#[verifier::external_body]
pub(crate) fn base64_encode(bytes: &[u8]) -> (res: String)
    requires
        bytes@.len() <= usize::MAX / 512,
    ensures
        res@ == spec_base64url_encode(bytes@),
        res@.len() == (8 * bytes@.len() + 5) / 6,
        is_ascii_text(res@),
        decodes64_to(ascii_bytes(res@), bytes@),
{
    data_encoding::BASE64URL_NOPAD.encode(bytes)
}

/// Decodes with `data_encoding::BASE64URL_NOPAD`; its error is carried
/// over field for field.
#[verifier::external_body]
pub(crate) fn base64_decode(text: &[u8]) -> (res: Result<Vec<u8>, EncodingError>)
    requires
        text@.len() <= usize::MAX / 8,
    ensures
        match res {
            Ok(v) => spec_base64url_decode(text@) == Ok::<Seq<u8>, EncodingError>(v@),
            Err(e) => spec_base64url_decode(text@) == Err::<Seq<u8>, EncodingError>(e),
        },
{
    match data_encoding::BASE64URL_NOPAD.decode(text) {
        Ok(v) => Ok(v),
        Err(e) => Err(EncodingError {
            position: e.position,
            kind: match e.kind {
                data_encoding::DecodeKind::Length => EncodingFailure::Length,
                data_encoding::DecodeKind::Symbol => EncodingFailure::Symbol,
                data_encoding::DecodeKind::Trailing => EncodingFailure::Trailing,
                data_encoding::DecodeKind::Padding => EncodingFailure::Padding,
            },
        }),
    }
}

/// Appends the text of a decoding error, as `DecodeError`'s `Display`
/// writes it.
pub(crate) fn push_error_text(out: &mut String, e: EncodingError)
    ensures
        final(out)@ == old(out)@ + error_text(e),
{
    push_failure(out, e.kind);
    push_str(out, " at ");
    push_decimal(out, e.position as u64);
}

} // verus!
