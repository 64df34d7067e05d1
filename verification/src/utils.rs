//! Utility functions: randomness, constant-time comparison, hashing, key
//! derivation and text encodings.
//!
//! The hex codec is implemented and verified here; the other helpers are
//! trusted wrappers around the outside crates that provide them.

use vstd::prelude::*;
use vstd::string::StrSliceExecFns;
use rand::RngCore;
use sha3::Digest;
use base64::Engine;
use crate::keys::CryptoError;
use crate::primitives::{
    base64_of, blake3_of, hkdf_sha3_512_of, sha3_512_of, string_from_ascii,
};

verus! {

/// Relies on rand::thread_rng / RngCore::fill_bytes for random bytes;
/// nothing is assumed of the values.
#[verifier::external_body]
pub fn random_bytes<const N: usize>() -> [u8; N] {
    let mut bytes = [0u8; N];
    rand::thread_rng().fill_bytes(&mut bytes);
    bytes
}

/// Relies on rand::thread_rng / RngCore::fill_bytes for random bytes;
/// nothing is assumed of the values beyond the length.
#[verifier::external_body]
pub fn random_vec(len: usize) -> (r: Vec<u8>)
    ensures
        r@.len() == len,
{
    let mut bytes = vec![0u8; len];
    rand::thread_rng().fill_bytes(&mut bytes);
    bytes
}

/// Relies on subtle::ConstantTimeEq for byte slices: true exactly when the
/// two slices are equal; the comparison runs in constant time for slices of
/// equal length.
#[verifier::external_body]
pub fn constant_time_eq(a: &[u8], b: &[u8]) -> (r: bool)
    ensures
        r == (a@ == b@),
{
    subtle::ConstantTimeEq::ct_eq(a, b).into()
}

/// Relies on hkdf::Hkdf over sha3::Sha3_512 (extract with no salt, then
/// expand with `info`): the output is determined by ikm, info and length
/// alone; expand fails only when more than 255 * 64 bytes are requested,
/// which the precondition rules out.
#[verifier::external_body]
pub fn hkdf_expand(ikm: &[u8], info: &[u8], len: usize) -> (r: Vec<u8>)
    requires
        len <= 16320,
    ensures
        r@ == hkdf_sha3_512_of(ikm@, info@, len as int),
        r@.len() == len,
{
    let hk = hkdf::Hkdf::<sha3::Sha3_512>::new(None, ikm);
    let mut okm = vec![0u8; len];
    hk.expand(info, &mut okm).expect("requested length is within the HKDF bound");
    okm
}

/// Relies on blake3::hash: a 32-byte digest determined by the input alone.
#[verifier::external_body]
pub fn blake3_hash(data: &[u8]) -> (r: Vec<u8>)
    ensures
        r@ == blake3_of(data@),
        r@.len() == 32,
{
    blake3::hash(data).as_bytes().to_vec()
}

/// Relies on sha3::Sha3_512 (Digest::digest): a 64-byte digest determined by
/// the input alone.
#[verifier::external_body]
pub fn sha3_512_hash(data: &[u8]) -> (r: Vec<u8>)
    ensures
        r@ == sha3_512_of(data@),
        r@.len() == 64,
{
    sha3::Sha3_512::digest(data).to_vec()
}

/// Relies on base64::engine::general_purpose::STANDARD.encode: the standard
/// base64 text determined by the input alone.
#[verifier::external_body]
pub fn base64_encode(data: &[u8]) -> (r: String)
    ensures
        r@ == base64_of(data@),
{
    base64::engine::general_purpose::STANDARD.encode(data)
}

/// The error type of base64 decoding, declared so that it can appear in the
/// result of `base64_decode`.
#[verifier::external_type_specification]
#[verifier::external_body]
pub struct ExBase64DecodeError(base64::DecodeError);

/// Relies on base64::engine::general_purpose::STANDARD.decode: it inverts
/// STANDARD.encode.
#[verifier::external_body]
pub fn base64_decode(s: &str) -> (r: Result<Vec<u8>, base64::DecodeError>)
    ensures
        forall|b: Seq<u8>| s@ == #[trigger] base64_of(b) ==> r is Ok && r->Ok_0@ == b,
{
    base64::engine::general_purpose::STANDARD.decode(s)
}

// ---------------------------------------------------------------------------
// Hex codec (verified)
// ---------------------------------------------------------------------------

/// The ASCII code of the lowercase hex digit for a value below 16.
pub open spec fn hex_digit_val(v: u8) -> u8 {
    if v < 10 {
        (v + 48) as u8
    } else {
        (v + 87) as u8
    }
}

/// The lowercase hex digit character for a value below 16.
pub open spec fn hex_digit(v: u8) -> char {
    hex_digit_val(v) as char
}

/// The lowercase hex expansion of a byte sequence: two digits per byte,
/// high nibble first.
pub open spec fn hex_chars_of(data: Seq<u8>) -> Seq<char> {
    Seq::new(
        data.len() * 2,
        |i: int|
            if i % 2 == 0 {
                hex_digit(data[i / 2] >> 4)
            } else {
                hex_digit(data[i / 2] & 0x0f)
            },
    )
}

/// The value of a hex digit character, upper or lower case; -1 for any
/// other character.
pub open spec fn hex_char_val(c: char) -> int {
    if 48 <= c as int <= 57 {
        c as int - 48
    } else if 97 <= c as int <= 102 {
        c as int - 87
    } else if 65 <= c as int <= 70 {
        c as int - 55
    } else {
        -1
    }
}

/// Whether a character is a hex digit.
pub open spec fn is_hex_char(c: char) -> bool {
    hex_char_val(c) >= 0
}

/// The byte sequence denoted by an even-length sequence of hex digits.
pub open spec fn hex_bytes_of(s: Seq<char>) -> Seq<u8> {
    Seq::new(s.len() / 2, |j: int| (hex_char_val(s[2 * j]) * 16 + hex_char_val(s[2 * j + 1])) as u8)
}

/// The ASCII code of the lowercase hex digit for a nibble.
fn hex_digit_byte(v: u8) -> (r: u8)
    requires
        v < 16,
    ensures
        r == hex_digit_val(v),
        r < 128,
{
    if v < 10 {
        v + 48
    } else {
        v + 87
    }
}

/// Encode bytes as lowercase hex text.
pub fn hex_encode(data: &[u8]) -> (r: String)
    ensures
        r@ == hex_chars_of(data@),
{
    let mut ascii: Vec<u8> = Vec::new();
    let mut k: usize = 0;
    while k < data.len()
        invariant
            k <= data@.len(),
            ascii@.len() == 2 * k,
            forall|i: int|
                0 <= i < ascii@.len() ==> ascii@[i] == (if i % 2 == 0 {
                    hex_digit_val(data@[i / 2] >> 4)
                } else {
                    hex_digit_val(data@[i / 2] & 0x0f)
                }),
            forall|i: int| 0 <= i < ascii@.len() ==> ascii@[i] < 128,
        decreases data@.len() - k,
    {
        let b = data[k];
        proof {
            assert(b >> 4 < 16 && b & 0x0f < 16) by (bit_vector);
        }
        ascii.push(hex_digit_byte(b >> 4));
        ascii.push(hex_digit_byte(b & 0x0f));
        k += 1;
    }
    let s = string_from_ascii(ascii);
    proof {
        assert(s@ =~= hex_chars_of(data@));
    }
    s
}

/// Decode hex text into bytes.  Fails with `InvalidKey` exactly when the
/// text has odd length or holds a character that is no hex digit.
pub fn hex_decode(s: &str) -> (r: Result<Vec<u8>, CryptoError>)
    ensures
        r is Ok <==> s@.len() % 2 == 0 && (forall|i: int| 0 <= i < s@.len() ==> is_hex_char(s@[i])),
        r is Ok ==> r->Ok_0@ == hex_bytes_of(s@),
        r is Err ==> r->Err_0 is InvalidKey,
{
    let n = s.unicode_len();
    if n % 2 != 0 {
        return Err(CryptoError::InvalidKey("hex text must have even length".to_owned()));
    }
    let mut out: Vec<u8> = Vec::new();
    let mut j: usize = 0;
    while j < n / 2
        invariant
            j <= n / 2,
            n == s@.len(),
            n % 2 == 0,
            out@.len() == j,
            forall|i: int| 0 <= i < 2 * j ==> is_hex_char(s@[i]),
            forall|t: int| 0 <= t < j ==> out@[t] == hex_bytes_of(s@)[t],
        decreases n / 2 - j,
    {
        let hi = match hex_char_value(s.get_char(2 * j)) {
            Some(v) => v,
            None => {
                return Err(CryptoError::InvalidKey("not a hex digit".to_owned()));
            },
        };
        let lo = match hex_char_value(s.get_char(2 * j + 1)) {
            Some(v) => v,
            None => {
                return Err(CryptoError::InvalidKey("not a hex digit".to_owned()));
            },
        };
        out.push(hi * 16 + lo);
        j += 1;
    }
    proof {
        assert(out@ =~= hex_bytes_of(s@));
    }
    Ok(out)
}

/// The value of one hex digit character, or `None` if it is no hex digit.
fn hex_char_value(c: char) -> (r: Option<u8>)
    ensures
        r is Some <==> is_hex_char(c),
        r is Some ==> r->Some_0 == hex_char_val(c) && r->Some_0 < 16,
{
    let code = c as u32;
    if 48 <= code && code <= 57 {
        Some((code - 48) as u8)
    } else if 97 <= code && code <= 102 {
        Some((code - 87) as u8)
    } else if 65 <= code && code <= 70 {
        Some((code - 55) as u8)
    } else {
        None
    }
}

/// Round trip of the hex codec: decoding the encoding of any byte sequence
/// gives the bytes back.
pub proof fn lemma_hex_round_trip(data: Seq<u8>)
    ensures
        hex_chars_of(data).len() % 2 == 0,
        forall|i: int| 0 <= i < hex_chars_of(data).len() ==> is_hex_char(hex_chars_of(data)[i]),
        hex_bytes_of(hex_chars_of(data)) =~= data,
{
    let s = hex_chars_of(data);
    assert forall|i: int| 0 <= i < s.len() implies is_hex_char(s[i]) by {
        let b = data[i / 2];
        let v = if i % 2 == 0 {
            b >> 4
        } else {
            b & 0x0f
        };
        assert(b >> 4 < 16 && b & 0x0f < 16) by (bit_vector);
        assert(hex_char_val(hex_digit(v)) == v as int);
    }
    assert forall|j: int| 0 <= j < data.len() implies hex_bytes_of(s)[j] == data[j] by {
        let b: u8 = data[j];
        assert(b >> 4 < 16 && b & 0x0f < 16) by (bit_vector);
        assert(hex_char_val(s[2 * j]) == (b >> 4) as int);
        assert(hex_char_val(s[2 * j + 1]) == (b & 0x0f) as int);
        assert((b >> 4) * 16 + (b & 0x0f) == b) by (bit_vector);
    }
}

} // verus!
