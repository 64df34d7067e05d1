//! LSB steganography over a tightly packed RGB raster.
//!
//! The payload is framed as a 4-byte little-endian length followed by the
//! payload bytes; bits are written MSB-first into the least significant bit
//! of each channel byte, row-major, channels R, G, B in order.

use vstd::prelude::*;
use vstd::bytes::{spec_u32_from_le_bytes, spec_u32_to_le_bytes, u32_from_le_bytes, u32_to_le_bytes};
use crate::byteops::{clone_bytes, extend_from, slice_range};
use crate::keys::CryptoError;

verus! {

/// LSB steganography codec.
pub struct Steganography;

/// Bit `i` of a byte sequence, MSB-first within each byte.
pub open spec fn bit_of(data: Seq<u8>, i: int) -> u8 {
    (data[i / 8] >> ((7 - (i % 8)) as u8)) & 1
}

/// The raster with the bits of `data` embedded in the least significant
/// bits of its leading bytes; all later bytes are unchanged.
pub open spec fn embedded_bytes(cover: Seq<u8>, data: Seq<u8>) -> Seq<u8> {
    Seq::new(
        cover.len(),
        |i: int|
            if i < 8 * data.len() {
                (cover[i] & 0xfe) | bit_of(data, i)
            } else {
                cover[i]
            },
    )
}

/// The byte assembled from the least significant bits of the eight raster
/// bytes that carry byte `j`.
pub open spec fn lsb_byte(stego: Seq<u8>, j: int) -> u8 {
    ((stego[8 * j] & 1) << 7) | ((stego[8 * j + 1] & 1) << 6) | ((stego[8 * j + 2] & 1) << 5) | ((
    stego[8 * j + 3] & 1) << 4) | ((stego[8 * j + 4] & 1) << 3) | ((stego[8 * j + 5] & 1) << 2) | ((
    stego[8 * j + 6] & 1) << 1) | (stego[8 * j + 7] & 1)
}

/// The first `count` bytes carried by the least significant bits of a raster.
pub open spec fn extracted_bytes(stego: Seq<u8>, count: int) -> Seq<u8> {
    Seq::new(count as nat, |j: int| lsb_byte(stego, j))
}

/// The length-prefixed framing of a payload.
pub open spec fn framed(message: Seq<u8>) -> Seq<u8> {
    spec_u32_to_le_bytes(message.len() as u32) + message
}

impl Steganography {
    /// Embed a length-prefixed payload in the least significant bits of a
    /// cover raster.  Fails with `Encryption` exactly when the payload does
    /// not fit the capacity of the raster.
    pub fn encode_lsb(cover_image: &[u8], width: usize, height: usize, message: &[u8]) -> (r:
        Result<Vec<u8>, CryptoError>)
        requires
            cover_image@.len() == width * height * 3,
            width * height * 3 <= usize::MAX,
        ensures
            r is Ok <==> message@.len() <= 0xffff_ffff && message@.len() + 4 <= (width * height
                * 3) / 8,
            r is Ok ==> r->Ok_0@ == embedded_bytes(cover_image@, framed(message@)),
            r is Err ==> r->Err_0 is Encryption,
    {
        let capacity = width * height * 3 / 8;
        if capacity < 4 || message.len() > capacity - 4 {
            return Err(CryptoError::Encryption("message too large for the cover image".to_owned()));
        }
        if message.len() > 0xffff_ffff {
            return Err(CryptoError::Encryption("message too large to frame".to_owned()));
        }
        let mut data = u32_to_le_bytes(message.len() as u32);
        extend_from(&mut data, message);
        proof {
            assert(data@ =~= framed(message@));
        }
        proof {
            vstd::arithmetic::div_mod::lemma_fundamental_div_mod(cover_image@.len() as int, 8);
            assert(8 * data@.len() <= cover_image@.len());
        }
        let total_bits = data.len() * 8;
        let mut result = clone_bytes(cover_image);
        let mut i: usize = 0;
        while i < total_bits
            invariant
                total_bits == 8 * data@.len(),
                total_bits <= cover_image@.len(),
                cover_image@.len() <= usize::MAX,
                i <= total_bits,
                result@.len() == cover_image@.len(),
                forall|t: int| 0 <= t < i ==> result@[t] == (cover_image@[t] & 0xfe) | bit_of(
                    data@,
                    t,
                ),
                forall|t: int| i <= t < cover_image@.len() ==> result@[t] == cover_image@[t],
            decreases total_bits - i,
        {
            let byte_index = i / 8;
            let shift: u8 = (7 - (i % 8)) as u8;
            let bit = (data[byte_index] >> shift) & 1;
            let cur = result[i];
            result.set(i, (cur & 0xfe) | bit);
            i += 1;
        }
        proof {
            assert(result@ =~= embedded_bytes(cover_image@, data@));
        }
        Ok(result)
    }

    /// Extract a length-prefixed payload from the least significant bits of
    /// a raster.  Fails with `Decryption` exactly when the raster is too
    /// small to carry the length prefix or the declared length exceeds its
    /// capacity.
    pub fn decode_lsb(stego_image: &[u8], width: usize, height: usize) -> (r: Result<
        Vec<u8>,
        CryptoError,
    >)
        requires
            stego_image@.len() == width * height * 3,
            width * height * 3 <= usize::MAX,
        ensures
            ({
                let count = (width * height * 3) / 8;
                let data = extracted_bytes(stego_image@, count);
                &&& (r is Ok <==> count >= 4 && spec_u32_from_le_bytes(data.subrange(0, 4)) + 4
                    <= count)
                &&& (r is Ok ==> r->Ok_0@ == data.subrange(
                    4,
                    4 + spec_u32_from_le_bytes(data.subrange(0, 4)) as int,
                ))
                &&& (r is Err ==> r->Err_0 is Decryption)
            }),
    {
        let byte_count = width * height * 3 / 8;
        if byte_count < 4 {
            return Err(CryptoError::Decryption("stego data too short".to_owned()));
        }
        proof {
            vstd::arithmetic::div_mod::lemma_fundamental_div_mod(stego_image@.len() as int, 8);
            assert(8 * byte_count <= stego_image@.len());
        }
        let mut data: Vec<u8> = Vec::new();
        let mut j: usize = 0;
        while j < byte_count
            invariant
                byte_count == (width * height * 3) / 8,
                8 * byte_count <= stego_image@.len(),
                stego_image@.len() <= usize::MAX,
                j <= byte_count,
                data@.len() == j,
                forall|t: int| 0 <= t < j ==> data@[t] == lsb_byte(stego_image@, t),
            decreases byte_count - j,
        {
            proof {
                assert(8 * j + 7 < 8 * byte_count);
            }
            let base = 8 * j;
            let byte = ((stego_image[base] & 1) << 7u8) | ((stego_image[base + 1] & 1) << 6u8) | ((
            stego_image[base + 2] & 1) << 5u8) | ((stego_image[base + 3] & 1) << 4u8) | ((
            stego_image[base + 4] & 1) << 3u8) | ((stego_image[base + 5] & 1) << 2u8) | ((
            stego_image[base + 6] & 1) << 1u8) | (stego_image[base + 7] & 1);
            data.push(byte);
            j += 1;
        }
        proof {
            assert(data@ =~= extracted_bytes(stego_image@, byte_count as int));
        }
        let prefix = slice_range(data.as_slice(), 0, 4);
        let msg_len = u32_from_le_bytes(prefix.as_slice()) as usize;
        if msg_len > byte_count - 4 {
            return Err(CryptoError::Decryption("declared length exceeds capacity".to_owned()));
        }
        Ok(slice_range(data.as_slice(), 4, 4 + msg_len))
    }

    /// The number of payload bytes (header included) that a raster of the
    /// given dimensions can carry.
    pub fn max_capacity(width: usize, height: usize) -> (r: usize)
        requires
            width * height * 3 <= usize::MAX,
        ensures
            r == (width * height * 3) / 8,
    {
        width * height * 3 / 8
    }
}

/// One byte of an embedded raster carries the matching payload bit in its
/// least significant bit.
proof fn lemma_embedded_bit(cover: Seq<u8>, data: Seq<u8>, j: int, t: int)
    requires
        0 <= j < data.len(),
        0 <= t < 8,
        8 * data.len() <= cover.len(),
    ensures
        embedded_bytes(cover, data)[8 * j + t] & 1 == (data[j] >> ((7 - t) as u8)) & 1,
{
    assert((8 * j + t) / 8 == j && (8 * j + t) % 8 == t) by (nonlinear_arith)
        requires
            0 <= t < 8,
            0 <= j,
    ;
    let c = cover[8 * j + t];
    let b = data[j];
    let sh = (7 - t) as u8;
    assert(((c & 0xfe) | ((b >> sh) & 1)) & 1 == (b >> sh) & 1) by (bit_vector);
}

/// Extracting byte `j` from an embedded raster gives the payload byte back.
proof fn lemma_extract_embedded_byte(cover: Seq<u8>, data: Seq<u8>, j: int)
    requires
        0 <= j < data.len(),
        8 * data.len() <= cover.len(),
    ensures
        lsb_byte(embedded_bytes(cover, data), j) == data[j],
{
    let s = embedded_bytes(cover, data);
    let b = data[j];
    lemma_embedded_bit(cover, data, j, 0);
    lemma_embedded_bit(cover, data, j, 1);
    lemma_embedded_bit(cover, data, j, 2);
    lemma_embedded_bit(cover, data, j, 3);
    lemma_embedded_bit(cover, data, j, 4);
    lemma_embedded_bit(cover, data, j, 5);
    lemma_embedded_bit(cover, data, j, 6);
    lemma_embedded_bit(cover, data, j, 7);
    let a0 = s[8 * j];
    let a1 = s[8 * j + 1];
    let a2 = s[8 * j + 2];
    let a3 = s[8 * j + 3];
    let a4 = s[8 * j + 4];
    let a5 = s[8 * j + 5];
    let a6 = s[8 * j + 6];
    let a7 = s[8 * j + 7];
    assert(((a0 & 1) << 7) | ((a1 & 1) << 6) | ((a2 & 1) << 5) | ((a3 & 1) << 4) | ((a4 & 1) << 3)
        | ((a5 & 1) << 2) | ((a6 & 1) << 1) | (a7 & 1) == b) by (bit_vector)
        requires
            a0 & 1 == (b >> 7u8) & 1,
            a1 & 1 == (b >> 6u8) & 1,
            a2 & 1 == (b >> 5u8) & 1,
            a3 & 1 == (b >> 4u8) & 1,
            a4 & 1 == (b >> 3u8) & 1,
            a5 & 1 == (b >> 2u8) & 1,
            a6 & 1 == (b >> 1u8) & 1,
            a7 & 1 == (b >> 0u8) & 1,
    ;
    assert(b >> 0u8 == b) by (bit_vector);
}

/// Round trip of the LSB codec, and closeness of the stego raster to the
/// cover: embedding a framed payload changes no byte by more than one, and
/// extraction returns the payload exactly.
pub proof fn lemma_lsb_round_trip(cover: Seq<u8>, message: Seq<u8>, width: int, height: int)
    requires
        cover.len() == width * height * 3,
        message.len() <= 0xffff_ffff,
        message.len() + 4 <= (width * height * 3) / 8,
    ensures
        ({
            let data = framed(message);
            let stego = embedded_bytes(cover, data);
            let count = (width * height * 3) / 8;
            let out = extracted_bytes(stego, count);
            &&& spec_u32_from_le_bytes(out.subrange(0, 4)) == message.len()
            &&& out.subrange(4, 4 + message.len() as int) == message
            &&& forall|i: int|
                0 <= i < cover.len() ==> -1 <= #[trigger] stego[i] - cover[i] <= 1
        }),
{
    let data = framed(message);
    let stego = embedded_bytes(cover, data);
    let count = (width * height * 3) / 8;
    let out = extracted_bytes(stego, count);
    vstd::bytes::lemma_auto_spec_u32_to_from_le_bytes();
    assert(data.len() == message.len() + 4);
    assert(8 * data.len() <= cover.len()) by (nonlinear_arith)
        requires
            data.len() <= (width * height * 3) / 8,
            cover.len() == width * height * 3,
    ;
    assert forall|j: int| 0 <= j < data.len() implies out[j] == data[j] by {
        lemma_extract_embedded_byte(cover, data, j);
    }
    assert(out.subrange(0, 4) =~= spec_u32_to_le_bytes(message.len() as u32));
    assert(spec_u32_from_le_bytes(spec_u32_to_le_bytes(message.len() as u32)) == message.len());
    assert(out.subrange(4, 4 + message.len() as int) =~= message);
    assert forall|i: int| 0 <= i < cover.len() implies -1 <= #[trigger] stego[i] - cover[i] <= 1 by {
        if i < 8 * data.len() {
            let c = cover[i];
            let z = bit_of(data, i);
            let dj = data[i / 8];
            let sh = (7 - (i % 8)) as u8;
            assert(z == (dj >> sh) & 1);
            assert(z <= 1) by (bit_vector)
                requires
                    z == (dj >> sh) & 1,
            ;
            assert(z <= 1 ==> -1 <= ((c & 0xfe) | z) - c <= 1) by (bit_vector);
        }
    }
}

} // verus!
