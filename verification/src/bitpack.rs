//! Bit packer: eight pixels per byte, most significant bit first.
//!
//! Pixel `i` of a frame goes to bit `7 - i % 8` of byte `i / 8`, across the
//! whole frame and without regard to rows. Pixels that do not fill a last
//! byte are left out.

use vstd::prelude::*;
use crate::frame::is_bilevel;

verus! {

/// The first `count` pixels from `first` on, each shifted to its place in
/// the byte that they share: the pixel at `first + j` goes to bit `7 - j`.
pub open spec fn packed_bits(s: Seq<u8>, first: int, count: int) -> u8
    decreases count,
{
    if count <= 0 {
        0u8
    } else {
        packed_bits(s, first, count - 1) | (s[first + count - 1] << ((8 - count) as u8))
    }
}

/// Byte `k` of the packed frame, made of the pixels `8 * k` to `8 * k + 7`.
pub open spec fn packed_byte(s: Seq<u8>, k: int) -> u8 {
    packed_bits(s, 8 * k, 8)
}

/// The packed frame: one byte for each full group of eight pixels.
pub open spec fn bit_packed(s: Seq<u8>) -> Seq<u8> {
    Seq::new((s.len() / 8) as nat, |k: int| packed_byte(s, k))
}

/// Bit `pos` of a byte, as 0 or 1.
pub open spec fn bit_at(byte: u8, pos: u8) -> u8 {
    (byte >> pos) & 1
}

/// The pixels that packed bytes stand for: eight for each byte, the most
/// significant bit first.
pub open spec fn bit_unpacked(bytes: Seq<u8>) -> Seq<u8> {
    Seq::new(8 * bytes.len(), |i: int| bit_at(bytes[i / 8], (7 - i % 8) as u8))
}

/// Packs the pixels of a frame into bytes, eight pixels per byte, the first
/// pixel of each group in the most significant bit. A last group of fewer
/// than eight pixels gives no byte.
pub fn uncompressed(pixels: &Vec<u8>) -> (bytes: Vec<u8>)
    ensures
        bytes@ == bit_packed(pixels@),
{
    let mut buf: Vec<u8> = Vec::new();
    let mut index: u8 = 7;
    let mut cbyte: u8 = 0;
    let mut i: usize = 0;
    while i < pixels.len()
        invariant
            i <= pixels@.len(),
            index == 7 - i % 8,
            buf@.len() == i / 8,
            forall|k: int| 0 <= k < buf@.len() ==> buf@[k] == packed_byte(pixels@, k),
            cbyte == packed_bits(pixels@, 8 * (i / 8), (i % 8) as int),
        decreases pixels@.len() - i,
    {
        assert(8 * (i / 8) + i % 8 == i);
        cbyte |= pixels[i] << index;
        assert(cbyte == packed_bits(pixels@, 8 * (i / 8), i % 8 + 1));
        if index == 0 {
            index = 7;
            buf.push(cbyte);
            cbyte = 0;
        } else {
            index -= 1;
        }
        i += 1;
    }
    assert(buf@ =~= bit_packed(pixels@));
    buf
}

/// A byte packed from eight pixels that are 0 or 1 holds each of them in its
/// own bit: the pixel at `8 * k + j` is bit `7 - j`.
pub proof fn lemma_packed_byte_bits(s: Seq<u8>, k: int, j: int)
    requires
        0 <= k,
        8 * k + 8 <= s.len(),
        0 <= j < 8,
        is_bilevel(s),
    ensures
        bit_at(packed_byte(s, k), (7 - j) as u8) == s[8 * k + j],
{
    let px0 = s[8 * k];
    let px1 = s[8 * k + 1];
    let px2 = s[8 * k + 2];
    let px3 = s[8 * k + 3];
    let px4 = s[8 * k + 4];
    let px5 = s[8 * k + 5];
    let px6 = s[8 * k + 6];
    let px7 = s[8 * k + 7];
    let byte = packed_byte(s, k);
    assert(byte == ((((((((0u8 | (px0 << 7u8)) | (px1 << 6u8)) | (px2 << 5u8)) | (px3 << 4u8)) | (px4
        << 3u8)) | (px5 << 2u8)) | (px6 << 1u8)) | (px7 << 0u8))) by {
        reveal_with_fuel(packed_bits, 9);
    }
    assert({
        &&& (byte >> 7u8) & 1 == px0
        &&& (byte >> 6u8) & 1 == px1
        &&& (byte >> 5u8) & 1 == px2
        &&& (byte >> 4u8) & 1 == px3
        &&& (byte >> 3u8) & 1 == px4
        &&& (byte >> 2u8) & 1 == px5
        &&& (byte >> 1u8) & 1 == px6
        &&& (byte >> 0u8) & 1 == px7
    }) by (bit_vector)
        requires
            px0 <= 1,
            px1 <= 1,
            px2 <= 1,
            px3 <= 1,
            px4 <= 1,
            px5 <= 1,
            px6 <= 1,
            px7 <= 1,
            byte == ((((((((0u8 | (px0 << 7u8)) | (px1 << 6u8)) | (px2 << 5u8)) | (px3 << 4u8)) | (px4
                << 3u8)) | (px5 << 2u8)) | (px6 << 1u8)) | (px7 << 0u8)),
    ;
}

/// The packed frame has one byte for each full group of eight pixels, and
/// unpacking it gives back the pixels of a bi-level frame, up to the last
/// full group.
pub proof fn lemma_unpack_packed(s: Seq<u8>)
    requires
        is_bilevel(s),
    ensures
        bit_packed(s).len() == s.len() / 8,
        bit_unpacked(bit_packed(s)) == s.take(8 * (s.len() / 8) as int),
{
    let bytes = bit_packed(s);
    let n = 8 * (s.len() / 8) as int;
    assert forall|i: int| 0 <= i < n implies bit_unpacked(bytes)[i] == s.take(n)[i] by {
        lemma_packed_byte_bits(s, i / 8, i % 8);
    }
    assert(bit_unpacked(bytes) =~= s.take(n));
}

/// For a bi-level frame whose pixel count is a multiple of eight, bit
/// `7 - i % 8` of byte `i / 8` of the packed frame is pixel `i`, for every
/// pixel: unpacking gives the frame back.
pub proof fn lemma_unpack_packed_aligned(s: Seq<u8>)
    requires
        is_bilevel(s),
        s.len() % 8 == 0,
    ensures
        bit_unpacked(bit_packed(s)) == s,
        forall|i: int| 0 <= i < s.len() ==> bit_at(
            #[trigger] bit_packed(s)[i / 8],
            (7 - i % 8) as u8,
        ) == s[i],
{
    lemma_unpack_packed(s);
    assert(s.take(s.len() as int) =~= s);
    assert forall|i: int| 0 <= i < s.len() implies bit_at(
        #[trigger] bit_packed(s)[i / 8],
        (7 - i % 8) as u8,
    ) == s[i] by {
        lemma_packed_byte_bits(s, i / 8, i % 8);
    }
}

} // verus!
