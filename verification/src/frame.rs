//! Pixel frames: bi-level rasters stored row by row, one byte per pixel.

use vstd::prelude::*;

verus! {

/// Intensities above this cutoff become pixel 1, all others pixel 0.
pub const THRESHOLD: u8 = 127;

/// Every pixel of the sequence is 0 or 1.
pub open spec fn is_bilevel(pixels: Seq<u8>) -> bool {
    forall|i: int| 0 <= i < pixels.len() ==> #[trigger] pixels[i] <= 1
}

/// Number of pixels in a frame of the given geometry.
pub open spec fn frame_size(width: u16, height: u16) -> int {
    width * height
}

/// The pixel that an intensity is turned into.
pub open spec fn pixel_of(intensity: u8) -> u8 {
    if intensity > THRESHOLD {
        1
    } else {
        0
    }
}

/// Number of pixels in a frame of the given geometry.
pub fn pixel_count(width: u16, height: u16) -> (n: u64)
    ensures
        n == frame_size(width, height),
        n <= 0xFFFE_0001,
{
    assert(width * height <= 0xFFFF * 0xFFFF) by (nonlinear_arith)
        requires
            width <= 0xFFFF,
            height <= 0xFFFF,
    ;
    (width as u64) * (height as u64)
}

/// Whether a pixel sequence has exactly `width * height` pixels.
pub fn matches_geometry(pixels: &Vec<u8>, width: u16, height: u16) -> (ok: bool)
    ensures
        ok == (pixels@.len() == frame_size(width, height)),
{
    pixels.len() as u64 == pixel_count(width, height)
}

/// Turns grayscale intensities into pixels: 1 where the intensity exceeds
/// [`THRESHOLD`], 0 elsewhere.
pub fn binarize(intensities: &Vec<u8>) -> (pixels: Vec<u8>)
    ensures
        pixels@.len() == intensities@.len(),
        forall|i: int| 0 <= i < intensities@.len() ==> pixels@[i] == pixel_of(#[trigger] intensities@[i]),
        is_bilevel(pixels@),
{
    let mut pixels: Vec<u8> = Vec::with_capacity(intensities.len());
    let mut i: usize = 0;
    while i < intensities.len()
        invariant
            i <= intensities@.len(),
            pixels@.len() == i,
            forall|j: int| 0 <= j < i ==> pixels@[j] == pixel_of(#[trigger] intensities@[j]),
        decreases intensities@.len() - i,
    {
        let p: u8 = if intensities[i] > THRESHOLD { 1 } else { 0 };
        pixels.push(p);
        i += 1;
    }
    assert forall|j: int| 0 <= j < pixels@.len() implies #[trigger] pixels@[j] <= 1 by {
        assert(pixels@[j] == pixel_of(intensities@[j]));
    }
    pixels
}

/// The frame that stands before the first frame of a sequence: all pixels 0.
pub fn blank_frame(width: u16, height: u16) -> (pixels: Vec<u8>)
    ensures
        pixels@.len() == frame_size(width, height),
        forall|i: int| 0 <= i < pixels@.len() ==> #[trigger] pixels@[i] == 0,
        is_bilevel(pixels@),
{
    let n: u64 = pixel_count(width, height);
    let mut pixels: Vec<u8> = Vec::new();
    let mut i: u64 = 0;
    while i < n
        invariant
            i <= n,
            pixels@.len() == i,
            forall|j: int| 0 <= j < i ==> #[trigger] pixels@[j] == 0,
        decreases n - i,
    {
        pixels.push(0);
        i += 1;
    }
    pixels
}

/// Frame-repeat detection: whether two pixel sequences are the same, pixel
/// for pixel.
pub fn frames_equal(current: &Vec<u8>, previous: &Vec<u8>) -> (same: bool)
    ensures
        same == (current@ == previous@),
{
    if current.len() != previous.len() {
        return false;
    }
    let mut i: usize = 0;
    while i < current.len()
        invariant
            i <= current@.len(),
            current@.len() == previous@.len(),
            forall|j: int| 0 <= j < i ==> current@[j] == previous@[j],
        decreases current@.len() - i,
    {
        if current[i] != previous[i] {
            return false;
        }
        i += 1;
    }
    assert(current@ =~= previous@);
    true
}

} // verus!
