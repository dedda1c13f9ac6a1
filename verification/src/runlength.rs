//! Run-length coder: one byte per run of equal pixels.
//!
//! A run byte holds the pixel value in bit 7 and, in its low seven bits, the
//! number of pixels that repeat the first one. A run therefore covers between
//! 1 and 128 pixels; a longer stretch of one colour is cut into several runs.

use vstd::prelude::*;
use vstd::arithmetic::div_mod::lemma_fundamental_div_mod;
use vstd::arithmetic::div_mod::lemma_fundamental_div_mod_converse;
use crate::error::EncodeError;
use crate::frame::frame_size;
use crate::frame::pixel_count;
use crate::frame::is_bilevel;
use crate::runs::capped_run_len;
use crate::runs::is_capped_run;
use crate::runs::repeats;
use crate::runs::lemma_repeats_bound;
use crate::runs::lemma_capped_run_len;
use crate::runs::lemma_capped_run_unique;

verus! {

/// Largest value of the repeat field of a run byte.
pub const MAX_REPEAT: u8 = 127;

/// Largest number of pixels that one run byte covers.
pub open spec fn max_run() -> int {
    MAX_REPEAT + 1
}

/// The run byte for a colour and a repeat count.
pub open spec fn rl_byte(color: u8, repeat: u8) -> u8 {
    (color << 7u8) | repeat
}

/// Colour field of a run byte.
pub open spec fn rl_color(byte: u8) -> u8 {
    byte >> 7u8
}

/// Repeat field of a run byte.
pub open spec fn rl_repeat(byte: u8) -> u8 {
    byte & 0x7f
}

/// The run bytes for the pixels of `s` from `start` on: the pixels are cut
/// greedily into runs of equal value of at most 128 pixels, and each run
/// gives one byte.
pub open spec fn runs_encoded(s: Seq<u8>, start: int) -> Seq<u8>
    decreases s.len() - start,
    via runs_encoded_decreases
{
    if 0 <= start < s.len() {
        let repeat = repeats(s, start, MAX_REPEAT as int);
        seq![rl_byte(s[start], repeat as u8)] + runs_encoded(s, start + 1 + repeat)
    } else {
        Seq::empty()
    }
}

#[via_fn]
proof fn runs_encoded_decreases(s: Seq<u8>, start: int) {
    if 0 <= start < s.len() {
        lemma_repeats_bound(s, start, MAX_REPEAT as int);
    }
}

/// The pixels that a sequence of run bytes stands for: each byte gives its
/// colour, one more time than its repeat field says.
pub open spec fn runs_decoded(bytes: Seq<u8>) -> Seq<u8>
    decreases bytes.len(),
{
    if bytes.len() == 0 {
        Seq::empty()
    } else {
        Seq::new((rl_repeat(bytes[0]) + 1) as nat, |i: int| rl_color(bytes[0]))
            + runs_decoded(bytes.skip(1))
    }
}

/// The pixels of a row-major frame in column-major order: column 0 from top
/// to bottom, then column 1, and so on.
pub open spec fn column_major(s: Seq<u8>, width: int, height: int) -> Seq<u8> {
    Seq::new((width * height) as nat, |k: int| s[(k % height) * width + k / height])
}

/// Packs a colour and a repeat count into a run byte.
pub fn encode_rl_byte(color: u8, repeat: u8) -> (byte: u8)
    ensures
        byte == rl_byte(color, repeat),
{
    (color << 7) | repeat
}

/// The two fields of a run byte give back what was packed, for a pixel value
/// and a repeat count that fits in seven bits.
pub proof fn lemma_rl_byte_fields(color: u8, repeat: u8)
    requires
        color <= 1,
        repeat <= MAX_REPEAT,
    ensures
        rl_color(rl_byte(color, repeat)) == color,
        rl_repeat(rl_byte(color, repeat)) == repeat,
{
    assert(((color << 7u8) | repeat) >> 7u8 == color) by (bit_vector)
        requires
            color <= 1,
            repeat <= 127,
    ;
    assert(((color << 7u8) | repeat) & 0x7f == repeat) by (bit_vector)
        requires
            color <= 1,
            repeat <= 127,
    ;
}

/// State of the coder between two pixels: the bytes of the runs that are
/// closed, and the colour and repeat count of the run that is open.
struct RunCoder {
    buf: Vec<u8>,
    color: Option<u8>,
    repeat: u8,
}

impl RunCoder {
    /// The state after the first `k` pixels of `s`.
    spec fn inv(&self, s: Seq<u8>, k: int) -> bool {
        &&& 0 <= k <= s.len()
        &&& match self.color {
            None => runs_encoded(s, 0) == self.buf@ + runs_encoded(s, k),
            Some(c) => {
                let start = k - 1 - self.repeat;
                &&& self.repeat < MAX_REPEAT
                &&& 0 <= start
                &&& forall|i: int| start <= i < k ==> #[trigger] s[i] == c
                &&& runs_encoded(s, 0) == self.buf@ + runs_encoded(s, start)
            },
        }
    }

    /// The coder before the first pixel of `s`: nothing is written and no
    /// run is open.
    fn new(Ghost(s): Ghost<Seq<u8>>) -> (coder: RunCoder)
        ensures
            coder.buf@ == Seq::<u8>::empty(),
            coder.color is None,
            coder.repeat == 0,
            coder.inv(s, 0),
    {
        let coder = RunCoder { buf: Vec::new(), color: None, repeat: 0 };
        assert(coder.buf@ + runs_encoded(s, 0) =~= runs_encoded(s, 0));
        coder
    }

    /// Closes the open run, which covers the pixels from `start` up to `end`.
    fn flush(&mut self, color: u8, Ghost(s): Ghost<Seq<u8>>, Ghost(start): Ghost<int>, Ghost(end): Ghost<int>)
        requires
            0 <= start < end <= s.len(),
            end - start == old(self).repeat + 1,
            old(self).repeat <= MAX_REPEAT,
            forall|i: int| start <= i < end ==> #[trigger] s[i] == color,
            end - start == max_run() || end == s.len() || s[end] != color,
            runs_encoded(s, 0) == old(self).buf@ + runs_encoded(s, start),
        ensures
            runs_encoded(s, 0) == final(self).buf@ + runs_encoded(s, end),
            final(self).color == old(self).color,
            final(self).repeat == old(self).repeat,
    {
        proof {
            assert(s[start] == color);
            lemma_capped_run_unique(s, start, max_run(), end - start);
            assert(runs_encoded(s, start) == seq![rl_byte(color, self.repeat)] + runs_encoded(
                s,
                end,
            ));
            assert(self.buf@.push(rl_byte(color, self.repeat)) + runs_encoded(s, end)
                =~= self.buf@ + (seq![rl_byte(color, self.repeat)] + runs_encoded(s, end)));
        }
        self.buf.push(encode_rl_byte(color, self.repeat));
    }

    /// Takes the next pixel, `s[k]`.
    fn feed(&mut self, pixel: u8, Ghost(s): Ghost<Seq<u8>>, Ghost(k): Ghost<int>)
        requires
            old(self).inv(s, k),
            k < s.len(),
            s[k] == pixel,
        ensures
            final(self).inv(s, k + 1),
    {
        match self.color {
            None => {
                self.repeat = 0;
                self.color = Some(pixel);
            },
            Some(c) => {
                if pixel == c {
                    self.repeat += 1;
                    if self.repeat == MAX_REPEAT {
                        self.flush(c, Ghost(s), Ghost(k - MAX_REPEAT), Ghost(k + 1));
                        self.repeat = 0;
                        self.color = None;
                    }
                } else {
                    self.flush(c, Ghost(s), Ghost(k - 1 - self.repeat), Ghost(k));
                    self.repeat = 0;
                    self.color = Some(pixel);
                }
            },
        }
    }

    /// Closes the run that is open at the end of the pixels, if any.
    fn finish(self, Ghost(s): Ghost<Seq<u8>>) -> (bytes: Vec<u8>)
        requires
            self.inv(s, s.len() as int),
        ensures
            bytes@ == runs_encoded(s, 0),
    {
        let mut coder = self;
        match coder.color {
            None => {},
            Some(c) => {
                coder.flush(c, Ghost(s), Ghost(s.len() - 1 - coder.repeat), Ghost(s.len() as int));
            },
        }
        assert(coder.buf@ + runs_encoded(s, s.len() as int) =~= coder.buf@);
        coder.buf
    }
}

/// Run-length encodes a frame row by row, that is in the order in which the
/// pixels are stored.
pub fn run_length_rows(pixels: &Vec<u8>) -> (bytes: Vec<u8>)
    ensures
        bytes@ == runs_encoded(pixels@, 0),
{
    let mut coder = RunCoder::new(Ghost(pixels@));
    let mut k: usize = 0;
    while k < pixels.len()
        invariant
            coder.inv(pixels@, k as int),
        decreases pixels@.len() - k,
    {
        coder.feed(pixels[k], Ghost(pixels@), Ghost(k as int));
        k += 1;
    }
    coder.finish(Ghost(pixels@))
}

/// The index in a row-major frame of the pixel in column `col` and row `row`
/// is within the frame, and the pixel stands at place `col * height + row` of
/// the column-major order.
proof fn lemma_column_index(width: int, height: int, col: int, row: int)
    requires
        0 <= col < width,
        0 <= row < height,
    ensures
        0 <= row * width + col < width * height,
        0 <= col * height + row < width * height,
        (col * height + row) % height == row,
        (col * height + row) / height == col,
{
    assert(row * width + col < width * height) by (nonlinear_arith)
        requires
            0 <= col < width,
            0 <= row < height,
    ;
    assert(0 <= row * width + col) by (nonlinear_arith)
        requires
            0 <= col < width,
            0 <= row < height,
    ;
    assert(col * height + row < width * height) by (nonlinear_arith)
        requires
            0 <= col < width,
            0 <= row < height,
    ;
    assert(0 <= col * height + row) by (nonlinear_arith)
        requires
            0 <= col < width,
            0 <= row < height,
    ;
    lemma_fundamental_div_mod_converse(col * height + row, height, col, row);
}

/// Run-length encodes a frame column by column: column 0 from top to bottom,
/// then column 1, and so on. The pixel in column `i` and row `j` is read at
/// `j * video_width + i`. Fails if the frame does not have
/// `video_width * video_height` pixels.
pub fn run_length_columns(pixels: &Vec<u8>, video_width: u16, video_height: u16) -> (result: Result<
    Vec<u8>,
    EncodeError,
>)
    ensures
        pixels@.len() == frame_size(video_width, video_height) ==> result is Ok
            && result->Ok_0@ == runs_encoded(
            column_major(pixels@, video_width as int, video_height as int),
            0,
        ),
        pixels@.len() != frame_size(video_width, video_height) ==> result == Err::<Vec<u8>, EncodeError>(
            EncodeError::GeometryMismatch,
        ),
{
    if pixels.len() as u64 != pixel_count(video_width, video_height) {
        return Err(EncodeError::GeometryMismatch);
    }
    let ghost order = column_major(pixels@, video_width as int, video_height as int);
    let mut coder = RunCoder::new(Ghost(order));
    let mut i: u16 = 0;
    while i < video_width
        invariant
            i <= video_width,
            pixels@.len() == video_width * video_height,
            order == column_major(pixels@, video_width as int, video_height as int),
            coder.inv(order, i * video_height),
        decreases video_width - i,
    {
        let mut j: u16 = 0;
        while j < video_height
            invariant
                i < video_width,
                j <= video_height,
                pixels@.len() == video_width * video_height,
                order == column_major(pixels@, video_width as int, video_height as int),
                coder.inv(order, i * video_height + j),
            decreases video_height - j,
        {
            proof {
                lemma_column_index(video_width as int, video_height as int, i as int, j as int);
                assert(0 <= j * video_width <= 0xFFFF * 0xFFFF) by (nonlinear_arith)
                    requires
                        0 <= j <= 0xFFFF,
                        0 <= video_width <= 0xFFFF,
                ;
            }
            let index: usize = j as usize * video_width as usize + i as usize;
            coder.feed(pixels[index], Ghost(order), Ghost(i * video_height + j));
            j += 1;
        }
        assert(i * video_height + video_height == (i + 1) * video_height) by (nonlinear_arith);
        i += 1;
    }
    Ok(coder.finish(Ghost(order)))
}

/// The repeat field of a run byte is never above 127.
pub proof fn lemma_repeat_field_bounded(byte: u8)
    ensures
        rl_repeat(byte) <= MAX_REPEAT,
{
    assert(byte & 0x7f <= 127) by (bit_vector);
}

/// The first run byte stands for the longest stretch of pixels equal to
/// `s[start]` that begins at `start` and has at most 128 pixels; the bytes
/// after it encode what follows that stretch. So a stretch of more than 128
/// equal pixels is cut after each 128, and two runs are never merged.
pub proof fn lemma_runs_encoded_first(s: Seq<u8>, start: int)
    requires
        0 <= start < s.len(),
    ensures
        runs_encoded(s, start).len() >= 1,
        is_capped_run(s, start, max_run(), capped_run_len(s, start, max_run()) as int),
        runs_encoded(s, start)[0] == rl_byte(
            s[start],
            (capped_run_len(s, start, max_run()) - 1) as u8,
        ),
        runs_encoded(s, start).skip(1) == runs_encoded(
            s,
            start + capped_run_len(s, start, max_run()),
        ),
{
    lemma_capped_run_len(s, start, max_run());
    let n = capped_run_len(s, start, max_run());
    assert(runs_encoded(s, start).skip(1) =~= runs_encoded(s, start + n));
}

/// Decoding the run bytes of a bi-level pixel sequence gives the sequence
/// back: the runs, each as long as its byte says, rebuild the pixels from
/// `start` on.
pub proof fn lemma_runs_decoded(s: Seq<u8>, start: int)
    requires
        is_bilevel(s),
        0 <= start <= s.len(),
    ensures
        runs_decoded(runs_encoded(s, start)) == s.skip(start),
    decreases s.len() - start,
{
    if start < s.len() {
        lemma_runs_encoded_first(s, start);
        let n = capped_run_len(s, start, max_run());
        let bytes = runs_encoded(s, start);
        lemma_rl_byte_fields(s[start], (n - 1) as u8);
        lemma_runs_decoded(s, start + n);
        let head = Seq::new(n, |i: int| s[start]);
        assert(runs_decoded(bytes) == head + runs_decoded(bytes.skip(1)));
        assert(head + s.skip(start + n) =~= s.skip(start)) by {
            assert forall|i: int| 0 <= i < n implies head[i] == s.skip(start)[i] by {
                assert(s[start + i] == s[start]);
            }
        }
    } else {
        assert(s.skip(start) =~= Seq::<u8>::empty());
    }
}

/// Row order: decoding the run bytes of a bi-level frame gives its pixels
/// back, in the order in which they are stored.
pub proof fn lemma_rows_round_trip(pixels: Seq<u8>)
    requires
        is_bilevel(pixels),
    ensures
        runs_decoded(runs_encoded(pixels, 0)) == pixels,
{
    lemma_runs_decoded(pixels, 0);
    assert(pixels.skip(0) =~= pixels);
}

/// Column order: decoding the run bytes of a bi-level frame of the given
/// geometry gives its pixels back, column by column.
pub proof fn lemma_columns_round_trip(pixels: Seq<u8>, width: u16, height: u16)
    requires
        is_bilevel(pixels),
        pixels.len() == frame_size(width, height),
    ensures
        runs_decoded(runs_encoded(column_major(pixels, width as int, height as int), 0))
            == column_major(pixels, width as int, height as int),
{
    let order = column_major(pixels, width as int, height as int);
    assert forall|k: int| 0 <= k < order.len() implies #[trigger] order[k] <= 1 by {
        lemma_column_place(width as int, height as int, k);
    }
    lemma_runs_decoded(order, 0);
    assert(order.skip(0) =~= order);
}

/// Place `k` of the column-major order reads a pixel inside the frame.
proof fn lemma_column_place(width: int, height: int, k: int)
    requires
        0 <= k < width * height,
        0 <= width,
        0 <= height,
    ensures
        0 <= (k % height) * width + k / height < width * height,
{
    assert(height > 0) by (nonlinear_arith)
        requires
            0 <= k < width * height,
            0 <= width,
            0 <= height,
    ;
    let row = k % height;
    let col = k / height;
    lemma_fundamental_div_mod(k, height);
    assert(col < width) by (nonlinear_arith)
        requires
            k == height * col + row,
            0 <= row < height,
            k < width * height,
    ;
    assert(0 <= col) by (nonlinear_arith)
        requires
            k == height * col + row,
            0 <= row < height,
            0 <= k,
    ;
    lemma_column_index(width, height, col, row);
}

} // verus!
