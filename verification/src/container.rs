//! The container: a fixed header, then the encoded frames packed into runs.
//!
//! The header holds the width and the height as 16-bit big-endian numbers and
//! the frame rate as one byte. A run is a stretch of consecutive frames that
//! chose the same algorithm, at most 32 of them. Its record is one header
//! byte, the algorithm's code in the three high bits and the number of frames
//! less one in the five low bits, followed by the payloads of its frames.

use vstd::prelude::*;
use byteorder::BigEndian;
use byteorder::ByteOrder;
use crate::algorithm::Algorithm;
use crate::runs::capped_run_len;
use crate::runs::is_capped_run;
use crate::runs::lemma_capped_run_len;
use crate::runs::lemma_capped_run_unique;
use crate::runs::lemma_repeats_bound;
use crate::runs::repeats;

verus! {

/// Largest value of the count field of a run header: a run of 32 frames.
pub const MAX_COUNT: u8 = 31;

/// Largest number of frames in one run.
pub open spec fn max_frames() -> int {
    MAX_COUNT + 1
}

/// A frame as one algorithm encoded it.
#[derive(Debug, Clone, PartialEq, Eq)]
pub struct EncodedFrame {
    /// The algorithm that was selected for the frame.
    pub algorithm: Algorithm,
    /// The bytes that the algorithm made of the frame.
    pub payload: Vec<u8>,
}

impl View for EncodedFrame {
    type V = (Algorithm, Seq<u8>);

    open spec fn view(&self) -> (Algorithm, Seq<u8>) {
        (self.algorithm, self.payload@)
    }
}

/// The algorithms of a sequence of encoded frames.
pub open spec fn tags_of(frames: Seq<EncodedFrame>) -> Seq<Algorithm> {
    Seq::new(frames.len(), |i: int| frames[i].algorithm)
}

/// The payloads of a sequence of encoded frames.
pub open spec fn payloads_of(frames: Seq<EncodedFrame>) -> Seq<Seq<u8>> {
    Seq::new(frames.len(), |i: int| frames[i].payload@)
}

/// The two bytes of a 16-bit number, the high byte first.
pub open spec fn be_bytes(value: u16) -> Seq<u8> {
    seq![(value / 256) as u8, (value % 256) as u8]
}

/// The five bytes of the container header.
pub open spec fn header_bytes(width: u16, height: u16, framerate: u8) -> Seq<u8> {
    be_bytes(width) + be_bytes(height) + seq![framerate]
}

/// The header byte of a run: the algorithm's code in bits 7 to 5, the count
/// in bits 4 to 0.
pub open spec fn run_header(tag: u8, count: u8) -> u8 {
    (tag << 5u8) | count
}

/// The payloads from index `from` up to, not including, index `to`, one
/// after the other.
pub open spec fn joined(payloads: Seq<Seq<u8>>, from: int, to: int) -> Seq<u8>
    decreases to - from,
{
    if from >= to {
        Seq::empty()
    } else {
        joined(payloads, from, to - 1) + payloads[to - 1]
    }
}

/// The record of the run of `count + 1` frames that starts at frame `first`.
pub open spec fn run_record(tag: u8, count: u8, payloads: Seq<Seq<u8>>, first: int) -> Seq<u8> {
    seq![run_header(tag, count)] + joined(payloads, first, first + count + 1)
}

/// The records of the frames from `start` on: the frames are cut greedily
/// into runs of one algorithm of at most 32 frames, and each run gives one
/// record.
pub open spec fn run_records(tags: Seq<Algorithm>, payloads: Seq<Seq<u8>>, start: int) -> Seq<u8>
    decreases tags.len() - start,
    via run_records_decreases
{
    if 0 <= start < tags.len() {
        let count = repeats(tags, start, MAX_COUNT as int);
        run_record(tags[start].tag(), count as u8, payloads, start) + run_records(
            tags,
            payloads,
            start + 1 + count,
        )
    } else {
        Seq::empty()
    }
}

#[via_fn]
proof fn run_records_decreases(tags: Seq<Algorithm>, payloads: Seq<Seq<u8>>, start: int) {
    if 0 <= start < tags.len() {
        lemma_repeats_bound(tags, start, MAX_COUNT as int);
    }
}

/// The whole container for a sequence of encoded frames.
pub open spec fn container_bytes(
    width: u16,
    height: u16,
    framerate: u8,
    tags: Seq<Algorithm>,
    payloads: Seq<Seq<u8>>,
) -> Seq<u8> {
    header_bytes(width, height, framerate) + run_records(tags, payloads, 0)
}

/// Big-endian bytes of a 16-bit number, from `byteorder::BigEndian::write_u16`
/// on a buffer of two bytes. The contract claims what that function does: the
/// buffer then holds the high byte of the number, followed by its low byte.
#[verifier::external_body]
fn big_endian_u16(value: u16) -> (bytes: [u8; 2])
    ensures
        bytes@ == be_bytes(value),
{
    let mut bytes = [0u8; 2];
    BigEndian::write_u16(&mut bytes, value);
    bytes
}

/// The container header: width and height, each as two bytes with the high
/// byte first, then the frame rate.
pub fn container_header(width: u16, height: u16, framerate: u8) -> (header: Vec<u8>)
    ensures
        header@ == header_bytes(width, height, framerate),
{
    let mut header: Vec<u8> = Vec::with_capacity(5);
    let w = big_endian_u16(width);
    header.push(w[0]);
    header.push(w[1]);
    let h = big_endian_u16(height);
    header.push(h[0]);
    header.push(h[1]);
    header.push(framerate);
    assert(header@ =~= header_bytes(width, height, framerate));
    header
}

/// The record of one run: the header byte for `last_algorithm` and
/// `algorithm_count`, then the payloads of the `algorithm_count + 1` frames
/// that end with the frame at `compressed_frame_index`.
pub fn encode_algos(
    compressed_frames: &Vec<EncodedFrame>,
    algorithm_count: u8,
    compressed_frame_index: usize,
    last_algorithm: Algorithm,
) -> (record: Vec<u8>)
    requires
        algorithm_count <= compressed_frame_index < compressed_frames@.len(),
    ensures
        record@ == run_record(
            last_algorithm.tag(),
            algorithm_count,
            payloads_of(compressed_frames@),
            compressed_frame_index - algorithm_count,
        ),
{
    let ghost payloads = payloads_of(compressed_frames@);
    let mut buf: Vec<u8> = Vec::new();
    buf.push((last_algorithm.code() << 5) | algorithm_count);
    let first: usize = compressed_frame_index - algorithm_count as usize;
    let len: usize = compressed_frames.len();
    let mut i: usize = first;
    while i <= compressed_frame_index
        invariant
            first <= i <= compressed_frame_index + 1,
            compressed_frame_index < len == compressed_frames@.len(),
            payloads == payloads_of(compressed_frames@),
            buf@ == seq![run_header(last_algorithm.tag(), algorithm_count)] + joined(
                payloads,
                first as int,
                i as int,
            ),
        decreases compressed_frame_index + 1 - i,
    {
        let ghost before = buf@;
        buf.extend_from_slice(compressed_frames[i].payload.as_slice());
        assert(buf@ =~= before + payloads[i as int]);
        i += 1;
    }
    buf
}

/// State of the run merger between two frames.
#[derive(Debug, Clone, Copy, PartialEq, Eq, Structural)]
pub enum MergeState {
    /// No run is open.
    Empty,
    /// A run of `count + 1` frames of `algorithm` is open.
    Open { algorithm: Algorithm, count: u8 },
}

/// What the run merger writes when it takes a frame.
#[derive(Debug, Clone, Copy, PartialEq, Eq, Structural)]
pub enum MergeAction {
    /// Nothing: the frame opens a run or joins the open one.
    Keep,
    /// The record of the full run of 32 frames of `algorithm` that ends with
    /// the frame just taken.
    FlushThrough { algorithm: Algorithm },
    /// The record of the run of `count + 1` frames of `algorithm` that ends
    /// just before the frame taken.
    FlushBefore { algorithm: Algorithm, count: u8 },
}

impl MergeState {
    /// An open run has room for one more frame: a run that reaches 32 frames
    /// is written at once and never stays open.
    pub open spec fn wf(self) -> bool {
        match self {
            MergeState::Empty => true,
            MergeState::Open { algorithm, count } => count < MAX_COUNT,
        }
    }

    /// The state after a frame of algorithm `tag`.
    pub open spec fn next(self, tag: Algorithm) -> MergeState {
        match self {
            MergeState::Empty => MergeState::Open { algorithm: tag, count: 0 },
            MergeState::Open { algorithm, count } => if algorithm != tag {
                MergeState::Open { algorithm: tag, count: 0 }
            } else if count + 1 == MAX_COUNT {
                MergeState::Empty
            } else {
                MergeState::Open { algorithm, count: (count + 1) as u8 }
            },
        }
    }

    /// What is written for a frame of algorithm `tag`.
    pub open spec fn action(self, tag: Algorithm) -> MergeAction {
        match self {
            MergeState::Empty => MergeAction::Keep,
            MergeState::Open { algorithm, count } => if algorithm != tag {
                MergeAction::FlushBefore { algorithm, count }
            } else if count + 1 == MAX_COUNT {
                MergeAction::FlushThrough { algorithm }
            } else {
                MergeAction::Keep
            },
        }
    }

    /// Takes a frame of algorithm `tag`: gives the next state and what is to
    /// be written.
    ///
    /// A frame opens a run when none is open. A frame of the open run's
    /// algorithm joins it; when that makes 32 frames, the run is written
    /// with this frame in it and no run is open afterwards. A frame of
    /// another algorithm has the open run written and opens its own.
    pub fn step(self, tag: Algorithm) -> (result: (MergeState, MergeAction))
        requires
            self.wf(),
        ensures
            result.0 == self.next(tag),
            result.1 == self.action(tag),
            result.0.wf(),
    {
        match self {
            MergeState::Empty => (MergeState::Open { algorithm: tag, count: 0 }, MergeAction::Keep),
            MergeState::Open { algorithm, count } => {
                if algorithm != tag {
                    (
                        MergeState::Open { algorithm: tag, count: 0 },
                        MergeAction::FlushBefore { algorithm, count },
                    )
                } else if count + 1 == MAX_COUNT {
                    (MergeState::Empty, MergeAction::FlushThrough { algorithm })
                } else {
                    (MergeState::Open { algorithm, count: count + 1 }, MergeAction::Keep)
                }
            },
        }
    }
}

/// A full run of `n` frames from `start` on gives the first record, and the
/// records after it are those of the frames that follow the run. So the
/// records cut the frames into consecutive runs that do not overlap, each of
/// one algorithm and of 1 to 32 frames, each as long as it can be, and every
/// frame is in exactly one of them, in its place.
pub proof fn lemma_run_records_first(
    tags: Seq<Algorithm>,
    payloads: Seq<Seq<u8>>,
    start: int,
    n: int,
)
    requires
        is_capped_run(tags, start, max_frames(), n),
    ensures
        run_records(tags, payloads, start) == run_record(
            tags[start].tag(),
            (n - 1) as u8,
            payloads,
            start,
        ) + run_records(tags, payloads, start + n),
{
    lemma_capped_run_unique(tags, start, max_frames(), n);
}

/// From every frame on, the records begin with a full run.
pub proof fn lemma_run_records_cover(tags: Seq<Algorithm>, payloads: Seq<Seq<u8>>, start: int)
    requires
        0 <= start < tags.len(),
    ensures
        is_capped_run(tags, start, max_frames(), capped_run_len(tags, start, max_frames()) as int),
        run_records(tags, payloads, start) == run_record(
            tags[start].tag(),
            (capped_run_len(tags, start, max_frames()) - 1) as u8,
            payloads,
            start,
        ) + run_records(tags, payloads, start + capped_run_len(tags, start, max_frames())),
{
    lemma_capped_run_len(tags, start, max_frames());
}

/// The two fields of a run header give back the algorithm's code and the
/// count that were packed.
pub proof fn lemma_run_header_fields(tag: u8, count: u8)
    requires
        tag <= 7,
        count <= MAX_COUNT,
    ensures
        run_header(tag, count) >> 5u8 == tag,
        run_header(tag, count) & 0x1f == count,
        run_header(tag, count) == tag * 32 + count,
{
    assert(((tag << 5u8) | count) >> 5u8 == tag) by (bit_vector)
        requires
            tag <= 7,
            count <= 31,
    ;
    assert(((tag << 5u8) | count) & 0x1f == count) by (bit_vector)
        requires
            tag <= 7,
            count <= 31,
    ;
    assert(((tag << 5u8) | count) == tag * 32 + count) by (bit_vector)
        requires
            tag <= 7,
            count <= 31,
    ;
}

/// What the run merger has written after the first `done` frames, in state
/// `state`: the records of the runs that are closed.
spec fn merged(
    state: MergeState,
    tags: Seq<Algorithm>,
    payloads: Seq<Seq<u8>>,
    done: int,
    out: Seq<u8>,
) -> bool {
    &&& 0 <= done <= tags.len()
    &&& match state {
        MergeState::Empty => run_records(tags, payloads, 0) == out + run_records(
            tags,
            payloads,
            done,
        ),
        MergeState::Open { algorithm, count } => {
            let start = done - 1 - count;
            &&& count < MAX_COUNT
            &&& 0 <= start
            &&& forall|i: int| start <= i < done ==> #[trigger] tags[i] == algorithm
            &&& run_records(tags, payloads, 0) == out + run_records(tags, payloads, start)
        },
    }
}

/// Writes the record of the run of `count + 1` frames of `algorithm` that
/// ends with the frame at `last`.
fn flush_run(
    out: &mut Vec<u8>,
    frames: &Vec<EncodedFrame>,
    algorithm: Algorithm,
    count: u8,
    last: usize,
)
    requires
        count <= MAX_COUNT,
        count <= last < frames@.len(),
        forall|i: int| last - count <= i <= last ==> #[trigger] tags_of(frames@)[i] == algorithm,
        count == MAX_COUNT || last + 1 == frames@.len() || tags_of(frames@)[last + 1]
            != algorithm,
        run_records(tags_of(frames@), payloads_of(frames@), 0) == old(out)@ + run_records(
            tags_of(frames@),
            payloads_of(frames@),
            last - count,
        ),
    ensures
        run_records(tags_of(frames@), payloads_of(frames@), 0) == final(out)@ + run_records(
            tags_of(frames@),
            payloads_of(frames@),
            last + 1,
        ),
{
    let ghost tags = tags_of(frames@);
    let ghost payloads = payloads_of(frames@);
    let ghost start = last - count;
    let ghost before = out@;
    let record = encode_algos(frames, count, last, algorithm);
    out.extend_from_slice(record.as_slice());
    proof {
        assert(tags[start] == algorithm);
        lemma_run_records_first(tags, payloads, start, count + 1);
        assert(out@ =~= before + record@);
        assert(out@ + run_records(tags, payloads, last + 1) =~= before + (record@ + run_records(
            tags,
            payloads,
            last + 1,
        )));
    }
}

/// Packs the encoded frames into runs, in one pass: the records of all
/// runs, in the order of the frames.
pub fn write_runs(frames: &Vec<EncodedFrame>) -> (records: Vec<u8>)
    ensures
        records@ == run_records(tags_of(frames@), payloads_of(frames@), 0),
{
    let ghost tags = tags_of(frames@);
    let ghost payloads = payloads_of(frames@);
    let mut out: Vec<u8> = Vec::new();
    let mut state = MergeState::Empty;
    let mut index: usize = 0;
    assert(out@ + run_records(tags, payloads, 0) =~= run_records(tags, payloads, 0));
    while index < frames.len()
        invariant
            tags == tags_of(frames@),
            payloads == payloads_of(frames@),
            merged(state, tags, payloads, index as int, out@),
        decreases frames@.len() - index,
    {
        let (next, action) = state.step(frames[index].algorithm);
        match action {
            MergeAction::Keep => {},
            MergeAction::FlushThrough { algorithm } => {
                flush_run(&mut out, frames, algorithm, MAX_COUNT, index);
            },
            MergeAction::FlushBefore { algorithm, count } => {
                flush_run(&mut out, frames, algorithm, count, index - 1);
            },
        }
        state = next;
        index += 1;
    }
    match state {
        MergeState::Empty => {},
        MergeState::Open { algorithm, count } => {
            flush_run(&mut out, frames, algorithm, count, index - 1);
        },
    }
    assert(out@ + run_records(tags, payloads, frames@.len() as int) =~= out@);
    out
}

/// The whole container: the header, then the records of all runs.
pub fn write_container(width: u16, height: u16, framerate: u8, frames: &Vec<EncodedFrame>) -> (bytes:
    Vec<u8>)
    ensures
        bytes@ == container_bytes(
            width,
            height,
            framerate,
            tags_of(frames@),
            payloads_of(frames@),
        ),
{
    let mut bytes = container_header(width, height, framerate);
    let records = write_runs(frames);
    let ghost header = bytes@;
    bytes.extend_from_slice(records.as_slice());
    assert(bytes@ =~= header + records@);
    bytes
}

} // verus!
