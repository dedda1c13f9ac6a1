//! The whole pipeline: frames in, container out.
//!
//! Each frame is encoded against the frame before it, the first one against
//! an all-zero frame. The selected encodings are then packed into runs behind
//! the container header. Encoding stops at the first frame for which nothing
//! can be selected.

use vstd::prelude::*;
use crate::algorithm::Algorithm;
use crate::container::container_bytes;
use crate::container::payloads_of;
use crate::container::tags_of;
use crate::container::write_container;
use crate::container::EncodedFrame;
use crate::error::SelectError;
use crate::frame::blank_frame;
use crate::frame::frame_size;
use crate::selector::frame_choice;
use crate::selector::select_frame;
use crate::selector::SelectorView;

verus! {

/// The pixel sequences of a list of frames.
pub open spec fn pixel_frames(frames: Seq<Vec<u8>>) -> Seq<Seq<u8>> {
    Seq::new(frames.len(), |i: int| frames[i]@)
}

/// The frame against which frame `k` is encoded: the frame before it, or an
/// all-zero frame for the first one.
pub open spec fn previous_frame(frames: Seq<Seq<u8>>, k: int, width: u16, height: u16) -> Seq<u8> {
    if k == 0 {
        Seq::new(frame_size(width, height) as nat, |i: int| 0u8)
    } else {
        frames[k - 1]
    }
}

/// What is selected for frame `k`, or the reason why nothing is.
pub open spec fn frame_outcome(
    algorithms: Seq<Algorithm>,
    width: u16,
    height: u16,
    frames: Seq<Seq<u8>>,
    k: int,
) -> Result<(Algorithm, Seq<u8>), SelectError> {
    frame_choice(algorithms, frames[k], previous_frame(frames, k, width, height), width, height)
}

/// Whether frame `k` is the first for which nothing is selected.
pub open spec fn is_first_failure(
    algorithms: Seq<Algorithm>,
    width: u16,
    height: u16,
    frames: Seq<Seq<u8>>,
    k: int,
) -> bool {
    &&& 0 <= k < frames.len()
    &&& frame_outcome(algorithms, width, height, frames, k) is Err
    &&& forall|j: int| 0 <= j < k ==> #[trigger] frame_outcome(algorithms, width, height, frames, j) is Ok
}

/// The algorithms selected for the frames.
pub open spec fn selected_tags(
    algorithms: Seq<Algorithm>,
    width: u16,
    height: u16,
    frames: Seq<Seq<u8>>,
) -> Seq<Algorithm> {
    Seq::new(frames.len(), |k: int| frame_outcome(algorithms, width, height, frames, k)->Ok_0.0)
}

/// The payloads selected for the frames.
pub open spec fn selected_payloads(
    algorithms: Seq<Algorithm>,
    width: u16,
    height: u16,
    frames: Seq<Seq<u8>>,
) -> Seq<Seq<u8>> {
    Seq::new(frames.len(), |k: int| frame_outcome(algorithms, width, height, frames, k)->Ok_0.1)
}

/// Whether `result` is what encoding the frames gives: the container of the
/// selected encodings if something is selected for every frame, and else the
/// error of the first frame for which nothing is.
pub open spec fn encodes_video(
    width: u16,
    height: u16,
    framerate: u8,
    algorithms: Seq<Algorithm>,
    frames: Seq<Seq<u8>>,
    result: Result<Seq<u8>, SelectError>,
) -> bool {
    match result {
        Ok(bytes) => {
            &&& forall|k: int|
                0 <= k < frames.len() ==> #[trigger] frame_outcome(
                    algorithms,
                    width,
                    height,
                    frames,
                    k,
                ) is Ok
            &&& bytes == container_bytes(
                width,
                height,
                framerate,
                selected_tags(algorithms, width, height, frames),
                selected_payloads(algorithms, width, height, frames),
            )
        },
        Err(error) => exists|k: int|
            #![trigger frame_outcome(algorithms, width, height, frames, k)]
            is_first_failure(algorithms, width, height, frames, k) && frame_outcome(
                algorithms,
                width,
                height,
                frames,
                k,
            )->Err_0 == error,
    }
}

/// Encodes a video: selects an encoding for each frame in turn and packs
/// them into the container. Fails with the error of the first frame that
/// does not have the given geometry or for which no algorithm of the list
/// has a payload.
pub fn encode_video(
    width: u16,
    height: u16,
    framerate: u8,
    algorithms: &Vec<Algorithm>,
    frames: &Vec<Vec<u8>>,
) -> (result: Result<Vec<u8>, SelectError>)
    ensures
        encodes_video(
            width,
            height,
            framerate,
            algorithms@,
            pixel_frames(frames@),
            match result {
                Ok(bytes) => Ok(bytes@),
                Err(error) => Err(error),
            },
        ),
{
    let ghost pixels = pixel_frames(frames@);
    let blank = blank_frame(width, height);
    assert(blank@ =~= previous_frame(pixels, 0, width, height));
    let mut encoded: Vec<EncodedFrame> = Vec::with_capacity(frames.len());
    let mut k: usize = 0;
    while k < frames.len()
        invariant
            k <= frames@.len(),
            pixels == pixel_frames(frames@),
            blank@ == previous_frame(pixels, 0, width, height),
            encoded@.len() == k,
            forall|j: int|
                0 <= j < k ==> #[trigger] frame_outcome(algorithms@, width, height, pixels, j) == Ok::<
                    (Algorithm, Seq<u8>),
                    SelectError,
                >(encoded@[j]@),
        decreases frames@.len() - k,
    {
        let last: &Vec<u8> = if k == 0 {
            &blank
        } else {
            &frames[k - 1]
        };
        assert(last@ == previous_frame(pixels, k as int, width, height));
        match select_frame(algorithms, &frames[k], last, width, height) {
            Ok(frame) => {
                encoded.push(frame);
            },
            Err(error) => {
                assert(is_first_failure(algorithms@, width, height, pixels, k as int));
                return Err(error);
            },
        }
        k += 1;
    }
    assert(tags_of(encoded@) =~= selected_tags(algorithms@, width, height, pixels));
    assert(payloads_of(encoded@) =~= selected_payloads(algorithms@, width, height, pixels));
    Ok(write_container(width, height, framerate, &encoded))
}

/// A selector that is fed the frames of a video one by one selects for each
/// what `frame_outcome` says: it starts from the all-zero frame, and after
/// frame `k` it holds that frame as the one before frame `k + 1`.
pub proof fn lemma_selector_follows(state: SelectorView, frames: Seq<Seq<u8>>, k: int)
    requires
        0 <= k < frames.len(),
        state.last_frame == previous_frame(frames, k, state.width, state.height),
    ensures
        SelectorView::initial(state.width, state.height, state.algorithms).last_frame
            == previous_frame(frames, 0, state.width, state.height),
        state.choice(frames[k]) == frame_outcome(
            state.algorithms,
            state.width,
            state.height,
            frames,
            k,
        ),
        state.choice(frames[k]) matches Ok(chosen) ==> state.after(
            frames[k],
            chosen.0,
        ).last_frame == previous_frame(frames, k + 1, state.width, state.height),
{
}

/// Encoding is a function of the frames and the configuration: two results
/// for the same frames, geometry, frame rate and algorithms are the same,
/// byte for byte, and so are two errors.
pub proof fn lemma_encoding_deterministic(
    width: u16,
    height: u16,
    framerate: u8,
    algorithms: Seq<Algorithm>,
    frames: Seq<Seq<u8>>,
    first: Result<Seq<u8>, SelectError>,
    second: Result<Seq<u8>, SelectError>,
)
    requires
        encodes_video(width, height, framerate, algorithms, frames, first),
        encodes_video(width, height, framerate, algorithms, frames, second),
    ensures
        first == second,
{
    match (first, second) {
        (Ok(a), Ok(b)) => {},
        (Err(a), Err(b)) => {
            let i = choose|k: int|
                #![trigger frame_outcome(algorithms, width, height, frames, k)]
                is_first_failure(algorithms, width, height, frames, k) && frame_outcome(
                    algorithms,
                    width,
                    height,
                    frames,
                    k,
                )->Err_0 == a;
            let j = choose|k: int|
                #![trigger frame_outcome(algorithms, width, height, frames, k)]
                is_first_failure(algorithms, width, height, frames, k) && frame_outcome(
                    algorithms,
                    width,
                    height,
                    frames,
                    k,
                )->Err_0 == b;
            if i < j {
                assert(frame_outcome(algorithms, width, height, frames, i) is Ok);
            } else if j < i {
                assert(frame_outcome(algorithms, width, height, frames, j) is Ok);
            }
        },
        (Ok(a), Err(b)) => {
            let j = choose|k: int|
                #![trigger frame_outcome(algorithms, width, height, frames, k)]
                is_first_failure(algorithms, width, height, frames, k) && frame_outcome(
                    algorithms,
                    width,
                    height,
                    frames,
                    k,
                )->Err_0 == b;
            assert(frame_outcome(algorithms, width, height, frames, j) is Ok);
        },
        (Err(a), Ok(b)) => {
            let i = choose|k: int|
                #![trigger frame_outcome(algorithms, width, height, frames, k)]
                is_first_failure(algorithms, width, height, frames, k) && frame_outcome(
                    algorithms,
                    width,
                    height,
                    frames,
                    k,
                )->Err_0 == a;
            assert(frame_outcome(algorithms, width, height, frames, i) is Ok);
        },
    }
}

} // verus!
