//! The encoding algorithms that compete for each frame.

use vstd::prelude::*;
use crate::bitpack::bit_packed;
use crate::bitpack::uncompressed;
use crate::error::EncodeError;
use crate::frame::frame_size;
use crate::frame::frames_equal;
use crate::frame::matches_geometry;
use crate::runlength::column_major;
use crate::runlength::run_length_columns;
use crate::runlength::run_length_rows;
use crate::runlength::runs_encoded;

verus! {

/// An encoding algorithm. Each has a code of three bits that names it in the
/// container.
#[derive(Debug, Clone, Copy, PartialEq, Eq, Hash, Structural)]
pub enum Algorithm {
    /// The bit-packed raster, code 0.
    Uncompressed,
    /// Frame repeat: an empty payload for a frame equal to the previous one,
    /// code 1.
    Same,
    /// Run lengths row by row, code 2.
    RunLengthRows,
    /// Run lengths column by column, code 3.
    RunLengthColumns,
    /// Reserved, code 4. Encodes nothing.
    PartialRowsUncompressed,
    /// Reserved, code 5. Encodes nothing.
    PartialColumnsUncompressed,
}

impl Algorithm {
    /// The code of the algorithm in the container.
    pub open spec fn tag(self) -> u8 {
        match self {
            Algorithm::Uncompressed => 0,
            Algorithm::Same => 1,
            Algorithm::RunLengthRows => 2,
            Algorithm::RunLengthColumns => 3,
            Algorithm::PartialRowsUncompressed => 4,
            Algorithm::PartialColumnsUncompressed => 5,
        }
    }

    /// Whether the algorithm is a placeholder that encodes nothing.
    pub open spec fn is_reserved(self) -> bool {
        self == Algorithm::PartialRowsUncompressed || self
            == Algorithm::PartialColumnsUncompressed
    }

    /// The name under which the algorithm is reported.
    pub open spec fn name_text(self) -> Seq<char> {
        match self {
            Algorithm::Uncompressed => "1bpp"@,
            Algorithm::Same => "Frame repeat"@,
            Algorithm::RunLengthRows => "Run-length Row"@,
            Algorithm::RunLengthColumns => "Run-length Column"@,
            Algorithm::PartialRowsUncompressed => "Partial Rows 1bpp"@,
            Algorithm::PartialColumnsUncompressed => "Partial Rows 1bpp"@,
        }
    }

    /// What the algorithm makes of a frame, given the frame before it and the
    /// geometry: the payload, or the reason why there is none.
    ///
    /// A reserved algorithm encodes nothing. Both frames must have
    /// `width * height` pixels. Frame repeat gives an empty payload for a
    /// frame equal to the previous one and does not apply to any other.
    pub open spec fn encoding(
        self,
        current: Seq<u8>,
        last: Seq<u8>,
        width: u16,
        height: u16,
    ) -> Result<Seq<u8>, EncodeError> {
        if self.is_reserved() {
            Err(EncodeError::Reserved)
        } else if current.len() != frame_size(width, height) || last.len() != frame_size(
            width,
            height,
        ) {
            Err(EncodeError::GeometryMismatch)
        } else {
            match self {
                Algorithm::Uncompressed => Ok(bit_packed(current)),
                Algorithm::Same => if current == last {
                    Ok(Seq::empty())
                } else {
                    Err(EncodeError::NotApplicable)
                },
                Algorithm::RunLengthRows => Ok(runs_encoded(current, 0)),
                _ => Ok(runs_encoded(column_major(current, width as int, height as int), 0)),
            }
        }
    }

    /// The code of the algorithm in the container, between 0 and 5.
    pub fn code(&self) -> (code: u8)
        ensures
            code == self.tag(),
            code <= 5,
    {
        match self {
            Algorithm::Uncompressed => 0,
            Algorithm::Same => 1,
            Algorithm::RunLengthRows => 2,
            Algorithm::RunLengthColumns => 3,
            Algorithm::PartialRowsUncompressed => 4,
            Algorithm::PartialColumnsUncompressed => 5,
        }
    }

    /// Encodes `current_frame`, which follows `last_frame` in a video of the
    /// given geometry. Gives the payload, or the reason why the algorithm
    /// has none for this frame.
    pub fn encode(
        &self,
        current_frame: &Vec<u8>,
        last_frame: &Vec<u8>,
        video_width: u16,
        video_height: u16,
    ) -> (result: Result<Vec<u8>, EncodeError>)
        ensures
            match self.encoding(current_frame@, last_frame@, video_width, video_height) {
                Ok(payload) => result is Ok && result->Ok_0@ == payload,
                Err(error) => result is Err && result->Err_0 == error,
            },
    {
        match self {
            Algorithm::PartialRowsUncompressed | Algorithm::PartialColumnsUncompressed => {
                return Err(EncodeError::Reserved);
            },
            _ => {},
        }
        if !matches_geometry(current_frame, video_width, video_height) || !matches_geometry(
            last_frame,
            video_width,
            video_height,
        ) {
            return Err(EncodeError::GeometryMismatch);
        }
        match self {
            Algorithm::Uncompressed => Ok(uncompressed(current_frame)),
            Algorithm::Same => {
                if frames_equal(current_frame, last_frame) {
                    Ok(Vec::with_capacity(0))
                } else {
                    Err(EncodeError::NotApplicable)
                }
            },
            Algorithm::RunLengthRows => Ok(run_length_rows(current_frame)),
            _ => run_length_columns(current_frame, video_width, video_height),
        }
    }

    /// The name under which the algorithm is reported.
    pub fn name(&self) -> (name: String)
        ensures
            name@ == self.name_text(),
    {
        match self {
            Algorithm::Uncompressed => "1bpp",
            Algorithm::Same => "Frame repeat",
            Algorithm::RunLengthRows => "Run-length Row",
            Algorithm::RunLengthColumns => "Run-length Column",
            Algorithm::PartialRowsUncompressed => "Partial Rows 1bpp",
            Algorithm::PartialColumnsUncompressed => "Partial Rows 1bpp",
        }.to_owned()
    }
}

/// The algorithms that take part in the selection, in the order in which
/// ties are decided: the bit-packed raster, frame repeat, run lengths by
/// rows, run lengths by columns.
pub open spec fn standard_algorithms() -> Seq<Algorithm> {
    seq![
        Algorithm::Uncompressed,
        Algorithm::Same,
        Algorithm::RunLengthRows,
        Algorithm::RunLengthColumns,
    ]
}

/// The algorithms that take part in the selection, in the order in which
/// ties are decided.
pub fn algorithms() -> (list: Vec<Algorithm>)
    ensures
        list@ == standard_algorithms(),
{
    let mut list: Vec<Algorithm> = Vec::with_capacity(4);
    list.push(Algorithm::Uncompressed);
    list.push(Algorithm::Same);
    list.push(Algorithm::RunLengthRows);
    list.push(Algorithm::RunLengthColumns);
    assert(list@ =~= standard_algorithms());
    list
}

/// Frame repeat gives the empty payload for a frame that equals the frame
/// before it, and no payload for one that differs.
pub proof fn lemma_frame_repeat(current: Seq<u8>, last: Seq<u8>, width: u16, height: u16)
    requires
        current.len() == frame_size(width, height),
        last.len() == frame_size(width, height),
    ensures
        current == last ==> Algorithm::Same.encoding(current, last, width, height) == Ok::<
            Seq<u8>,
            EncodeError,
        >(Seq::empty()),
        current != last ==> Algorithm::Same.encoding(current, last, width, height) is Err,
{
}

} // verus!
