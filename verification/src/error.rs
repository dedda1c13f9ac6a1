//! Reasons for which encoding stops or a candidate drops out.

use vstd::prelude::*;

verus! {

/// Why an algorithm gave no payload for a frame.
#[derive(Clone, Copy, Debug, PartialEq, Eq, Structural)]
pub enum EncodeError {
    /// The algorithm is a reserved placeholder and encodes nothing.
    Reserved,
    /// A frame does not have `width * height` pixels.
    GeometryMismatch,
    /// Frame repeat does not apply: the frame differs from the previous one.
    NotApplicable,
}

/// Why no encoded frame was selected.
#[derive(Clone, Copy, Debug, PartialEq, Eq, Structural)]
pub enum SelectError {
    /// The frame does not have `width * height` pixels.
    GeometryMismatch,
    /// None of the active algorithms gave a payload.
    NoCandidate,
}

impl EncodeError {
    /// A sentence that describes the error.
    pub fn message(&self) -> (text: String)
        ensures
            text@ == match *self {
                EncodeError::Reserved => "reserved algorithm"@,
                EncodeError::GeometryMismatch => "frame size does not match width and height"@,
                EncodeError::NotApplicable => "frame differs from the previous frame"@,
            },
    {
        match self {
            EncodeError::Reserved => "reserved algorithm".to_owned(),
            EncodeError::GeometryMismatch => "frame size does not match width and height".to_owned(),
            EncodeError::NotApplicable => "frame differs from the previous frame".to_owned(),
        }
    }
}

impl SelectError {
    /// A sentence that describes the error.
    pub fn message(&self) -> (text: String)
        ensures
            text@ == match *self {
                SelectError::GeometryMismatch => "frame size does not match width and height"@,
                SelectError::NoCandidate => "no algorithm could encode the frame"@,
            },
    {
        match self {
            SelectError::GeometryMismatch => "frame size does not match width and height".to_owned(),
            SelectError::NoCandidate => "no algorithm could encode the frame".to_owned(),
        }
    }
}

} // verus!
