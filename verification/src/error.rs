//! The errors of the library.

use vstd::prelude::*;

verus! {

/// What can go wrong when a timecode definition is built or samples are
/// submitted.
#[derive(Debug, Clone, Copy, PartialEq, Eq, Structural)]
pub enum XwaxError {
    /// No table can be set up for the parameters: the register width or the
    /// length of the sequence is out of range.
    LUTInitError,
    /// The sequence came back to a state that it had visited before it reached
    /// its length.
    LUTWrapError,
    /// A step backwards did not undo the step forwards.
    LUTSymmetryError,
    /// A buffer of interleaved stereo samples held an odd number of samples.
    SampleCountError,
}

impl XwaxError {
    /// The text of each error.
    pub open spec fn message_text(self) -> Seq<char> {
        match self {
            XwaxError::LUTInitError => "Failed to initialized timecode LUT."@,
            XwaxError::LUTWrapError => "LUT wrapped during building."@,
            XwaxError::LUTSymmetryError => "LUT was not symmetric."@,
            XwaxError::SampleCountError => "Sample buffer holds an odd number of samples."@,
        }
    }

    /// A description of the error for people to read.
    pub fn message(&self) -> (text: String)
        ensures
            text@ == self.message_text(),
    {
        match self {
            XwaxError::LUTInitError => "Failed to initialized timecode LUT.".to_owned(),
            XwaxError::LUTWrapError => "LUT wrapped during building.".to_owned(),
            XwaxError::LUTSymmetryError => "LUT was not symmetric.".to_owned(),
            XwaxError::SampleCountError => "Sample buffer holds an odd number of samples.".to_owned(),
        }
    }
}

} // verus!
