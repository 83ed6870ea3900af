//! The backend's error type.

use vstd::prelude::*;

verus! {

/// Indicates that some error occurred within the drawing backend.
///
/// The geometry itself never fails: a degenerate polygon is drawn as nothing,
/// not reported. What can fail is the layer below the backend.
#[derive(Clone, Copy, Debug, PartialEq, Eq, Structural)]
pub enum Error {
    /// The text-measurement layer below the backend could not measure.
    Measurement,
}

impl Error {
    /// What the error says of itself.
    pub open spec fn text(self) -> Seq<char> {
        match self {
            Error::Measurement => "Measurement"@,
        }
    }

    /// What the error says of itself, for a message to whoever reads it.
    pub fn message(&self) -> (message: String)
        ensures
            message@ == self.text(),
    {
        match self {
            Error::Measurement => "Measurement".to_owned(),
        }
    }
}

} // verus!
