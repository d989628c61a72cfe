use vstd::prelude::*;

verus! {

/// Why a recognizer turned an input down.
#[derive(Debug, Clone, Copy, PartialEq, Eq, Structural)]
pub enum Error {
    /// The input is not one complete, valid lexeme of the attempted category.
    UnexpectedToken,
}

impl Default for Error {
    fn default() -> (r: Error)
        ensures
            r == Error::UnexpectedToken,
    {
        Error::UnexpectedToken
    }
}

} // verus!
