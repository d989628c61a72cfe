use vstd::prelude::*;

use crate::error::Error;
use crate::token::{Token, TokenKind};

verus! {

/// A recognizer for one lexical category.
///
/// `recognize` is the meaning of `run`: the text and category of the token
/// that the input forms when the automaton starts in the given state, or
/// `None` when the input is not one lexeme of the category.
pub trait Automaton {
    type State;

    spec fn recognize(input: Seq<char>, initial_state: Self::State) -> Option<(Seq<char>, TokenKind)>;

    fn run(input: &'static str, initial_state: Self::State) -> (r: Result<Token, Error>)
        ensures
            match r {
                Ok(t) => Self::recognize(input@, initial_state) == Some(t@),
                Err(e) => e == Error::UnexpectedToken && Self::recognize(input@, initial_state) is None,
            },
    ;
}

} // verus!
