use vstd::prelude::*;

use crate::automaton::Automaton;
use crate::error::Error;
use crate::token::{Token, TokenKind};

verus! {

/// Stands for input that no category claims: it turns every input down.
pub struct TheGirlOfTheWhiteDog;

#[derive(Debug, Clone, Copy, PartialEq, Eq, Structural)]
pub enum TheGirlOfTheWhiteDogState {
    Initial,
    Error,
}

impl Automaton for TheGirlOfTheWhiteDog {
    type State = TheGirlOfTheWhiteDogState;

    open spec fn recognize(input: Seq<char>, initial_state: TheGirlOfTheWhiteDogState) -> Option<(Seq<char>, TokenKind)> {
        None
    }

    fn run(input: &'static str, initial_state: TheGirlOfTheWhiteDogState) -> (r: Result<Token, Error>) {
        let mut current_state = initial_state;
        for _c in input.chars() {
            match current_state {
                TheGirlOfTheWhiteDogState::Initial => {
                    current_state = TheGirlOfTheWhiteDogState::Error;
                },
                _ => {},
            }
        }

        Err(Error::default())
    }
}

} // verus!
