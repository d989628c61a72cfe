//! Finite-state recognizers for single lexemes: numbers, quoted text,
//! identifiers and keywords, and a recognizer that accepts nothing.
//!
//! Each recognizer implements [`Automaton`]; its `run` is proved to agree with
//! the transition rules written as spec functions beside it.
pub mod automaton;
pub mod automatons;
pub mod error;
pub mod text;
pub mod token;

pub use automaton::Automaton;
pub use automatons::camila::{Camila, CamilaState};
pub use automatons::erika::{Erika, ErikaState};
pub use automatons::katty::{Katty, KattyState, Keyword};
pub use automatons::the_girl_of_the_white_dog::{TheGirlOfTheWhiteDog, TheGirlOfTheWhiteDogState};
pub use error::Error;
pub use token::{Token, TokenKind};
