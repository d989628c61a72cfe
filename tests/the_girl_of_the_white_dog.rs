use lexer_automata::{Automaton, Error, TheGirlOfTheWhiteDog, TheGirlOfTheWhiteDogState, Token};

#[test]
fn always_fails() {
    let inputs = ["?hello", "12345", "+-**/", "yellow", "\"blue moon\""];
    let mut outputs: Vec<Result<Token, Error>> = vec![];

    for i in inputs {
        outputs.push(TheGirlOfTheWhiteDog::run(i, TheGirlOfTheWhiteDogState::Initial));
    }

    let expected = [
        Err(Error::default()),
        Err(Error::default()),
        Err(Error::default()),
        Err(Error::default()),
        Err(Error::default()),
    ];

    assert_eq!(outputs, expected);
}

#[test]
fn rejects_from_any_state() {
    assert_eq!(TheGirlOfTheWhiteDog::run("x", TheGirlOfTheWhiteDogState::Error), Err(Error::UnexpectedToken));
    assert_eq!(TheGirlOfTheWhiteDog::run("\"\"", TheGirlOfTheWhiteDogState::Initial), Err(Error::UnexpectedToken));
    assert_eq!(TheGirlOfTheWhiteDog::run("", TheGirlOfTheWhiteDogState::Initial), Err(Error::UnexpectedToken));
}

#[test]
fn default_error_is_unexpected_token() {
    assert_eq!(Error::default(), Error::UnexpectedToken);
}
