use lexer_automata::{Automaton, Error, Katty, KattyState, Keyword, Token, TokenKind};

fn word(s: &str, kind: TokenKind) -> Result<Token, Error> {
    Ok(Token::new(String::from(s), kind))
}

#[test]
fn identifiers() {
    let inputs = ["run", "write", "drink", "Number"];
    let mut outputs: Vec<Result<Token, Error>> = vec![];

    for i in inputs {
        outputs.push(Katty::run(i, KattyState::Initial));
    }

    let expected = [
        Ok(Token::new(String::from("run"), TokenKind::Identifier)),
        Ok(Token::new(String::from("write"), TokenKind::Identifier)),
        Ok(Token::new(String::from("drink"), TokenKind::Identifier)),
        Ok(Token::new(String::from("Number"), TokenKind::Identifier)),
    ];

    assert_eq!(outputs, expected);
}

#[test]
fn identifiers_with_spaces() {
    let inputs = ["  run ", "  write    ", "drink    ", "    Number"];
    let mut outputs: Vec<Result<Token, Error>> = vec![];

    for i in inputs {
        outputs.push(Katty::run(i, KattyState::Initial));
    }

    let expected = [
        Ok(Token::new(String::from("run"), TokenKind::Identifier)),
        Ok(Token::new(String::from("write"), TokenKind::Identifier)),
        Ok(Token::new(String::from("drink"), TokenKind::Identifier)),
        Ok(Token::new(String::from("Number"), TokenKind::Identifier)),
    ];

    assert_eq!(outputs, expected);
}

#[test]
fn bad_identifiers() {
    let inputs = ["ru  n ", "  wr ite    ", "drin k", "    N umber"];
    let mut outputs: Vec<Result<Token, Error>> = vec![];

    for i in inputs {
        outputs.push(Katty::run(i, KattyState::Initial));
    }

    let expected = [
        Err(Error::default()),
        Err(Error::default()),
        Err(Error::default()),
        Err(Error::default()),
    ];

    assert_eq!(outputs, expected);
}

#[test]
fn keywords() {
    let inputs = ["yellow", "wall", "eyes"];
    let mut outputs: Vec<Result<Token, Error>> = vec![];

    for i in inputs {
        outputs.push(Katty::run(i, KattyState::Initial));
    }

    let expected = [
        Ok(Token::new(String::from("yellow"), TokenKind::Keyword)),
        Ok(Token::new(String::from("wall"), TokenKind::Keyword)),
        Ok(Token::new(String::from("eyes"), TokenKind::Keyword)),
    ];

    assert_eq!(outputs, expected);
}

#[test]
fn keywords_with_spaces() {
    let inputs = ["  yellow  ", "wall  ", "   eyes"];
    let mut outputs: Vec<Result<Token, Error>> = vec![];

    for i in inputs {
        outputs.push(Katty::run(i, KattyState::Initial));
    }

    let expected = [
        Ok(Token::new(String::from("yellow"), TokenKind::Keyword)),
        Ok(Token::new(String::from("wall"), TokenKind::Keyword)),
        Ok(Token::new(String::from("eyes"), TokenKind::Keyword)),
    ];

    assert_eq!(outputs, expected);
}

#[test]
fn bad_keywords() {
    let inputs = ["yel low", " wa ll ", " eye s"];
    let mut outputs: Vec<Result<Token, Error>> = vec![];

    for i in inputs {
        outputs.push(Katty::run(i, KattyState::Initial));
    }

    let expected = [
        Err(Error::default()),
        Err(Error::default()),
        Err(Error::default()),
    ];

    assert_eq!(outputs, expected);
}

#[test]
fn identifiers_and_keywords() {
    let inputs = ["yellow", "boot", "wall", "weed"];
    let mut outputs: Vec<Result<Token, Error>> = vec![];

    for i in inputs {
        outputs.push(Katty::run(i, KattyState::Initial));
    }

    let expected = [
        Ok(Token::new(String::from("yellow"), TokenKind::Keyword)),
        Ok(Token::new(String::from("boot"), TokenKind::Identifier)),
        Ok(Token::new(String::from("wall"), TokenKind::Keyword)),
        Ok(Token::new(String::from("weed"), TokenKind::Identifier)),
    ];

    assert_eq!(outputs, expected);
}

#[test]
fn keyword_match_is_exact() {
    assert_eq!(Katty::run("yellow", KattyState::Initial), word("yellow", TokenKind::Keyword));
    assert_eq!(Katty::run("yellows", KattyState::Initial), word("yellows", TokenKind::Identifier));
    assert_eq!(Katty::run("Yellow", KattyState::Initial), word("Yellow", TokenKind::Identifier));
    assert_eq!(Katty::run("yello", KattyState::Initial), word("yello", TokenKind::Identifier));
    assert_eq!(Katty::run("walls", KattyState::Initial), word("walls", TokenKind::Identifier));
}

#[test]
fn keyword_table_lookup() {
    assert_eq!(Keyword::get("yellow"), Some(Keyword::Yellow));
    assert_eq!(Keyword::get("wall"), Some(Keyword::Wall));
    assert_eq!(Keyword::get("eyes"), Some(Keyword::Eyes));
    assert_eq!(Keyword::get("eye"), None);
    assert_eq!(Keyword::get(""), None);
}

#[test]
fn identifier_with_digits_and_underscores() {
    assert_eq!(Katty::run("_x1_2", KattyState::Initial), word("_x1_2", TokenKind::Identifier));
    assert_eq!(Katty::run("\t\n\0ab9\0 ", KattyState::Initial), word("ab9", TokenKind::Identifier));
}

#[test]
fn identifier_rejections() {
    assert_eq!(Katty::run("9lives", KattyState::Initial), Err(Error::UnexpectedToken));
    assert_eq!(Katty::run("", KattyState::Initial), Err(Error::UnexpectedToken));
    assert_eq!(Katty::run("   \t\n", KattyState::Initial), Err(Error::UnexpectedToken));
    assert_eq!(Katty::run("a-b", KattyState::Initial), Err(Error::UnexpectedToken));
    assert_eq!(Katty::run("ab 1", KattyState::Initial), Err(Error::UnexpectedToken));
    assert_eq!(Katty::run("caf\u{e9}", KattyState::Initial), Err(Error::UnexpectedToken));
}

#[test]
fn identifier_from_other_states() {
    assert_eq!(Katty::run("1a", KattyState::Collecting), word("1a", TokenKind::Identifier));
    assert_eq!(Katty::run(" ", KattyState::StopCollecting), word("", TokenKind::Identifier));
    assert_eq!(Katty::run(" a", KattyState::StopCollecting), Err(Error::UnexpectedToken));
}

#[test]
fn word_round_trip() {
    for input in ["  run ", "wall  ", "_a1", "\tyellow\n"] {
        let first = Katty::run(input, KattyState::Initial).unwrap();
        let again: &'static str = Box::leak(first.value().to_string().into_boxed_str());
        assert_eq!(Katty::run(again, KattyState::Initial), Ok(first));
    }
}

#[test]
fn token_accessors() {
    let t = Katty::run(" eyes ", KattyState::Initial).unwrap();
    assert_eq!(t.value(), "eyes");
    assert_eq!(t.kind(), TokenKind::Keyword);
    assert!(t != Token::new(String::from("eyes"), TokenKind::Identifier));
    assert!(t == Token::new(String::from("eyes"), TokenKind::Keyword));
}
