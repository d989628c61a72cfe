use vstd::prelude::*;

use crate::automaton::Automaton;
use crate::error::Error;
use crate::token::{Token, TokenKind};

verus! {

/// Recognizes one double-quoted text literal, without escapes.
pub struct Erika;

#[derive(Debug, Clone, Copy, PartialEq, Eq, Structural)]
pub enum ErikaState {
    Initial,
    Collecting,
    Finished,
}

/// One transition: the next state and collected text, or `None` on a
/// character that cannot stand there.
pub open spec fn text_step(st: ErikaState, acc: Seq<char>, c: char) -> Option<(ErikaState, Seq<char>)> {
    if c == '"' {
        match st {
            ErikaState::Initial => Some((ErikaState::Collecting, acc)),
            ErikaState::Collecting => Some((ErikaState::Finished, acc)),
            ErikaState::Finished => None,
        }
    } else {
        match st {
            ErikaState::Collecting => Some((st, acc.push(c))),
            _ => None,
        }
    }
}

/// Runs the transitions over the whole input.
pub open spec fn text_scan(input: Seq<char>, st: ErikaState, acc: Seq<char>) -> Option<(ErikaState, Seq<char>)>
    decreases input.len(),
{
    if input.len() == 0 {
        Some((st, acc))
    } else {
        match text_step(st, acc, input[0]) {
            Some((next, collected)) => text_scan(input.drop_first(), next, collected),
            None => None,
        }
    }
}

/// The content of the literal that the input forms from the given state, if any.
pub open spec fn text_of(input: Seq<char>, st: ErikaState) -> Option<Seq<char>> {
    match text_scan(input, st, Seq::empty()) {
        Some((last, collected)) => if last == ErikaState::Finished {
            Some(collected)
        } else {
            None
        },
        None => None,
    }
}

impl Automaton for Erika {
    type State = ErikaState;

    open spec fn recognize(input: Seq<char>, initial_state: ErikaState) -> Option<(Seq<char>, TokenKind)> {
        match text_of(input, initial_state) {
            Some(v) => Some((v, TokenKind::Text)),
            None => None,
        }
    }

    fn run(input: &'static str, initial_state: ErikaState) -> (r: Result<Token, Error>) {
        let mut current_state = initial_state;
        let mut token_value = String::new();
        assert(input@.skip(0) =~= input@);

        for i in it: input.chars()
            invariant
                it.seq() == input@,
                text_scan(input@.skip(it.index()), current_state, token_value@)
                    == text_scan(input@, initial_state, Seq::empty()),
        {
            assert(input@.skip(it.index()).drop_first() =~= input@.skip(it.index() + 1));
            match i {
                '"' => match current_state {
                    ErikaState::Initial => {
                        current_state = ErikaState::Collecting;
                    },
                    ErikaState::Collecting => {
                        current_state = ErikaState::Finished;
                    },
                    ErikaState::Finished => {
                        return Err(Error::UnexpectedToken);
                    },
                },
                _ => match current_state {
                    ErikaState::Initial => {
                        return Err(Error::UnexpectedToken);
                    },
                    ErikaState::Collecting => {
                        token_value.push(i);
                    },
                    ErikaState::Finished => {
                        return Err(Error::UnexpectedToken);
                    },
                },
            }
        }
        assert(input@.skip(input@.len() as int) =~= Seq::<char>::empty());

        match current_state {
            ErikaState::Finished => Ok(Token::new(token_value, TokenKind::Text)),
            _ => Err(Error::UnexpectedToken),
        }
    }
}

} // verus!

verus! {

/// No double quote in `s`.
pub open spec fn no_quotes(s: Seq<char>) -> bool {
    forall|i: int| 0 <= i < s.len() ==> #[trigger] s[i] != '"'
}

/// The content of `s` when `s` is a double quote, a content without
/// double quotes, and a double quote.
pub open spec fn quoted_content(s: Seq<char>) -> Option<Seq<char>> {
    if s.len() >= 2 && s[0] == '"' && s[s.len() - 1] == '"' && no_quotes(s.subrange(1, s.len() - 1)) {
        Some(s.subrange(1, s.len() - 1))
    } else {
        None
    }
}

/// The content before the closing quote, when `t` ends the literal at its
/// last character.
spec fn closing(t: Seq<char>) -> Option<Seq<char>> {
    if t.len() >= 1 && t[t.len() - 1] == '"' && no_quotes(t.drop_last()) {
        Some(t.drop_last())
    } else {
        None
    }
}

spec fn ends_finished(r: Option<(ErikaState, Seq<char>)>) -> bool {
    r matches Some((st, _)) && st == ErikaState::Finished
}

proof fn lemma_text_collects(t: Seq<char>, acc: Seq<char>)
    ensures
        match closing(t) {
            Some(c) => text_scan(t, ErikaState::Collecting, acc) == Some((ErikaState::Finished, acc + c)),
            None => !ends_finished(text_scan(t, ErikaState::Collecting, acc)),
        },
    decreases t.len(),
{
    if t.len() > 0 {
        let rest = t.drop_first();
        if t[0] == '"' {
            if rest.len() == 0 {
                assert(text_scan(rest, ErikaState::Finished, acc) == Some((ErikaState::Finished, acc)));
                assert(t.drop_last() =~= Seq::<char>::empty());
                assert(acc + Seq::<char>::empty() =~= acc);
            } else {
                assert(text_scan(rest, ErikaState::Finished, acc) is None);
                assert(t.drop_last()[0] == '"');
            }
        } else {
            lemma_text_collects(rest, acc.push(t[0]));
            if rest.len() > 0 {
                assert(t[t.len() - 1] == rest[rest.len() - 1]);
                assert(t.drop_last() =~= seq![t[0]] + rest.drop_last());
                assert(no_quotes(t.drop_last()) == no_quotes(rest.drop_last())) by {
                    if no_quotes(rest.drop_last()) {
                        assert forall|i: int| 0 <= i < t.drop_last().len() implies #[trigger] t.drop_last()[i] != '"' by {
                            if i > 0 {
                                assert(t.drop_last()[i] == rest.drop_last()[i - 1]);
                            }
                        }
                    }
                    if no_quotes(t.drop_last()) {
                        assert forall|i: int| 0 <= i < rest.drop_last().len() implies #[trigger] rest.drop_last()[i] != '"' by {
                            assert(t.drop_last()[i + 1] == rest.drop_last()[i]);
                        }
                    }
                }
                if closing(t) is Some {
                    assert(acc.push(t[0]) + rest.drop_last() =~= acc + t.drop_last());
                }
            }
        }
    }
}

/// The text-literal recognizer accepts exactly a double quote, a content
/// without double quotes, and a double quote, and yields that content: it
/// turns down input without its opening or its closing quote and input with
/// anything after the closing quote.
pub proof fn lemma_text_exact(s: Seq<char>)
    ensures
        Erika::recognize(s, ErikaState::Initial) == match quoted_content(s) {
            Some(c) => Some((c, TokenKind::Text)),
            None => None,
        },
{
    if s.len() > 0 && s[0] == '"' {
        let t = s.drop_first();
        lemma_text_collects(t, Seq::empty());
        if t.len() > 0 {
            assert(t.drop_last() =~= s.subrange(1, s.len() - 1));
        }
        if closing(t) is Some {
            assert(Seq::<char>::empty() + t.drop_last() =~= t.drop_last());
        }
    }
}

/// Quoting the content of a recognized literal again and feeding it back
/// gives the same token.
pub proof fn lemma_text_round_trip(s: Seq<char>)
    ensures
        Erika::recognize(s, ErikaState::Initial) matches Some((c, _)) ==> Erika::recognize(
            seq!['"'] + c + seq!['"'],
            ErikaState::Initial,
        ) == Erika::recognize(s, ErikaState::Initial),
{
    lemma_text_exact(s);
    if let Some(c) = quoted_content(s) {
        let q = seq!['"'] + c + seq!['"'];
        lemma_text_exact(q);
        assert(q.subrange(1, q.len() - 1) =~= c);
    }
}

} // verus!
