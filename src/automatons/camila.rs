use vstd::prelude::*;

use crate::automaton::Automaton;
use crate::error::Error;
use crate::text::is_digit;
use crate::token::{Token, TokenKind};

verus! {

/// Recognizes unsigned decimal numbers, dropping leading zeros.
pub struct Camila;

#[derive(Debug, Clone, Copy, PartialEq, Eq, Structural)]
pub enum CamilaState {
    Initial,
    CollectingIntegers,
    CollectingDecimals,
}

/// One transition: the next state and collected text, or `None` on a
/// character that cannot stand there.
pub open spec fn number_step(st: CamilaState, acc: Seq<char>, c: char) -> Option<(CamilaState, Seq<char>)> {
    if c == '0' {
        match st {
            CamilaState::Initial => Some((st, acc)),
            _ => Some((st, acc.push(c))),
        }
    } else if '1' <= c <= '9' {
        match st {
            CamilaState::Initial => Some((CamilaState::CollectingIntegers, acc.push(c))),
            _ => Some((st, acc.push(c))),
        }
    } else if c == '.' {
        match st {
            CamilaState::Initial => Some((CamilaState::CollectingDecimals, acc.push('0').push('.'))),
            CamilaState::CollectingIntegers => Some((CamilaState::CollectingDecimals, acc.push('.'))),
            CamilaState::CollectingDecimals => None,
        }
    } else {
        None
    }
}

/// Runs the transitions over the whole input.
pub open spec fn number_scan(input: Seq<char>, st: CamilaState, acc: Seq<char>) -> Option<(CamilaState, Seq<char>)>
    decreases input.len(),
{
    if input.len() == 0 {
        Some((st, acc))
    } else {
        match number_step(st, acc, input[0]) {
            Some((next, collected)) => number_scan(input.drop_first(), next, collected),
            None => None,
        }
    }
}

/// The number that the input forms from the given state, if any.
pub open spec fn number_of(input: Seq<char>, st: CamilaState) -> Option<Seq<char>> {
    match number_scan(input, st, Seq::empty()) {
        Some((last, collected)) => if last == CamilaState::Initial {
            None
        } else {
            Some(collected)
        },
        None => None,
    }
}

impl Automaton for Camila {
    type State = CamilaState;

    open spec fn recognize(input: Seq<char>, initial_state: CamilaState) -> Option<(Seq<char>, TokenKind)> {
        match number_of(input, initial_state) {
            Some(v) => Some((v, TokenKind::Number)),
            None => None,
        }
    }

    fn run(input: &'static str, initial_state: CamilaState) -> (r: Result<Token, Error>) {
        let mut current_state = initial_state;
        let mut value = String::new();
        assert(input@.skip(0) =~= input@);

        for i in it: input.chars()
            invariant
                it.seq() == input@,
                number_scan(input@.skip(it.index()), current_state, value@)
                    == number_scan(input@, initial_state, Seq::empty()),
        {
            assert(input@.skip(it.index()).drop_first() =~= input@.skip(it.index() + 1));
            match i {
                '0' => match current_state {
                    CamilaState::Initial => {},
                    _ => value.push(i),
                },
                '1'..='9' => match current_state {
                    CamilaState::Initial => {
                        current_state = CamilaState::CollectingIntegers;
                        value.push(i);
                    },
                    _ => value.push(i),
                },
                '.' => match current_state {
                    CamilaState::Initial => {
                        current_state = CamilaState::CollectingDecimals;
                        value.push('0');
                        value.push(i);
                    },
                    CamilaState::CollectingIntegers => {
                        current_state = CamilaState::CollectingDecimals;
                        value.push(i);
                    },
                    CamilaState::CollectingDecimals => return Err(Error::default()),
                },
                _ => return Err(Error::default()),
            }
        }
        assert(input@.skip(input@.len() as int) =~= Seq::<char>::empty());

        match current_state {
            CamilaState::Initial => Err(Error::default()),
            _ => Ok(Token::new(value, TokenKind::Number)),
        }
    }
}

} // verus!

verus! {

/// How many decimal points `s` holds.
pub open spec fn point_count(s: Seq<char>) -> nat
    decreases s.len(),
{
    if s.len() == 0 {
        0
    } else {
        (if s[0] == '.' { 1nat } else { 0nat }) + point_count(s.drop_first())
    }
}

/// Digits with at most one decimal point among them.
pub open spec fn is_plain_decimal(s: Seq<char>) -> bool {
    &&& forall|i: int| 0 <= i < s.len() ==> is_digit(#[trigger] s[i]) || s[i] == '.'
    &&& point_count(s) <= 1
}

/// `s` without the zeros it starts with.
pub open spec fn strip_leading_zeros(s: Seq<char>) -> Seq<char>
    decreases s.len(),
{
    if s.len() > 0 && s[0] == '0' {
        strip_leading_zeros(s.drop_first())
    } else {
        s
    }
}

/// The normal form of a plain decimal: leading zeros dropped, and a `0`
/// put back before a decimal point that would otherwise come first.
/// A number made of zeros alone has none.
pub open spec fn normalized_number(s: Seq<char>) -> Option<Seq<char>> {
    let rest = strip_leading_zeros(s);
    if rest.len() == 0 {
        None
    } else if rest[0] == '.' {
        Some(seq!['0'] + rest)
    } else {
        Some(rest)
    }
}

proof fn lemma_strip(s: Seq<char>)
    ensures
        strip_leading_zeros(s).len() > 0 ==> strip_leading_zeros(s)[0] != '0',
        is_plain_decimal(s) ==> is_plain_decimal(strip_leading_zeros(s)),
        number_scan(s, CamilaState::Initial, Seq::empty())
            == number_scan(strip_leading_zeros(s), CamilaState::Initial, Seq::empty()),
    decreases s.len(),
{
    if s.len() > 0 && s[0] == '0' {
        let t = s.drop_first();
        assert forall|i: int| 0 <= i < t.len() implies t[i] == s[i + 1] by {}
        lemma_strip(t);
    }
}

/// From a collecting state, digits and the points that may still come are
/// appended as they stand.
proof fn lemma_number_collects(s: Seq<char>, st: CamilaState, acc: Seq<char>)
    requires
        st != CamilaState::Initial,
        forall|i: int| 0 <= i < s.len() ==> is_digit(#[trigger] s[i]) || s[i] == '.',
        point_count(s) <= (if st == CamilaState::CollectingDecimals { 0nat } else { 1nat }),
    ensures
        number_scan(s, st, acc) == Some((
            if point_count(s) == 0 { st } else { CamilaState::CollectingDecimals },
            acc + s,
        )),
    decreases s.len(),
{
    if s.len() == 0 {
        assert(acc + s =~= acc);
    } else {
        let t = s.drop_first();
        assert forall|i: int| 0 <= i < t.len() implies is_digit(#[trigger] t[i]) || t[i] == '.' by {
            assert(t[i] == s[i + 1]);
        }
        assert(acc.push(s[0]) + t =~= acc + s);
        if s[0] == '.' {
            lemma_number_collects(t, CamilaState::CollectingDecimals, acc.push(s[0]));
        } else {
            lemma_number_collects(t, st, acc.push(s[0]));
        }
    }
}

/// Every input that the automaton accepts is made of digits and at most one
/// decimal point; none at all once the point has been seen.
proof fn lemma_number_scan_shape(s: Seq<char>, st: CamilaState, acc: Seq<char>)
    requires
        number_scan(s, st, acc) is Some,
    ensures
        forall|i: int| 0 <= i < s.len() ==> is_digit(#[trigger] s[i]) || s[i] == '.',
        point_count(s) <= (if st == CamilaState::CollectingDecimals { 0nat } else { 1nat }),
    decreases s.len(),
{
    if s.len() > 0 {
        let t = s.drop_first();
        let (next, collected) = number_step(st, acc, s[0])->0;
        lemma_number_scan_shape(t, next, collected);
        assert forall|i: int| 0 <= i < s.len() implies is_digit(#[trigger] s[i]) || s[i] == '.' by {
            if i > 0 {
                assert(s[i] == t[i - 1]);
            }
        }
    }
}

/// Leading zeros are dropped and every other digit is kept: on a plain
/// decimal the numeric recognizer yields exactly its normal form.
pub proof fn lemma_number_normalizes(s: Seq<char>)
    requires
        is_plain_decimal(s),
    ensures
        Camila::recognize(s, CamilaState::Initial) == match normalized_number(s) {
            Some(v) => Some((v, TokenKind::Number)),
            None => None,
        },
{
    lemma_strip(s);
    let rest = strip_leading_zeros(s);
    if rest.len() > 0 {
        let t = rest.drop_first();
        assert forall|i: int| 0 <= i < t.len() implies is_digit(#[trigger] t[i]) || t[i] == '.' by {
            assert(t[i] == rest[i + 1]);
        }
        if rest[0] == '.' {
            assert(Seq::<char>::empty().push('0').push('.') =~= seq!['0', '.']);
            lemma_number_collects(t, CamilaState::CollectingDecimals, seq!['0', '.']);
            assert(seq!['0', '.'] + t =~= seq!['0'] + rest);
        } else {
            assert(Seq::<char>::empty().push(rest[0]) =~= seq![rest[0]]);
            lemma_number_collects(t, CamilaState::CollectingIntegers, seq![rest[0]]);
            assert(seq![rest[0]] + t =~= rest);
        }
    }
}

/// The numeric recognizer turns down every input that holds a character
/// other than a digit or a point, or two points, whatever the state it starts
/// in, and the empty input from the initial state.
pub proof fn lemma_number_rejects(s: Seq<char>, st: CamilaState)
    requires
        !is_plain_decimal(s) || (s.len() == 0 && st == CamilaState::Initial),
    ensures
        Camila::recognize(s, st) is None,
{
    if number_scan(s, st, Seq::empty()) is Some {
        lemma_number_scan_shape(s, st, Seq::empty());
    }
}

/// Feeding the numeric recognizer the text of a number it produced gives the
/// same token back.
pub proof fn lemma_number_round_trip(s: Seq<char>)
    ensures
        Camila::recognize(s, CamilaState::Initial) matches Some((v, _)) ==> Camila::recognize(
            v,
            CamilaState::Initial,
        ) == Camila::recognize(s, CamilaState::Initial),
{
    if number_of(s, CamilaState::Initial) is Some {
        lemma_number_scan_shape(s, CamilaState::Initial, Seq::empty());
        lemma_number_normalizes(s);
        lemma_strip(s);
        let rest = strip_leading_zeros(s);
        let v = normalized_number(s)->0;
        if rest[0] == '.' {
            assert(v.drop_first() =~= rest);
            assert(point_count(v) == point_count(rest));
            assert forall|i: int| 0 <= i < v.len() implies is_digit(#[trigger] v[i]) || v[i] == '.' by {
                if i > 0 {
                    assert(v[i] == rest[i - 1]);
                }
            }
            assert(strip_leading_zeros(v) == strip_leading_zeros(rest));
        }
        lemma_number_normalizes(v);
    }
}

} // verus!
