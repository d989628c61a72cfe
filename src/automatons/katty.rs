use vstd::prelude::*;

use crate::automaton::Automaton;
use crate::error::Error;
use crate::text::{is_blank, is_digit, is_letter, same_chars};
use crate::token::{Token, TokenKind};

verus! {

/// Recognizes ASCII identifiers and keywords, ignoring whitespace around them.
pub struct Katty;

#[derive(Debug, Clone, Copy, PartialEq, Eq, Structural)]
pub enum KattyState {
    Initial,
    Collecting,
    StopCollecting,
}

/// The reserved spellings.
#[derive(Debug, Clone, Copy, PartialEq, Eq, Structural)]
pub enum Keyword {
    Yellow,
    Wall,
    Eyes,
}

/// The keyword that a spelling stands for, by exact, case-sensitive match.
pub open spec fn keyword_of(s: Seq<char>) -> Option<Keyword> {
    if s == seq!['y', 'e', 'l', 'l', 'o', 'w'] {
        Some(Keyword::Yellow)
    } else if s == seq!['w', 'a', 'l', 'l'] {
        Some(Keyword::Wall)
    } else if s == seq!['e', 'y', 'e', 's'] {
        Some(Keyword::Eyes)
    } else {
        None
    }
}

impl Keyword {
    /// Looks a spelling up in the keyword table.
    pub fn get(key: &str) -> (r: Option<Keyword>)
        ensures
            r == keyword_of(key@),
    {
        proof {
            reveal_strlit("yellow");
            reveal_strlit("wall");
            reveal_strlit("eyes");
            assert("yellow"@ =~= seq!['y', 'e', 'l', 'l', 'o', 'w']);
            assert("wall"@ =~= seq!['w', 'a', 'l', 'l']);
            assert("eyes"@ =~= seq!['e', 'y', 'e', 's']);
        }
        if same_chars(key, "yellow") {
            Some(Keyword::Yellow)
        } else if same_chars(key, "wall") {
            Some(Keyword::Wall)
        } else if same_chars(key, "eyes") {
            Some(Keyword::Eyes)
        } else {
            None
        }
    }
}

/// The category of a collected identifier.
pub open spec fn word_kind(w: Seq<char>) -> TokenKind {
    if keyword_of(w) is Some {
        TokenKind::Keyword
    } else {
        TokenKind::Identifier
    }
}

/// One transition: the next state and collected text, or `None` on a
/// character that cannot stand there.
pub open spec fn word_step(st: KattyState, acc: Seq<char>, c: char) -> Option<(KattyState, Seq<char>)> {
    if is_letter(c) {
        match st {
            KattyState::StopCollecting => None,
            _ => Some((KattyState::Collecting, acc.push(c))),
        }
    } else if is_digit(c) {
        match st {
            KattyState::Collecting => Some((st, acc.push(c))),
            _ => None,
        }
    } else if is_blank(c) {
        match st {
            KattyState::Collecting => Some((KattyState::StopCollecting, acc)),
            _ => Some((st, acc)),
        }
    } else {
        None
    }
}

/// Runs the transitions over the whole input.
pub open spec fn word_scan(input: Seq<char>, st: KattyState, acc: Seq<char>) -> Option<(KattyState, Seq<char>)>
    decreases input.len(),
{
    if input.len() == 0 {
        Some((st, acc))
    } else {
        match word_step(st, acc, input[0]) {
            Some((next, collected)) => word_scan(input.drop_first(), next, collected),
            None => None,
        }
    }
}

/// The identifier that the input forms from the given state, if any.
pub open spec fn word_of(input: Seq<char>, st: KattyState) -> Option<Seq<char>> {
    match word_scan(input, st, Seq::empty()) {
        Some((last, collected)) => if last == KattyState::Initial {
            None
        } else {
            Some(collected)
        },
        None => None,
    }
}

impl Automaton for Katty {
    type State = KattyState;

    open spec fn recognize(input: Seq<char>, initial_state: KattyState) -> Option<(Seq<char>, TokenKind)> {
        match word_of(input, initial_state) {
            Some(w) => Some((w, word_kind(w))),
            None => None,
        }
    }

    fn run(input: &'static str, initial_state: KattyState) -> (r: Result<Token, Error>) {
        let mut current_state = initial_state;
        let mut value = String::new();
        assert(input@.skip(0) =~= input@);

        for i in it: input.chars()
            invariant
                it.seq() == input@,
                word_scan(input@.skip(it.index()), current_state, value@)
                    == word_scan(input@, initial_state, Seq::empty()),
        {
            assert(input@.skip(it.index()).drop_first() =~= input@.skip(it.index() + 1));
            match i {
                '_' | 'A'..='Z' | 'a'..='z' => match current_state {
                    KattyState::Initial => {
                        current_state = KattyState::Collecting;
                        value.push(i);
                    },
                    KattyState::Collecting => {
                        value.push(i);
                    },
                    KattyState::StopCollecting => return Err(Error::default()),
                },
                '0'..='9' => match current_state {
                    KattyState::Initial => return Err(Error::default()),
                    KattyState::Collecting => {
                        value.push(i);
                    },
                    KattyState::StopCollecting => return Err(Error::default()),
                },
                ' ' | '\t' | '\n' | '\0' => match current_state {
                    KattyState::Collecting => {
                        current_state = KattyState::StopCollecting;
                    },
                    _ => {},
                },
                _ => return Err(Error::default()),
            }
        }
        assert(input@.skip(input@.len() as int) =~= Seq::<char>::empty());

        match current_state {
            KattyState::Collecting | KattyState::StopCollecting => match Keyword::get(value.as_str()) {
                Some(_) => Ok(Token::new(value, TokenKind::Keyword)),
                None => Ok(Token::new(value, TokenKind::Identifier)),
            },
            _ => Err(Error::default()),
        }
    }
}

} // verus!

verus! {

/// A character that may stand inside an identifier.
pub open spec fn is_word_char(c: char) -> bool {
    is_letter(c) || is_digit(c)
}

/// A letter or underscore followed by letters, underscores and digits.
pub open spec fn is_identifier(w: Seq<char>) -> bool {
    &&& w.len() > 0
    &&& is_letter(w[0])
    &&& forall|i: int| 0 <= i < w.len() ==> is_word_char(#[trigger] w[i])
}

/// Nothing but separating whitespace.
pub open spec fn all_blank(s: Seq<char>) -> bool {
    forall|i: int| 0 <= i < s.len() ==> is_blank(#[trigger] s[i])
}

proof fn lemma_word_skips_blanks(p: Seq<char>, r: Seq<char>, acc: Seq<char>)
    requires
        all_blank(p),
    ensures
        word_scan(p + r, KattyState::Initial, acc) == word_scan(r, KattyState::Initial, acc),
    decreases p.len(),
{
    if p.len() > 0 {
        assert((p + r).drop_first() =~= p.drop_first() + r);
        assert((p + r)[0] == p[0]);
        assert(all_blank(p.drop_first())) by {
            assert forall|i: int| 0 <= i < p.drop_first().len() implies is_blank(#[trigger] p.drop_first()[i]) by {
                assert(p.drop_first()[i] == p[i + 1]);
            }
        }
        lemma_word_skips_blanks(p.drop_first(), r, acc);
    } else {
        assert(p + r =~= r);
    }
}

proof fn lemma_word_collects(w: Seq<char>, q: Seq<char>, acc: Seq<char>)
    requires
        forall|i: int| 0 <= i < w.len() ==> is_word_char(#[trigger] w[i]),
    ensures
        word_scan(w + q, KattyState::Collecting, acc) == word_scan(q, KattyState::Collecting, acc + w),
    decreases w.len(),
{
    if w.len() > 0 {
        let t = w.drop_first();
        assert((w + q).drop_first() =~= t + q);
        assert((w + q)[0] == w[0]);
        assert forall|i: int| 0 <= i < t.len() implies is_word_char(#[trigger] t[i]) by {
            assert(t[i] == w[i + 1]);
        }
        assert(acc.push(w[0]) + t =~= acc + w);
        lemma_word_collects(t, q, acc.push(w[0]));
    } else {
        assert(w + q =~= q);
        assert(acc + w =~= acc);
    }
}

proof fn lemma_word_trailing_blanks(q: Seq<char>, st: KattyState, acc: Seq<char>)
    requires
        all_blank(q),
        st != KattyState::Initial,
    ensures
        word_scan(q, st, acc) matches Some((last, collected)) && last != KattyState::Initial
            && collected == acc,
    decreases q.len(),
{
    if q.len() > 0 {
        let t = q.drop_first();
        assert(all_blank(t)) by {
            assert forall|i: int| 0 <= i < t.len() implies is_blank(#[trigger] t[i]) by {
                assert(t[i] == q[i + 1]);
            }
        }
        assert(is_blank(q[0]));
        lemma_word_trailing_blanks(t, KattyState::StopCollecting, acc);
    }
}

/// Whitespace around an identifier is dropped: blanks, an identifier, and
/// blanks are recognized as that identifier, classified by the keyword table.
pub proof fn lemma_word_trims(p: Seq<char>, w: Seq<char>, q: Seq<char>)
    requires
        all_blank(p),
        is_identifier(w),
        all_blank(q),
    ensures
        Katty::recognize(p + w + q, KattyState::Initial) == Some((w, word_kind(w))),
{
    assert(p + w + q =~= p + (w + q));
    lemma_word_skips_blanks(p, w + q, Seq::empty());
    let t = w.drop_first();
    assert((w + q).drop_first() =~= t + q);
    assert((w + q)[0] == w[0]);
    assert forall|i: int| 0 <= i < t.len() implies is_word_char(#[trigger] t[i]) by {
        assert(t[i] == w[i + 1]);
    }
    assert(Seq::<char>::empty().push(w[0]) + t =~= w);
    lemma_word_collects(t, q, Seq::<char>::empty().push(w[0]));
    lemma_word_trailing_blanks(q, KattyState::Collecting, w);
}

proof fn lemma_word_stopped(s: Seq<char>, acc: Seq<char>, k: int)
    requires
        0 <= k < s.len(),
        is_word_char(s[k]),
    ensures
        word_scan(s, KattyState::StopCollecting, acc) is None,
    decreases s.len(),
{
    if k > 0 {
        assert(s.drop_first()[k - 1] == s[k]);
        lemma_word_stopped(s.drop_first(), acc, k - 1);
    }
}

proof fn lemma_word_blank_then_char(s: Seq<char>, st: KattyState, acc: Seq<char>, j: int, k: int)
    requires
        st != KattyState::Initial,
        0 <= j < k < s.len(),
        is_blank(s[j]),
        is_word_char(s[k]),
    ensures
        word_scan(s, st, acc) is None,
    decreases s.len(),
{
    assert(s.drop_first()[k - 1] == s[k]);
    if j == 0 {
        lemma_word_stopped(s.drop_first(), acc, k - 1);
    } else {
        assert(s.drop_first()[j - 1] == s[j]);
        if let Some((next, collected)) = word_step(st, acc, s[0]) {
            lemma_word_blank_then_char(s.drop_first(), next, collected, j - 1, k - 1);
        }
    }
}

/// Whitespace cannot stand inside an identifier: an input where a blank
/// comes between two identifier characters is turned down, whatever the
/// state the recognizer starts in.
pub proof fn lemma_word_rejects_inner_blank(s: Seq<char>, st: KattyState, i: int, j: int, k: int)
    requires
        0 <= i < j < k < s.len(),
        is_word_char(s[i]),
        is_blank(s[j]),
        is_word_char(s[k]),
    ensures
        Katty::recognize(s, st) is None,
{
    lemma_word_scan_blank_inside(s, st, Seq::empty(), i, j, k);
}

proof fn lemma_word_scan_blank_inside(s: Seq<char>, st: KattyState, acc: Seq<char>, i: int, j: int, k: int)
    requires
        0 <= i < j < k < s.len(),
        is_word_char(s[i]),
        is_blank(s[j]),
        is_word_char(s[k]),
    ensures
        word_scan(s, st, acc) is None,
    decreases s.len(),
{
    let t = s.drop_first();
    assert(t[j - 1] == s[j]);
    assert(t[k - 1] == s[k]);
    if let Some((next, collected)) = word_step(st, acc, s[0]) {
        if i == 0 {
            lemma_word_blank_then_char(t, next, collected, j - 1, k - 1);
        } else {
            assert(t[i - 1] == s[i]);
            lemma_word_scan_blank_inside(t, next, collected, i - 1, j - 1, k - 1);
        }
    }
}

/// What the recognizer has collected, from the initial state on, is empty
/// before the first letter and an identifier after it.
spec fn collected_well(st: KattyState, acc: Seq<char>) -> bool {
    if st == KattyState::Initial {
        acc.len() == 0
    } else {
        is_identifier(acc)
    }
}

proof fn lemma_word_scan_collects_identifier(s: Seq<char>, st: KattyState, acc: Seq<char>)
    requires
        collected_well(st, acc),
    ensures
        word_scan(s, st, acc) matches Some((last, collected)) ==> collected_well(last, collected),
    decreases s.len(),
{
    if s.len() > 0 {
        if let Some((next, collected)) = word_step(st, acc, s[0]) {
            if collected != acc {
                assert(collected == acc.push(s[0]));
                assert forall|i: int| 0 <= i < collected.len() implies is_word_char(#[trigger] collected[i]) by {
                    if i < acc.len() {
                        assert(collected[i] == acc[i]);
                    }
                }
            }
            lemma_word_scan_collects_identifier(s.drop_first(), next, collected);
        }
    }
}

/// Keyword classification is by exact spelling: an identifier is a keyword
/// when it is one of the reserved spellings, and an ordinary identifier
/// otherwise, however close to one it is.
pub proof fn lemma_keyword_exact(w: Seq<char>)
    requires
        is_identifier(w),
    ensures
        Katty::recognize(w, KattyState::Initial) == Some((
            w,
            if w == seq!['y', 'e', 'l', 'l', 'o', 'w'] || w == seq!['w', 'a', 'l', 'l'] || w == seq![
                'e',
                'y',
                'e',
                's',
            ] {
                TokenKind::Keyword
            } else {
                TokenKind::Identifier
            },
        )),
{
    assert(Seq::<char>::empty() + w + Seq::<char>::empty() =~= w);
    lemma_word_trims(Seq::empty(), w, Seq::empty());
}

/// Feeding the identifier recognizer the text of a token it produced gives
/// the same token back.
pub proof fn lemma_word_round_trip(s: Seq<char>)
    ensures
        Katty::recognize(s, KattyState::Initial) matches Some((v, _)) ==> Katty::recognize(
            v,
            KattyState::Initial,
        ) == Katty::recognize(s, KattyState::Initial),
{
    lemma_word_scan_collects_identifier(s, KattyState::Initial, Seq::empty());
    if let Some(v) = word_of(s, KattyState::Initial) {
        assert(Seq::<char>::empty() + v + Seq::<char>::empty() =~= v);
        lemma_word_trims(Seq::empty(), v, Seq::empty());
    }
}

} // verus!
