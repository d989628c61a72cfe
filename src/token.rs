use vstd::prelude::*;

verus! {

/// The category of a recognized lexeme.
#[derive(Debug, Clone, Copy, PartialEq, Eq, Structural)]
pub enum TokenKind {
    Text,
    Identifier,
    Keyword,
    Number,
}

/// A recognized lexeme: its (possibly normalized) text and its category.
#[derive(Debug)]
pub struct Token {
    value: String,
    kind: TokenKind,
}

impl View for Token {
    type V = (Seq<char>, TokenKind);

    closed spec fn view(&self) -> (Seq<char>, TokenKind) {
        (self.value@, self.kind)
    }
}

impl Token {
    pub fn new(value: String, kind: TokenKind) -> (r: Token)
        ensures
            r@ == (value@, kind),
    {
        Token { value, kind }
    }

    /// The text of the lexeme.
    pub fn value(&self) -> (r: &str)
        ensures
            r@ == self@.0,
    {
        self.value.as_str()
    }

    /// The category of the lexeme.
    pub fn kind(&self) -> (r: TokenKind)
        ensures
            r == self@.1,
    {
        self.kind
    }
}

impl PartialEq for Token {
    fn eq(&self, other: &Token) -> (r: bool)
        ensures
            r == (self@ == other@),
    {
        self.value == other.value && self.kind == other.kind
    }
}

impl vstd::std_specs::cmp::PartialEqSpecImpl for Token {
    open spec fn obeys_eq_spec() -> bool {
        true
    }

    open spec fn eq_spec(&self, other: &Token) -> bool {
        self@ == other@
    }
}

impl Eq for Token {
}

} // verus!
