use vstd::prelude::*;

verus! {

/// A lexical token of the formula language.
///
/// `Atom` carries the name of a propositional variable: a maximal alphabetic
/// run of the input that is not one of the reserved keywords.  The remaining
/// variants stand for the keywords and the two parenthesis characters.
#[derive(Debug, Clone, PartialEq)]
pub enum Token {
    Atom(String),
    Not,
    And,
    Or,
    If,
    Iff,
    Then,
    OpenParen,
    CloseParen,
}

/// The mathematical model of a token: atom names are character sequences.
pub enum SpecToken {
    Atom(Seq<char>),
    Not,
    And,
    Or,
    If,
    Iff,
    Then,
    OpenParen,
    CloseParen,
}

impl View for Token {
    type V = SpecToken;

    open spec fn view(&self) -> SpecToken {
        match self {
            Token::Atom(s) => SpecToken::Atom(s@),
            Token::Not => SpecToken::Not,
            Token::And => SpecToken::And,
            Token::Or => SpecToken::Or,
            Token::If => SpecToken::If,
            Token::Iff => SpecToken::Iff,
            Token::Then => SpecToken::Then,
            Token::OpenParen => SpecToken::OpenParen,
            Token::CloseParen => SpecToken::CloseParen,
        }
    }
}

/// The models of a token vector's elements, in order.
pub open spec fn tokens_view(v: Seq<Token>) -> Seq<SpecToken> {
    v.map_values(|t: Token| t@)
}

} // verus!
