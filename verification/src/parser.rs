use vstd::prelude::*;

use crate::ast::AstNode;
use crate::ast::SpecAst;
use crate::ast::ast_view;
use crate::token::SpecToken;
use crate::token::Token;
use crate::token::tokens_view;

verus! {

/// An error raised while parsing a token sequence.
#[derive(Debug, Clone, Copy, PartialEq, Eq, Structural)]
pub enum SyntaxError {
    /// A primary expression was expected and something else (or nothing) was found.
    ExpectedExpression,
    /// A `Then` keyword stood where a primary expression was expected.
    UnexpectedThen,
    /// The condition of an `If`/`Iff` was not followed by `Then`.
    MissingThen,
    /// A parenthesized expression was not closed.
    MissingClosingParen,
    /// Tokens remained after a complete expression was parsed.
    LeftoverTokens,
}

/// Grammar, highest to lowest binding, binary chains folded left to right:
/// ```text
/// expr    := primary ( (And | Or) primary )*
/// primary := Atom | Not primary | '(' expr ')' | (If | Iff) expr Then expr
/// ```
/// Each spec function below parses one production at `pos` and yields the
/// node together with the position just past it.  `If` and `Iff` keywords
/// deliberately build the same `If` node: the parser never constructs an
/// `Iff` tree from text, so the `Iff` variant only enters trees built
/// directly.
pub open spec fn parse_primary_at(toks: Seq<SpecToken>, pos: int) -> Result<
    (SpecAst, int),
    SyntaxError,
>
    decreases toks.len() - pos, 0int,
{
    if !(0 <= pos < toks.len()) {
        Err(SyntaxError::ExpectedExpression)
    } else {
        match toks[pos] {
            SpecToken::Atom(name) => Ok((SpecAst::Atom(name), pos + 1)),
            SpecToken::Not => parse_not_at(toks, pos + 1),
            SpecToken::If => parse_conditional_at(toks, pos + 1),
            SpecToken::Iff => parse_conditional_at(toks, pos + 1),
            SpecToken::OpenParen => parse_paren_at(toks, pos + 1),
            SpecToken::Then => Err(SyntaxError::UnexpectedThen),
            _ => Err(SyntaxError::ExpectedExpression),
        }
    }
}

/// Parses the single primary that a `Not` keyword negates.
pub open spec fn parse_not_at(toks: Seq<SpecToken>, pos: int) -> Result<
    (SpecAst, int),
    SyntaxError,
>
    decreases toks.len() - pos, 1int,
{
    match parse_primary_at(toks, pos) {
        Ok((e, p)) => Ok((SpecAst::Not(Box::new(e)), p)),
        Err(err) => Err(err),
    }
}

/// Parses `cond Then cons` after an `If` or `Iff` keyword.
pub open spec fn parse_conditional_at(toks: Seq<SpecToken>, pos: int) -> Result<
    (SpecAst, int),
    SyntaxError,
>
    decreases toks.len() - pos, 3int,
{
    match parse_expr_at(toks, pos) {
        Ok((cond, p)) => if pos <= p < toks.len() && toks[p] is Then {
            match parse_expr_at(toks, p + 1) {
                Ok((cons, q)) => Ok((SpecAst::If(Box::new(cond), Box::new(cons)), q)),
                Err(err) => Err(err),
            }
        } else {
            Err(SyntaxError::MissingThen)
        },
        Err(err) => Err(err),
    }
}

/// Parses `expr ')'` after an opening parenthesis.
pub open spec fn parse_paren_at(toks: Seq<SpecToken>, pos: int) -> Result<
    (SpecAst, int),
    SyntaxError,
>
    decreases toks.len() - pos, 3int,
{
    match parse_expr_at(toks, pos) {
        Ok((e, p)) => if 0 <= p < toks.len() && toks[p] is CloseParen {
            Ok((e, p + 1))
        } else {
            Err(SyntaxError::MissingClosingParen)
        },
        Err(err) => Err(err),
    }
}

/// Folds `(And | Or) primary` repetitions onto `acc`, left to right, both
/// operators at one precedence level.
pub open spec fn parse_expr_rest(toks: Seq<SpecToken>, acc: SpecAst, pos: int) -> Result<
    (SpecAst, int),
    SyntaxError,
>
    decreases toks.len() - pos, 1int,
{
    if 0 <= pos < toks.len() && (toks[pos] is And || toks[pos] is Or) {
        match parse_primary_at(toks, pos + 1) {
            Ok((rhs, p)) => if pos < p <= toks.len() {
                let node = if toks[pos] is And {
                    SpecAst::And(Box::new(acc), Box::new(rhs))
                } else {
                    SpecAst::Or(Box::new(acc), Box::new(rhs))
                };
                parse_expr_rest(toks, node, p)
            } else {
                Err(SyntaxError::ExpectedExpression)
            },
            Err(err) => Err(err),
        }
    } else {
        Ok((acc, pos))
    }
}

/// Parses one expression: a primary and any left-folded binary chain.
pub open spec fn parse_expr_at(toks: Seq<SpecToken>, pos: int) -> Result<
    (SpecAst, int),
    SyntaxError,
>
    decreases toks.len() - pos, 2int,
{
    match parse_primary_at(toks, pos) {
        Ok((first, p)) => if pos <= p <= toks.len() {
            parse_expr_rest(toks, first, p)
        } else {
            Err(SyntaxError::ExpectedExpression)
        },
        Err(err) => Err(err),
    }
}

/// What parsing a whole token sequence yields: the tree of the one
/// expression the tokens spell, or the first grammar violation's error;
/// tokens left over after the expression are themselves a violation.
pub open spec fn spec_parse(toks: Seq<SpecToken>) -> Result<SpecAst, SyntaxError> {
    match parse_expr_at(toks, 0) {
        Ok((ast, p)) => if p == toks.len() {
            Ok(ast)
        } else {
            Err(SyntaxError::LeftoverTokens)
        },
        Err(err) => Err(err),
    }
}

/// A recursive-descent parser over a materialized token sequence.
pub struct Parser {
    tokens: Vec<Token>,
    pos: usize,
}

impl Parser {
    /// The model of the tokens this parser was built over.
    pub closed spec fn toks(self) -> Seq<SpecToken> {
        tokens_view(self.tokens@)
    }

    /// The position of the next token to consume.
    pub closed spec fn at(self) -> int {
        self.pos as int
    }

    /// The cursor never leaves the token sequence.
    pub closed spec fn wf(self) -> bool {
        self.pos <= self.tokens@.len()
    }

    /// Builds a parser positioned at the start of `tokens`.
    pub fn new(tokens: Vec<Token>) -> (p: Parser)
        ensures
            p.toks() == tokens_view(tokens@),
            p.at() == 0,
            p.wf(),
    {
        Parser { tokens, pos: 0 }
    }

    /// Whether the next token is a binary operator (`And` or `Or`).
    fn peek_is_binop(&self) -> (b: bool)
        requires
            self.wf(),
        ensures
            b == (self.at() < self.toks().len() && (self.toks()[self.at()] is And
                || self.toks()[self.at()] is Or)),
    {
        if self.pos < self.tokens.len() {
            match &self.tokens[self.pos] {
                Token::And => true,
                Token::Or => true,
                _ => false,
            }
        } else {
            false
        }
    }

    fn parse_primary(&mut self) -> (r: Result<AstNode, SyntaxError>)
        requires
            old(self).wf(),
        ensures
            final(self).wf(),
            final(self).toks() == old(self).toks(),
            match r {
                Ok(ast) => parse_primary_at(old(self).toks(), old(self).at()) == Ok::<
                    (SpecAst, int),
                    SyntaxError,
                >((ast_view(ast), final(self).at())) && old(self).at() < final(self).at(),
                Err(e) => parse_primary_at(old(self).toks(), old(self).at()) == Err::<
                    (SpecAst, int),
                    SyntaxError,
                >(e),
            },
        decreases self.tokens@.len() - self.pos, 0int,
    {
        if self.pos >= self.tokens.len() {
            return Err(SyntaxError::ExpectedExpression);
        }
        match &self.tokens[self.pos] {
            Token::Atom(s) => {
                let name = s.clone();
                self.pos = self.pos + 1;
                Ok(AstNode::Atom(name))
            },
            Token::Not => {
                self.pos = self.pos + 1;
                self.parse_not()
            },
            Token::If => {
                self.pos = self.pos + 1;
                self.parse_conditional()
            },
            Token::Iff => {
                self.pos = self.pos + 1;
                self.parse_conditional()
            },
            Token::OpenParen => {
                self.pos = self.pos + 1;
                self.parse_parenthesized_expr()
            },
            Token::Then => Err(SyntaxError::UnexpectedThen),
            _ => Err(SyntaxError::ExpectedExpression),
        }
    }

    fn parse_not(&mut self) -> (r: Result<AstNode, SyntaxError>)
        requires
            old(self).wf(),
        ensures
            final(self).wf(),
            final(self).toks() == old(self).toks(),
            match r {
                Ok(ast) => parse_not_at(old(self).toks(), old(self).at()) == Ok::<
                    (SpecAst, int),
                    SyntaxError,
                >((ast_view(ast), final(self).at())) && old(self).at() < final(self).at(),
                Err(e) => parse_not_at(old(self).toks(), old(self).at()) == Err::<
                    (SpecAst, int),
                    SyntaxError,
                >(e),
            },
        decreases self.tokens@.len() - self.pos, 1int,
    {
        match self.parse_primary() {
            Ok(expr) => Ok(AstNode::Not(Box::new(expr))),
            Err(e) => Err(e),
        }
    }

    fn parse_conditional(&mut self) -> (r: Result<AstNode, SyntaxError>)
        requires
            old(self).wf(),
        ensures
            final(self).wf(),
            final(self).toks() == old(self).toks(),
            match r {
                Ok(ast) => parse_conditional_at(old(self).toks(), old(self).at()) == Ok::<
                    (SpecAst, int),
                    SyntaxError,
                >((ast_view(ast), final(self).at())) && old(self).at() < final(self).at(),
                Err(e) => parse_conditional_at(old(self).toks(), old(self).at()) == Err::<
                    (SpecAst, int),
                    SyntaxError,
                >(e),
            },
        decreases self.tokens@.len() - self.pos, 3int,
    {
        let condition = match self.parse_expr() {
            Ok(a) => a,
            Err(e) => {
                return Err(e);
            },
        };
        let has_then = self.pos < self.tokens.len() && matches!(
            &self.tokens[self.pos],
            Token::Then
        );
        if has_then {
            self.pos = self.pos + 1;
            let consequence = match self.parse_expr() {
                Ok(a) => a,
                Err(e) => {
                    return Err(e);
                },
            };
            Ok(AstNode::If(Box::new(condition), Box::new(consequence)))
        } else {
            Err(SyntaxError::MissingThen)
        }
    }

    fn parse_parenthesized_expr(&mut self) -> (r: Result<AstNode, SyntaxError>)
        requires
            old(self).wf(),
        ensures
            final(self).wf(),
            final(self).toks() == old(self).toks(),
            match r {
                Ok(ast) => parse_paren_at(old(self).toks(), old(self).at()) == Ok::<
                    (SpecAst, int),
                    SyntaxError,
                >((ast_view(ast), final(self).at())) && old(self).at() < final(self).at(),
                Err(e) => parse_paren_at(old(self).toks(), old(self).at()) == Err::<
                    (SpecAst, int),
                    SyntaxError,
                >(e),
            },
        decreases self.tokens@.len() - self.pos, 3int,
    {
        let expr = match self.parse_expr() {
            Ok(a) => a,
            Err(e) => {
                return Err(e);
            },
        };
        let has_close = self.pos < self.tokens.len() && matches!(
            &self.tokens[self.pos],
            Token::CloseParen
        );
        if has_close {
            self.pos = self.pos + 1;
            Ok(expr)
        } else {
            Err(SyntaxError::MissingClosingParen)
        }
    }

    fn parse_expr(&mut self) -> (r: Result<AstNode, SyntaxError>)
        requires
            old(self).wf(),
        ensures
            final(self).wf(),
            final(self).toks() == old(self).toks(),
            match r {
                Ok(ast) => parse_expr_at(old(self).toks(), old(self).at()) == Ok::<
                    (SpecAst, int),
                    SyntaxError,
                >((ast_view(ast), final(self).at())) && old(self).at() < final(self).at(),
                Err(e) => parse_expr_at(old(self).toks(), old(self).at()) == Err::<
                    (SpecAst, int),
                    SyntaxError,
                >(e),
            },
        decreases self.tokens@.len() - self.pos, 2int,
    {
        let ghost t0 = old(self).toks();
        let ghost p0 = old(self).at();
        let mut acc = match self.parse_primary() {
            Ok(a) => a,
            Err(e) => {
                return Err(e);
            },
        };
        #[verifier::loop_isolation(false)]
        loop
            invariant
                self.wf(),
                self.toks() == t0,
                p0 < self.at(),
                parse_expr_at(t0, p0) == parse_expr_rest(t0, ast_view(acc), self.at()),
            decreases t0.len() - self.at(),
        {
            if !self.peek_is_binop() {
                return Ok(acc);
            }
            let n = self.tokens.len();
            proof {
                assert(self.toks().len() == self.tokens@.len());
                assert(self.at() < self.toks().len());
                assert(self.pos < n);
            }
            let op_is_and = matches!(&self.tokens[self.pos], Token::And);
            self.pos = self.pos + 1;
            let rhs = match self.parse_primary() {
                Ok(a) => a,
                Err(e) => {
                    return Err(e);
                },
            };
            acc = if op_is_and {
                AstNode::And(Box::new(acc), Box::new(rhs))
            } else {
                AstNode::Or(Box::new(acc), Box::new(rhs))
            };
        }
    }

    /// Parses the whole token sequence into one formula tree.
    ///
    /// Succeeds exactly when the tokens spell a single well-formed
    /// expression with nothing left over; otherwise reports the first
    /// grammar violation.
    pub fn parse(&mut self) -> (r: Result<AstNode, SyntaxError>)
        requires
            old(self).wf(),
            old(self).at() == 0,
        ensures
            final(self).wf(),
            match r {
                Ok(ast) => spec_parse(old(self).toks()) == Ok::<SpecAst, SyntaxError>(
                    ast_view(ast),
                ),
                Err(e) => spec_parse(old(self).toks()) == Err::<SpecAst, SyntaxError>(e),
            },
    {
        let ast = match self.parse_expr() {
            Ok(a) => a,
            Err(e) => {
                return Err(e);
            },
        };
        if self.pos == self.tokens.len() {
            Ok(ast)
        } else {
            Err(SyntaxError::LeftoverTokens)
        }
    }
}

} // verus!
