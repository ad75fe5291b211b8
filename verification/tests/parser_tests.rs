use proplogic::AstNode;
use proplogic::Parser;
use proplogic::SyntaxError;
use proplogic::Token;
use proplogic::lex;

fn atom(s: &str) -> AstNode {
    AstNode::Atom(s.to_string())
}

fn parse_str(s: &str) -> Result<AstNode, SyntaxError> {
    let toks = lex(s).unwrap();
    let mut parser = Parser::new(toks);
    parser.parse()
}

#[test]
fn parse_simple_and() {
    let ast = parse_str("a and b").unwrap();
    assert_eq!(ast, AstNode::And(Box::new(atom("a")), Box::new(atom("b"))));
}

#[test]
fn parse_not_or() {
    let ast = parse_str("not a or b").unwrap();
    assert_eq!(
        ast,
        AstNode::Or(
            Box::new(AstNode::Not(Box::new(atom("a")))),
            Box::new(atom("b"))
        )
    );
}

#[test]
fn parse_conditional() {
    let ast = parse_str("if a then b").unwrap();
    assert_eq!(ast, AstNode::If(Box::new(atom("a")), Box::new(atom("b"))));
}

#[test]
fn parse_iff_builds_if_node() {
    // The surface `iff` keyword is accepted but the parser deliberately
    // builds the same If-shaped node as `if`; an Iff tree is never
    // constructed from text.
    let ast = parse_str("iff a then b").unwrap();
    assert_eq!(ast, AstNode::If(Box::new(atom("a")), Box::new(atom("b"))));
}

#[test]
fn parse_left_fold_no_precedence() {
    // `a and b or c` folds left to right: Or(And(a, b), c).
    let ast = parse_str("a and b or c").unwrap();
    assert_eq!(
        ast,
        AstNode::Or(
            Box::new(AstNode::And(Box::new(atom("a")), Box::new(atom("b")))),
            Box::new(atom("c"))
        )
    );
}

#[test]
fn parse_not_binds_one_primary() {
    // `not a and b` is And(Not(a), b), not Not(And(a, b)).
    let ast = parse_str("not a and b").unwrap();
    assert_eq!(
        ast,
        AstNode::And(
            Box::new(AstNode::Not(Box::new(atom("a")))),
            Box::new(atom("b"))
        )
    );
}

#[test]
fn parse_parentheses_group() {
    let ast = parse_str("a and (b or c)").unwrap();
    assert_eq!(
        ast,
        AstNode::And(
            Box::new(atom("a")),
            Box::new(AstNode::Or(Box::new(atom("b")), Box::new(atom("c"))))
        )
    );
}

#[test]
fn parse_conditional_consequent_is_full_expr() {
    // `if a then b and c` parses the consequent as a whole expression.
    let ast = parse_str("if a then b and c").unwrap();
    assert_eq!(
        ast,
        AstNode::If(
            Box::new(atom("a")),
            Box::new(AstNode::And(Box::new(atom("b")), Box::new(atom("c"))))
        )
    );
}

#[test]
fn parse_missing_close_paren_fails() {
    assert_eq!(parse_str("(a and b"), Err(SyntaxError::MissingClosingParen));
}

#[test]
fn parse_missing_then_fails() {
    assert_eq!(parse_str("if a"), Err(SyntaxError::MissingThen));
}

#[test]
fn parse_unexpected_then_fails() {
    assert_eq!(
        parse_str("if if a then then b"),
        Err(SyntaxError::UnexpectedThen)
    );
}

#[test]
fn parse_empty_input_fails() {
    assert_eq!(parse_str(""), Err(SyntaxError::ExpectedExpression));
}

#[test]
fn parse_trailing_operator_fails() {
    assert_eq!(parse_str("a and"), Err(SyntaxError::ExpectedExpression));
}

#[test]
fn parse_leftover_tokens_fail() {
    assert_eq!(parse_str("a)"), Err(SyntaxError::LeftoverTokens));
}

#[test]
fn parse_from_hand_built_tokens() {
    let mut parser = Parser::new(vec![
        Token::Atom("x".to_string()),
        Token::Or,
        Token::Atom("y".to_string()),
    ]);
    assert_eq!(
        parser.parse().unwrap(),
        AstNode::Or(Box::new(atom("x")), Box::new(atom("y")))
    );
}

#[test]
fn parse_empty_token_vector_fails() {
    let mut parser = Parser::new(Vec::new());
    assert_eq!(parser.parse(), Err(SyntaxError::ExpectedExpression));
}
