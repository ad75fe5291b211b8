use proplogic::LexError;
use proplogic::Token;
use proplogic::lex;
use proplogic::serialize_tokens;

fn atom(s: &str) -> Token {
    Token::Atom(s.to_string())
}

#[test]
fn lex_simple_and() {
    let toks = lex("a and b").unwrap();
    assert_eq!(toks, vec![atom("a"), Token::And, atom("b")]);
}

#[test]
fn lex_or_and_not() {
    let toks = lex("not a or b").unwrap();
    assert_eq!(toks, vec![Token::Not, atom("a"), Token::Or, atom("b")]);
}

#[test]
fn lex_conditional() {
    let toks = lex("if a then b").unwrap();
    assert_eq!(toks, vec![Token::If, atom("a"), Token::Then, atom("b")]);
}

#[test]
fn lex_iff_keyword() {
    let toks = lex("iff a then b").unwrap();
    assert_eq!(toks, vec![Token::Iff, atom("a"), Token::Then, atom("b")]);
}

#[test]
fn lex_parentheses() {
    let toks = lex("(a and b)").unwrap();
    assert_eq!(
        toks,
        vec![
            Token::OpenParen,
            atom("a"),
            Token::And,
            atom("b"),
            Token::CloseParen
        ]
    );
}

#[test]
fn lex_skips_other_characters() {
    let toks = lex("a and,  b!").unwrap();
    assert_eq!(toks, vec![atom("a"), Token::And, atom("b")]);
}

#[test]
fn lex_empty_input() {
    let toks = lex("").unwrap();
    assert_eq!(toks, Vec::new());
}

#[test]
fn lex_adjacent_atoms_fail() {
    assert_eq!(lex("a b"), Err(LexError::MissingOperator));
}

#[test]
fn lex_then_without_if_fails() {
    assert_eq!(lex("then a"), Err(LexError::ThenWithoutIf));
}

#[test]
fn lex_second_then_without_open_if_fails() {
    assert_eq!(lex("if a then b then c"), Err(LexError::ThenWithoutIf));
}

#[test]
fn lex_nested_conditionals() {
    let toks = lex("if if a then b then c").unwrap();
    assert_eq!(
        toks,
        vec![
            Token::If,
            Token::If,
            atom("a"),
            Token::Then,
            atom("b"),
            Token::Then,
            atom("c")
        ]
    );
}

#[test]
fn lex_keyword_must_be_whole_word() {
    let toks = lex("andrew or nothing").unwrap();
    assert_eq!(toks, vec![atom("andrew"), Token::Or, atom("nothing")]);
}

#[test]
fn lex_is_case_sensitive() {
    let toks = lex("Not and a").unwrap();
    assert_eq!(toks, vec![atom("Not"), Token::And, atom("a")]);
}

#[test]
fn relex_of_serialization_is_identity() {
    let inputs = [
        "a and b",
        "not a or (b and c)",
        "if a then b or not c",
        "iff a then b",
        "  a   and(b )or c ",
    ];
    for input in inputs {
        let toks = lex(input).unwrap();
        let text = serialize_tokens(&toks);
        assert_eq!(lex(&text).unwrap(), toks);
    }
}

#[test]
fn serialize_prints_tokens_with_spaces() {
    let toks = lex("(a and b)").unwrap();
    assert_eq!(serialize_tokens(&toks), "( a and b )");
}
