use proplogic::AstNode;
use proplogic::EnumerateError;
use proplogic::Parser;
use proplogic::entails;
use proplogic::lex;

fn parse_str(s: &str) -> AstNode {
    let toks = lex(s).unwrap();
    let mut parser = Parser::new(toks);
    parser.parse().unwrap()
}

fn kb(formulas: &[&str]) -> Vec<AstNode> {
    formulas.iter().map(|s| parse_str(s)).collect()
}

#[test]
fn modus_ponens_entails() {
    let base = kb(&["a", "if a then b"]);
    let alpha = parse_str("b");
    assert_eq!(entails(&base, &alpha), Ok(true));
}

#[test]
fn disjunction_does_not_entail_disjunct() {
    let base = kb(&["a or b"]);
    let alpha = parse_str("a");
    assert_eq!(entails(&base, &alpha), Ok(false));
}

#[test]
fn empty_base_entails_only_tautologies() {
    let base: Vec<AstNode> = Vec::new();
    assert_eq!(entails(&base, &parse_str("a or not a")), Ok(true));
    assert_eq!(entails(&base, &parse_str("a")), Ok(false));
}

#[test]
fn contradictory_base_entails_anything() {
    let base = kb(&["a", "not a"]);
    assert_eq!(entails(&base, &parse_str("b")), Ok(true));
}

#[test]
fn chained_implications_entail() {
    let base = kb(&["p", "if p then q", "if q then r"]);
    assert_eq!(entails(&base, &parse_str("r")), Ok(true));
}

#[test]
fn entailment_is_monotone_on_an_example() {
    // Adding a formula to the base can only shrink the satisfying set, so
    // an entailed formula stays entailed.
    let base = kb(&["a", "if a then b"]);
    let alpha = parse_str("b");
    assert_eq!(entails(&base, &alpha), Ok(true));
    let mut larger = kb(&["a", "if a then b"]);
    larger.push(parse_str("c or not c"));
    assert_eq!(entails(&larger, &alpha), Ok(true));
    let mut with_contradiction = kb(&["a", "if a then b"]);
    with_contradiction.push(parse_str("not a"));
    assert_eq!(entails(&with_contradiction, &alpha), Ok(true));
}

#[test]
fn alpha_atoms_join_the_shared_universe() {
    // The universe is the union over the base's atoms and alpha's atoms,
    // so an atom only in alpha still gets both truth values.
    let base = kb(&["a"]);
    assert_eq!(entails(&base, &parse_str("b")), Ok(false));
}

#[test]
fn entails_refuses_oversized_universe() {
    let mut formulas: Vec<String> = Vec::new();
    for i in 0..21u8 {
        formulas.push(format!("y{}", (b'a' + i) as char));
    }
    let base: Vec<AstNode> = formulas.iter().map(|s| parse_str(s)).collect();
    let alpha = parse_str("ya");
    assert_eq!(
        entails(&base, &alpha),
        Err(EnumerateError::ResourceLimitExceeded)
    );
}

#[test]
fn iff_surface_syntax_entails_as_implication() {
    // `iff a then b` parses to the same If node as `if a then b`, so the
    // reverse implication is deliberately not entailed.
    let base = kb(&["b", "iff a then b"]);
    assert_eq!(entails(&base, &parse_str("a")), Ok(false));
}
