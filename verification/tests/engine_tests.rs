use proplogic::Assignment;
use proplogic::AstNode;
use proplogic::EnumerateError;
use proplogic::Parser;
use proplogic::check_satisfiability;
use proplogic::evaluate;
use proplogic::find_atoms;
use proplogic::generate_truth_values;
use proplogic::lex;
use proplogic::partition_assignments;

fn parse_str(s: &str) -> AstNode {
    let toks = lex(s).unwrap();
    let mut parser = Parser::new(toks);
    parser.parse().unwrap()
}

fn atoms_of(ast: &AstNode) -> Vec<String> {
    let mut atoms: Vec<String> = Vec::new();
    find_atoms(ast, &mut atoms);
    atoms
}

fn value(a: &Assignment, name: &str) -> bool {
    a.get(&name.to_string()).unwrap()
}

#[test]
fn find_atoms_collects_each_name_once() {
    let ast = parse_str("a and (a or b)");
    let atoms = atoms_of(&ast);
    assert_eq!(atoms, vec!["a".to_string(), "b".to_string()]);
}

#[test]
fn find_atoms_walks_every_node_kind() {
    let ast = parse_str("if not a then (b or c) and d");
    let mut atoms = atoms_of(&ast);
    atoms.sort();
    assert_eq!(
        atoms,
        vec![
            "a".to_string(),
            "b".to_string(),
            "c".to_string(),
            "d".to_string()
        ]
    );
}

#[test]
fn enumerate_two_atoms_gives_four_distinct_assignments() {
    let atoms = vec!["a".to_string(), "b".to_string()];
    let assignments = generate_truth_values(&atoms).unwrap();
    assert_eq!(assignments.len(), 4);
    for i in 0..assignments.len() {
        for j in (i + 1)..assignments.len() {
            assert_ne!(assignments[i], assignments[j]);
        }
    }
}

#[test]
fn enumerate_three_atoms_gives_eight() {
    let atoms = vec!["a".to_string(), "b".to_string(), "c".to_string()];
    let assignments = generate_truth_values(&atoms).unwrap();
    assert_eq!(assignments.len(), 8);
}

#[test]
fn enumerate_empty_universe_gives_one_empty_assignment() {
    let atoms: Vec<String> = Vec::new();
    let assignments = generate_truth_values(&atoms).unwrap();
    assert_eq!(assignments.len(), 1);
    assert_eq!(assignments[0].get(&"a".to_string()), None);
}

#[test]
fn enumerate_follows_bit_positions() {
    let atoms = vec!["a".to_string(), "b".to_string()];
    let assignments = generate_truth_values(&atoms).unwrap();
    // Combination c maps atom i to bit i of c, low bit first.
    assert_eq!(value(&assignments[0], "a"), false);
    assert_eq!(value(&assignments[0], "b"), false);
    assert_eq!(value(&assignments[1], "a"), true);
    assert_eq!(value(&assignments[1], "b"), false);
    assert_eq!(value(&assignments[2], "a"), false);
    assert_eq!(value(&assignments[2], "b"), true);
    assert_eq!(value(&assignments[3], "a"), true);
    assert_eq!(value(&assignments[3], "b"), true);
}

#[test]
fn enumerate_refuses_oversized_universe() {
    let mut atoms: Vec<String> = Vec::new();
    for i in 0..21 {
        atoms.push(format!("x{}", i));
    }
    assert_eq!(
        generate_truth_values(&atoms),
        Err(EnumerateError::ResourceLimitExceeded)
    );
}

#[test]
fn enumerate_accepts_universe_at_the_ceiling_boundary() {
    let mut atoms: Vec<String> = Vec::new();
    for i in 0..10 {
        atoms.push(format!("x{}", i));
    }
    let assignments = generate_truth_values(&atoms).unwrap();
    assert_eq!(assignments.len(), 1024);
}

#[test]
fn evaluate_missing_atom_is_false() {
    let atoms = vec!["a".to_string()];
    let assignments = generate_truth_values(&atoms).unwrap();
    let ast = AstNode::Atom("z".to_string());
    for a in &assignments {
        assert_eq!(evaluate(&ast, a), false);
    }
}

#[test]
fn evaluate_is_compositional_on_all_assignments() {
    let x = || parse_str("a or c");
    let y = || parse_str("not b");
    let atoms = vec!["a".to_string(), "b".to_string(), "c".to_string()];
    let assignments = generate_truth_values(&atoms).unwrap();
    for a in &assignments {
        let xv = evaluate(&x(), a);
        let yv = evaluate(&y(), a);
        let and = AstNode::And(Box::new(x()), Box::new(y()));
        let or = AstNode::Or(Box::new(x()), Box::new(y()));
        let not = AstNode::Not(Box::new(x()));
        let imp = AstNode::If(Box::new(x()), Box::new(y()));
        let iff = AstNode::Iff(Box::new(x()), Box::new(y()));
        assert_eq!(evaluate(&and, a), xv && yv);
        assert_eq!(evaluate(&or, a), xv || yv);
        assert_eq!(evaluate(&not, a), !xv);
        assert_eq!(evaluate(&imp, a), !xv || yv);
        assert_eq!(evaluate(&iff, a), xv == yv);
    }
}

#[test]
fn evaluate_iff_node_is_biconditional() {
    let ast = AstNode::Iff(
        Box::new(AstNode::Atom("a".to_string())),
        Box::new(AstNode::Atom("b".to_string())),
    );
    let atoms = vec!["a".to_string(), "b".to_string()];
    let assignments = generate_truth_values(&atoms).unwrap();
    let (sat, unsat) = partition_assignments(&ast, assignments);
    assert_eq!(sat.len(), 2);
    assert_eq!(unsat.len(), 2);
    for a in &sat {
        assert_eq!(value(a, "a"), value(a, "b"));
    }
}

#[test]
fn scenario_a_and_b() {
    let ast = parse_str("a and b");
    let atoms = atoms_of(&ast);
    assert_eq!(atoms.len(), 2);
    let assignments = generate_truth_values(&atoms).unwrap();
    assert_eq!(assignments.len(), 4);
    let (sat, unsat) = partition_assignments(&ast, assignments);
    assert_eq!(sat.len(), 1);
    assert_eq!(unsat.len(), 3);
    assert_eq!(value(&sat[0], "a"), true);
    assert_eq!(value(&sat[0], "b"), true);
}

#[test]
fn scenario_not_a_or_b() {
    let ast = parse_str("not a or b");
    let atoms = atoms_of(&ast);
    let assignments = generate_truth_values(&atoms).unwrap();
    let (sat, unsat) = partition_assignments(&ast, assignments);
    assert_eq!(sat.len(), 3);
    assert_eq!(unsat.len(), 1);
    assert_eq!(value(&unsat[0], "a"), true);
    assert_eq!(value(&unsat[0], "b"), false);
}

#[test]
fn scenario_if_a_then_b() {
    let ast = parse_str("if a then b");
    let atoms = atoms_of(&ast);
    let assignments = generate_truth_values(&atoms).unwrap();
    let (sat, unsat) = partition_assignments(&ast, assignments);
    assert_eq!(sat.len(), 3);
    assert_eq!(unsat.len(), 1);
    assert_eq!(value(&unsat[0], "a"), true);
    assert_eq!(value(&unsat[0], "b"), false);
}

#[test]
fn satisfiability_report_composes_the_pipeline() {
    let ast = parse_str("a and not a");
    let (sat, unsat) = check_satisfiability(&ast).unwrap();
    assert_eq!(sat.len(), 0);
    assert_eq!(unsat.len(), 2);
    let tautology = parse_str("a or not a");
    let (sat, unsat) = check_satisfiability(&tautology).unwrap();
    assert_eq!(sat.len(), 2);
    assert_eq!(unsat.len(), 0);
}

#[test]
fn satisfiability_report_refuses_oversized_formula() {
    let mut text = String::from("xa");
    for i in 1..21u8 {
        text.push_str(" and x");
        text.push((b'a' + i) as char);
    }
    let ast = parse_str(&text);
    assert_eq!(
        check_satisfiability(&ast),
        Err(EnumerateError::ResourceLimitExceeded)
    );
}

#[test]
fn partition_keeps_assignment_order() {
    let ast = parse_str("a");
    let atoms = atoms_of(&ast);
    let assignments = generate_truth_values(&atoms).unwrap();
    let expected_sat: Vec<Assignment> = assignments
        .iter()
        .filter(|a| evaluate(&ast, a))
        .cloned()
        .collect();
    let (sat, _) = partition_assignments(&ast, assignments);
    assert_eq!(sat, expected_sat);
}
