use vstd::prelude::*;

use crate::assignment::Assignment;
use crate::ast::AstNode;
use crate::ast::SpecAst;
use crate::ast::spec_atoms;

verus! {

/// The truth of atom `n` under map `m`: the mapped value, and false for an
/// atom the map does not know — the documented default, not an error.
pub open spec fn atom_truth(m: Map<Seq<char>, bool>, n: Seq<char>) -> bool {
    m.contains_key(n) && m[n]
}

/// The truth value of a formula under an assignment map: classical
/// semantics, with `If` as material implication and `Iff` as equality of
/// truth values; unmapped atoms count as false.
pub open spec fn spec_evaluate(ast: SpecAst, m: Map<Seq<char>, bool>) -> bool
    decreases ast,
{
    match ast {
        SpecAst::Atom(name) => atom_truth(m, name),
        SpecAst::Not(x) => !spec_evaluate(*x, m),
        SpecAst::And(l, r) => spec_evaluate(*l, m) && spec_evaluate(*r, m),
        SpecAst::Or(l, r) => spec_evaluate(*l, m) || spec_evaluate(*r, m),
        SpecAst::If(l, r) => !spec_evaluate(*l, m) || spec_evaluate(*r, m),
        SpecAst::Iff(l, r) => spec_evaluate(*l, m) == spec_evaluate(*r, m),
    }
}

/// Computes the truth value of `ast` under `truth_assignment`.
pub fn evaluate(ast: &AstNode, truth_assignment: &Assignment) -> (b: bool)
    requires
        truth_assignment.wf(),
    ensures
        b == spec_evaluate(ast@, truth_assignment@),
    decreases ast,
{
    match ast {
        AstNode::Atom(name) => truth_assignment.lookup(name),
        AstNode::Not(x) => !evaluate(&**x, truth_assignment),
        AstNode::And(l, r) => {
            let lv = evaluate(&**l, truth_assignment);
            let rv = evaluate(&**r, truth_assignment);
            lv && rv
        },
        AstNode::Or(l, r) => {
            let lv = evaluate(&**l, truth_assignment);
            let rv = evaluate(&**r, truth_assignment);
            lv || rv
        },
        AstNode::If(l, r) => {
            let lv = evaluate(&**l, truth_assignment);
            let rv = evaluate(&**r, truth_assignment);
            !lv || rv
        },
        AstNode::Iff(l, r) => {
            let lv = evaluate(&**l, truth_assignment);
            let rv = evaluate(&**r, truth_assignment);
            (!lv || rv) && (lv || !rv)
        },
    }
}

/// The evaluator is compositional: the truth of a compound formula is the
/// matching boolean combination of the truths of its parts, under any
/// assignment map.
pub proof fn lemma_evaluate_compositional(x: SpecAst, y: SpecAst, m: Map<Seq<char>, bool>)
    ensures
        spec_evaluate(SpecAst::And(Box::new(x), Box::new(y)), m) == (spec_evaluate(x, m)
            && spec_evaluate(y, m)),
        spec_evaluate(SpecAst::Or(Box::new(x), Box::new(y)), m) == (spec_evaluate(x, m)
            || spec_evaluate(y, m)),
        spec_evaluate(SpecAst::Not(Box::new(x)), m) == !spec_evaluate(x, m),
        spec_evaluate(SpecAst::If(Box::new(x), Box::new(y)), m) == (spec_evaluate(x, m)
            ==> spec_evaluate(y, m)),
        spec_evaluate(SpecAst::Iff(Box::new(x), Box::new(y)), m) == (spec_evaluate(x, m)
            <==> spec_evaluate(y, m)),
{
}

/// Two assignment maps that give every atom of `ast` the same truth give
/// `ast` the same truth value.
pub proof fn lemma_evaluate_agrees(ast: SpecAst, m1: Map<Seq<char>, bool>, m2: Map<
    Seq<char>,
    bool,
>)
    requires
        forall|n: Seq<char>| spec_atoms(ast).contains(n) ==> atom_truth(m1, n) == atom_truth(
            m2,
            n,
        ),
    ensures
        spec_evaluate(ast, m1) == spec_evaluate(ast, m2),
    decreases ast,
{
    match ast {
        SpecAst::Atom(name) => {
            assert(spec_atoms(ast).contains(name));
        },
        SpecAst::Not(x) => {
            lemma_evaluate_agrees(*x, m1, m2);
        },
        SpecAst::And(l, r) => {
            lemma_evaluate_agrees(*l, m1, m2);
            lemma_evaluate_agrees(*r, m1, m2);
        },
        SpecAst::Or(l, r) => {
            lemma_evaluate_agrees(*l, m1, m2);
            lemma_evaluate_agrees(*r, m1, m2);
        },
        SpecAst::If(l, r) => {
            lemma_evaluate_agrees(*l, m1, m2);
            lemma_evaluate_agrees(*r, m1, m2);
        },
        SpecAst::Iff(l, r) => {
            lemma_evaluate_agrees(*l, m1, m2);
            lemma_evaluate_agrees(*r, m1, m2);
        },
    }
}

} // verus!
