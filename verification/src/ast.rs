use vstd::prelude::*;

verus! {

/// The abstract syntax tree of a formula.  Each compound node owns its
/// children outright; a tree is built once by the parser and never mutated.
#[derive(Debug, PartialEq)]
pub enum AstNode {
    Atom(String),
    Not(Box<AstNode>),
    And(Box<AstNode>, Box<AstNode>),
    Or(Box<AstNode>, Box<AstNode>),
    If(Box<AstNode>, Box<AstNode>),
    Iff(Box<AstNode>, Box<AstNode>),
}

/// The mathematical model of a formula tree.
pub enum SpecAst {
    Atom(Seq<char>),
    Not(Box<SpecAst>),
    And(Box<SpecAst>, Box<SpecAst>),
    Or(Box<SpecAst>, Box<SpecAst>),
    If(Box<SpecAst>, Box<SpecAst>),
    Iff(Box<SpecAst>, Box<SpecAst>),
}

/// The model of a formula tree: the same shape, with atom names as
/// character sequences.
pub open spec fn ast_view(ast: AstNode) -> SpecAst
    decreases ast,
{
    match ast {
        AstNode::Atom(s) => SpecAst::Atom(s@),
        AstNode::Not(x) => SpecAst::Not(Box::new(ast_view(*x))),
        AstNode::And(l, r) => SpecAst::And(Box::new(ast_view(*l)), Box::new(ast_view(*r))),
        AstNode::Or(l, r) => SpecAst::Or(Box::new(ast_view(*l)), Box::new(ast_view(*r))),
        AstNode::If(l, r) => SpecAst::If(Box::new(ast_view(*l)), Box::new(ast_view(*r))),
        AstNode::Iff(l, r) => SpecAst::Iff(Box::new(ast_view(*l)), Box::new(ast_view(*r))),
    }
}

impl View for AstNode {
    type V = SpecAst;

    open spec fn view(&self) -> SpecAst {
        ast_view(*self)
    }
}

/// The set of distinct atom names that occur anywhere in a formula.
pub open spec fn spec_atoms(ast: SpecAst) -> Set<Seq<char>>
    decreases ast,
{
    match ast {
        SpecAst::Atom(name) => set![name],
        SpecAst::Not(x) => spec_atoms(*x),
        SpecAst::And(l, r) => spec_atoms(*l).union(spec_atoms(*r)),
        SpecAst::Or(l, r) => spec_atoms(*l).union(spec_atoms(*r)),
        SpecAst::If(l, r) => spec_atoms(*l).union(spec_atoms(*r)),
        SpecAst::Iff(l, r) => spec_atoms(*l).union(spec_atoms(*r)),
    }
}

/// The atom names at the leaves of a formula, left to right, repeats kept.
pub open spec fn leaf_atoms(ast: SpecAst) -> Seq<Seq<char>>
    decreases ast,
{
    match ast {
        SpecAst::Atom(name) => seq![name],
        SpecAst::Not(x) => leaf_atoms(*x),
        SpecAst::And(l, r) => leaf_atoms(*l) + leaf_atoms(*r),
        SpecAst::Or(l, r) => leaf_atoms(*l) + leaf_atoms(*r),
        SpecAst::If(l, r) => leaf_atoms(*l) + leaf_atoms(*r),
        SpecAst::Iff(l, r) => leaf_atoms(*l) + leaf_atoms(*r),
    }
}

} // verus!
