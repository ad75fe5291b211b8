//! Propositional logic by brute force: an ASCII lexer, a recursive-descent
//! parser, and an engine that enumerates truth assignments to decide
//! satisfiability and entailment.

pub mod assignment;
pub mod ast;
pub mod atoms;
pub mod entail;
pub mod enumerate;
pub mod eval;
pub mod laws;
pub mod lexer;
pub mod parser;
pub mod token;

pub use assignment::Assignment;
pub use ast::AstNode;
pub use ast::SpecAst;
pub use atoms::find_atoms;
pub use entail::check_satisfiability;
pub use entail::entails;
pub use entail::partition_assignments;
pub use enumerate::EnumerateError;
pub use enumerate::generate_truth_values;
pub use eval::evaluate;
pub use lexer::LexError;
pub use lexer::lex;
pub use lexer::serialize_tokens;
pub use parser::Parser;
pub use parser::SyntaxError;
pub use token::SpecToken;
pub use token::Token;
