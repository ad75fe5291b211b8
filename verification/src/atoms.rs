use vstd::prelude::*;

use crate::assignment::distinct_names;
use crate::assignment::names_set;
use crate::ast::AstNode;
use crate::ast::spec_atoms;

verus! {

/// Whether `atoms` already holds `name`.
fn contains_name(atoms: &Vec<String>, name: &String) -> (b: bool)
    ensures
        b == names_set(atoms@).contains(name@),
{
    let n = atoms.len();
    let mut i: usize = 0;
    while i < n
        invariant
            n == atoms@.len(),
            i <= n,
            forall|k: int| 0 <= k < i ==> atoms@[k]@ != name@,
        decreases n - i,
    {
        if atoms[i].eq(name) {
            proof {
                assert(names_set(atoms@).contains(name@));
            }
            return true;
        }
        i += 1;
    }
    proof {
        assert(!names_set(atoms@).contains(name@));
    }
    false
}

/// Adds every atom name occurring in `ast` to `atoms`, keeping the names
/// distinct; names already present are not added again.
pub fn find_atoms(ast: &AstNode, atoms: &mut Vec<String>)
    requires
        distinct_names(old(atoms)@),
    ensures
        distinct_names(final (atoms)@),
        names_set(final (atoms)@) == names_set(old(atoms)@).union(spec_atoms(ast@)),
    decreases ast,
{
    match ast {
        AstNode::Atom(name) => {
            let ghost before = atoms@;
            if !contains_name(atoms, name) {
                atoms.push(name.clone());
                proof {
                    assert(atoms@.len() == before.len() + 1);
                    assert(atoms@[before.len() as int]@ == name@);
                    assert(forall|k: int| 0 <= k < before.len() ==> atoms@[k] == before[k]);
                    assert forall|n: Seq<char>|
                        names_set(atoms@).contains(n) == names_set(before).union(
                            spec_atoms(ast@),
                        ).contains(n) by {
                        if names_set(atoms@).contains(n) {
                            let i = choose|i: int| 0 <= i < atoms@.len() && atoms@[i]@ == n;
                            if i < before.len() {
                                assert(before[i]@ == n);
                                assert(names_set(before).contains(n));
                            } else {
                                assert(n == name@);
                            }
                        }
                        if names_set(before).contains(n) {
                            let i = choose|i: int| 0 <= i < before.len() && before[i]@ == n;
                            assert(atoms@[i]@ == n);
                            assert(names_set(atoms@).contains(n));
                        }
                        if spec_atoms(ast@).contains(n) {
                            assert(n == name@);
                            assert(atoms@[before.len() as int]@ == n);
                            assert(names_set(atoms@).contains(n));
                        }
                    }
                    assert(names_set(atoms@) =~= names_set(before).union(spec_atoms(ast@)));
                    assert(distinct_names(atoms@));
                }
            } else {
                proof {
                    assert(names_set(atoms@) =~= names_set(before).union(spec_atoms(ast@)));
                }
            }
        },
        AstNode::Not(x) => {
            find_atoms(&**x, atoms);
        },
        AstNode::And(l, r) => {
            let ghost before = atoms@;
            find_atoms(&**l, atoms);
            find_atoms(&**r, atoms);
            proof {
                assert(names_set(atoms@) =~= names_set(before).union(spec_atoms(ast@)));
            }
        },
        AstNode::Or(l, r) => {
            let ghost before = atoms@;
            find_atoms(&**l, atoms);
            find_atoms(&**r, atoms);
            proof {
                assert(names_set(atoms@) =~= names_set(before).union(spec_atoms(ast@)));
            }
        },
        AstNode::If(l, r) => {
            let ghost before = atoms@;
            find_atoms(&**l, atoms);
            find_atoms(&**r, atoms);
            proof {
                assert(names_set(atoms@) =~= names_set(before).union(spec_atoms(ast@)));
            }
        },
        AstNode::Iff(l, r) => {
            let ghost before = atoms@;
            find_atoms(&**l, atoms);
            find_atoms(&**r, atoms);
            proof {
                assert(names_set(atoms@) =~= names_set(before).union(spec_atoms(ast@)));
            }
        },
    }
}

} // verus!
