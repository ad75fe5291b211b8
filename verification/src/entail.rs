use vstd::prelude::*;

use crate::assignment::Assignment;
use crate::assignment::distinct_names;
use crate::assignment::names_set;
use crate::ast::AstNode;
use crate::ast::SpecAst;
use crate::ast::ast_view;
use crate::ast::spec_atoms;
use crate::atoms::find_atoms;
use crate::enumerate::EnumerateError;
use crate::enumerate::MAX_ATOMS;
use crate::enumerate::encode;
use crate::enumerate::generate_truth_values;
use crate::enumerate::lemma_encode_bits;
use crate::enumerate::lemma_encode_bound;
use crate::enumerate::pow2;
use crate::eval::atom_truth;
use crate::eval::evaluate;
use crate::eval::lemma_evaluate_agrees;
use crate::eval::spec_evaluate;

verus! {

/// The models of a formula vector's elements, in order.
pub open spec fn asts_view(v: Seq<AstNode>) -> Seq<SpecAst> {
    v.map_values(|a: AstNode| ast_view(a))
}

/// Every formula of the knowledge base holds under map `m`.
pub open spec fn kb_holds(kb: Seq<SpecAst>, m: Map<Seq<char>, bool>) -> bool {
    forall|i: int| 0 <= i < kb.len() ==> spec_evaluate(#[trigger] kb[i], m)
}

/// KB entails alpha: every assignment map that satisfies the whole
/// knowledge base also satisfies alpha.
pub open spec fn spec_entails(kb: Seq<SpecAst>, alpha: SpecAst) -> bool {
    forall|m: Map<Seq<char>, bool>| #[trigger] kb_holds(kb, m) ==> spec_evaluate(alpha, m)
}

/// The distinct atom names of all the knowledge base's formulas.
pub open spec fn kb_atoms(kb: Seq<SpecAst>) -> Set<Seq<char>>
    decreases kb.len(),
{
    if kb.len() == 0 {
        Set::empty()
    } else {
        kb_atoms(kb.drop_last()).union(spec_atoms(kb.last()))
    }
}

/// The shared atom universe of an entailment question.
pub open spec fn atom_universe(kb: Seq<SpecAst>, alpha: SpecAst) -> Set<Seq<char>> {
    kb_atoms(kb).union(spec_atoms(alpha))
}

/// Adding a formula to a knowledge base can only shrink or keep the set of
/// assignment maps satisfying the whole base, never grow it; entailment is
/// therefore preserved by the addition.
pub proof fn lemma_kb_monotone(kb: Seq<SpecAst>, phi: SpecAst, alpha: SpecAst)
    ensures
        forall|m: Map<Seq<char>, bool>| #[trigger] kb_holds(kb.push(phi), m) ==> kb_holds(kb, m),
        spec_entails(kb, alpha) ==> spec_entails(kb.push(phi), alpha),
{
    assert forall|m: Map<Seq<char>, bool>| #[trigger] kb_holds(kb.push(phi), m) implies kb_holds(
        kb,
        m,
    ) by {
        assert forall|i: int| 0 <= i < kb.len() implies spec_evaluate(#[trigger] kb[i], m) by {
            assert(kb.push(phi)[i] == kb[i]);
            assert(spec_evaluate(kb.push(phi)[i], m));
        }
    }
}

/// The atoms of each knowledge-base formula lie in the base's atom set.
proof fn lemma_kb_atoms_subset(kb: Seq<SpecAst>, i: int)
    requires
        0 <= i < kb.len(),
    ensures
        spec_atoms(kb[i]).subset_of(kb_atoms(kb)),
    decreases kb.len(),
{
    if i == kb.len() - 1 {
    } else {
        lemma_kb_atoms_subset(kb.drop_last(), i);
        assert(kb.drop_last()[i] == kb[i]);
    }
}

/// A vector of pairwise-distinct names holds exactly as many names as its
/// name set.
proof fn lemma_distinct_card(v: Seq<String>)
    requires
        distinct_names(v),
    ensures
        names_set(v).finite(),
        names_set(v).len() == v.len(),
    decreases v.len(),
{
    broadcast use vstd::set::group_set_axioms;

    if v.len() == 0 {
        assert(names_set(v) =~= Set::<Seq<char>>::empty());
    } else {
        let prefix = v.drop_last();
        lemma_distinct_card(prefix);
        assert(!names_set(prefix).contains(v.last()@)) by {
            if names_set(prefix).contains(v.last()@) {
                let i = choose|i: int| 0 <= i < prefix.len() && prefix[i]@ == v.last()@;
                assert(v[i]@ == v[v.len() - 1]@);
            }
        }
        assert forall|n: Seq<char>|
            names_set(v).contains(n) == names_set(prefix).insert(v.last()@).contains(n) by {
            if names_set(v).contains(n) {
                let i = choose|i: int| 0 <= i < v.len() && v[i]@ == n;
                if i < v.len() - 1 {
                    assert(prefix[i]@ == n);
                    assert(names_set(prefix).contains(n));
                } else {
                    assert(n == v.last()@);
                }
            }
            if names_set(prefix).contains(n) {
                let i = choose|i: int| 0 <= i < prefix.len() && prefix[i]@ == n;
                assert(v[i]@ == n);
                assert(names_set(v).contains(n));
            }
            if n == v.last()@ {
                assert(v[v.len() - 1]@ == n);
                assert(names_set(v).contains(n));
            }
        }
        assert(names_set(v) =~= names_set(prefix).insert(v.last()@));
    }
}

/// Collects the union of the atom names of all knowledge-base formulas and
/// of `alpha`, each name once.
fn collect_universe(knowledge_base: &Vec<AstNode>, alpha: &AstNode) -> (atoms: Vec<String>)
    ensures
        distinct_names(atoms@),
        names_set(atoms@) == atom_universe(asts_view(knowledge_base@), alpha@),
{
    let ghost kbv = asts_view(knowledge_base@);
    let mut atoms: Vec<String> = Vec::new();
    proof {
        assert(names_set(atoms@) =~= Set::<Seq<char>>::empty());
        assert(kbv.take(0) =~= Seq::<SpecAst>::empty());
    }
    let mut i: usize = 0;
    while i < knowledge_base.len()
        invariant
            kbv == asts_view(knowledge_base@),
            i <= knowledge_base@.len(),
            kbv.len() == knowledge_base@.len(),
            distinct_names(atoms@),
            names_set(atoms@) == kb_atoms(kbv.take(i as int)),
        decreases knowledge_base@.len() - i,
    {
        find_atoms(&knowledge_base[i], &mut atoms);
        proof {
            assert(kbv.take(i as int + 1).drop_last() =~= kbv.take(i as int));
            assert(kbv.take(i as int + 1).last() == kbv[i as int]);
            assert(kbv[i as int] == knowledge_base@[i as int]@);
        }
        i += 1;
    }
    proof {
        assert(kbv.take(knowledge_base@.len() as int) =~= kbv);
    }
    find_atoms(alpha, &mut atoms);
    atoms
}

/// Every formula of `formulas` evaluates to true under `a`.
fn all_true(formulas: &Vec<AstNode>, a: &Assignment) -> (b: bool)
    requires
        a.wf(),
    ensures
        b == kb_holds(asts_view(formulas@), a@),
{
    let ghost fv = asts_view(formulas@);
    let mut i: usize = 0;
    while i < formulas.len()
        invariant
            fv == asts_view(formulas@),
            a.wf(),
            i <= formulas@.len(),
            forall|k: int| 0 <= k < i ==> spec_evaluate(#[trigger] fv[k], a@),
        decreases formulas@.len() - i,
    {
        if !evaluate(&formulas[i], a) {
            proof {
                assert(fv[i as int] == formulas@[i as int]@);
                assert(!spec_evaluate(fv[i as int], a@));
            }
            return false;
        }
        i += 1;
    }
    true
}

/// Decides KB entails alpha by enumerating every assignment over the shared
/// atom universe and checking that each one satisfying the whole knowledge
/// base also satisfies alpha.  A universe of more than `MAX_ATOMS` atoms is
/// refused with `ResourceLimitExceeded`.
pub fn entails(knowledge_base: &Vec<AstNode>, alpha: &AstNode) -> (r: Result<
    bool,
    EnumerateError,
>)
    ensures
        ({
            let kbv = asts_view(knowledge_base@);
            match r {
                Ok(b) => atom_universe(kbv, alpha@).len() <= MAX_ATOMS && b == spec_entails(
                    kbv,
                    alpha@,
                ),
                Err(e) => e == EnumerateError::ResourceLimitExceeded && atom_universe(
                    kbv,
                    alpha@,
                ).len() > MAX_ATOMS,
            }
        }),
{
    let ghost kbv = asts_view(knowledge_base@);
    let ghost av = alpha@;
    let atoms = collect_universe(knowledge_base, alpha);
    proof {
        lemma_distinct_card(atoms@);
    }
    let assignments = match generate_truth_values(&atoms) {
        Ok(v) => v,
        Err(e) => {
            return Err(e);
        },
    };
    let ghost namevs = atoms@.map_values(|s: String| s@);
    let mut j: usize = 0;
    #[verifier::loop_isolation(false)]
    while j < assignments.len()
        invariant
            kbv == asts_view(knowledge_base@),
            av == alpha@,
            j <= assignments@.len(),
            forall|k: int|
                0 <= k < assignments@.len() ==> (#[trigger] assignments@[k]).wf(),
            forall|k: int|
                0 <= k < j ==> (kb_holds(kbv, (#[trigger] assignments@[k])@) ==> spec_evaluate(
                    av,
                    assignments@[k]@,
                )),
        decreases assignments@.len() - j,
    {
        if all_true(knowledge_base, &assignments[j]) {
            if !evaluate(alpha, &assignments[j]) {
                proof {
                    let m = assignments@[j as int]@;
                    assert(kb_holds(kbv, m) && !spec_evaluate(av, m));
                    assert(!spec_entails(kbv, av));
                }
                return Ok(false);
            }
        }
        j += 1;
    }
    proof {
        let n = atoms@.len();
        assert forall|m: Map<Seq<char>, bool>| #[trigger] kb_holds(kbv, m) implies spec_evaluate(
            av,
            m,
        ) by {
            lemma_encode_bound(namevs, m);
            let c = encode(namevs, m) as int;
            assert(0 <= c < assignments@.len());
            let a = assignments@[c];
            assert forall|i: int| 0 <= i < n implies atom_truth(a@, #[trigger] namevs[i])
                == atom_truth(m, namevs[i]) by {
                lemma_encode_bits(namevs, m, i as nat);
                assert(names_set(atoms@).contains(namevs[i]));
                assert(a@.dom() == names_set(atoms@));
                assert(a@[atoms@[i]@] == crate::enumerate::bit(c as nat, i as nat));
            }
            assert forall|nm: Seq<char>| names_set(atoms@).contains(nm) implies atom_truth(
                a@,
                nm,
            ) == atom_truth(m, nm) by {
                let idx = choose|idx: int| 0 <= idx < atoms@.len() && atoms@[idx]@ == nm;
                assert(namevs[idx] == nm);
            }
            assert forall|i: int| 0 <= i < kbv.len() implies spec_evaluate(
                #[trigger] kbv[i],
                a@,
            ) == spec_evaluate(kbv[i], m) by {
                lemma_kb_atoms_subset(kbv, i);
                assert forall|nm: Seq<char>| spec_atoms(kbv[i]).contains(nm) implies atom_truth(
                    m,
                    nm,
                ) == atom_truth(a@, nm) by {
                    assert(atom_universe(kbv, av).contains(nm));
                    assert(names_set(atoms@).contains(nm));
                }
                lemma_evaluate_agrees(kbv[i], m, a@);
            }
            assert(kb_holds(kbv, a@));
            assert(spec_evaluate(av, a@));
            assert forall|nm: Seq<char>| spec_atoms(av).contains(nm) implies atom_truth(m, nm)
                == atom_truth(a@, nm) by {
                assert(atom_universe(kbv, av).contains(nm));
                assert(names_set(atoms@).contains(nm));
            }
            lemma_evaluate_agrees(av, m, a@);
        }
    }
    Ok(true)
}

/// Splits `assignments` into those satisfying `ast` and those falsifying
/// it, keeping the original order within each part.
pub fn partition_assignments(ast: &AstNode, assignments: Vec<Assignment>) -> (r: (
    Vec<Assignment>,
    Vec<Assignment>,
))
    requires
        forall|j: int| 0 <= j < assignments@.len() ==> (#[trigger] assignments@[j]).wf(),
    ensures
        r.0@ == assignments@.filter(|a: Assignment| spec_evaluate(ast@, a@)),
        r.1@ == assignments@.filter(|a: Assignment| !spec_evaluate(ast@, a@)),
        forall|j: int| 0 <= j < r.0@.len() ==> (#[trigger] r.0@[j]).wf(),
        forall|j: int| 0 <= j < r.1@.len() ==> (#[trigger] r.1@[j]).wf(),
{
    broadcast use vstd::seq_lib::group_seq_properties;

    let ghost orig = assignments@;
    let ghost sat_pred = |a: Assignment| spec_evaluate(ast@, a@);
    let ghost unsat_pred = |a: Assignment| !spec_evaluate(ast@, a@);
    let mut rest = assignments;
    let mut sat: Vec<Assignment> = Vec::new();
    let mut unsat: Vec<Assignment> = Vec::new();
    proof {
        assert(orig.take(0) =~= Seq::<Assignment>::empty());
        assert(Seq::<Assignment>::empty().filter(sat_pred) =~= Seq::<Assignment>::empty());
        assert(Seq::<Assignment>::empty().filter(unsat_pred) =~= Seq::<Assignment>::empty());
        assert(orig.skip(0) =~= orig);
    }
    let ghost mut taken: int = 0;
    #[verifier::loop_isolation(false)]
    while rest.len() > 0
        invariant
            0 <= taken,
            taken + rest@.len() == orig.len(),
            rest@ == orig.skip(taken),
            sat@ == orig.take(taken).filter(sat_pred),
            unsat@ == orig.take(taken).filter(unsat_pred),
            forall|j: int| 0 <= j < sat@.len() ==> (#[trigger] sat@[j]).wf(),
            forall|j: int| 0 <= j < unsat@.len() ==> (#[trigger] unsat@[j]).wf(),
        decreases rest@.len(),
    {
        let a = rest.remove(0);
        proof {
            reveal_with_fuel(Seq::<Assignment>::filter, 2);
            assert(a == orig[taken]);
            assert(rest@ =~= orig.skip(taken + 1));
            assert(a.wf());
            assert(orig.take(taken + 1).drop_last() =~= orig.take(taken));
            assert(orig.take(taken + 1).last() == orig[taken]);
            assert(orig.take(taken + 1).filter(sat_pred) == if sat_pred(orig[taken]) {
                orig.take(taken).filter(sat_pred).push(orig[taken])
            } else {
                orig.take(taken).filter(sat_pred)
            });
            assert(orig.take(taken + 1).filter(unsat_pred) == if unsat_pred(orig[taken]) {
                orig.take(taken).filter(unsat_pred).push(orig[taken])
            } else {
                orig.take(taken).filter(unsat_pred)
            });
        }
        if evaluate(ast, &a) {
            sat.push(a);
        } else {
            unsat.push(a);
        }
        proof {
            taken = taken + 1;
        }
    }
    proof {
        assert(orig.take(orig.len() as int) =~= orig);
    }
    (sat, unsat)
}

/// A sequence splits exactly in two under a predicate and its negation.
proof fn lemma_filter_split(
    s: Seq<Assignment>,
    p: spec_fn(Assignment) -> bool,
    q: spec_fn(Assignment) -> bool,
)
    requires
        forall|a: Assignment| #[trigger] q(a) == !p(a),
    ensures
        s.filter(p).len() + s.filter(q).len() == s.len(),
    decreases s.len(),
{
    reveal_with_fuel(Seq::<Assignment>::filter, 2);
    if s.len() == 0 {
        assert(s.filter(p) =~= Seq::<Assignment>::empty());
        assert(s.filter(q) =~= Seq::<Assignment>::empty());
    } else {
        lemma_filter_split(s.drop_last(), p, q);
        assert(q(s.last()) == !p(s.last()));
    }
}

/// Reports which assignments over a formula's own atoms satisfy it: the
/// full 2^n enumeration, partitioned into satisfying and falsifying lists
/// in enumeration order.  A formula with more than `MAX_ATOMS` distinct
/// atoms is refused with `ResourceLimitExceeded`.
pub fn check_satisfiability(ast: &AstNode) -> (r: Result<
    (Vec<Assignment>, Vec<Assignment>),
    EnumerateError,
>)
    ensures
        spec_atoms(ast@).finite(),
        match r {
            Ok(p) => {
                &&& spec_atoms(ast@).len() <= MAX_ATOMS
                &&& p.0@.len() + p.1@.len() == pow2(spec_atoms(ast@).len())
                &&& forall|j: int|
                    0 <= j < p.0@.len() ==> (#[trigger] p.0@[j]).wf() && spec_evaluate(
                        ast@,
                        p.0@[j]@,
                    )
                &&& forall|j: int|
                    0 <= j < p.1@.len() ==> (#[trigger] p.1@[j]).wf() && !spec_evaluate(
                        ast@,
                        p.1@[j]@,
                    )
            },
            Err(e) => e == EnumerateError::ResourceLimitExceeded && spec_atoms(ast@).len()
                > MAX_ATOMS,
        },
{
    broadcast use vstd::seq_lib::group_filter_ensures;

    let mut atoms: Vec<String> = Vec::new();
    find_atoms(ast, &mut atoms);
    proof {
        assert(names_set(Seq::<String>::empty()) =~= Set::<Seq<char>>::empty());
        assert(names_set(atoms@) =~= spec_atoms(ast@));
        lemma_distinct_card(atoms@);
    }
    let assignments = match generate_truth_values(&atoms) {
        Ok(v) => v,
        Err(e) => {
            return Err(e);
        },
    };
    let ghost all = assignments@;
    let ghost sat_pred = |a: Assignment| spec_evaluate(ast@, a@);
    let ghost unsat_pred = |a: Assignment| !spec_evaluate(ast@, a@);
    let pair = partition_assignments(ast, assignments);
    proof {
        lemma_filter_split(all, sat_pred, unsat_pred);
        assert forall|j: int| 0 <= j < pair.0@.len() implies spec_evaluate(
            ast@,
            (#[trigger] pair.0@[j])@,
        ) by {
            assert(sat_pred(all.filter(sat_pred)[j]));
        }
        assert forall|j: int| 0 <= j < pair.1@.len() implies !spec_evaluate(
            ast@,
            (#[trigger] pair.1@[j])@,
        ) by {
            assert(unsat_pred(all.filter(unsat_pred)[j]));
        }
    }
    Ok(pair)
}

} // verus!

