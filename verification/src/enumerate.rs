use vstd::prelude::*;

use crate::assignment::Assignment;
use crate::assignment::distinct_names;
use crate::assignment::names_set;
use crate::eval::atom_truth;

verus! {

/// The atom-count ceiling the enumerator accepts; enumeration is 2^n, so
/// larger universes are refused instead of exhausting memory and time.
pub const MAX_ATOMS: usize = 20;

/// The error raised when an atom universe exceeds the enumeration ceiling.
#[derive(Debug, Clone, Copy, PartialEq, Eq, Structural)]
pub enum EnumerateError {
    ResourceLimitExceeded,
}

/// Two to the power `n`.
pub open spec fn pow2(n: nat) -> nat
    decreases n,
{
    if n == 0 {
        1
    } else {
        2 * pow2((n - 1) as nat)
    }
}

proof fn lemma_pow2_pos(n: nat)
    ensures
        pow2(n) >= 1,
    decreases n,
{
    if n > 0 {
        lemma_pow2_pos((n - 1) as nat);
    }
}

proof fn lemma_pow2_mono(i: nat, j: nat)
    requires
        i <= j,
    ensures
        pow2(i) <= pow2(j),
    decreases j,
{
    if i < j {
        lemma_pow2_mono(i, (j - 1) as nat);
        lemma_pow2_pos((j - 1) as nat);
    }
}

/// Bit `i` of the combination number `c`: the atom at position `i` is true
/// in combination `c` exactly when this bit is set.
pub open spec fn bit(c: nat, i: nat) -> bool
    decreases i,
{
    if i == 0 {
        c % 2 == 1
    } else {
        bit(c / 2, (i - 1) as nat)
    }
}

/// Two combination numbers below 2^n with the same first `n` bits are equal.
proof fn lemma_bit_inj(c1: nat, c2: nat, n: nat)
    requires
        c1 < pow2(n),
        c2 < pow2(n),
        forall|i: nat| i < n ==> bit(c1, i) == bit(c2, i),
    ensures
        c1 == c2,
    decreases n,
{
    if n == 0 {
    } else {
        assert(bit(c1, 0) == bit(c2, 0));
        assert(c1 % 2 == c2 % 2);
        assert forall|i: nat| i < (n - 1) as nat implies #[trigger] bit(c1 / 2, i) == bit(
            c2 / 2,
            i,
        ) by {
            assert(bit(c1, (i + 1) as nat) == bit(c2, (i + 1) as nat));
            assert(bit(c1, (i + 1) as nat) == bit(c1 / 2, i));
            assert(bit(c2, (i + 1) as nat) == bit(c2 / 2, i));
        }
        assert(c1 / 2 < pow2((n - 1) as nat));
        assert(c2 / 2 < pow2((n - 1) as nat));
        lemma_bit_inj(c1 / 2, c2 / 2, (n - 1) as nat);
    }
}

/// The combination number whose bits spell, atom by atom, the truth that
/// map `m` gives the names in `names`.
pub(crate) open spec fn encode(names: Seq<Seq<char>>, m: Map<Seq<char>, bool>) -> nat
    decreases names.len(),
{
    if names.len() == 0 {
        0
    } else {
        (if atom_truth(m, names[0]) {
            1nat
        } else {
            0nat
        }) + 2 * encode(names.drop_first(), m)
    }
}

pub(crate) proof fn lemma_encode_bound(names: Seq<Seq<char>>, m: Map<Seq<char>, bool>)
    ensures
        encode(names, m) < pow2(names.len() as nat),
    decreases names.len(),
{
    if names.len() > 0 {
        lemma_encode_bound(names.drop_first(), m);
    }
}

pub(crate) proof fn lemma_encode_bits(names: Seq<Seq<char>>, m: Map<Seq<char>, bool>, i: nat)
    requires
        i < names.len(),
    ensures
        bit(encode(names, m), i) == atom_truth(m, names[i as int]),
    decreases i,
{
    let c = encode(names, m);
    let b0: nat = if atom_truth(m, names[0]) {
        1
    } else {
        0
    };
    let k = encode(names.drop_first(), m);
    assert(c == b0 + 2 * k);
    if i == 0 {
        assert(c % 2 == b0);
    } else {
        assert(c / 2 == k);
        lemma_encode_bits(names.drop_first(), m, (i - 1) as nat);
        assert(names.drop_first()[(i - 1) as int] == names[i as int]);
        assert(bit(c, i) == bit(k, (i - 1) as nat));
    }
}

/// Two raised to `n`, computed by doubling.
fn pow2_exec(n: usize) -> (p: usize)
    requires
        n <= MAX_ATOMS,
    ensures
        p == pow2(n as nat),
{
    let mut p: usize = 1;
    let mut i: usize = 0;
    while i < n
        invariant
            i <= n <= MAX_ATOMS,
            p == pow2(i as nat),
        decreases n - i,
    {
        proof {
            lemma_pow2_mono(i as nat, 19nat);
            reveal_with_fuel(pow2, 21);
            assert(pow2(19nat) == 524288nat);
        }
        p = p * 2;
        i += 1;
    }
    p
}

/// The truth values of the first `n` bits of `c`, lowest first.
fn bits_of(c: usize, n: usize) -> (vals: Vec<bool>)
    ensures
        vals@.len() == n,
        forall|i: int| 0 <= i < n ==> vals@[i] == bit(c as nat, i as nat),
{
    let mut vals: Vec<bool> = Vec::new();
    let mut rem = c;
    let mut i: usize = 0;
    while i < n
        invariant
            vals@.len() == i,
            i <= n,
            forall|k: int| 0 <= k < i ==> vals@[k] == bit(c as nat, k as nat),
            forall|k: nat| #[trigger] bit(rem as nat, k) == bit(c as nat, (i + k) as nat),
        decreases n - i,
    {
        let ghost old_rem = rem as nat;
        let ghost old_i = i as nat;
        vals.push(rem % 2 == 1);
        proof {
            assert(bit(old_rem, 0) == bit(c as nat, old_i));
        }
        rem = rem / 2;
        i += 1;
        proof {
            assert forall|k: nat| #[trigger] bit(rem as nat, k) == bit(
                c as nat,
                (i as nat + k) as nat,
            ) by {
                assert(bit(old_rem, (k + 1) as nat) == bit(old_rem / 2, k));
                assert(bit(old_rem, (k + 1) as nat) == bit(c as nat, (old_i + k + 1) as nat));
            }
        }
    }
    vals
}

/// A fresh copy of the atom vector, name for name.
fn clone_names(atoms: &Vec<String>) -> (r: Vec<String>)
    ensures
        r@ == atoms@,
{
    let mut r: Vec<String> = Vec::new();
    let mut i: usize = 0;
    while i < atoms.len()
        invariant
            r@.len() == i,
            i <= atoms@.len(),
            forall|k: int| 0 <= k < i ==> r@[k] == atoms@[k],
        decreases atoms@.len() - i,
    {
        r.push(atoms[i].clone());
        i += 1;
    }
    proof {
        assert(r@ =~= atoms@);
    }
    r
}

/// Enumerates every boolean assignment over `atoms`: one assignment per
/// combination number `c` in `0..2^n`, where atom `i` is true in
/// assignment `c` exactly when bit `i` of `c` is set.  No two assignments
/// of the list are equal.  An atom universe above `MAX_ATOMS` is refused
/// with `ResourceLimitExceeded` instead of being enumerated.
pub fn generate_truth_values(atoms: &Vec<String>) -> (r: Result<Vec<Assignment>, EnumerateError>)
    requires
        distinct_names(atoms@),
    ensures
        match r {
            Ok(assignments) => {
                &&& atoms@.len() <= MAX_ATOMS
                &&& assignments@.len() == pow2(atoms@.len() as nat)
                &&& forall|j: int|
                    0 <= j < assignments@.len() ==> (#[trigger] assignments@[j]).wf()
                &&& forall|j: int|
                    0 <= j < assignments@.len() ==> (#[trigger] assignments@[j])@.dom()
                        == names_set(atoms@)
                &&& forall|j: int, i: int|
                    0 <= j < assignments@.len() && 0 <= i < atoms@.len()
                        ==> #[trigger] assignments@[j]@[atoms@[i]@] == bit(j as nat, i as nat)
                &&& forall|j1: int, j2: int|
                    0 <= j1 < j2 < assignments@.len() ==> assignments@[j1]@ != assignments@[j2]@
            },
            Err(e) => atoms@.len() > MAX_ATOMS && e == EnumerateError::ResourceLimitExceeded,
        },
{
    let n = atoms.len();
    if n > MAX_ATOMS {
        return Err(EnumerateError::ResourceLimitExceeded);
    }
    let total = pow2_exec(n);
    let mut assignments: Vec<Assignment> = Vec::new();
    let mut c: usize = 0;
    while c < total
        invariant
            distinct_names(atoms@),
            n == atoms@.len(),
            n <= MAX_ATOMS,
            total == pow2(n as nat),
            assignments@.len() == c,
            c <= total,
            forall|j: int| 0 <= j < c ==> (#[trigger] assignments@[j]).wf(),
            forall|j: int|
                0 <= j < c ==> (#[trigger] assignments@[j])@.dom() == names_set(atoms@),
            forall|j: int, i: int|
                0 <= j < c && 0 <= i < n ==> #[trigger] assignments@[j]@[atoms@[i]@] == bit(
                    j as nat,
                    i as nat,
                ),
        decreases total - c,
    {
        let vals = bits_of(c, n);
        let cloned = clone_names(atoms);
        let a = Assignment::new(cloned, vals);
        assignments.push(a);
        c += 1;
    }
    proof {
        assert forall|j1: int, j2: int|
            0 <= j1 < j2 < assignments@.len() implies assignments@[j1]@ != assignments@[j2]@ by {
            if assignments@[j1]@ == assignments@[j2]@ {
                assert forall|i: nat| i < n as nat implies #[trigger] bit(j1 as nat, i) == bit(
                    j2 as nat,
                    i,
                ) by {
                    assert(assignments@[j1]@[atoms@[i as int]@] == bit(j1 as nat, i));
                    assert(assignments@[j2]@[atoms@[i as int]@] == bit(j2 as nat, i));
                }
                lemma_bit_inj(j1 as nat, j2 as nat, n as nat);
            }
        }
    }
    Ok(assignments)
}

} // verus!
