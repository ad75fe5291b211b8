use vstd::prelude::*;

verus! {

/// Whether every atom name in `v` differs from every other, as characters.
pub open spec fn distinct_names(v: Seq<String>) -> bool {
    forall|i: int, j: int| 0 <= i < j < v.len() ==> v[i]@ != v[j]@
}

/// The set of atom names held in `v`, as character sequences.
pub open spec fn names_set(v: Seq<String>) -> Set<Seq<char>> {
    Set::new(|n: Seq<char>| exists|i: int| 0 <= i < v.len() && v[i]@ == n)
}

/// A total boolean valuation over one fixed set of atoms, kept as the atom
/// names next to their truth values, one value per atom.
#[derive(Debug, Clone, PartialEq)]
pub struct Assignment {
    atoms: Vec<String>,
    values: Vec<bool>,
}

impl Assignment {
    /// One value per atom, and no atom name twice.
    pub closed spec fn wf(self) -> bool {
        self.atoms@.len() == self.values@.len() && distinct_names(self.atoms@)
    }
}

impl View for Assignment {
    type V = Map<Seq<char>, bool>;

    /// The model of an assignment: a map from atom name to truth value.
    closed spec fn view(&self) -> Map<Seq<char>, bool> {
        Map::new(
            |n: Seq<char>| exists|i: int| 0 <= i < self.atoms@.len() && self.atoms@[i]@ == n,
            |n: Seq<char>|
                self.values@[choose|i: int|
                    0 <= i < self.atoms@.len() && self.atoms@[i]@ == n],
        )
    }
}

impl Assignment {
    /// Pairs each atom of `atoms` with the truth value at its index.
    pub fn new(atoms: Vec<String>, values: Vec<bool>) -> (a: Assignment)
        requires
            atoms@.len() == values@.len(),
            distinct_names(atoms@),
        ensures
            a.wf(),
            a@.dom() == names_set(atoms@),
            forall|i: int| 0 <= i < atoms@.len() ==> #[trigger] a@[atoms@[i]@] == values@[i],
    {
        let a = Assignment { atoms, values };
        proof {
            assert(a@.dom() =~= names_set(a.atoms@));
            assert forall|i: int| 0 <= i < a.atoms@.len() implies #[trigger] a@[a.atoms@[i]@]
                == a.values@[i] by {
                let n = a.atoms@[i]@;
                let j = choose|j: int| 0 <= j < a.atoms@.len() && a.atoms@[j]@ == n;
                assert(a.atoms@[i]@ == n);
                assert(j == i);
            }
        }
        a
    }

    /// The truth value of `name`: the stored value where the assignment
    /// maps it, and false for any atom outside the assignment's universe.
    pub fn lookup(&self, name: &String) -> (b: bool)
        requires
            self.wf(),
        ensures
            b == if self@.contains_key(name@) {
                self@[name@]
            } else {
                false
            },
    {
        let n = self.atoms.len();
        let mut i: usize = 0;
        while i < n
            invariant
                self.wf(),
                n == self.atoms@.len(),
                i <= n,
                forall|k: int| 0 <= k < i ==> self.atoms@[k]@ != name@,
            decreases n - i,
        {
            if self.atoms[i].eq(name) {
                proof {
                    assert(self@.contains_key(name@));
                    let j = choose|j: int| 0 <= j < self.atoms@.len() && self.atoms@[j]@
                        == name@;
                    assert(j == i);
                    assert(self@[name@] == self.values@[i as int]);
                }
                return self.values[i];
            }
            i += 1;
        }
        proof {
            assert(!self@.contains_key(name@));
        }
        false
    }

    /// The stored truth value of `name`, or `None` where the assignment
    /// does not map it.
    pub fn get(&self, name: &String) -> (r: Option<bool>)
        requires
            self.wf(),
        ensures
            match r {
                Some(b) => self@.contains_key(name@) && b == self@[name@],
                None => !self@.contains_key(name@),
            },
    {
        let n = self.atoms.len();
        let mut i: usize = 0;
        while i < n
            invariant
                self.wf(),
                n == self.atoms@.len(),
                i <= n,
                forall|k: int| 0 <= k < i ==> self.atoms@[k]@ != name@,
            decreases n - i,
        {
            if self.atoms[i].eq(name) {
                proof {
                    assert(self@.contains_key(name@));
                    let j = choose|j: int| 0 <= j < self.atoms@.len() && self.atoms@[j]@
                        == name@;
                    assert(j == i);
                    assert(self@[name@] == self.values@[i as int]);
                }
                return Some(self.values[i]);
            }
            i += 1;
        }
        proof {
            assert(!self@.contains_key(name@));
        }
        None
    }
}

} // verus!
