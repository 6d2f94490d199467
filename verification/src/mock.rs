//! The mock backend's machine assembly: bundles a machine's witness columns,
//! the fixed columns of the matching size, and its name, after checking that
//! the witness columns agree on one size.

use vstd::prelude::*;
use itertools::Itertools;

verus! {

/// Relies on itertools' `Itertools::unique` and `Itertools::exactly_one`:
/// `unique` yields each distinct value once, and `exactly_one` succeeds
/// exactly when the adapted iterator yields a single item. So the call
/// returns the value exactly when the input is non-empty and all its values
/// are equal.
#[verifier::external_body]
fn exactly_one_unique(values: &Vec<usize>) -> (r: Option<usize>)
    ensures
        match r {
            Some(v) => values@.len() > 0 && forall|i: int|
                0 <= i < values@.len() ==> values@[i] == v,
            None => values@.len() == 0 || exists|i: int, j: int|
                0 <= i < j < values@.len() && values@[i] != values@[j],
        },
{
    match values.iter().cloned().unique().exactly_one() {
        Ok(v) => Some(v),
        Err(_) => None,
    }
}

/// A collection of columns with self-contained constraints.
pub struct Machine {
    pub machine_name: String,
    pub size: usize,
    pub witness: Vec<(String, Vec<u64>)>,
    pub fixed: Vec<(String, Vec<u64>)>,
}

impl Machine {
    /// Assembles a machine from its witness and fixed columns — if it is not
    /// empty. The witness columns, of which there must be at least one, must
    /// agree on one size — a disagreeing set is a caller error; an empty
    /// machine (size zero) is dropped. The fixed columns are narrowed to
    /// those of the machine's size (fixed columns may exist in several sizes,
    /// keyed by length).
    pub fn try_new(
        machine_name: String,
        witness: Vec<(String, Vec<u64>)>,
        fixed: &Vec<(String, Vec<u64>)>,
    ) -> (r: Option<Machine>)
        requires
            witness@.len() > 0,
            forall|i: int, j: int| 0 <= i < witness@.len() && 0 <= j < witness@.len()
                ==> (#[trigger] witness@[i]).1@.len() == (#[trigger] witness@[j]).1@.len(),
        ensures
            r is None <==> witness@[0].1@.len() == 0,
            match r {
                Some(m) => {
                    &&& m.size > 0
                    &&& forall|i: int| 0 <= i < witness@.len()
                        ==> (#[trigger] witness@[i]).1@.len() == m.size
                    &&& m.witness == witness
                    &&& m.machine_name == machine_name
                    &&& forall|i: int| 0 <= i < m.fixed@.len()
                        ==> (#[trigger] m.fixed@[i]).1@.len() == m.size
                    // Every input fixed column of the machine's size is kept,
                    // with its name and values unchanged.
                    &&& forall|i: int| (0 <= i < fixed@.len() && (#[trigger] fixed@[i]).1@.len()
                        == m.size) ==> exists|k: int|
                        0 <= k < m.fixed@.len() && m.fixed@[k].0@ == fixed@[i].0@
                            && m.fixed@[k].1@ == fixed@[i].1@
                },
                None => true,
            },
    {
        let mut sizes: Vec<usize> = Vec::new();
        let mut i: usize = 0;
        while i < witness.len()
            invariant
                i <= witness@.len(),
                sizes@.len() == i,
                forall|k: int| 0 <= k < i ==> sizes@[k] == (#[trigger] witness@[k]).1@.len(),
            decreases witness@.len() - i,
        {
            sizes.push(witness[i].1.len());
            i += 1;
        }
        let size = match exactly_one_unique(&sizes) {
            Some(size) => size,
            None => {
                proof {
                    // Excluded by the precondition: the sizes agree and the
                    // list is non-empty, so the unique size exists.
                    if sizes@.len() != 0 {
                        let (a, b) = choose|a: int, b: int|
                            0 <= a < b < sizes@.len() && sizes@[a] != sizes@[b];
                        assert(witness@[a].1@.len() != witness@[b].1@.len());
                    }
                    assert(false);
                }
                return None;
            },
        };
        if size == 0 {
            // Empty machines are always valid and are dropped.
            return None;
        }
        // Keep the fixed columns of the matching size.
        let mut kept: Vec<(String, Vec<u64>)> = Vec::new();
        let mut i: usize = 0;
        while i < fixed.len()
            invariant
                i <= fixed@.len(),
                forall|k: int| 0 <= k < kept@.len() ==> (#[trigger] kept@[k]).1@.len() == size,
                forall|k: int| 0 <= k < kept@.len() ==> exists|u: int|
                    0 <= u < fixed@.len() && (#[trigger] kept@[k]).0@ == fixed@[u].0@
                        && kept@[k].1@ == fixed@[u].1@,
                forall|u: int| (0 <= u < i && (#[trigger] fixed@[u]).1@.len() == size)
                    ==> exists|k: int|
                    0 <= k < kept@.len() && kept@[k].0@ == fixed@[u].0@ && kept@[k].1@
                        == fixed@[u].1@,
            decreases fixed@.len() - i,
        {
            let (name, col) = &fixed[i];
            if col.len() == size {
                let mut copy: Vec<u64> = Vec::new();
                let mut j: usize = 0;
                while j < col.len()
                    invariant
                        i < fixed@.len(),
                        *col == fixed@[i as int].1,
                        col@.len() == size,
                        j <= col@.len(),
                        copy@.len() == j,
                        forall|k: int| 0 <= k < j ==> copy@[k] == col@[k],
                        forall|k: int| 0 <= k < kept@.len() ==> (#[trigger] kept@[k]).1@.len()
                            == size,
                        forall|k: int| 0 <= k < kept@.len() ==> exists|u: int|
                            0 <= u < fixed@.len() && (#[trigger] kept@[k]).0@ == fixed@[u].0@
                                && kept@[k].1@ == fixed@[u].1@,
                        forall|u: int| (0 <= u < i && (#[trigger] fixed@[u]).1@.len() == size)
                            ==> exists|k: int|
                            0 <= k < kept@.len() && kept@[k].0@ == fixed@[u].0@ && kept@[k].1@
                                == fixed@[u].1@,
                    decreases col@.len() - j,
                {
                    copy.push(col[j]);
                    j += 1;
                }
                proof {
                    assert(copy@ =~= col@);
                }
                let ghost before = kept@;
                let cloned_name = name.clone();
                proof {
                    assert(cloned_name@ == fixed@[i as int].0@);
                }
                kept.push((cloned_name, copy));
                proof {
                    let ghost k = before.len() as int;
                    assert(kept@ == before.push((cloned_name, copy)));
                    assert(kept@[k].0@ == fixed@[i as int].0@ && kept@[k].1@
                        == fixed@[i as int].1@);
                    assert forall|u: int|
                        (0 <= u < i + 1 && (#[trigger] fixed@[u]).1@.len() == size)
                        implies exists|k2: int|
                        0 <= k2 < kept@.len() && kept@[k2].0@ == fixed@[u].0@ && kept@[k2].1@
                            == fixed@[u].1@ by {
                        if u == i as int {
                            assert(0 <= k < kept@.len() && kept@[k].0@ == fixed@[u].0@
                                && kept@[k].1@ == fixed@[u].1@);
                        } else {
                            let k2 = choose|k2: int|
                                0 <= k2 < before.len() && before[k2].0@ == fixed@[u].0@
                                    && before[k2].1@ == fixed@[u].1@;
                            assert(kept@[k2] == before[k2]);
                            assert(0 <= k2 < kept@.len() && kept@[k2].0@ == fixed@[u].0@
                                && kept@[k2].1@ == fixed@[u].1@);
                        }
                    }
                }
            }
            i += 1;
        }
        let ghost gkept = kept@;
        let m = Machine { machine_name, size, witness, fixed: kept };
        proof {
            assert forall|u: int|
                (0 <= u < fixed@.len() && (#[trigger] fixed@[u]).1@.len() == m.size)
                implies exists|k: int|
                0 <= k < m.fixed@.len() && m.fixed@[k].0@ == fixed@[u].0@ && m.fixed@[k].1@
                    == fixed@[u].1@ by {
                let k = choose|k: int|
                    0 <= k < gkept.len() && gkept[k].0@ == fixed@[u].0@ && gkept[k].1@
                        == fixed@[u].1@;
                assert(m.fixed@[k] == gkept[k]);
                assert(0 <= k < m.fixed@.len() && m.fixed@[k].0@ == fixed@[u].0@ && m.fixed@[k].1@
                    == fixed@[u].1@);
            }
        }
        Some(m)
    }
}

} // verus!
