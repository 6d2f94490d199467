//! The immutable data a machine solves against: the degree, the fixed
//! (precomputed) columns, the committed column declarations with their
//! prover-query strings, and the global per-column range constraints.

use vstd::prelude::*;
use crate::field::{in_field, FIELD_MODULUS};
use crate::range::RangeConstraint;

verus! {

/// A precomputed column: one value per row.
#[derive(Debug, Clone, PartialEq, Eq)]
pub struct FixedColumn {
    pub name: String,
    pub values: Vec<u64>,
}

/// A committed column declaration. `query` is the canonical prover-query
/// string handed to the host oracle for cells no identity determines.
#[derive(Debug, Clone, PartialEq, Eq)]
pub struct WitnessColumn {
    pub name: String,
    pub query: Option<String>,
}

/// The fixed data bundle, shared read-only by every component of a machine.
/// Committed and fixed columns are identified by their position.
#[derive(Debug, Clone, PartialEq, Eq)]
pub struct FixedData {
    pub degree: u64,
    pub fixed_cols: Vec<FixedColumn>,
    pub witness_cols: Vec<WitnessColumn>,
    pub global_range_constraints: Vec<RangeConstraint>,
}

impl FixedData {
    /// Well-formed: at least one row, every fixed column has exactly `degree`
    /// canonical values, and there is one global range constraint per
    /// committed column. The bounds keep row and variable counts addressable.
    pub open spec fn wf(self) -> bool {
        &&& 1 <= self.degree
        &&& self.degree <= 0x1000_0000
        &&& self.witness_cols@.len() <= 0x1000_0000
        &&& self.fixed_cols@.len() <= 0x1000_0000
        &&& forall|c: int| 0 <= c < self.fixed_cols@.len() ==> {
            &&& (#[trigger] self.fixed_cols@[c]).values@.len() == self.degree
            &&& forall|r: int| 0 <= r < self.fixed_cols@[c].values@.len()
                ==> in_field(#[trigger] self.fixed_cols@[c].values@[r])
        }
        &&& self.global_range_constraints@.len() == self.witness_cols@.len()
    }

    /// The number of affine-expression variables of this machine: one per
    /// committed column and row of the pair (current, next).
    pub open spec fn spec_width(self) -> nat {
        2 * self.witness_cols@.len()
    }

    /// Builds the bundle, validating well-formedness at run time so that
    /// unverified callers cannot hand the solver malformed data.
    pub fn new(
        degree: u64,
        fixed_cols: Vec<FixedColumn>,
        witness_cols: Vec<WitnessColumn>,
        global_range_constraints: Vec<RangeConstraint>,
    ) -> (r: Option<FixedData>)
        ensures
            r is Some ==> r->0.wf(),
            r is Some ==> {
                &&& r->0.degree == degree
                &&& r->0.fixed_cols == fixed_cols
                &&& r->0.witness_cols == witness_cols
                &&& r->0.global_range_constraints == global_range_constraints
            },
    {
        if degree < 1 || degree > 0x1000_0000 {
            return None;
        }
        if witness_cols.len() > 0x1000_0000 || fixed_cols.len() > 0x1000_0000 {
            return None;
        }
        if global_range_constraints.len() != witness_cols.len() {
            return None;
        }
        let mut c: usize = 0;
        while c < fixed_cols.len()
            invariant
                c <= fixed_cols@.len(),
                forall|j: int| 0 <= j < c ==> {
                    &&& (#[trigger] fixed_cols@[j]).values@.len() == degree
                    &&& forall|r: int| 0 <= r < fixed_cols@[j].values@.len()
                        ==> in_field(#[trigger] fixed_cols@[j].values@[r])
                },
            decreases fixed_cols@.len() - c,
        {
            let col = &fixed_cols[c];
            if col.values.len() as u64 != degree {
                return None;
            }
            let mut r: usize = 0;
            while r < col.values.len()
                invariant
                    r <= col.values@.len(),
                    forall|k: int| 0 <= k < r ==> in_field(#[trigger] col.values@[k]),
                decreases col.values@.len() - r,
            {
                if col.values[r] >= FIELD_MODULUS {
                    return None;
                }
                r += 1;
            }
            c += 1;
        }
        Some(FixedData { degree, fixed_cols, witness_cols, global_range_constraints })
    }

    /// The number of committed columns.
    pub fn witness_count(&self) -> (r: usize)
        ensures
            r == self.witness_cols@.len(),
    {
        self.witness_cols.len()
    }

    /// The affine-expression width, executably.
    pub fn width(&self) -> (r: usize)
        requires
            self.wf(),
        ensures
            r == self.spec_width(),
    {
        2 * self.witness_cols.len()
    }
}

} // verus!
