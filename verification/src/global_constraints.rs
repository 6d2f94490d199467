//! The global constraint layer: before solving, scans the identities for
//! per-column range patterns — a polynomial identity `x * (x - 1) = 0` (in
//! either operand order) pins column `x` to the bit set {0, 1} — and emits a
//! per-column range constraint that the solver consults to prune propagation.
//!
//! The emitted constraints narrow the search; the final witness is validated
//! against the identities themselves, so a pattern missed here costs nothing
//! but pruning power.

use vstd::prelude::*;
use crate::expr::{
    AlgebraicBinaryOperator, AlgebraicExpression, Identity, IdentityKind, PolynomialType,
};
use crate::range::RangeConstraint;

verus! {

/// The committed column referenced on the current row, if the expression is
/// exactly such a reference.
fn committed_ref(e: &AlgebraicExpression) -> (r: Option<u64>)
    ensures
        r matches Some(id) ==> *e == AlgebraicExpression::Reference(
            crate::expr::AlgebraicReference {
                poly_id: crate::expr::PolyId { id, ptype: PolynomialType::Committed },
                next: false,
            },
        ),
{
    match e {
        AlgebraicExpression::Reference(rf) => {
            if !rf.next {
                match rf.poly_id.ptype {
                    PolynomialType::Committed => Some(rf.poly_id.id),
                    _ => None,
                }
            } else {
                None
            }
        },
        _ => None,
    }
}

/// Whether the expression is `x - 1` for the given column `x`.
fn is_ref_minus_one(e: &AlgebraicExpression, id: u64) -> (r: bool) {
    match e {
        AlgebraicExpression::BinaryOperation(l, op, rr) => {
            match op {
                AlgebraicBinaryOperator::Sub => {
                    let lr = committed_ref(l);
                    match (lr, &**rr) {
                        (Some(lid), AlgebraicExpression::Number(n)) => lid == id && *n == 1,
                        _ => false,
                    }
                },
                _ => false,
            }
        },
        _ => false,
    }
}

/// If the identity is `x * (x - 1) = 0` (or with the factors swapped), the
/// column `x`.
fn binary_pattern_column(identity: &Identity) -> (r: Option<u64>) {
    match identity.kind {
        IdentityKind::Polynomial => {
            match &identity.left.selector {
                Some(sel) => match sel {
                    AlgebraicExpression::BinaryOperation(l, op, rr) => match op {
                        AlgebraicBinaryOperator::Mul => {
                            match committed_ref(l) {
                                Some(id) => {
                                    if is_ref_minus_one(rr, id) {
                                        Some(id)
                                    } else {
                                        None
                                    }
                                },
                                None => {
                                    match committed_ref(rr) {
                                        Some(id) => {
                                            if is_ref_minus_one(l, id) {
                                                Some(id)
                                            } else {
                                                None
                                            }
                                        },
                                        None => None,
                                    }
                                },
                            }
                        },
                        _ => None,
                    },
                    _ => None,
                },
                None => None,
            }
        },
        _ => None,
    }
}

/// Derives one range constraint per committed column from the identities:
/// columns constrained by a `x * (x - 1) = 0` pattern are narrowed to the
/// bit set {0, 1}, all others stay at the given defaults.
pub fn determine_global_constraints(
    identities: &Vec<Identity>,
    defaults: &Vec<RangeConstraint>,
) -> (r: Vec<RangeConstraint>)
    ensures
        r@.len() == defaults@.len(),
        forall|i: int| 0 <= i < r@.len() ==> forall|v: u64|
            (#[trigger] r@[i]).spec_allows(v) ==> defaults@[i].spec_allows(v),
{
    let mut result: Vec<RangeConstraint> = Vec::new();
    let mut i: usize = 0;
    while i < defaults.len()
        invariant
            i <= defaults@.len(),
            result@.len() == i,
            forall|t: int| 0 <= t < i ==> result@[t] == defaults@[t],
        decreases defaults@.len() - i,
    {
        result.push(defaults[i]);
        i += 1;
    }
    let mut k: usize = 0;
    while k < identities.len()
        invariant
            result@.len() == defaults@.len(),
            k <= identities@.len(),
            forall|t: int| 0 <= t < result@.len() ==> forall|v: u64|
                (#[trigger] result@[t]).spec_allows(v) ==> defaults@[t].spec_allows(v),
        decreases identities@.len() - k,
    {
        match binary_pattern_column(&identities[k]) {
            Some(id) => {
                if (id as usize) < result.len() {
                    let idx = id as usize;
                    let bit = RangeConstraint::from_mask(1);
                    let combined = result[idx].conjunction(&bit);
                    let ghost before = result@;
                    result[idx] = combined;
                    proof {
                        assert forall|t: int| 0 <= t < result@.len() implies forall|v: u64|
                            (#[trigger] result@[t]).spec_allows(v) ==> defaults@[t].spec_allows(
                            v,
                        ) by {
                            if t != idx {
                                assert(result@[t] == before[t]);
                            }
                        }
                    }
                }
            },
            None => {},
        }
        k += 1;
    }
    result
}

} // verus!
