//! The algebraic substrate: field operations, range constraints and the
//! affine solver.

use pil_witgen::affine::{AffineExpression, SolveResult};
use pil_witgen::field::{fe_add, fe_inv, fe_mul, fe_neg, fe_pow, fe_reduce, fe_sub, FIELD_MODULUS};
use pil_witgen::range::RangeConstraint;

#[test]
fn field_operations_exact_values() {
    assert_eq!(FIELD_MODULUS, 18446744069414584321);
    assert_eq!(fe_add(FIELD_MODULUS - 1, 5), 4);
    assert_eq!(fe_sub(3, 5), FIELD_MODULUS - 2);
    assert_eq!(fe_neg(1), FIELD_MODULUS - 1);
    assert_eq!(fe_neg(0), 0);
    assert_eq!(fe_mul(1 << 32, 1 << 32), ((1u128 << 64) % FIELD_MODULUS as u128) as u64);
    assert_eq!(fe_pow(2, 10), 1024);
    assert_eq!(fe_pow(2, 0), 1);
    assert_eq!(fe_reduce(u64::MAX), u64::MAX - FIELD_MODULUS);
}

#[test]
fn field_inverse_roundtrip() {
    let inv2 = fe_inv(2).unwrap();
    assert_eq!(fe_mul(2, inv2), 1);
    assert_eq!(inv2, (FIELD_MODULUS + 1) / 2);
    assert_eq!(fe_inv(0), None);
    let inv7 = fe_inv(7).unwrap();
    assert_eq!(fe_mul(7, inv7), 1);
}

#[test]
fn affine_one_unknown_solves_uniquely() {
    // 2*x + 3 = 0 over one variable: x = -3/2.
    let x = AffineExpression::from_variable(0, 1);
    let two_x = x.scale(2);
    let c = AffineExpression::from_constant(3, 1);
    let e = two_x.add(&c);
    let expected = fe_mul(fe_neg(3), fe_inv(2).unwrap());
    match e.solve() {
        SolveResult::Complete(cs) => {
            assert_eq!(cs.len(), 1);
            assert_eq!(cs[0], (0, expected));
        },
        _ => panic!("expected a complete solution"),
    }
    // The assignment indeed zeroes the expression.
    assert_eq!(fe_add(fe_mul(2, expected), 3), 0);
}

#[test]
fn affine_constant_solves_by_value() {
    // A zero constant is already satisfied; a non-zero one cannot be.
    let zero = AffineExpression::from_constant(0, 2);
    match zero.solve() {
        SolveResult::Complete(cs) => assert!(cs.is_empty()),
        _ => panic!("expected an empty complete solution"),
    }
    let five = AffineExpression::from_constant(5, 2);
    assert!(matches!(five.solve(), SolveResult::ConstraintUnsatisfiable));
}

#[test]
fn affine_two_unknowns_stay_open() {
    let x = AffineExpression::from_variable(0, 2);
    let y = AffineExpression::from_variable(1, 2);
    let e = x.add(&y);
    assert!(matches!(e.solve(), SolveResult::MultipleSolutions));
}

#[test]
fn affine_arithmetic_matches_field() {
    let x = AffineExpression::from_variable(0, 2);
    let c = AffineExpression::from_constant(10, 2);
    let e = x.scale(3).add(&c).sub(&AffineExpression::from_constant(4, 2));
    // e = 3x + 6: substituting x = 2 must give 12 by solving 3x + 6 - 12 = 0.
    let mut probe = e;
    probe.assign(0, 2);
    assert!(probe.is_constant());
    assert_eq!(probe.constant_value(), fe_add(fe_mul(3, 2), 6));
}

#[test]
fn range_constraint_conjunction_and_membership() {
    let bit = RangeConstraint::from_mask(1);
    assert!(bit.allows(0));
    assert!(bit.allows(1));
    assert!(!bit.allows(2));
    let all = RangeConstraint::unconstrained();
    assert!(all.allows(12345));
    let both = all.conjunction(&bit);
    assert!(both.allows(1));
    assert!(!both.allows(2));
    assert_eq!(both.try_unique(), None);
    let narrow = RangeConstraint { min: 1, max: 1, mask: u64::MAX };
    assert_eq!(narrow.try_unique(), Some(1));
    let empty = RangeConstraint { min: 2, max: 1, mask: u64::MAX };
    assert!(empty.is_empty());
}
