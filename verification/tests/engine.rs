//! End-to-end scenarios for the witness generation engine.

use pil_witgen::block::{BlockProcessor, WithoutCalldata};
use pil_witgen::driver::generate_witness;
use pil_witgen::expr::{
    AlgebraicBinaryOperator, AlgebraicExpression, AlgebraicReference, Identity, IdentityKind,
    PolyId, PolynomialType,
};
use pil_witgen::fixed::{FixedColumn, FixedData, WitnessColumn};
use pil_witgen::machines::{FixedLookup, MutableState};
use pil_witgen::parsed::SelectedExpressions;
use pil_witgen::range::RangeConstraint;
use pil_witgen::rows::{FinalizableData, RowFactory};
use pil_witgen::sequence::{
    CachedSequenceIterator, DefaultSequenceIterator, ProcessingSequenceIterator,
};
use pil_witgen::affine::AffineExpression;
use pil_witgen::block::OuterQuery;
use pil_witgen::types::{Constraint, EvalError};

fn wref(id: u64) -> AlgebraicExpression {
    AlgebraicExpression::Reference(AlgebraicReference {
        poly_id: PolyId { id, ptype: PolynomialType::Committed },
        next: false,
    })
}

fn wref_next(id: u64) -> AlgebraicExpression {
    AlgebraicExpression::Reference(AlgebraicReference {
        poly_id: PolyId { id, ptype: PolynomialType::Committed },
        next: true,
    })
}

fn fref(id: u64) -> AlgebraicExpression {
    AlgebraicExpression::Reference(AlgebraicReference {
        poly_id: PolyId { id, ptype: PolynomialType::Constant },
        next: false,
    })
}

fn num(n: u64) -> AlgebraicExpression {
    AlgebraicExpression::Number(n)
}

fn add(a: AlgebraicExpression, b: AlgebraicExpression) -> AlgebraicExpression {
    AlgebraicExpression::BinaryOperation(Box::new(a), AlgebraicBinaryOperator::Add, Box::new(b))
}

fn sub(a: AlgebraicExpression, b: AlgebraicExpression) -> AlgebraicExpression {
    AlgebraicExpression::BinaryOperation(Box::new(a), AlgebraicBinaryOperator::Sub, Box::new(b))
}

fn mul(a: AlgebraicExpression, b: AlgebraicExpression) -> AlgebraicExpression {
    AlgebraicExpression::BinaryOperation(Box::new(a), AlgebraicBinaryOperator::Mul, Box::new(b))
}

fn poly_identity(id: u64, e: AlgebraicExpression) -> Identity {
    Identity {
        id,
        kind: IdentityKind::Polynomial,
        left: SelectedExpressions { selector: Some(e), expressions: Vec::new() },
        right: SelectedExpressions { selector: None, expressions: Vec::new() },
    }
}

fn fixed_col(name: &str, values: Vec<u64>) -> FixedColumn {
    FixedColumn { name: name.to_owned(), values }
}

fn wit_col(name: &str) -> WitnessColumn {
    WitnessColumn { name: name.to_owned(), query: None }
}

fn unconstrained(n: usize) -> Vec<RangeConstraint> {
    (0..n).map(|_| RangeConstraint::unconstrained()).collect()
}

fn no_query(_q: String) -> Result<Option<u64>, String> {
    Ok(None)
}

/// The Fibonacci program of degree 8: fixed selectors for the first and last
/// rows, and the two committed sequences.
fn fibonacci_fixed_data() -> FixedData {
    let isfirst = fixed_col("Fibonacci.ISFIRST", vec![1, 0, 0, 0, 0, 0, 0, 0]);
    let islast = fixed_col("Fibonacci.ISLAST", vec![0, 0, 0, 0, 0, 0, 0, 1]);
    FixedData::new(
        8,
        vec![isfirst, islast],
        vec![wit_col("Fibonacci.x"), wit_col("Fibonacci.y")],
        unconstrained(2),
    )
    .unwrap()
}

fn fibonacci_identities() -> Vec<Identity> {
    vec![
        // ISFIRST * (y - 1) = 0
        poly_identity(0, mul(fref(0), sub(wref(1), num(1)))),
        // ISFIRST * (x - 1) = 0
        poly_identity(1, mul(fref(0), sub(wref(0), num(1)))),
        // (1 - ISLAST) * (x' - y) = 0
        poly_identity(2, mul(sub(num(1), fref(1)), sub(wref_next(0), wref(1)))),
        // (1 - ISLAST) * (y' - (x + y)) = 0
        poly_identity(3, mul(sub(num(1), fref(1)), sub(wref_next(1), add(wref(0), wref(1))))),
    ]
}

#[test]
fn test_fibonacci() {
    // Mirrors solving the Fibonacci block directly through the processor.
    let fixed = fibonacci_fixed_data();
    let identities = fibonacci_identities();
    let factory = RowFactory::new(unconstrained(2));
    let data = FinalizableData::with_initial_rows_in_progress(&factory, 8);
    let witness_cols: Vec<u64> = vec![0, 1];
    let mut processor: BlockProcessor<WithoutCalldata> =
        BlockProcessor::new(0, data, &identities, &fixed, factory, &witness_cols);
    let mut ms = MutableState::new(FixedLookup::new());
    let mut iterator = ProcessingSequenceIterator::Default(DefaultSequenceIterator::new(
        8 - 2,
        identities.len(),
        false,
        64,
    ));
    let outer_updates = processor.solve(&mut ms, &no_query, &mut iterator).unwrap();
    assert!(outer_updates.is_empty());
    let data = processor.finish();
    // "Fibonacci.y" is column 1; its wrap-row value is 34.
    let y7 = data.rows[7].cells[1].value.unwrap_or_default();
    assert_eq!(y7, 34);
    let x7 = data.rows[7].cells[0].value.unwrap_or_default();
    assert_eq!(x7, 21);
}

#[test]
fn fibonacci_full_witness() {
    let fixed = fibonacci_fixed_data();
    let identities = fibonacci_identities();
    let w = generate_witness(&fixed, &identities, &no_query, &Vec::new()).unwrap();
    assert_eq!(w.len(), 2);
    assert_eq!(w[0].0, "Fibonacci.x");
    assert_eq!(w[0].1, vec![1, 1, 2, 3, 5, 8, 13, 21]);
    assert_eq!(w[1].0, "Fibonacci.y");
    assert_eq!(w[1].1, vec![1, 2, 3, 5, 8, 13, 21, 34]);
}

#[test]
fn solving_is_deterministic_and_idempotent() {
    // Two runs on the same inputs and oracle give identical witnesses, and
    // seeding the second run with the first's output changes nothing.
    let fixed = fibonacci_fixed_data();
    let identities = fibonacci_identities();
    let w1 = generate_witness(&fixed, &identities, &no_query, &Vec::new()).unwrap();
    let w2 = generate_witness(&fixed, &identities, &no_query, &Vec::new()).unwrap();
    assert_eq!(w1, w2);
    let w3 = generate_witness(&fixed, &identities, &no_query, &w1).unwrap();
    assert_eq!(w1, w3);
}

#[test]
fn single_fixed_column() {
    // `z = [1, 2]*` replicated to degree 8; no committed column: the solve
    // succeeds immediately with an empty witness.
    let z = fixed_col("Global.z", vec![1, 2, 1, 2, 1, 2, 1, 2]);
    let fixed = FixedData::new(8, vec![z], Vec::new(), Vec::new()).unwrap();
    let w = generate_witness(&fixed, &Vec::new(), &no_query, &Vec::new()).unwrap();
    assert!(w.is_empty());
}

#[test]
fn polynomial_identity() {
    // `a = z + 1` with `z = [1, 2]*` at degree 8.
    let z = fixed_col("Global.z", vec![1, 2, 1, 2, 1, 2, 1, 2]);
    let fixed = FixedData::new(8, vec![z], vec![wit_col("Global.a")], unconstrained(1)).unwrap();
    let identities = vec![poly_identity(0, sub(wref(0), add(fref(0), num(1))))];
    let w = generate_witness(&fixed, &identities, &no_query, &Vec::new()).unwrap();
    assert_eq!(w.len(), 1);
    assert_eq!(w[0].1, vec![2, 3, 2, 3, 2, 3, 2, 3]);
}

#[test]
fn conflicting_constant_identity() {
    // `1 = 0` is unsatisfiable at row 0 already.
    let z = fixed_col("Global.z", vec![0, 0]);
    let fixed = FixedData::new(2, vec![z], Vec::new(), Vec::new()).unwrap();
    let identities = vec![poly_identity(0, num(1))];
    let r = generate_witness(&fixed, &identities, &no_query, &Vec::new());
    assert_eq!(r, Err(EvalError::ConstraintUnsatisfiable));
}

#[test]
fn lookup_into_fixed_table() {
    // `a in z` with `z = [0, 1]*`: nothing determines `a`, so the solve
    // reports incomplete progress — unless an external witness seeds `a`.
    let z = fixed_col("Global.z", vec![0, 1, 0, 1, 0, 1, 0, 1]);
    let fixed = FixedData::new(8, vec![z], vec![wit_col("Global.a")], unconstrained(1)).unwrap();
    let identities = vec![Identity {
        id: 0,
        kind: IdentityKind::Plookup,
        left: SelectedExpressions { selector: None, expressions: vec![wref(0)] },
        right: SelectedExpressions { selector: None, expressions: vec![fref(0)] },
    }];
    let r = generate_witness(&fixed, &identities, &no_query, &Vec::new());
    assert_eq!(r, Err(EvalError::IncompleteProgress));

    let seed = vec![("Global.a".to_owned(), vec![1, 1, 0, 0, 1, 0, 1, 1])];
    let w = generate_witness(&fixed, &identities, &no_query, &seed).unwrap();
    assert_eq!(w[0].1, vec![1, 1, 0, 0, 1, 0, 1, 1]);
}

#[test]
fn lookup_unsatisfiable_value() {
    // A seeded value outside the fixed set makes the lookup fail.
    let z = fixed_col("Global.z", vec![0, 1, 0, 1]);
    let fixed = FixedData::new(4, vec![z], vec![wit_col("Global.a")], unconstrained(1)).unwrap();
    let identities = vec![Identity {
        id: 0,
        kind: IdentityKind::Plookup,
        left: SelectedExpressions { selector: None, expressions: vec![wref(0)] },
        right: SelectedExpressions { selector: None, expressions: vec![fref(0)] },
    }];
    let seed = vec![("Global.a".to_owned(), vec![0, 1, 5, 0])];
    let r = generate_witness(&fixed, &identities, &no_query, &seed);
    assert_eq!(r, Err(EvalError::ConstraintUnsatisfiable));
}

#[test]
fn prover_query_hint() {
    // A single witness column with no identities but a registered query; the
    // oracle answers 7, so every row becomes 7.
    let z = fixed_col("Global.z", vec![0; 8]);
    let q = WitnessColumn { name: "Global.q".to_owned(), query: Some("nonce".to_owned()) };
    let fixed = FixedData::new(8, vec![z], vec![q], unconstrained(1)).unwrap();
    let oracle = |query: String| -> Result<Option<u64>, String> {
        if query == "nonce" {
            Ok(Some(7))
        } else {
            Ok(None)
        }
    };
    let w = generate_witness(&fixed, &Vec::new(), &oracle, &Vec::new()).unwrap();
    assert_eq!(w[0].1, vec![7; 8]);
}

#[test]
fn query_oracle_failure_is_fatal() {
    let q = WitnessColumn { name: "Global.q".to_owned(), query: Some("nonce".to_owned()) };
    let fixed = FixedData::new(4, Vec::new(), vec![q], unconstrained(1)).unwrap();
    let oracle =
        |_query: String| -> Result<Option<u64>, String> { Err("oracle unavailable".to_owned()) };
    let r = generate_witness(&fixed, &Vec::new(), &oracle, &Vec::new());
    assert_eq!(r, Err(EvalError::QueryOracleFailure("oracle unavailable".to_owned())));
}

#[test]
fn witness_column_unconstrained() {
    // A committed column with no identities and no query stays unknown: the
    // solve finishes with incomplete progress.
    let fixed = FixedData::new(8, Vec::new(), vec![wit_col("Global.a")], unconstrained(1)).unwrap();
    let r = generate_witness(&fixed, &Vec::new(), &no_query, &Vec::new());
    assert_eq!(r, Err(EvalError::IncompleteProgress));
}

#[test]
fn row_wrap_consults_row_zero() {
    // `x' = z` at degree 4: the solve at the last row assigns row 0 of `x`.
    let z = fixed_col("Global.z", vec![5, 6, 7, 8]);
    let fixed = FixedData::new(4, vec![z], vec![wit_col("Global.x")], unconstrained(1)).unwrap();
    let identities = vec![poly_identity(0, sub(wref_next(0), fref(0)))];
    let w = generate_witness(&fixed, &identities, &no_query, &Vec::new()).unwrap();
    assert_eq!(w[0].1, vec![8, 5, 6, 7]);
}

#[test]
fn conflicting_seed_is_fatal() {
    // Two external seeds that disagree on a cell conflict immediately; a
    // single seed contradicting `a = z + 1` surfaces as an unsatisfiable
    // identity instead, because the known value is substituted first.
    let z = fixed_col("Global.z", vec![1, 2, 1, 2]);
    let fixed = FixedData::new(4, vec![z], vec![wit_col("Global.a")], unconstrained(1)).unwrap();
    let identities = vec![poly_identity(0, sub(wref(0), add(fref(0), num(1))))];
    let seed = vec![
        ("Global.a".to_owned(), vec![2, 3, 2, 3]),
        ("Global.a".to_owned(), vec![2, 9, 2, 3]),
    ];
    let r = generate_witness(&fixed, &identities, &no_query, &seed);
    assert_eq!(r, Err(EvalError::ConflictingAssignment));

    let seed = vec![("Global.a".to_owned(), vec![9, 9, 9, 9])];
    let r = generate_witness(&fixed, &identities, &no_query, &seed);
    assert_eq!(r, Err(EvalError::ConstraintUnsatisfiable));
}

#[test]
fn invalid_program_is_rejected() {
    // An identity referencing a committed column that does not exist is a
    // setup-time error.
    let fixed = FixedData::new(4, Vec::new(), vec![wit_col("Global.a")], unconstrained(1)).unwrap();
    let identities = vec![poly_identity(0, sub(wref(3), num(0)))];
    let r = generate_witness(&fixed, &identities, &no_query, &Vec::new());
    assert_eq!(r, Err(EvalError::InvalidProgram));
}

#[test]
fn lookup_into_witness_columns_has_no_machine() {
    // A lookup whose right-hand side names committed columns has no callee
    // in a single-machine setup: a sub-machine failure.
    let fixed = FixedData::new(
        4,
        Vec::new(),
        vec![wit_col("Global.a"), wit_col("Global.b")],
        unconstrained(2),
    )
    .unwrap();
    let identities = vec![Identity {
        id: 0,
        kind: IdentityKind::Plookup,
        left: SelectedExpressions { selector: None, expressions: vec![wref(0)] },
        right: SelectedExpressions { selector: None, expressions: vec![wref(1)] },
    }];
    let r = generate_witness(&fixed, &identities, &no_query, &Vec::new());
    assert_eq!(r, Err(EvalError::SubMachineFailure));
}

#[test]
fn nonlinear_identity_defers_and_stalls() {
    // `a * a = 4` needs the product of two unknowns: the step defers forever
    // and the solve ends incomplete.
    let fixed = FixedData::new(4, Vec::new(), vec![wit_col("Global.a")], unconstrained(1)).unwrap();
    let identities = vec![poly_identity(0, sub(mul(wref(0), wref(0)), num(4)))];
    let r = generate_witness(&fixed, &identities, &no_query, &Vec::new());
    assert_eq!(r, Err(EvalError::IncompleteProgress));
}

#[test]
fn permutation_of_identical_lists() {
    // A permutation identity between two identical selected-expression lists
    // is trivially satisfied.
    let z = fixed_col("Global.z", vec![3, 1, 4, 1]);
    let fixed = FixedData::new(4, vec![z], Vec::new(), Vec::new()).unwrap();
    let identities = vec![Identity {
        id: 0,
        kind: IdentityKind::Permutation,
        left: SelectedExpressions { selector: None, expressions: vec![fref(0)] },
        right: SelectedExpressions { selector: None, expressions: vec![fref(0)] },
    }];
    let w = generate_witness(&fixed, &identities, &no_query, &Vec::new()).unwrap();
    assert!(w.is_empty());
}

#[test]
fn permutation_of_rearranged_columns() {
    // Two fixed columns holding the same values in different orders satisfy
    // a permutation identity; different multisets do not.
    let z1 = fixed_col("Global.z1", vec![3, 1, 4, 1]);
    let z2 = fixed_col("Global.z2", vec![1, 4, 3, 1]);
    let fixed = FixedData::new(4, vec![z1, z2], Vec::new(), Vec::new()).unwrap();
    let identities = vec![Identity {
        id: 0,
        kind: IdentityKind::Permutation,
        left: SelectedExpressions { selector: None, expressions: vec![fref(0)] },
        right: SelectedExpressions { selector: None, expressions: vec![fref(1)] },
    }];
    assert!(generate_witness(&fixed, &identities, &no_query, &Vec::new()).is_ok());

    let z1 = fixed_col("Global.z1", vec![3, 1, 4, 1]);
    let z3 = fixed_col("Global.z3", vec![3, 3, 4, 1]);
    let fixed = FixedData::new(4, vec![z1, z3], Vec::new(), Vec::new()).unwrap();
    let r = generate_witness(&fixed, &identities, &no_query, &Vec::new());
    assert_eq!(r, Err(EvalError::ConstraintUnsatisfiable));
}

#[test]
fn connect_identity_equates_lists() {
    // `connect [a] -> [z]` forces pointwise equality.
    let z = fixed_col("Global.z", vec![4, 9, 2, 7]);
    let fixed = FixedData::new(4, vec![z], vec![wit_col("Global.a")], unconstrained(1)).unwrap();
    let identities = vec![Identity {
        id: 0,
        kind: IdentityKind::Connect,
        left: SelectedExpressions { selector: None, expressions: vec![wref(0)] },
        right: SelectedExpressions { selector: None, expressions: vec![fref(0)] },
    }];
    let w = generate_witness(&fixed, &identities, &no_query, &Vec::new()).unwrap();
    assert_eq!(w[0].1, vec![4, 9, 2, 7]);
}

#[test]
fn range_pattern_prunes_assignment() {
    // `a * (a - 1) = 0` derives the bit constraint {0, 1}; an identity then
    // forcing `a = 5` conflicts with the pruned range.
    let fixed = FixedData::new(4, Vec::new(), vec![wit_col("Global.a")], unconstrained(1)).unwrap();
    let identities = vec![
        poly_identity(0, mul(wref(0), sub(wref(0), num(1)))),
        poly_identity(1, sub(wref(0), num(5))),
    ];
    let r = generate_witness(&fixed, &identities, &no_query, &Vec::new());
    assert_eq!(r, Err(EvalError::ConflictingAssignment));
}

#[test]
fn recorded_sequence_replays() {
    // A recording run keeps the steps that made progress; replaying just
    // those steps on a fresh table reaches the same witness.
    let fixed = fibonacci_fixed_data();
    let identities = fibonacci_identities();
    let factory = RowFactory::new(unconstrained(2));
    let data = FinalizableData::with_initial_rows_in_progress(&factory, 8);
    let witness_cols: Vec<u64> = vec![0, 1];
    let mut processor: BlockProcessor<WithoutCalldata> =
        BlockProcessor::new(0, data, &identities, &fixed, factory, &witness_cols);
    let mut ms = MutableState::new(FixedLookup::new());
    let mut recorder = DefaultSequenceIterator::new(8 - 2, identities.len(), false, 64);
    recorder.record = true;
    let mut iterator = ProcessingSequenceIterator::Default(recorder);
    processor.solve(&mut ms, &no_query, &mut iterator).unwrap();
    let first = processor.finish();
    let recorded = match iterator {
        ProcessingSequenceIterator::Default(it) => it.recorded,
        _ => unreachable!(),
    };
    assert!(!recorded.is_empty());

    let factory = RowFactory::new(unconstrained(2));
    let data = FinalizableData::with_initial_rows_in_progress(&factory, 8);
    let mut processor: BlockProcessor<WithoutCalldata> =
        BlockProcessor::new(0, data, &identities, &fixed, factory, &witness_cols);
    let mut iterator = ProcessingSequenceIterator::Cached(CachedSequenceIterator {
        steps: recorded,
        pos: 0,
    });
    processor.solve(&mut ms, &no_query, &mut iterator).unwrap();
    let second = processor.finish();
    assert_eq!(first.rows, second.rows);
}

#[test]
fn outer_query_answers_caller() {
    // A callee machine owning column `b` (with `b = z`) answers a caller's
    // outer query for column `a`: the caller's left-hand side is solved and
    // returned as outer assignments.
    let z = fixed_col("Global.z", vec![7, 7, 7, 7]);
    let fixed = FixedData::new(
        4,
        vec![z],
        vec![wit_col("Caller.a"), wit_col("Callee.b")],
        unconstrained(2),
    )
    .unwrap();
    // The callee owns column 1 and pins it to the fixed column.
    let identities = vec![poly_identity(0, sub(wref(1), fref(0)))];
    let factory = RowFactory::new(unconstrained(2));
    let data = FinalizableData::with_initial_rows_in_progress(&factory, 4);
    let callee_cols: Vec<u64> = vec![1];
    let processor: BlockProcessor<WithoutCalldata> =
        BlockProcessor::new(0, data, &identities, &fixed, factory, &callee_cols);
    // The caller wants `a` (variable 0 of the pair) to equal the callee's
    // right-hand side `b`.
    let left = vec![AffineExpression::from_variable(0, 4)];
    let right = SelectedExpressions { selector: None, expressions: vec![wref(1)] };
    let mut processor = processor.with_outer_query(OuterQuery::new(left, right));
    let mut ms = MutableState::new(FixedLookup::new());
    let mut iterator = ProcessingSequenceIterator::Default(DefaultSequenceIterator::new(
        2,
        identities.len(),
        true,
        32,
    ));
    let outer = processor.solve(&mut ms, &no_query, &mut iterator).unwrap();
    assert!(!outer.is_empty());
    let (rf, c) = &outer[0];
    assert_eq!(rf.poly_id.id, 0);
    assert_eq!(*c, Constraint::Assignment(7));
    let (data, left) = processor.finish();
    // The answered value was substituted into the caller's left-hand side.
    assert!(left[0].is_constant());
    assert_eq!(left[0].constant_value(), 7);
    assert_eq!(data.rows[0].cells[1].value, Some(7));
}

#[test]
fn check_constraints_on_zero_filled_rows() {
    // With all-zero unknowns, `a - z` holds where z is zero and fails where
    // it is not.
    let z = fixed_col("Global.z", vec![0, 0, 0, 0]);
    let fixed = FixedData::new(4, vec![z], vec![wit_col("Global.a")], unconstrained(1)).unwrap();
    let identities = vec![poly_identity(0, sub(wref(0), fref(0)))];
    let factory = RowFactory::new(unconstrained(1));
    let data = FinalizableData::with_initial_rows_in_progress(&factory, 4);
    let processor: BlockProcessor<WithoutCalldata> =
        BlockProcessor::new(0, data, &identities, &fixed, factory, &vec![0]);
    assert!(processor.check_constraints().is_ok());

    let z = fixed_col("Global.z", vec![0, 1, 0, 1]);
    let fixed = FixedData::new(4, vec![z], vec![wit_col("Global.a")], unconstrained(1)).unwrap();
    let factory = RowFactory::new(unconstrained(1));
    let data = FinalizableData::with_initial_rows_in_progress(&factory, 4);
    let processor: BlockProcessor<WithoutCalldata> =
        BlockProcessor::new(0, data, &identities, &fixed, factory, &vec![0]);
    assert!(processor.check_constraints().is_err());
}
