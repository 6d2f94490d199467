//! The backend adapters: eSTARK parameters, the plonky3 circuit translation
//! and the mock machine assembly.

use pil_witgen::estark::{degree_bits, to_pols_values, EStark};
use pil_witgen::expr::{
    AlgebraicBinaryOperator, AlgebraicExpression, AlgebraicReference, Identity, IdentityKind,
    PolyId, PolynomialType,
};
use pil_witgen::mock::Machine;
use pil_witgen::parsed::SelectedExpressions;
use pil_witgen::plonky3::{IndexedExpression, PowdrCircuit};

fn wref(id: u64) -> AlgebraicExpression {
    AlgebraicExpression::Reference(AlgebraicReference {
        poly_id: PolyId { id, ptype: PolynomialType::Committed },
        next: false,
    })
}

fn fref_next(id: u64) -> AlgebraicExpression {
    AlgebraicExpression::Reference(AlgebraicReference {
        poly_id: PolyId { id, ptype: PolynomialType::Constant },
        next: true,
    })
}

#[test]
fn estark_default_parameters() {
    let backend = EStark::new(8);
    assert_eq!(backend.params.n_bits, 3);
    assert_eq!(backend.params.n_bits_ext, 4);
    assert_eq!(backend.params.n_queries, 2);
    assert_eq!(backend.params.verification_hash_type, "GL");
    assert_eq!(backend.params.steps, vec![19, 17, 7]);
    assert_eq!(degree_bits(1), 0);
    assert_eq!(degree_bits(2), 1);
    assert_eq!(degree_bits(9), 4);
}

#[test]
fn estark_pols_conversion() {
    let columns = vec![
        ("a".to_owned(), vec![1, 2, 3, 4]),
        ("b".to_owned(), vec![5, 6, 7, 8]),
    ];
    let pols = to_pols_values(&columns, 2, 4).unwrap();
    assert_eq!(pols, vec![vec![1, 2, 3, 4], vec![5, 6, 7, 8]]);
    assert!(to_pols_values(&columns, 3, 4).is_none());
    assert!(to_pols_values(&columns, 2, 5).is_none());
}

fn small_circuit() -> PowdrCircuit {
    PowdrCircuit {
        witness: vec![("w".to_owned(), vec![10, 11])],
        fixed: vec![("z".to_owned(), vec![20, 21])],
        identities: Vec::new(),
        degree: 2,
    }
}

#[test]
fn plonky3_index_resolution() {
    let circuit = small_circuit();
    // Committed columns keep their index; fixed ones are offset by the
    // committed count.
    let e = AlgebraicExpression::BinaryOperation(
        Box::new(wref(0)),
        AlgebraicBinaryOperator::Sub,
        Box::new(fref_next(0)),
    );
    let ix = circuit.to_indexed_expr(&e).unwrap();
    match ix {
        IndexedExpression::Sub(l, r) => {
            assert_eq!(*l, IndexedExpression::Cell(0, false));
            assert_eq!(*r, IndexedExpression::Cell(1, true));
        },
        _ => panic!("expected a subtraction"),
    }
}

#[test]
fn plonky3_trace_layout() {
    let circuit = small_circuit();
    assert_eq!(circuit.width(), 2);
    // Row-major: committed then fixed, row by row.
    let values = circuit.preprocessed_trace().unwrap();
    assert_eq!(values, vec![10, 20, 11, 21]);
}

#[test]
fn plonky3_assert_zero_extraction() {
    let mut circuit = small_circuit();
    circuit.identities.push(Identity {
        id: 0,
        kind: IdentityKind::Polynomial,
        left: SelectedExpressions { selector: Some(wref(0)), expressions: Vec::new() },
        right: SelectedExpressions { selector: None, expressions: Vec::new() },
    });
    let exprs = circuit.assert_zero_expressions().unwrap();
    assert_eq!(exprs, vec![IndexedExpression::Cell(0, false)]);
    // A lookup is outside this backend's fragment.
    circuit.identities.push(Identity {
        id: 1,
        kind: IdentityKind::Plookup,
        left: SelectedExpressions { selector: None, expressions: vec![wref(0)] },
        right: SelectedExpressions { selector: None, expressions: vec![wref(0)] },
    });
    assert!(circuit.assert_zero_expressions().is_err());
}

#[test]
fn mock_machine_assembly() {
    // Witness columns agreeing on one size assemble a machine; the fixed
    // columns are narrowed to that size.
    let witness = vec![
        ("m.a".to_owned(), vec![1, 2]),
        ("m.b".to_owned(), vec![3, 4]),
    ];
    let fixed = vec![
        ("m.z".to_owned(), vec![5, 6]),
        ("m.z4".to_owned(), vec![5, 6, 7, 8]),
    ];
    let m = Machine::try_new("m".to_owned(), witness, &fixed).unwrap();
    assert_eq!(m.size, 2);
    assert_eq!(m.machine_name, "m");
    assert_eq!(m.fixed.len(), 1);
    assert_eq!(m.fixed[0].0, "m.z");

    // An empty machine (all witness columns of length zero) is dropped.
    let witness = vec![("m.a".to_owned(), Vec::new())];
    assert!(Machine::try_new("m".to_owned(), witness, &Vec::new()).is_none());
}
