//! The parsed abstract syntax tree: names, traversal and array expressions.

use pil_witgen::field::FIELD_MODULUS;
use pil_witgen::parsed::{
    ArrayExpression, ArrayType, BigNum, BinaryOperator, EnumDeclaration, EnumVariant, Expression,
    FunctionKind, NamespacedPolynomialReference, Part, PilStatement, PolynomialName,
    SelectedExpressions, SourceRef, SymbolPath, Type, TypeScheme, UnaryOperator,
};

fn src() -> SourceRef {
    SourceRef { start: 0, end: 0 }
}

fn num(n: u64) -> Expression {
    Expression::Number(BigNum::from_u64(n))
}

#[test]
fn bignum_reduces_into_the_field() {
    assert_eq!(BigNum::from_u64(5).to_field(), 5);
    assert_eq!(BigNum::from_u64(u64::MAX).to_field(), u64::MAX - FIELD_MODULUS);
    // 1 + 2^64 reduces to 1 + (2^32 - 1).
    let big = BigNum { limbs: vec![1, 1] };
    assert_eq!(big.to_field(), 1 + 0xffff_ffff);
    // 2^128 mod p, computed limb by limb.
    let big = BigNum { limbs: vec![0, 0, 1] };
    let expected = {
        let p = FIELD_MODULUS as u128;
        let r64 = (1u128 << 64) % p;
        (r64 * r64) % p
    };
    assert_eq!(big.to_field() as u128, expected);
}

#[test]
fn unary_operator_prefixes() {
    assert!(UnaryOperator::Minus.is_prefix());
    assert!(UnaryOperator::LogicalNot.is_prefix());
    assert!(!UnaryOperator::Next.is_prefix());
}

#[test]
fn reference_identifiers() {
    let r = NamespacedPolynomialReference::from_identifier("x".to_owned());
    assert_eq!(r.try_to_identifier(), Some(&"x".to_owned()));
    let longer = NamespacedPolynomialReference {
        path: SymbolPath::from_parts(vec![
            Part::Named("ns".to_owned()),
            Part::Named("x".to_owned()),
        ]),
    };
    assert_eq!(longer.try_to_identifier(), None);
}

#[test]
fn enum_constructor_types() {
    let plain: EnumVariant<u64> = EnumVariant { name: "A".to_owned(), fields: None };
    let path = SymbolPath::from_parts(vec![Part::Named("Color".to_owned())]);
    match plain.constructor_type(path) {
        Type::NamedType(p) => assert_eq!(p.parts.len(), 1),
        _ => panic!("expected the bare type"),
    }
    let with_fields: EnumVariant<u64> = EnumVariant {
        name: "B".to_owned(),
        fields: Some(vec![Type::NamedType(SymbolPath::from_parts(vec![Part::Named(
            "int".to_owned(),
        )]))]),
    };
    let path = SymbolPath::from_parts(vec![Part::Named("Color".to_owned())]);
    match with_fields.constructor_type(path) {
        Type::Function(f) => assert_eq!(f.params.len(), 1),
        _ => panic!("expected a function type"),
    }
}

#[test]
fn selected_expressions_children() {
    let se: SelectedExpressions<Expression> =
        SelectedExpressions { selector: Some(num(1)), expressions: vec![num(2), num(3)] };
    let c = se.children();
    assert_eq!(c.len(), 3);
    assert_eq!(*c[0], num(1));
    assert_eq!(*c[1], num(2));
    let empty: SelectedExpressions<Expression> = Default::default();
    assert!(empty.children().is_empty());
    assert!(empty.selector.is_none());
}

#[test]
fn expression_children_and_any() {
    let e = Expression::new_binary(num(1), BinaryOperator::Add, num(2));
    let c = e.children();
    assert_eq!(c.len(), 2);
    assert_eq!(*c[0], num(1));
    assert_eq!(*c[1], num(2));
    let is_two = |x: &Expression| match x {
        Expression::Number(n) => n.limbs == vec![2],
        _ => false,
    };
    assert!(e.any(&is_two));
    let is_nine = |x: &Expression| match x {
        Expression::Number(n) => n.limbs == vec![9],
        _ => false,
    };
    assert!(!e.any(&is_nine));
}

#[test]
fn expression_duplicate_is_equal() {
    let e = Expression::new_binary(
        Expression::Tuple(vec![num(1), Expression::String("s".to_owned())]),
        BinaryOperator::Mul,
        Expression::UnaryOperation(UnaryOperator::Minus, Box::new(num(4))),
    );
    assert_eq!(e.duplicate(), e);
}

#[test]
fn array_expression_solve() {
    // [1] + [0]*: one constant entry, the repetition fills the rest.
    let e = ArrayExpression::value(vec![num(1)]).concat(ArrayExpression::repeated_value(vec![num(
        0,
    )]));
    assert_eq!(e.solve(8), 7);
    // [1, 2]* alone fills everything.
    let e = ArrayExpression::repeated_value(vec![num(1), num(2)]);
    assert_eq!(e.solve(8), 8);
}

#[test]
fn array_expression_padding() {
    let e = ArrayExpression::value(vec![num(1), num(2)]);
    match e.pad_with_zeroes() {
        ArrayExpression::Concat(left, right) => {
            assert_eq!(*left, ArrayExpression::value(vec![num(1), num(2)]));
            match *right {
                ArrayExpression::RepeatedValue(v) => assert_eq!(v, vec![num(0)]),
                _ => panic!("expected a repeated tail"),
            }
        },
        _ => panic!("expected a concatenation"),
    }
    let e = ArrayExpression::value(vec![num(1), num(2)]);
    match e.pad_with_last() {
        Some(ArrayExpression::Concat(_, right)) => match *right {
            ArrayExpression::RepeatedValue(v) => assert_eq!(v, vec![num(2)]),
            _ => panic!("expected a repeated tail"),
        },
        _ => panic!("expected a padded expression"),
    }
    let empty = ArrayExpression::value(Vec::new());
    assert!(empty.pad_with_last().is_none());
}

#[test]
fn statement_symbol_names() {
    let st = PilStatement::PolynomialDefinition(src(), "f".to_owned(), num(1));
    let names = st.symbol_definition_names();
    assert_eq!(names.len(), 1);
    assert_eq!(names[0], (&"f".to_owned(), false));

    let decl = EnumDeclaration::<Expression> {
        name: "Color".to_owned(),
        variants: vec![
            EnumVariant { name: "Red".to_owned(), fields: None },
            EnumVariant { name: "Blue".to_owned(), fields: None },
        ],
    };
    let st = PilStatement::EnumDeclaration(src(), decl);
    let names = st.symbol_definition_names();
    assert_eq!(names.len(), 1);
    assert_eq!(names[0], (&"Color".to_owned(), true));
    let contained = st.defined_contained_names();
    assert_eq!(contained.len(), 2);
    assert_eq!(contained[0], (&"Color".to_owned(), &"Red".to_owned(), false));
    assert_eq!(contained[1], (&"Color".to_owned(), &"Blue".to_owned(), false));

    let st = PilStatement::PolynomialCommitDeclaration(
        src(),
        None,
        vec![
            PolynomialName { name: "a".to_owned(), array_size: None },
            PolynomialName { name: "b".to_owned(), array_size: None },
        ],
        None,
    );
    let names = st.symbol_definition_names();
    assert_eq!(names.len(), 2);
    assert_eq!(*names[1].0, "b".to_owned());
}

#[test]
fn statement_children() {
    let st = PilStatement::ConnectIdentity(src(), vec![num(1)], vec![num(2), num(3)]);
    assert_eq!(st.children().len(), 3);
    let st = PilStatement::Include(src(), "other.pil".to_owned());
    assert!(st.children().is_empty());
    assert!(st.symbol_definition_names().is_empty());
    let st = PilStatement::Expression(src(), num(7));
    let c = st.children();
    assert_eq!(c.len(), 1);
    assert_eq!(*c[0], num(7));
}

#[test]
fn let_statement_children_traverse_the_type_scheme() {
    // A let statement yields the array-length expressions inside its type
    // scheme before the bound value.
    let named = |n: &str| {
        Type::<Expression>::NamedType(SymbolPath::from_parts(vec![Part::Named(n.to_owned())]))
    };
    let scheme = TypeScheme {
        vars: Vec::new(),
        ty: Type::Array(ArrayType { base: Box::new(named("int")), length: Some(num(4)) }),
    };
    let st = PilStatement::LetStatement(src(), "xs".to_owned(), Some(scheme), Some(num(9)));
    let c = st.children();
    assert_eq!(c.len(), 2);
    assert_eq!(*c[0], num(4));
    assert_eq!(*c[1], num(9));

    let st = PilStatement::LetStatement(src(), "x".to_owned(), None, Some(num(9)));
    let c = st.children();
    assert_eq!(c.len(), 1);
    assert_eq!(*c[0], num(9));
}

#[test]
fn enum_children_traverse_field_types() {
    // Array-length expressions inside a variant's field types are children of
    // the variant and of the enclosing declaration.
    let named = |n: &str| {
        Type::<Expression>::NamedType(SymbolPath::from_parts(vec![Part::Named(n.to_owned())]))
    };
    let variant = EnumVariant {
        name: "Block".to_owned(),
        fields: Some(vec![
            Type::Array(ArrayType { base: Box::new(named("int")), length: Some(num(3)) }),
            named("bool"),
        ]),
    };
    let c = variant.children();
    assert_eq!(c.len(), 1);
    assert_eq!(*c[0], num(3));
    let decl = EnumDeclaration {
        name: "Shape".to_owned(),
        variants: vec![
            EnumVariant { name: "Empty".to_owned(), fields: None },
            variant,
        ],
    };
    let c = decl.children();
    assert_eq!(c.len(), 1);
    assert_eq!(*c[0], num(3));
    let st = PilStatement::EnumDeclaration(src(), decl);
    assert_eq!(st.children().len(), 1);
}

#[test]
fn function_kinds_are_distinct() {
    assert_ne!(FunctionKind::Pure, FunctionKind::Query);
    assert_ne!(FunctionKind::Constr, FunctionKind::Query);
}
