//! The parsed PIL abstract syntax tree: statements, expressions, array
//! expressions and the helper types shared with the analyzed form.
//!
//! Number literals carry an arbitrary-precision magnitude ([`BigNum`]) and
//! are reduced into the field on consumption. Every `children` method
//! returns the (top-level) sub-expressions of a node as a vector, in the
//! node's own order.

use vstd::prelude::*;
use vstd::arithmetic::div_mod::{lemma_add_mod_noop, lemma_mul_mod_noop, lemma_small_mod};
use crate::field::{in_field, FIELD_MODULUS};

verus! {

/// A selector expression paired with a list of expressions, the shape of each
/// side of a lookup, permutation or polynomial identity.
#[derive(Debug, Clone, PartialEq, Eq)]
pub struct SelectedExpressions<Expr> {
    pub selector: Option<Expr>,
    pub expressions: Vec<Expr>,
}

impl<Expr> Default for SelectedExpressions<Expr> {
    /// No selector and no expressions.
    fn default() -> (r: Self)
        ensures
            r.selector is None,
            r.expressions@.len() == 0,
    {
        Self { selector: None, expressions: Vec::new() }
    }
}

impl<Expr> SelectedExpressions<Expr> {
    /// All top-level expressions of this side: the selector, if any,
    /// followed by the expression list.
    pub fn children(&self) -> (r: Vec<&Expr>)
        ensures
            r@.len() == (if self.selector is Some {
                self.expressions@.len() + 1
            } else {
                self.expressions@.len()
            }),
            self.selector is Some ==> *r@[0] == self.selector->0,
            forall|i: int| 0 <= i < self.expressions@.len()
                ==> *r@[i + (if self.selector is Some { 1int } else { 0int })]
                    == self.expressions@[i],
    {
        let mut r: Vec<&Expr> = Vec::new();
        match &self.selector {
            Some(s) => { r.push(s); },
            None => {},
        }
        let ghost off: int = if self.selector is Some { 1int } else { 0int };
        let mut i: usize = 0;
        while i < self.expressions.len()
            invariant
                0 <= i <= self.expressions@.len(),
                r@.len() == off + i,
                off == (if self.selector is Some { 1int } else { 0int }),
                self.selector is Some ==> *r@[0] == self.selector->0,
                forall|j: int| 0 <= j < i ==> *r@[j + off] == self.expressions@[j],
            decreases self.expressions@.len() - i,
        {
            r.push(&self.expressions[i]);
            i += 1;
        }
        r
    }
}

/// An arbitrary-precision unsigned magnitude: little-endian 64-bit limbs.
/// Number literals can exceed 64 bits and are reduced into the field only on
/// consumption.
#[derive(Debug, Clone, PartialEq, Eq)]
pub struct BigNum {
    pub limbs: Vec<u64>,
}

/// The value of little-endian limbs.
pub open spec fn limbs_value(s: Seq<u64>) -> int
    decreases s.len(),
{
    if s.len() == 0 {
        0
    } else {
        s[0] + 0x1_0000_0000_0000_0000 * limbs_value(s.drop_first())
    }
}

impl BigNum {
    /// The magnitude this number denotes.
    pub open spec fn spec_value(self) -> int {
        limbs_value(self.limbs@)
    }

    /// The number with a single-limb magnitude.
    pub fn from_u64(v: u64) -> (r: BigNum)
        ensures
            r.spec_value() == v,
    {
        let mut limbs: Vec<u64> = Vec::new();
        limbs.push(v);
        proof {
            assert(limbs@.drop_first() =~= Seq::<u64>::empty());
            assert(limbs_value(limbs@) == limbs@[0] + 0x1_0000_0000_0000_0000 * limbs_value(
                limbs@.drop_first(),
            ));
            assert(limbs_value(Seq::<u64>::empty()) == 0);
            assert(0x1_0000_0000_0000_0000int * 0int == 0int);
        }
        BigNum { limbs }
    }

    /// Reduces the magnitude into the field, folding the limbs from the most
    /// significant end.
    pub fn to_field(&self) -> (r: u64)
        ensures
            in_field(r),
            r == self.spec_value() % (FIELD_MODULUS as int),
    {
        let ghost p = FIELD_MODULUS as int;
        // 2^64 mod p, for the Goldilocks prime 2^64 - 2^32 + 1.
        let radix_mod: u64 = 0xffff_ffff;
        let n = self.limbs.len();
        let mut acc: u64 = 0;
        let mut k: usize = 0;
        proof {
            assert(self.limbs@.subrange(n as int, n as int) =~= Seq::<u64>::empty());
            lemma_small_mod(0, p as nat);
        }
        while k < n
            invariant
                p == FIELD_MODULUS as int,
                n == self.limbs@.len(),
                k <= n,
                radix_mod == 0xffff_ffffu64,
                in_field(acc),
                acc == limbs_value(self.limbs@.subrange(n - k, n as int)) % (
                FIELD_MODULUS as int),
            decreases n - k,
        {
            let limb = self.limbs[n - 1 - k];
            let t: u128 = acc as u128 * radix_mod as u128 + limb as u128;
            let next = (t % (FIELD_MODULUS as u128)) as u64;
            proof {
                let y = limbs_value(self.limbs@.subrange(n - k, n as int));
                let sub1 = self.limbs@.subrange(n - 1 - k, n as int);
                assert(sub1.drop_first() =~= self.limbs@.subrange(n - k, n as int));
                assert(limbs_value(sub1) == limb + 0x1_0000_0000_0000_0000 * y);
                // acc * (2^64 mod p) + limb ≡ limb + 2^64 * y (mod p)
                assert(0x1_0000_0000_0000_0000int % p == 0xffff_ffffint) by {
                    vstd::arithmetic::div_mod::lemma_mod_add_multiples_vanish(0xffff_ffffint, p);
                    lemma_small_mod(0xffff_ffffnat, p as nat);
                }
                lemma_mul_mod_noop(y, 0x1_0000_0000_0000_0000int, p);
                assert((acc as int * radix_mod as int) % p == (y * 0x1_0000_0000_0000_0000int)
                    % p);
                lemma_add_mod_noop(acc as int * radix_mod as int, limb as int, p);
                lemma_add_mod_noop(y * 0x1_0000_0000_0000_0000int, limb as int, p);
                lemma_small_mod(acc as nat, p as nat);
                assert(y * 0x1_0000_0000_0000_0000int + limb == limbs_value(sub1)) by {
                    vstd::arithmetic::mul::lemma_mul_is_commutative(
                        y,
                        0x1_0000_0000_0000_0000int,
                    );
                }
                assert(next == limbs_value(sub1) % p);
            }
            acc = next;
            k += 1;
        }
        proof {
            assert(self.limbs@.subrange(0, n as int) =~= self.limbs@);
        }
        acc
    }
}

/// One component of a symbol path.
#[derive(Debug, Clone, PartialEq, Eq)]
pub enum Part {
    Named(String),
}

/// A dotted path naming a symbol.
#[derive(Debug, Clone, PartialEq, Eq)]
pub struct SymbolPath {
    pub parts: Vec<Part>,
}

impl SymbolPath {
    /// A path from its components.
    pub fn from_parts(parts: Vec<Part>) -> (r: SymbolPath)
        ensures
            r.parts == parts,
    {
        SymbolPath { parts }
    }

    /// The single identifier the path consists of, if it is unqualified.
    pub fn try_to_identifier(&self) -> (r: Option<&String>)
        ensures
            r matches Some(name) ==> (self.parts@.len() == 1 && self.parts@[0] == Part::Named(
                *name,
            )),
            (self.parts@.len() == 1 && self.parts@[0] is Named) ==> r is Some,
    {
        if self.parts.len() == 1 {
            match &self.parts[0] {
                Part::Named(name) => Some(name),
            }
        } else {
            None
        }
    }
}

/// A type expression; array lengths are drawn from `E`.
#[derive(Debug, PartialEq, Eq)]
pub enum Type<E> {
    NamedType(SymbolPath),
    Function(FunctionType<E>),
    Array(ArrayType<E>),
}

/// A function type: parameter types and a result type.
#[derive(Debug, PartialEq, Eq)]
pub struct FunctionType<E> {
    pub params: Vec<Type<E>>,
    pub value: Box<Type<E>>,
}

/// An array type: a base type and an optional length.
#[derive(Debug, PartialEq, Eq)]
pub struct ArrayType<E> {
    pub base: Box<Type<E>>,
    pub length: Option<E>,
}

/// A type together with its bound type variables.
#[derive(Debug, PartialEq, Eq)]
pub struct TypeScheme<E> {
    pub vars: Vec<String>,
    pub ty: Type<E>,
}

/// A declared enumeration: a name and its variants.
#[derive(Debug, PartialEq, Eq)]
pub struct EnumDeclaration<E> {
    pub name: String,
    pub variants: Vec<EnumVariant<E>>,
}

/// One variant of a declared enumeration, with optional field types.
#[derive(Debug, PartialEq, Eq)]
pub struct EnumVariant<E> {
    pub name: String,
    pub fields: Option<Vec<Type<E>>>,
}

impl<E> EnumVariant<E> {
    /// The type of the constructor function for this variant, given the name
    /// of the enum type: the type itself for a field-less variant, a
    /// function from the field types otherwise.
    pub fn constructor_type(self, enum_name: SymbolPath) -> (r: Type<E>)
        ensures
            r == match self.fields {
                None => Type::<E>::NamedType(enum_name),
                Some(fields) => Type::<E>::Function(
                    FunctionType {
                        params: fields,
                        value: Box::new(Type::<E>::NamedType(enum_name)),
                    },
                ),
            },
    {
        match self.fields {
            None => Type::NamedType(enum_name),
            Some(fields) => Type::Function(
                FunctionType { params: fields, value: Box::new(Type::NamedType(enum_name)) },
            ),
        }
    }
}

/// The expressions contained in a type, in order: a function type yields
/// its parameter types' expressions then its value type's; an array type
/// yields its base type's expressions then its length, if any.
pub open spec fn spec_type_exprs(t: Type<Expression>) -> Seq<Expression>
    decreases t,
{
    match t {
        Type::NamedType(_) => Seq::empty(),
        Type::Function(f) => spec_types_exprs(f.params@) + spec_type_exprs(*f.value),
        Type::Array(a) => spec_type_exprs(*a.base) + (match a.length {
            Some(e) => seq![e],
            None => Seq::empty(),
        }),
    }
}

/// The expressions of a list of types, concatenated in order.
pub open spec fn spec_types_exprs(ts: Seq<Type<Expression>>) -> Seq<Expression>
    decreases ts,
{
    if ts.len() == 0 {
        Seq::empty()
    } else {
        spec_type_exprs(ts[0]) + spec_types_exprs(ts.drop_first())
    }
}

/// The expressions of a type scheme: those of its type.
pub open spec fn spec_scheme_exprs(ts: TypeScheme<Expression>) -> Seq<Expression> {
    spec_type_exprs(ts.ty)
}

/// The expressions of an enum variant: those of its field types, in order.
pub open spec fn spec_variant_exprs(v: EnumVariant<Expression>) -> Seq<Expression> {
    match v.fields {
        Some(fs) => spec_types_exprs(fs@),
        None => Seq::empty(),
    }
}

/// The expressions of an enum declaration: those of its variants, in order.
pub open spec fn spec_enum_exprs(variants: Seq<EnumVariant<Expression>>) -> Seq<Expression>
    decreases variants,
{
    if variants.len() == 0 {
        Seq::empty()
    } else {
        spec_variant_exprs(variants[0]) + spec_enum_exprs(variants.drop_first())
    }
}

/// Collects the expressions contained in a type, in order.
pub fn type_exprs<'a>(t: &'a Type<Expression>, out: &mut Vec<&'a Expression>)
    ensures
        final(out)@.len() == old(out)@.len() + spec_type_exprs(*t).len(),
        forall|k: int| 0 <= k < old(out)@.len() ==> final(out)@[k] == old(out)@[k],
        forall|k: int| 0 <= k < spec_type_exprs(*t).len() ==> *final(out)@[old(out)@.len() + k]
            == spec_type_exprs(*t)[k],
    decreases *t,
{
    match t {
        Type::NamedType(_) => {},
        Type::Function(f) => {
            let ghost base = out@;
            let mut i: usize = 0;
            while i < f.params.len()
                invariant
                    *t is Function && t->Function_0 == *f,
                    i <= f.params@.len(),
                    out@.len() == base.len() + spec_types_exprs(f.params@.take(i as int)).len(),
                    forall|k: int| 0 <= k < base.len() ==> out@[k] == base[k],
                    forall|k: int| 0 <= k < spec_types_exprs(f.params@.take(i as int)).len()
                        ==> *out@[base.len() + k] == spec_types_exprs(
                        f.params@.take(i as int),
                    )[k],
                decreases f.params@.len() - i,
            {
                proof {
                    assert(*t is Function && t->Function_0 == *f);
                    assert(decreases_to!(*t => t->Function_0));
                    assert(decreases_to!(*f => f.params));
                    vstd::std_specs::vec::axiom_vec_index_decreases(f.params, i as int);
                }
                type_exprs(&f.params[i], out);
                proof {
                    lemma_types_exprs_take_step(f.params@, i as int);
                }
                i += 1;
            }
            proof {
                assert(f.params@.take(f.params@.len() as int) =~= f.params@);
            }
            type_exprs(&f.value, out);
        },
        Type::Array(a) => {
            type_exprs(&a.base, out);
            match &a.length {
                Some(e) => {
                    out.push(e);
                },
                None => {},
            }
        },
    }
}

/// Taking one more type extends the concatenated expression list by that
/// type's expressions.
proof fn lemma_types_exprs_take_step(ts: Seq<Type<Expression>>, i: int)
    requires
        0 <= i < ts.len(),
    ensures
        spec_types_exprs(ts.take(i + 1)) =~= spec_types_exprs(ts.take(i)) + spec_type_exprs(
            ts[i],
        ),
    decreases i,
{
    if i == 0 {
        assert(ts.take(1)[0] == ts[0]);
        assert(ts.take(1).drop_first() =~= Seq::<Type<Expression>>::empty());
        assert(ts.take(0) =~= Seq::<Type<Expression>>::empty());
        assert(spec_types_exprs(ts.take(1)) == spec_type_exprs(ts[0]) + spec_types_exprs(
            Seq::empty(),
        ));
        assert(spec_type_exprs(ts[0]) + Seq::<Expression>::empty() =~= spec_type_exprs(ts[0]));
    } else {
        lemma_types_exprs_take_step(ts.drop_first(), i - 1);
        assert(ts.take(i + 1)[0] == ts[0]);
        assert(ts.take(i + 1).drop_first() =~= ts.drop_first().take(i));
        assert(ts.take(i).drop_first() =~= ts.drop_first().take(i - 1));
        assert(ts.take(i)[0] == ts[0]);
        assert(ts.drop_first()[i - 1] == ts[i]);
    }
}

/// A polynomial with an optional namespace.
#[derive(Debug, Clone, PartialEq, Eq)]
pub struct NamespacedPolynomialReference {
    pub path: SymbolPath,
}

impl NamespacedPolynomialReference {
    /// The reference to a single unqualified identifier.
    pub fn from_identifier(name: String) -> (r: Self)
        ensures
            r.path.parts@.len() == 1,
            r.path.parts@[0] == Part::Named(name),
    {
        let mut parts: Vec<Part> = Vec::new();
        parts.push(Part::Named(name));
        Self { path: SymbolPath::from_parts(parts) }
    }

    /// The single identifier of an unqualified reference.
    pub fn try_to_identifier(&self) -> (r: Option<&String>)
        ensures
            r matches Some(name) ==> (self.path.parts@.len() == 1 && self.path.parts@[0]
                == Part::Named(*name)),
            (self.path.parts@.len() == 1 && self.path.parts@[0] is Named) ==> r is Some,
    {
        self.path.try_to_identifier()
    }
}

/// The evaluation discipline of a lambda.
#[derive(Debug, Copy, Clone, PartialEq, Eq, Structural)]
pub enum FunctionKind {
    Pure,
    Constr,
    Query,
}

/// A prefix or postfix unary operator.
#[derive(Debug, Clone, Copy, PartialEq, Eq, Hash, Structural)]
pub enum UnaryOperator {
    Minus,
    LogicalNot,
    Next,
}

impl UnaryOperator {
    /// Whether the operator is written before its operand; the row-rotation
    /// operator is the one postfix operator.
    pub fn is_prefix(&self) -> (r: bool)
        ensures
            r == !(*self is Next),
    {
        match self {
            UnaryOperator::Minus | UnaryOperator::LogicalNot => true,
            UnaryOperator::Next => false,
        }
    }
}

/// The binary operators of parsed expressions.
#[derive(Debug, Clone, Copy, PartialEq, Eq, Hash, Structural)]
pub enum BinaryOperator {
    Add,
    Sub,
    Mul,
    Div,
    Mod,
    Pow,
    BinaryAnd,
    BinaryXor,
    BinaryOr,
    ShiftLeft,
    ShiftRight,
    LogicalOr,
    LogicalAnd,
    Less,
    LessEqual,
    Equal,
    Identity,
    NotEqual,
    GreaterEqual,
    Greater,
}

/// A parsed expression: a tagged variant tree over namespaced references.
#[derive(Debug, PartialEq, Eq)]
pub enum Expression {
    Reference(NamespacedPolynomialReference),
    PublicReference(String),
    Number(BigNum),
    String(String),
    Tuple(Vec<Expression>),
    LambdaExpression(LambdaExpression),
    ArrayLiteral(ArrayLiteral),
    BinaryOperation(Box<Expression>, BinaryOperator, Box<Expression>),
    UnaryOperation(UnaryOperator, Box<Expression>),
    IndexAccess(IndexAccess),
    FunctionCall(FunctionCall),
    FreeInput(Box<Expression>),
    MatchExpression(Box<Expression>, Vec<MatchArm>),
    IfExpression(IfExpression),
    BlockExpression(Vec<StatementInsideBlock>, Box<Expression>),
}

/// A lambda: its kind, parameters and body.
#[derive(Debug, PartialEq, Eq)]
pub struct LambdaExpression {
    pub kind: FunctionKind,
    pub params: Vec<String>,
    pub body: Box<Expression>,
}

/// An array literal.
#[derive(Debug, PartialEq, Eq)]
pub struct ArrayLiteral {
    pub items: Vec<Expression>,
}

/// An indexing expression.
#[derive(Debug, PartialEq, Eq)]
pub struct IndexAccess {
    pub array: Box<Expression>,
    pub index: Box<Expression>,
}

/// A function application.
#[derive(Debug, PartialEq, Eq)]
pub struct FunctionCall {
    pub function: Box<Expression>,
    pub arguments: Vec<Expression>,
}

/// One arm of a match expression.
#[derive(Debug, PartialEq, Eq)]
pub struct MatchArm {
    pub pattern: MatchPattern,
    pub value: Expression,
}

/// A pattern of a match arm.
#[derive(Debug, PartialEq, Eq)]
pub enum MatchPattern {
    CatchAll,
    Pattern(Expression),
}

/// A conditional expression.
#[derive(Debug, PartialEq, Eq)]
pub struct IfExpression {
    pub condition: Box<Expression>,
    pub body: Box<Expression>,
    pub else_body: Box<Expression>,
}

/// A statement inside a block expression.
#[derive(Debug, PartialEq, Eq)]
pub enum StatementInsideBlock {
    LetStatement(LetStatementInsideBlock),
    Expression(Expression),
}

/// A let binding inside a block expression.
#[derive(Debug, PartialEq, Eq)]
pub struct LetStatementInsideBlock {
    pub name: String,
    pub value: Option<Expression>,
}

impl Expression {
    /// The binary operation of two expressions.
    pub fn new_binary(left: Self, op: BinaryOperator, right: Self) -> (r: Self)
        ensures
            r == Expression::BinaryOperation(Box::new(left), op, Box::new(right)),
    {
        Expression::BinaryOperation(Box::new(left), op, Box::new(right))
    }
}

/// A copy of a symbol path with the same components.
fn dup_symbol_path(p: &SymbolPath) -> (r: SymbolPath)
    ensures
        r.parts@ == p.parts@,
{
    let mut parts: Vec<Part> = Vec::new();
    let mut i: usize = 0;
    while i < p.parts.len()
        invariant
            i <= p.parts@.len(),
            parts@.len() == i,
            forall|k: int| 0 <= k < i ==> parts@[k] == p.parts@[k],
        decreases p.parts@.len() - i,
    {
        match &p.parts[i] {
            Part::Named(name) => {
                parts.push(Part::Named(name.clone()));
            },
        }
        i += 1;
    }
    proof {
        assert(parts@ =~= p.parts@);
    }
    SymbolPath { parts }
}

/// A copy of a number literal with the same limbs.
fn dup_bignum(n: &BigNum) -> (r: BigNum)
    ensures
        r.limbs@ == n.limbs@,
{
    let mut limbs: Vec<u64> = Vec::new();
    let mut i: usize = 0;
    while i < n.limbs.len()
        invariant
            i <= n.limbs@.len(),
            limbs@.len() == i,
            forall|k: int| 0 <= k < i ==> limbs@[k] == n.limbs@[k],
        decreases n.limbs@.len() - i,
    {
        limbs.push(n.limbs[i]);
        i += 1;
    }
    proof {
        assert(limbs@ =~= n.limbs@);
    }
    BigNum { limbs }
}

/// Structural equivalence of expressions: equality up to the identity of the
/// heap containers (vectors and strings compare by contents).
pub open spec fn expr_equiv(a: Expression, b: Expression) -> bool
    decreases a,
{
    match (a, b) {
        (Expression::Reference(ra), Expression::Reference(rb)) => ra.path.parts@ == rb.path.parts@,
        (Expression::PublicReference(x), Expression::PublicReference(y)) => x == y,
        (Expression::Number(x), Expression::Number(y)) => x.limbs@ == y.limbs@,
        (Expression::String(x), Expression::String(y)) => x == y,
        (Expression::Tuple(va), Expression::Tuple(vb)) => va@.len() == vb@.len() && (forall|i: int|
            0 <= i < va@.len() ==> expr_equiv(#[trigger] va@[i], vb@[i])),
        (Expression::LambdaExpression(la), Expression::LambdaExpression(lb)) => la.kind == lb.kind
            && la.params@ == lb.params@ && expr_equiv(*la.body, *lb.body),
        (Expression::ArrayLiteral(aa), Expression::ArrayLiteral(ab)) => aa.items@.len()
            == ab.items@.len() && (forall|i: int|
            0 <= i < aa.items@.len() ==> expr_equiv(#[trigger] aa.items@[i], ab.items@[i])),
        (
            Expression::BinaryOperation(la, opa, ra),
            Expression::BinaryOperation(lb, opb, rb),
        ) => opa == opb && expr_equiv(*la, *lb) && expr_equiv(*ra, *rb),
        (Expression::UnaryOperation(opa, ia), Expression::UnaryOperation(opb, ib)) => opa == opb
            && expr_equiv(*ia, *ib),
        (Expression::IndexAccess(xa), Expression::IndexAccess(xb)) => expr_equiv(
            *xa.array,
            *xb.array,
        ) && expr_equiv(*xa.index, *xb.index),
        (Expression::FunctionCall(fa), Expression::FunctionCall(fb)) => expr_equiv(
            *fa.function,
            *fb.function,
        ) && fa.arguments@.len() == fb.arguments@.len() && (forall|i: int|
            0 <= i < fa.arguments@.len() ==> expr_equiv(
                #[trigger] fa.arguments@[i],
                fb.arguments@[i],
            )),
        (Expression::FreeInput(ia), Expression::FreeInput(ib)) => expr_equiv(*ia, *ib),
        (Expression::MatchExpression(sa, aa), Expression::MatchExpression(sb, ab)) => expr_equiv(
            *sa,
            *sb,
        ) && aa@.len() == ab@.len() && (forall|i: int|
            0 <= i < aa@.len() ==> {
                &&& match ((#[trigger] aa@[i]).pattern, ab@[i].pattern) {
                    (MatchPattern::CatchAll, MatchPattern::CatchAll) => true,
                    (MatchPattern::Pattern(pa), MatchPattern::Pattern(pb)) => expr_equiv(pa, pb),
                    _ => false,
                }
                &&& expr_equiv(aa@[i].value, ab@[i].value)
            }),
        (Expression::IfExpression(xa), Expression::IfExpression(xb)) => expr_equiv(
            *xa.condition,
            *xb.condition,
        ) && expr_equiv(*xa.body, *xb.body) && expr_equiv(*xa.else_body, *xb.else_body),
        (Expression::BlockExpression(sa, ea), Expression::BlockExpression(sb, eb)) => expr_equiv(
            *ea,
            *eb,
        ) && sa@.len() == sb@.len() && (forall|i: int|
            0 <= i < sa@.len() ==> match (#[trigger] sa@[i], sb@[i]) {
                (
                    StatementInsideBlock::LetStatement(la),
                    StatementInsideBlock::LetStatement(lb),
                ) => la.name == lb.name && match (la.value, lb.value) {
                    (None, None) => true,
                    (Some(va), Some(vb)) => expr_equiv(va, vb),
                    _ => false,
                },
                (
                    StatementInsideBlock::Expression(xa),
                    StatementInsideBlock::Expression(xb),
                ) => expr_equiv(xa, xb),
                _ => false,
            }),
        _ => false,
    }
}

/// Whether `sub` occurs inside a match arm's pattern or value.
pub open spec fn arm_contains(arm: MatchArm, sub: Expression) -> bool {
    match arm.pattern {
        MatchPattern::CatchAll => expr_contains(arm.value, sub),
        MatchPattern::Pattern(p) => expr_contains(p, sub) || expr_contains(arm.value, sub),
    }
}

/// Whether `sub` occurs inside a block statement.
pub open spec fn stmt_contains(st: StatementInsideBlock, sub: Expression) -> bool {
    match st {
        StatementInsideBlock::LetStatement(l) => match l.value {
            Some(v) => expr_contains(v, sub),
            None => false,
        },
        StatementInsideBlock::Expression(e2) => expr_contains(e2, sub),
    }
}

/// Whether `sub` is `e` itself or occurs anywhere inside it.
pub open spec fn expr_contains(e: Expression, sub: Expression) -> bool
    decreases e,
{
    e == sub || match e {
        Expression::Reference(_) => false,
        Expression::PublicReference(_) => false,
        Expression::Number(_) => false,
        Expression::String(_) => false,
        Expression::Tuple(v) => exists|i: int|
            0 <= i < v@.len() && expr_contains(#[trigger] v@[i], sub),
        Expression::LambdaExpression(l) => expr_contains(*l.body, sub),
        Expression::ArrayLiteral(a) => exists|i: int|
            0 <= i < a.items@.len() && expr_contains(#[trigger] a.items@[i], sub),
        Expression::BinaryOperation(l, _, r) => expr_contains(*l, sub) || expr_contains(*r, sub),
        Expression::UnaryOperation(_, inner) => expr_contains(*inner, sub),
        Expression::IndexAccess(ia) => expr_contains(*ia.array, sub) || expr_contains(
            *ia.index,
            sub,
        ),
        Expression::FunctionCall(fc) => expr_contains(*fc.function, sub) || exists|i: int|
            0 <= i < fc.arguments@.len() && expr_contains(#[trigger] fc.arguments@[i], sub),
        Expression::FreeInput(inner) => expr_contains(*inner, sub),
        Expression::MatchExpression(scr, arms) => expr_contains(*scr, sub) || exists|i: int|
            0 <= i < arms@.len() && match (#[trigger] arms@[i]).pattern {
                MatchPattern::CatchAll => expr_contains(arms@[i].value, sub),
                MatchPattern::Pattern(p) => expr_contains(p, sub) || expr_contains(
                    arms@[i].value,
                    sub,
                ),
            },
        Expression::IfExpression(ie) => expr_contains(*ie.condition, sub) || expr_contains(
            *ie.body,
            sub,
        ) || expr_contains(*ie.else_body, sub),
        Expression::BlockExpression(stmts, expr) => expr_contains(*expr, sub) || exists|i: int|
            0 <= i < stmts@.len() && match #[trigger] stmts@[i] {
                StatementInsideBlock::LetStatement(l) => match l.value {
                    Some(v) => expr_contains(v, sub),
                    None => false,
                },
                StatementInsideBlock::Expression(e2) => expr_contains(e2, sub),
            },
    }
}

impl Expression {
    /// A structurally equivalent copy.
    pub fn duplicate(&self) -> (r: Expression)
        ensures
            expr_equiv(r, *self),
        decreases *self,
    {
        match self {
            Expression::Reference(rf) => Expression::Reference(
                NamespacedPolynomialReference { path: dup_symbol_path(&rf.path) },
            ),
            Expression::PublicReference(name) => Expression::PublicReference(name.clone()),
            Expression::Number(n) => Expression::Number(dup_bignum(n)),
            Expression::String(sv) => Expression::String(sv.clone()),
            Expression::Tuple(v) => {
                let mut items: Vec<Expression> = Vec::new();
                let mut i: usize = 0;
                while i < v.len()
                    invariant
                        *self == Expression::Tuple(*v),
                        i <= v@.len(),
                        items@.len() == i,
                        forall|k: int| 0 <= k < i ==> expr_equiv(#[trigger] items@[k], v@[k]),
                    decreases v@.len() - i,
                {
                    proof {
                        assert(*self is Tuple && self->Tuple_0 == *v);
                        assert(decreases_to!(*self => self->Tuple_0));
                        vstd::std_specs::vec::axiom_vec_index_decreases(*v, i as int);
                        assert(decreases_to!(*self => v@[i as int]));
                    }
                    items.push(v[i].duplicate());
                    i += 1;
                }
                Expression::Tuple(items)
            },
            Expression::LambdaExpression(l) => {
                let mut params: Vec<String> = Vec::new();
                let mut i: usize = 0;
                while i < l.params.len()
                    invariant
                        *self == Expression::LambdaExpression(*l),
                        i <= l.params@.len(),
                        params@.len() == i,
                        forall|k: int| 0 <= k < i ==> params@[k] == l.params@[k],
                    decreases l.params@.len() - i,
                {
                    params.push(l.params[i].clone());
                    i += 1;
                }
                proof {
                    assert(params@ =~= l.params@);
                }
                Expression::LambdaExpression(
                    LambdaExpression {
                        kind: l.kind,
                        params,
                        body: Box::new(l.body.duplicate()),
                    },
                )
            },
            Expression::ArrayLiteral(a) => {
                let mut items: Vec<Expression> = Vec::new();
                let mut i: usize = 0;
                while i < a.items.len()
                    invariant
                        *self == Expression::ArrayLiteral(*a),
                        i <= a.items@.len(),
                        items@.len() == i,
                        forall|k: int| 0 <= k < i ==> expr_equiv(
                            #[trigger] items@[k],
                            a.items@[k],
                        ),
                    decreases a.items@.len() - i,
                {
                    proof {
                        assert(*self is ArrayLiteral && self->ArrayLiteral_0 == *a);
                        assert(decreases_to!(*self => self->ArrayLiteral_0));
                        assert(decreases_to!(*a => a.items));
                        vstd::std_specs::vec::axiom_vec_index_decreases(a.items, i as int);
                        assert(decreases_to!(*self => a.items@[i as int]));
                    }
                    items.push(a.items[i].duplicate());
                    i += 1;
                }
                Expression::ArrayLiteral(ArrayLiteral { items })
            },
            Expression::BinaryOperation(l, op, r) => Expression::BinaryOperation(
                Box::new(l.duplicate()),
                *op,
                Box::new(r.duplicate()),
            ),
            Expression::UnaryOperation(op, inner) => Expression::UnaryOperation(
                *op,
                Box::new(inner.duplicate()),
            ),
            Expression::IndexAccess(ia) => Expression::IndexAccess(
                IndexAccess {
                    array: Box::new(ia.array.duplicate()),
                    index: Box::new(ia.index.duplicate()),
                },
            ),
            Expression::FunctionCall(fc) => {
                let mut arguments: Vec<Expression> = Vec::new();
                let mut i: usize = 0;
                while i < fc.arguments.len()
                    invariant
                        *self == Expression::FunctionCall(*fc),
                        i <= fc.arguments@.len(),
                        arguments@.len() == i,
                        forall|k: int| 0 <= k < i ==> expr_equiv(
                            #[trigger] arguments@[k],
                            fc.arguments@[k],
                        ),
                    decreases fc.arguments@.len() - i,
                {
                    proof {
                        assert(*self is FunctionCall && self->FunctionCall_0 == *fc);
                        assert(decreases_to!(*self => self->FunctionCall_0));
                        assert(decreases_to!(*fc => fc.arguments));
                        vstd::std_specs::vec::axiom_vec_index_decreases(fc.arguments, i as int);
                        assert(decreases_to!(*self => fc.arguments@[i as int]));
                    }
                    arguments.push(fc.arguments[i].duplicate());
                    i += 1;
                }
                Expression::FunctionCall(
                    FunctionCall { function: Box::new(fc.function.duplicate()), arguments },
                )
            },
            Expression::FreeInput(inner) => Expression::FreeInput(Box::new(inner.duplicate())),
            Expression::MatchExpression(scr, arms) => {
                let mut new_arms: Vec<MatchArm> = Vec::new();
                let mut i: usize = 0;
                while i < arms.len()
                    invariant
                        *self == Expression::MatchExpression(*scr, *arms),
                        i <= arms@.len(),
                        new_arms@.len() == i,
                        forall|k: int| 0 <= k < i ==> {
                            &&& match ((#[trigger] new_arms@[k]).pattern, arms@[k].pattern) {
                                (MatchPattern::CatchAll, MatchPattern::CatchAll) => true,
                                (MatchPattern::Pattern(pa), MatchPattern::Pattern(pb)) => expr_equiv(
                                    pa,
                                    pb,
                                ),
                                _ => false,
                            }
                            &&& expr_equiv(new_arms@[k].value, arms@[k].value)
                        },
                    decreases arms@.len() - i,
                {
                    proof {
                        assert(*self is MatchExpression && self->MatchExpression_1 == *arms);
                        assert(decreases_to!(*self => self->MatchExpression_1));
                        vstd::std_specs::vec::axiom_vec_index_decreases(*arms, i as int);
                        assert(decreases_to!(arms@[i as int] => arms@[i as int].pattern));
                        assert(decreases_to!(arms@[i as int] => arms@[i as int].value));
                        assert(decreases_to!(*self => arms@[i as int].pattern));
                        assert(decreases_to!(*self => arms@[i as int].value));
                    }
                    let arm = &arms[i];
                    let pattern = match &arm.pattern {
                        MatchPattern::CatchAll => MatchPattern::CatchAll,
                        MatchPattern::Pattern(p) => {
                            proof {
                                assert(decreases_to!(arms@[i as int].pattern => *p));
                            }
                            MatchPattern::Pattern(p.duplicate())
                        },
                    };
                    new_arms.push(MatchArm { pattern, value: arm.value.duplicate() });
                    i += 1;
                }
                Expression::MatchExpression(Box::new(scr.duplicate()), new_arms)
            },
            Expression::IfExpression(ie) => Expression::IfExpression(
                IfExpression {
                    condition: Box::new(ie.condition.duplicate()),
                    body: Box::new(ie.body.duplicate()),
                    else_body: Box::new(ie.else_body.duplicate()),
                },
            ),
            Expression::BlockExpression(stmts, expr) => {
                let mut new_stmts: Vec<StatementInsideBlock> = Vec::new();
                let mut i: usize = 0;
                while i < stmts.len()
                    invariant
                        *self == Expression::BlockExpression(*stmts, *expr),
                        i <= stmts@.len(),
                        new_stmts@.len() == i,
                        forall|k: int| 0 <= k < i ==> match (#[trigger] new_stmts@[k], stmts@[k]) {
                            (
                                StatementInsideBlock::LetStatement(la),
                                StatementInsideBlock::LetStatement(lb),
                            ) => la.name == lb.name && match (la.value, lb.value) {
                                (None, None) => true,
                                (Some(va), Some(vb)) => expr_equiv(va, vb),
                                _ => false,
                            },
                            (
                                StatementInsideBlock::Expression(xa),
                                StatementInsideBlock::Expression(xb),
                            ) => expr_equiv(xa, xb),
                            _ => false,
                        },
                    decreases stmts@.len() - i,
                {
                    proof {
                        assert(*self is BlockExpression && self->BlockExpression_0 == *stmts);
                        assert(decreases_to!(*self => self->BlockExpression_0));
                        vstd::std_specs::vec::axiom_vec_index_decreases(*stmts, i as int);
                        assert(decreases_to!(*self => stmts@[i as int]));
                    }
                    let st = match &stmts[i] {
                        StatementInsideBlock::LetStatement(l) => StatementInsideBlock::LetStatement(
                            LetStatementInsideBlock {
                                name: l.name.clone(),
                                value: match &l.value {
                                    Some(v) => {
                                        proof {
                                            assert(decreases_to!(stmts@[i as int] => *l));
                                            assert(decreases_to!(*l => l.value));
                                            assert(decreases_to!(l.value => *v));
                                        }
                                        Some(v.duplicate())
                                    },
                                    None => None,
                                },
                            },
                        ),
                        StatementInsideBlock::Expression(e2) => StatementInsideBlock::Expression(
                            e2.duplicate(),
                        ),
                    };
                    new_stmts.push(st);
                    i += 1;
                }
                Expression::BlockExpression(new_stmts, Box::new(expr.duplicate()))
            },
        }
    }

    /// Visits this expression and all of its sub-expressions and returns
    /// true if `f` returns true on any of them: some contained expression was
    /// accepted. When it returns false, every contained expression was
    /// visited and rejected.
    pub fn any<F: Fn(&Expression) -> bool>(&self, f: &F) -> (r: bool)
        requires
            forall|x: &Expression| #[trigger] call_requires(*f, (x,)),
        ensures
            r ==> exists|x: &Expression|
                expr_contains(*self, *x) && call_ensures(*f, (x,), true),
            !r ==> forall|x: &Expression|
                expr_contains(*self, *x) ==> call_ensures(*f, (x,), false),
        decreases *self,
    {
        if f(self) {
            proof {
                assert(expr_contains(*self, *self));
            }
            return true;
        }
        let r = match self {
            Expression::Reference(_) | Expression::PublicReference(_) | Expression::Number(_)
                | Expression::String(_) => {
                proof {
                    assert forall|x: &Expression| expr_contains(*self, *x) implies call_ensures(
                        *f,
                        (x,),
                        false,
                    ) by {
                        assert(*x == *self);
                    }
                }
                false
            },
            Expression::Tuple(v) => {
                let mut found = false;
                let mut i: usize = 0;
                while i < v.len() && !found
                    invariant
                        forall|x: &Expression| #[trigger] call_requires(*f, (x,)),
                        *self == Expression::Tuple(*v),
                        i <= v@.len(),
                        found ==> exists|x: &Expression|
                            expr_contains(*self, *x) && call_ensures(*f, (x,), true),
                        !found ==> forall|x: &Expression, j: int|
                            0 <= j < i && #[trigger] expr_contains(v@[j], *x) ==> call_ensures(
                                *f,
                                (x,),
                                false,
                            ),
                    decreases v@.len() - i + if found {
                        0int
                    } else {
                        1int
                    },
                {
                    proof {
                        assert(*self is Tuple && self->Tuple_0 == *v);
                        assert(decreases_to!(*self => self->Tuple_0));
                        vstd::std_specs::vec::axiom_vec_index_decreases(*v, i as int);
                    }
                    if v[i].any(f) {
                        proof {
                            let x = choose|x: &Expression|
                                expr_contains(v@[i as int], *x) && call_ensures(*f, (x,), true);
                            assert(expr_contains(*self, *x));
                        }
                        found = true;
                    }
                    if !found {
                        i += 1;
                    }
                }
                proof {
                    if !found {
                        assert forall|x: &Expression| expr_contains(*self, *x)
                            implies call_ensures(*f, (x,), false) by {
                            if *x != *self {
                                let j = choose|j: int|
                                    0 <= j < v@.len() && expr_contains(#[trigger] v@[j], *x);
                                assert(expr_contains(v@[j], *x));
                            }
                        }
                    }
                }
                found
            },
            Expression::LambdaExpression(l) => {
                let r = l.body.any(f);
                proof {
                    if r {
                        let x = choose|x: &Expression|
                            expr_contains(*l.body, *x) && call_ensures(*f, (x,), true);
                        assert(expr_contains(*self, *x));
                    } else {
                        assert forall|x: &Expression| expr_contains(*self, *x)
                            implies call_ensures(*f, (x,), false) by {
                            if *x != *self {
                                assert(expr_contains(*l.body, *x));
                            }
                        }
                    }
                }
                r
            },
            Expression::ArrayLiteral(a) => {
                let mut found = false;
                let mut i: usize = 0;
                while i < a.items.len() && !found
                    invariant
                        forall|x: &Expression| #[trigger] call_requires(*f, (x,)),
                        *self == Expression::ArrayLiteral(*a),
                        i <= a.items@.len(),
                        found ==> exists|x: &Expression|
                            expr_contains(*self, *x) && call_ensures(*f, (x,), true),
                        !found ==> forall|x: &Expression, j: int|
                            0 <= j < i && #[trigger] expr_contains(a.items@[j], *x)
                                ==> call_ensures(*f, (x,), false),
                    decreases a.items@.len() - i + if found {
                        0int
                    } else {
                        1int
                    },
                {
                    proof {
                        assert(*self is ArrayLiteral && self->ArrayLiteral_0 == *a);
                        assert(decreases_to!(*self => self->ArrayLiteral_0));
                        assert(decreases_to!(*a => a.items));
                        vstd::std_specs::vec::axiom_vec_index_decreases(a.items, i as int);
                    }
                    if a.items[i].any(f) {
                        proof {
                            let x = choose|x: &Expression|
                                expr_contains(a.items@[i as int], *x) && call_ensures(
                                    *f,
                                    (x,),
                                    true,
                                );
                            assert(expr_contains(*self, *x));
                        }
                        found = true;
                    }
                    if !found {
                        i += 1;
                    }
                }
                proof {
                    if !found {
                        assert forall|x: &Expression| expr_contains(*self, *x)
                            implies call_ensures(*f, (x,), false) by {
                            if *x != *self {
                                let j = choose|j: int|
                                    0 <= j < a.items@.len() && expr_contains(
                                        #[trigger] a.items@[j],
                                        *x,
                                    );
                                assert(expr_contains(a.items@[j], *x));
                            }
                        }
                    }
                }
                found
            },
            Expression::BinaryOperation(l, _, rr) => {
                let rl = l.any(f);
                proof {
                    if rl {
                        let x = choose|x: &Expression|
                            expr_contains(**l, *x) && call_ensures(*f, (x,), true);
                        assert(expr_contains(*self, *x));
                    }
                }
                let r = rl || rr.any(f);
                proof {
                    if !rl && r {
                        let x = choose|x: &Expression|
                            expr_contains(**rr, *x) && call_ensures(*f, (x,), true);
                        assert(expr_contains(*self, *x));
                    }
                    if !r {
                        assert forall|x: &Expression| expr_contains(*self, *x)
                            implies call_ensures(*f, (x,), false) by {
                            if *x != *self {
                                assert(expr_contains(**l, *x) || expr_contains(**rr, *x));
                            }
                        }
                    }
                }
                r
            },
            Expression::UnaryOperation(_, inner) => {
                let r = inner.any(f);
                proof {
                    if r {
                        let x = choose|x: &Expression|
                            expr_contains(**inner, *x) && call_ensures(*f, (x,), true);
                        assert(expr_contains(*self, *x));
                    } else {
                        assert forall|x: &Expression| expr_contains(*self, *x)
                            implies call_ensures(*f, (x,), false) by {
                            if *x != *self {
                                assert(expr_contains(**inner, *x));
                            }
                        }
                    }
                }
                r
            },
            Expression::IndexAccess(ia) => {
                let ra = ia.array.any(f);
                proof {
                    if ra {
                        let x = choose|x: &Expression|
                            expr_contains(*ia.array, *x) && call_ensures(*f, (x,), true);
                        assert(expr_contains(*self, *x));
                    }
                }
                let r = ra || ia.index.any(f);
                proof {
                    if !ra && r {
                        let x = choose|x: &Expression|
                            expr_contains(*ia.index, *x) && call_ensures(*f, (x,), true);
                        assert(expr_contains(*self, *x));
                    }
                    if !r {
                        assert forall|x: &Expression| expr_contains(*self, *x)
                            implies call_ensures(*f, (x,), false) by {
                            if *x != *self {
                                assert(expr_contains(*ia.array, *x) || expr_contains(
                                    *ia.index,
                                    *x,
                                ));
                            }
                        }
                    }
                }
                r
            },
            Expression::FunctionCall(fc) => {
                let mut found = fc.function.any(f);
                proof {
                    if found {
                        let x = choose|x: &Expression|
                            expr_contains(*fc.function, *x) && call_ensures(*f, (x,), true);
                        assert(expr_contains(*self, *x));
                    }
                }
                let mut i: usize = 0;
                while i < fc.arguments.len() && !found
                    invariant
                        forall|x: &Expression| #[trigger] call_requires(*f, (x,)),
                        *self == Expression::FunctionCall(*fc),
                        i <= fc.arguments@.len(),
                        found ==> exists|x: &Expression|
                            expr_contains(*self, *x) && call_ensures(*f, (x,), true),
                        !found ==> forall|x: &Expression|
                            expr_contains(*fc.function, *x) ==> call_ensures(*f, (x,), false),
                        !found ==> forall|x: &Expression, j: int|
                            0 <= j < i && #[trigger] expr_contains(fc.arguments@[j], *x)
                                ==> call_ensures(*f, (x,), false),
                    decreases fc.arguments@.len() - i + if found {
                        0int
                    } else {
                        1int
                    },
                {
                    proof {
                        assert(*self is FunctionCall && self->FunctionCall_0 == *fc);
                        assert(decreases_to!(*self => self->FunctionCall_0));
                        assert(decreases_to!(*fc => fc.arguments));
                        vstd::std_specs::vec::axiom_vec_index_decreases(fc.arguments, i as int);
                    }
                    if fc.arguments[i].any(f) {
                        proof {
                            let x = choose|x: &Expression|
                                expr_contains(fc.arguments@[i as int], *x) && call_ensures(
                                    *f,
                                    (x,),
                                    true,
                                );
                            assert(expr_contains(*self, *x));
                        }
                        found = true;
                    }
                    if !found {
                        i += 1;
                    }
                }
                proof {
                    if !found {
                        assert forall|x: &Expression| expr_contains(*self, *x)
                            implies call_ensures(*f, (x,), false) by {
                            if *x != *self && !expr_contains(*fc.function, *x) {
                                let j = choose|j: int|
                                    0 <= j < fc.arguments@.len() && expr_contains(
                                        #[trigger] fc.arguments@[j],
                                        *x,
                                    );
                                assert(expr_contains(fc.arguments@[j], *x));
                            }
                        }
                    }
                }
                found
            },
            Expression::FreeInput(inner) => {
                let r = inner.any(f);
                proof {
                    if r {
                        let x = choose|x: &Expression|
                            expr_contains(**inner, *x) && call_ensures(*f, (x,), true);
                        assert(expr_contains(*self, *x));
                    } else {
                        assert forall|x: &Expression| expr_contains(*self, *x)
                            implies call_ensures(*f, (x,), false) by {
                            if *x != *self {
                                assert(expr_contains(**inner, *x));
                            }
                        }
                    }
                }
                r
            },
            Expression::MatchExpression(scr, arms) => {
                let mut found = scr.any(f);
                proof {
                    if found {
                        let x = choose|x: &Expression|
                            expr_contains(**scr, *x) && call_ensures(*f, (x,), true);
                        assert(expr_contains(*self, *x));
                    }
                }
                let mut i: usize = 0;
                while i < arms.len() && !found
                    invariant
                        forall|x: &Expression| #[trigger] call_requires(*f, (x,)),
                        *self == Expression::MatchExpression(*scr, *arms),
                        i <= arms@.len(),
                        found ==> exists|x: &Expression|
                            expr_contains(*self, *x) && call_ensures(*f, (x,), true),
                        !found ==> forall|x: &Expression|
                            expr_contains(**scr, *x) ==> call_ensures(*f, (x,), false),
                        !found ==> forall|x: &Expression, j: int|
                            0 <= j < i && #[trigger] arm_contains(arms@[j], *x) ==> call_ensures(
                                *f,
                                (x,),
                                false,
                            ),
                    decreases arms@.len() - i + if found {
                        0int
                    } else {
                        1int
                    },
                {
                    proof {
                        assert(*self is MatchExpression && self->MatchExpression_1 == *arms);
                        assert(decreases_to!(*self => self->MatchExpression_1));
                        vstd::std_specs::vec::axiom_vec_index_decreases(*arms, i as int);
                        assert(decreases_to!(arms@[i as int] => arms@[i as int].pattern));
                        assert(decreases_to!(arms@[i as int] => arms@[i as int].value));
                        assert(decreases_to!(*self => arms@[i as int].pattern));
                        assert(decreases_to!(*self => arms@[i as int].value));
                    }
                    let arm = &arms[i];
                    match &arm.pattern {
                        MatchPattern::CatchAll => {},
                        MatchPattern::Pattern(p) => {
                            proof {
                                assert(decreases_to!(arms@[i as int].pattern => *p));
                            }
                            if p.any(f) {
                                proof {
                                    let x = choose|x: &Expression|
                                        expr_contains(*p, *x) && call_ensures(*f, (x,), true);
                                    assert(expr_contains(*self, *x));
                                }
                                found = true;
                            }
                        },
                    }
                    if !found {
                        if arm.value.any(f) {
                            proof {
                                let x = choose|x: &Expression|
                                    expr_contains(arms@[i as int].value, *x) && call_ensures(
                                        *f,
                                        (x,),
                                        true,
                                    );
                                assert(expr_contains(*self, *x));
                            }
                            found = true;
                        }
                    }
                    if !found {
                        i += 1;
                    }
                }
                proof {
                    if !found {
                        assert forall|x: &Expression| expr_contains(*self, *x)
                            implies call_ensures(*f, (x,), false) by {
                            if *x != *self && !expr_contains(**scr, *x) {
                                let j = choose|j: int|
                                    0 <= j < arms@.len() && arm_contains(#[trigger] arms@[j], *x);
                                assert(arm_contains(arms@[j], *x));
                            }
                        }
                    }
                }
                found
            },
            Expression::IfExpression(ie) => {
                let rc = ie.condition.any(f);
                proof {
                    if rc {
                        let x = choose|x: &Expression|
                            expr_contains(*ie.condition, *x) && call_ensures(*f, (x,), true);
                        assert(expr_contains(*self, *x));
                    }
                }
                let rb = rc || ie.body.any(f);
                proof {
                    if !rc && rb {
                        let x = choose|x: &Expression|
                            expr_contains(*ie.body, *x) && call_ensures(*f, (x,), true);
                        assert(expr_contains(*self, *x));
                    }
                }
                let r = rb || ie.else_body.any(f);
                proof {
                    if !rb && r {
                        let x = choose|x: &Expression|
                            expr_contains(*ie.else_body, *x) && call_ensures(*f, (x,), true);
                        assert(expr_contains(*self, *x));
                    }
                    if !r {
                        assert forall|x: &Expression| expr_contains(*self, *x)
                            implies call_ensures(*f, (x,), false) by {
                            if *x != *self {
                                assert(expr_contains(*ie.condition, *x) || expr_contains(
                                    *ie.body,
                                    *x,
                                ) || expr_contains(*ie.else_body, *x));
                            }
                        }
                    }
                }
                r
            },
            Expression::BlockExpression(stmts, expr) => {
                let mut found = false;
                let mut i: usize = 0;
                while i < stmts.len() && !found
                    invariant
                        forall|x: &Expression| #[trigger] call_requires(*f, (x,)),
                        *self == Expression::BlockExpression(*stmts, *expr),
                        i <= stmts@.len(),
                        found ==> exists|x: &Expression|
                            expr_contains(*self, *x) && call_ensures(*f, (x,), true),
                        !found ==> forall|x: &Expression, j: int|
                            0 <= j < i && #[trigger] stmt_contains(stmts@[j], *x) ==> call_ensures(
                                *f,
                                (x,),
                                false,
                            ),
                    decreases stmts@.len() - i + if found {
                        0int
                    } else {
                        1int
                    },
                {
                    proof {
                        assert(*self is BlockExpression && self->BlockExpression_0 == *stmts);
                        assert(decreases_to!(*self => self->BlockExpression_0));
                        vstd::std_specs::vec::axiom_vec_index_decreases(*stmts, i as int);
                        assert(decreases_to!(*self => stmts@[i as int]));
                    }
                    match &stmts[i] {
                        StatementInsideBlock::LetStatement(l) => {
                            match &l.value {
                                Some(v) => {
                                    proof {
                                        assert(decreases_to!(stmts@[i as int] => *l));
                                        assert(decreases_to!(*l => l.value));
                                        assert(decreases_to!(l.value => *v));
                                    }
                                    if v.any(f) {
                                        proof {
                                            let x = choose|x: &Expression|
                                                expr_contains(*v, *x) && call_ensures(
                                                    *f,
                                                    (x,),
                                                    true,
                                                );
                                            assert(expr_contains(*self, *x));
                                        }
                                        found = true;
                                    }
                                },
                                None => {},
                            }
                        },
                        StatementInsideBlock::Expression(e2) => {
                            if e2.any(f) {
                                proof {
                                    let x = choose|x: &Expression|
                                        expr_contains(*e2, *x) && call_ensures(*f, (x,), true);
                                    assert(expr_contains(*self, *x));
                                }
                                found = true;
                            }
                        },
                    }
                    if !found {
                        i += 1;
                    }
                }
                let r = if found {
                    true
                } else {
                    let re = expr.any(f);
                    proof {
                        if re {
                            let x = choose|x: &Expression|
                                expr_contains(**expr, *x) && call_ensures(*f, (x,), true);
                            assert(expr_contains(*self, *x));
                        } else {
                            assert forall|x: &Expression| expr_contains(*self, *x)
                                implies call_ensures(*f, (x,), false) by {
                                if *x != *self && !expr_contains(**expr, *x) {
                                    let j = choose|j: int|
                                        0 <= j < stmts@.len() && stmt_contains(
                                            #[trigger] stmts@[j],
                                            *x,
                                        );
                                    assert(stmt_contains(stmts@[j], *x));
                                }
                            }
                        }
                    }
                    re
                };
                r
            },
        };
        r
    }

    /// The direct sub-expressions of this expression, in order. Every
    /// returned expression is contained in this one.
    pub fn children(&self) -> (r: Vec<&Expression>)
        ensures
            forall|k: int| 0 <= k < r@.len() ==> expr_contains(*self, *#[trigger] r@[k]),
            match self {
                Expression::Reference(_) | Expression::PublicReference(_) | Expression::Number(_)
                    | Expression::String(_) => r@.len() == 0,
                Expression::Tuple(v) => r@.len() == v@.len() && (forall|k: int|
                    0 <= k < v@.len() ==> *r@[k] == v@[k]),
                Expression::LambdaExpression(l) => r@.len() == 1 && *r@[0] == *l.body,
                Expression::ArrayLiteral(a) => r@.len() == a.items@.len() && (forall|k: int|
                    0 <= k < a.items@.len() ==> *r@[k] == a.items@[k]),
                Expression::BinaryOperation(l, _, rr) => r@.len() == 2 && *r@[0] == **l && *r@[1]
                    == **rr,
                Expression::UnaryOperation(_, inner) => r@.len() == 1 && *r@[0] == **inner,
                Expression::IndexAccess(ia) => r@.len() == 2 && *r@[0] == *ia.array && *r@[1]
                    == *ia.index,
                Expression::FunctionCall(fc) => r@.len() == 1 + fc.arguments@.len() && *r@[0]
                    == *fc.function && (forall|k: int|
                    0 <= k < fc.arguments@.len() ==> *r@[k + 1] == fc.arguments@[k]),
                Expression::FreeInput(inner) => r@.len() == 1 && *r@[0] == **inner,
                Expression::MatchExpression(scr, _) => r@.len() >= 1 && *r@[0] == **scr,
                Expression::IfExpression(ie) => r@.len() == 3 && *r@[0] == *ie.condition && *r@[1]
                    == *ie.body && *r@[2] == *ie.else_body,
                Expression::BlockExpression(_, expr) => r@.len() >= 1 && *r@[r@.len() - 1]
                    == **expr,
            },
    {
        let mut r: Vec<&Expression> = Vec::new();
        match self {
            Expression::Reference(_) | Expression::PublicReference(_) | Expression::Number(_)
                | Expression::String(_) => {},
            Expression::Tuple(v) => {
                let mut i: usize = 0;
                while i < v.len()
                    invariant
                        i <= v@.len(),
                        r@.len() == i,
                        forall|k: int| 0 <= k < i ==> *r@[k] == v@[k],
                    decreases v@.len() - i,
                {
                    r.push(&v[i]);
                    i += 1;
                }
                proof {
                    assert forall|k: int| 0 <= k < r@.len() implies expr_contains(
                        *self,
                        *#[trigger] r@[k],
                    ) by {
                        assert(expr_contains(v@[k], v@[k]));
                    }
                }
            },
            Expression::LambdaExpression(l) => {
                r.push(&l.body);
                proof {
                    assert(expr_contains(*l.body, *l.body));
                }
            },
            Expression::ArrayLiteral(a) => {
                let mut i: usize = 0;
                while i < a.items.len()
                    invariant
                        i <= a.items@.len(),
                        r@.len() == i,
                        forall|k: int| 0 <= k < i ==> *r@[k] == a.items@[k],
                    decreases a.items@.len() - i,
                {
                    r.push(&a.items[i]);
                    i += 1;
                }
                proof {
                    assert forall|k: int| 0 <= k < r@.len() implies expr_contains(
                        *self,
                        *#[trigger] r@[k],
                    ) by {
                        assert(expr_contains(a.items@[k], a.items@[k]));
                    }
                }
            },
            Expression::BinaryOperation(l, _, rr) => {
                r.push(l);
                r.push(rr);
                proof {
                    assert(expr_contains(**l, **l));
                    assert(expr_contains(**rr, **rr));
                }
            },
            Expression::UnaryOperation(_, inner) => {
                r.push(inner);
                proof {
                    assert(expr_contains(**inner, **inner));
                }
            },
            Expression::IndexAccess(ia) => {
                r.push(&ia.array);
                r.push(&ia.index);
                proof {
                    assert(expr_contains(*ia.array, *ia.array));
                    assert(expr_contains(*ia.index, *ia.index));
                }
            },
            Expression::FunctionCall(fc) => {
                r.push(&fc.function);
                let mut i: usize = 0;
                while i < fc.arguments.len()
                    invariant
                        i <= fc.arguments@.len(),
                        r@.len() == 1 + i,
                        *r@[0] == *fc.function,
                        forall|k: int| 0 <= k < i ==> *r@[k + 1] == fc.arguments@[k],
                    decreases fc.arguments@.len() - i,
                {
                    r.push(&fc.arguments[i]);
                    i += 1;
                }
                proof {
                    assert(expr_contains(*fc.function, *fc.function));
                    assert forall|k: int| 0 <= k < r@.len() implies expr_contains(
                        *self,
                        *#[trigger] r@[k],
                    ) by {
                        if k > 0 {
                            assert(*r@[k] == fc.arguments@[k - 1]);
                            assert(expr_contains(fc.arguments@[k - 1], fc.arguments@[k - 1]));
                        }
                    }
                }
            },
            Expression::FreeInput(inner) => {
                r.push(inner);
                proof {
                    assert(expr_contains(**inner, **inner));
                }
            },
            Expression::MatchExpression(scr, arms) => {
                r.push(scr);
                proof {
                    assert(expr_contains(**scr, **scr));
                }
                let mut i: usize = 0;
                while i < arms.len()
                    invariant
                        *self == Expression::MatchExpression(*scr, *arms),
                        i <= arms@.len(),
                        r@.len() >= 1,
                        *r@[0] == **scr,
                        forall|k: int| 0 <= k < r@.len() ==> expr_contains(
                            *self,
                            *#[trigger] r@[k],
                        ),
                    decreases arms@.len() - i,
                {
                    let arm = &arms[i];
                    match &arm.pattern {
                        MatchPattern::CatchAll => {},
                        MatchPattern::Pattern(p) => {
                            r.push(p);
                            proof {
                                assert(expr_contains(*self, *p)) by {
                                    assert(arms@[i as int].pattern == MatchPattern::Pattern(*p));
                                    assert(expr_contains(*p, *p));
                                }
                            }
                        },
                    }
                    r.push(&arm.value);
                    proof {
                        assert(expr_contains(*self, arms@[i as int].value)) by {
                            assert(expr_contains(arms@[i as int].value, arms@[i as int].value));
                            assert(match arms@[i as int].pattern {
                                MatchPattern::CatchAll => expr_contains(
                                    arms@[i as int].value,
                                    arms@[i as int].value,
                                ),
                                MatchPattern::Pattern(pp) => expr_contains(pp, pp) || expr_contains(
                                    arms@[i as int].value,
                                    arms@[i as int].value,
                                ),
                            });
                        }
                    }
                    i += 1;
                }
            },
            Expression::IfExpression(ie) => {
                r.push(&ie.condition);
                r.push(&ie.body);
                r.push(&ie.else_body);
                proof {
                    assert(expr_contains(*ie.condition, *ie.condition));
                    assert(expr_contains(*ie.body, *ie.body));
                    assert(expr_contains(*ie.else_body, *ie.else_body));
                }
            },
            Expression::BlockExpression(stmts, expr) => {
                let mut i: usize = 0;
                while i < stmts.len()
                    invariant
                        *self == Expression::BlockExpression(*stmts, *expr),
                        i <= stmts@.len(),
                        forall|k: int| 0 <= k < r@.len() ==> expr_contains(
                            *self,
                            *#[trigger] r@[k],
                        ),
                    decreases stmts@.len() - i,
                {
                    match &stmts[i] {
                        StatementInsideBlock::LetStatement(l) => {
                            match &l.value {
                                Some(v) => {
                                    r.push(v);
                                    proof {
                                        assert(expr_contains(*self, *v)) by {
                                            assert(stmts@[i as int]
                                                == StatementInsideBlock::LetStatement(*l));
                                            assert(l.value == Some(*v));
                                            assert(expr_contains(*v, *v));
                                        }
                                    }
                                },
                                None => {},
                            }
                        },
                        StatementInsideBlock::Expression(e2) => {
                            r.push(e2);
                            proof {
                                assert(expr_contains(*self, *e2)) by {
                                    assert(stmts@[i as int] == StatementInsideBlock::Expression(
                                        *e2,
                                    ));
                                    assert(expr_contains(*e2, *e2));
                                }
                            }
                        },
                    }
                    i += 1;
                }
                r.push(expr);
                proof {
                    assert(expr_contains(**expr, **expr));
                }
            },
        }
        r
    }
}

impl LambdaExpression {
    /// The lambda's one sub-expression: its body.
    pub fn children(&self) -> (r: Vec<&Expression>)
        ensures
            r@.len() == 1,
            *r@[0] == *self.body,
    {
        let mut r: Vec<&Expression> = Vec::new();
        r.push(&self.body);
        r
    }
}

impl ArrayLiteral {
    /// The literal's items, in order.
    pub fn children(&self) -> (r: Vec<&Expression>)
        ensures
            r@.len() == self.items@.len(),
            forall|k: int| 0 <= k < r@.len() ==> *r@[k] == self.items@[k],
    {
        let mut r: Vec<&Expression> = Vec::new();
        let mut i: usize = 0;
        while i < self.items.len()
            invariant
                i <= self.items@.len(),
                r@.len() == i,
                forall|k: int| 0 <= k < i ==> *r@[k] == self.items@[k],
            decreases self.items@.len() - i,
        {
            r.push(&self.items[i]);
            i += 1;
        }
        r
    }
}

impl IndexAccess {
    /// The indexed array followed by the index.
    pub fn children(&self) -> (r: Vec<&Expression>)
        ensures
            r@.len() == 2,
            *r@[0] == *self.array,
            *r@[1] == *self.index,
    {
        let mut r: Vec<&Expression> = Vec::new();
        r.push(&self.array);
        r.push(&self.index);
        r
    }
}

impl FunctionCall {
    /// The applied function followed by the arguments.
    pub fn children(&self) -> (r: Vec<&Expression>)
        ensures
            r@.len() == 1 + self.arguments@.len(),
            *r@[0] == *self.function,
            forall|k: int| 0 <= k < self.arguments@.len() ==> *r@[k + 1] == self.arguments@[k],
    {
        let mut r: Vec<&Expression> = Vec::new();
        r.push(&self.function);
        let mut i: usize = 0;
        while i < self.arguments.len()
            invariant
                i <= self.arguments@.len(),
                r@.len() == 1 + i,
                *r@[0] == *self.function,
                forall|k: int| 0 <= k < i ==> *r@[k + 1] == self.arguments@[k],
            decreases self.arguments@.len() - i,
        {
            r.push(&self.arguments[i]);
            i += 1;
        }
        r
    }
}

impl MatchPattern {
    /// The pattern's expression, if it has one.
    pub fn children(&self) -> (r: Vec<&Expression>)
        ensures
            match self {
                MatchPattern::CatchAll => r@.len() == 0,
                MatchPattern::Pattern(e) => r@.len() == 1 && *r@[0] == *e,
            },
    {
        let mut r: Vec<&Expression> = Vec::new();
        match self {
            MatchPattern::CatchAll => {},
            MatchPattern::Pattern(e) => {
                r.push(e);
            },
        }
        r
    }
}

impl MatchArm {
    /// The pattern's expressions followed by the arm's value.
    pub fn children(&self) -> (r: Vec<&Expression>)
        ensures
            match self.pattern {
                MatchPattern::CatchAll => r@.len() == 1 && *r@[0] == self.value,
                MatchPattern::Pattern(p) => r@.len() == 2 && *r@[0] == p && *r@[1] == self.value,
            },
    {
        let mut r: Vec<&Expression> = Vec::new();
        match &self.pattern {
            MatchPattern::CatchAll => {},
            MatchPattern::Pattern(p) => {
                r.push(p);
            },
        }
        r.push(&self.value);
        r
    }
}

impl IfExpression {
    /// The condition, the then-branch and the else-branch.
    pub fn children(&self) -> (r: Vec<&Expression>)
        ensures
            r@.len() == 3,
            *r@[0] == *self.condition,
            *r@[1] == *self.body,
            *r@[2] == *self.else_body,
    {
        let mut r: Vec<&Expression> = Vec::new();
        r.push(&self.condition);
        r.push(&self.body);
        r.push(&self.else_body);
        r
    }
}

impl LetStatementInsideBlock {
    /// The bound value, if any.
    pub fn children(&self) -> (r: Vec<&Expression>)
        ensures
            match self.value {
                Some(v) => r@.len() == 1 && *r@[0] == v,
                None => r@.len() == 0,
            },
    {
        let mut r: Vec<&Expression> = Vec::new();
        match &self.value {
            Some(v) => {
                r.push(v);
            },
            None => {},
        }
        r
    }
}

impl StatementInsideBlock {
    /// The statement's expressions.
    pub fn children(&self) -> (r: Vec<&Expression>)
        ensures
            match self {
                StatementInsideBlock::LetStatement(l) => match l.value {
                    Some(v) => r@.len() == 1 && *r@[0] == v,
                    None => r@.len() == 0,
                },
                StatementInsideBlock::Expression(e) => r@.len() == 1 && *r@[0] == *e,
            },
    {
        match self {
            StatementInsideBlock::LetStatement(l) => l.children(),
            StatementInsideBlock::Expression(e) => {
                let mut r: Vec<&Expression> = Vec::new();
                r.push(e);
                r
            },
        }
    }
}

impl EnumDeclaration<Expression> {
    /// The expressions inside the variants' field types, in declaration
    /// order.
    pub fn children(&self) -> (r: Vec<&Expression>)
        ensures
            r@.len() == spec_enum_exprs(self.variants@).len(),
            forall|k: int| 0 <= k < r@.len() ==> *r@[k] == spec_enum_exprs(self.variants@)[k],
    {
        let mut r: Vec<&Expression> = Vec::new();
        let mut i: usize = 0;
        while i < self.variants.len()
            invariant
                i <= self.variants@.len(),
                r@.len() == spec_enum_exprs(self.variants@.take(i as int)).len(),
                forall|k: int| 0 <= k < r@.len() ==> *r@[k] == spec_enum_exprs(
                    self.variants@.take(i as int),
                )[k],
            decreases self.variants@.len() - i,
        {
            let v = &self.variants[i];
            let ghost base = r@;
            match &v.fields {
                Some(fs) => {
                    let mut j: usize = 0;
                    while j < fs.len()
                        invariant
                            i < self.variants@.len(),
                            *v == self.variants@[i as int],
                            v.fields == Some(*fs),
                            j <= fs@.len(),
                            r@.len() == base.len() + spec_types_exprs(
                                fs@.take(j as int),
                            ).len(),
                            forall|k: int| 0 <= k < base.len() ==> r@[k] == base[k],
                            forall|k: int| 0 <= k < spec_types_exprs(fs@.take(j as int)).len()
                                ==> *r@[base.len() + k] == spec_types_exprs(
                                fs@.take(j as int),
                            )[k],
                        decreases fs@.len() - j,
                    {
                        type_exprs(&fs[j], &mut r);
                        proof {
                            lemma_types_exprs_take_step(fs@, j as int);
                        }
                        j += 1;
                    }
                    proof {
                        assert(fs@.take(fs@.len() as int) =~= fs@);
                        assert(spec_variant_exprs(self.variants@[i as int]) == spec_types_exprs(
                            fs@,
                        ));
                    }
                },
                None => {
                    proof {
                        assert(spec_variant_exprs(self.variants@[i as int]) =~= Seq::empty());
                    }
                },
            }
            proof {
                lemma_enum_exprs_take_step(self.variants@, i as int);
                let prev = spec_enum_exprs(self.variants@.take(i as int));
                let cur = spec_enum_exprs(self.variants@.take(i + 1));
                let ve = spec_variant_exprs(self.variants@[i as int]);
                assert(cur =~= prev + ve);
                assert(base.len() == prev.len());
                assert(r@.len() == cur.len());
                assert forall|k: int| 0 <= k < r@.len() implies *r@[k] == cur[k] by {
                    if k < prev.len() {
                        assert(r@[k] == base[k]);
                        assert(cur[k] == prev[k]);
                    } else {
                        assert(*r@[base.len() + (k - prev.len())] == ve[k - prev.len()]);
                        assert(cur[k] == ve[k - prev.len()]);
                    }
                }
            }
            i += 1;
        }
        proof {
            assert(self.variants@.take(self.variants@.len() as int) =~= self.variants@);
        }
        r
    }
}

/// Taking one more variant extends the concatenated expression list by that
/// variant's expressions.
proof fn lemma_enum_exprs_take_step(vs: Seq<EnumVariant<Expression>>, i: int)
    requires
        0 <= i < vs.len(),
    ensures
        spec_enum_exprs(vs.take(i + 1)) =~= spec_enum_exprs(vs.take(i)) + spec_variant_exprs(
            vs[i],
        ),
    decreases i,
{
    if i == 0 {
        assert(vs.take(1)[0] == vs[0]);
        assert(vs.take(1).drop_first() =~= Seq::<EnumVariant<Expression>>::empty());
        assert(vs.take(0) =~= Seq::<EnumVariant<Expression>>::empty());
        assert(spec_enum_exprs(vs.take(1)) == spec_variant_exprs(vs[0]) + spec_enum_exprs(
            Seq::empty(),
        ));
        assert(spec_variant_exprs(vs[0]) + Seq::<Expression>::empty() =~= spec_variant_exprs(
            vs[0],
        ));
    } else {
        lemma_enum_exprs_take_step(vs.drop_first(), i - 1);
        assert(vs.take(i + 1)[0] == vs[0]);
        assert(vs.take(i + 1).drop_first() =~= vs.drop_first().take(i));
        assert(vs.take(i).drop_first() =~= vs.drop_first().take(i - 1));
        assert(vs.take(i)[0] == vs[0]);
        assert(vs.drop_first()[i - 1] == vs[i]);
    }
}

impl EnumVariant<Expression> {
    /// The expressions inside this variant's field types, in order.
    pub fn children(&self) -> (r: Vec<&Expression>)
        ensures
            r@.len() == spec_variant_exprs(*self).len(),
            forall|k: int| 0 <= k < r@.len() ==> *r@[k] == spec_variant_exprs(*self)[k],
    {
        let mut r: Vec<&Expression> = Vec::new();
        match &self.fields {
            Some(fs) => {
                let mut j: usize = 0;
                while j < fs.len()
                    invariant
                        self.fields == Some(*fs),
                        j <= fs@.len(),
                        r@.len() == spec_types_exprs(fs@.take(j as int)).len(),
                        forall|k: int| 0 <= k < spec_types_exprs(fs@.take(j as int)).len()
                            ==> *r@[k] == spec_types_exprs(fs@.take(j as int))[k],
                    decreases fs@.len() - j,
                {
                    type_exprs(&fs[j], &mut r);
                    proof {
                        lemma_types_exprs_take_step(fs@, j as int);
                    }
                    j += 1;
                }
                proof {
                    assert(fs@.take(fs@.len() as int) =~= fs@);
                }
            },
            None => {},
        }
        r
    }
}

/// The definition of a function (excluding its name).
#[derive(Debug, PartialEq, Eq)]
pub enum FunctionDefinition {
    /// An array expression.
    Array(ArrayExpression),
    /// A prover query, usually a lambda expression.
    Query(Expression),
    /// A generic expression.
    Expression(Expression),
    /// A type declaration.
    TypeDeclaration(EnumDeclaration<Expression>),
}

impl FunctionDefinition {
    /// The definition's top-level expressions. A type declaration is treated
    /// as having no children, pending an upstream decision on traversing the
    /// expressions inside its field types.
    pub open spec fn spec_exprs(self) -> Seq<Expression> {
        match self {
            FunctionDefinition::Array(ae) => ae.spec_exprs(),
            FunctionDefinition::Query(e) | FunctionDefinition::Expression(e) => seq![e],
            FunctionDefinition::TypeDeclaration(_) => Seq::empty(),
        }
    }

    /// The definition's top-level expressions, as a vector.
    pub fn children(&self) -> (r: Vec<&Expression>)
        ensures
            r@.len() == self.spec_exprs().len(),
            forall|k: int| 0 <= k < r@.len() ==> *r@[k] == self.spec_exprs()[k],
    {
        match self {
            FunctionDefinition::Array(ae) => ae.children(),
            FunctionDefinition::Query(e) | FunctionDefinition::Expression(e) => {
                let mut r: Vec<&Expression> = Vec::new();
                r.push(e);
                r
            },
            FunctionDefinition::TypeDeclaration(_) => Vec::new(),
        }
    }
}

/// A fixed-column definition's right-hand side: explicit values, a repeated
/// tail, or a concatenation of both.
#[derive(Debug, PartialEq, Eq)]
pub enum ArrayExpression {
    Value(Vec<Expression>),
    RepeatedValue(Vec<Expression>),
    Concat(Box<ArrayExpression>, Box<ArrayExpression>),
}

impl ArrayExpression {
    /// An explicit value list.
    pub fn value(v: Vec<Expression>) -> (r: Self)
        ensures
            r == ArrayExpression::Value(v),
    {
        Self::Value(v)
    }

    /// A repeated value list.
    pub fn repeated_value(v: Vec<Expression>) -> (r: Self)
        ensures
            r == ArrayExpression::RepeatedValue(v),
    {
        Self::RepeatedValue(v)
    }

    /// The concatenation of two array expressions.
    pub fn concat(self, other: Self) -> (r: Self)
        ensures
            r == ArrayExpression::Concat(Box::new(self), Box::new(other)),
    {
        Self::Concat(Box::new(self), Box::new(other))
    }

    /// Pads with a repetition of the given expression.
    fn pad_with(self, pad: Expression) -> (r: Self)
        ensures
            r matches ArrayExpression::Concat(l, rr) && (*l == self && ((*rr)
                matches ArrayExpression::RepeatedValue(v) && (v@.len() == 1 && v@[0] == pad))),
    {
        let mut tail: Vec<Expression> = Vec::new();
        tail.push(pad);
        self.concat(Self::RepeatedValue(tail))
    }

    /// Pads with a repetition of the zero literal.
    pub fn pad_with_zeroes(self) -> (r: Self)
        ensures
            r matches ArrayExpression::Concat(l, rr) && (*l == self && ((*rr)
                matches ArrayExpression::RepeatedValue(v) && (v@.len() == 1 && (v@[0]
                matches Expression::Number(n) && n.spec_value() == 0)))),
    {
        self.pad_with(Expression::Number(BigNum::from_u64(0)))
    }

    /// The last expression of the array expression, at the spec level.
    pub open spec fn spec_last(self) -> Option<Expression>
        decreases self,
    {
        match self {
            ArrayExpression::Value(v) | ArrayExpression::RepeatedValue(v) => if v@.len() > 0 {
                Some(v@[v@.len() - 1])
            } else {
                None
            },
            ArrayExpression::Concat(_, right) => right.spec_last(),
        }
    }

    /// The last expression of the rightmost part, if any.
    fn last(&self) -> (r: Option<&Expression>)
        ensures
            match r {
                Some(e) => self.spec_last() == Some(*e),
                None => self.spec_last() is None,
            },
        decreases *self,
    {
        match self {
            ArrayExpression::Value(v) | ArrayExpression::RepeatedValue(v) => {
                if v.len() > 0 {
                    Some(&v[v.len() - 1])
                } else {
                    None
                }
            },
            ArrayExpression::Concat(_, right) => right.last(),
        }
    }

    /// Pads with a repetition of the last expression, or nothing if the
    /// array expression is empty.
    pub fn pad_with_last(self) -> (r: Option<Self>)
        ensures
            r is None <==> self.spec_last() is None,
            r matches Some(padded) ==> (padded matches ArrayExpression::Concat(l, rr) && (*l
                == self && ((*rr) matches ArrayExpression::RepeatedValue(v) && (v@.len() == 1
                && expr_equiv(v@[0], self.spec_last()->0))))),
    {
        let pad = match self.last() {
            Some(l) => l.duplicate(),
            None => {
                return None;
            },
        };
        Some(self.pad_with(pad))
    }

    /// The number of `*` repetitions, counted up to two: more than one is
    /// already invalid.
    pub open spec fn spec_repetitions(self) -> int
        decreases self,
    {
        match self {
            ArrayExpression::RepeatedValue(_) => 1,
            ArrayExpression::Value(_) => 0,
            ArrayExpression::Concat(l, r) => l.spec_repetitions() + r.spec_repetitions(),
        }
    }

    /// The combined length of the constant-size parts.
    pub open spec fn spec_constant_length(self) -> int
        decreases self,
    {
        match self {
            ArrayExpression::RepeatedValue(_) => 0,
            ArrayExpression::Value(v) => v@.len() as int,
            ArrayExpression::Concat(l, r) => l.spec_constant_length() + r.spec_constant_length(),
        }
    }

    /// The number of times the `*` operator is used, saturated at two.
    fn number_of_repetitions(&self) -> (r: u64)
        ensures
            r == if self.spec_repetitions() <= 2 {
                self.spec_repetitions()
            } else {
                2int
            },
        decreases *self,
    {
        proof {
            lemma_repetitions_nonneg(*self);
        }
        match self {
            ArrayExpression::RepeatedValue(_) => 1,
            ArrayExpression::Value(_) => 0,
            ArrayExpression::Concat(l, r) => {
                proof {
                    lemma_repetitions_nonneg(**l);
                    lemma_repetitions_nonneg(**r);
                }
                let a = l.number_of_repetitions();
                let b = r.number_of_repetitions();
                if a + b <= 2 {
                    a + b
                } else {
                    2
                }
            },
        }
    }

    /// The combined length of the constant-size parts.
    fn constant_length(&self) -> (r: u64)
        requires
            self.spec_constant_length() <= u64::MAX,
        ensures
            r == self.spec_constant_length(),
        decreases *self,
    {
        match self {
            ArrayExpression::RepeatedValue(_) => 0,
            ArrayExpression::Value(v) => v.len() as u64,
            ArrayExpression::Concat(l, r) => {
                proof {
                    lemma_constant_length_nonneg(**l);
                    lemma_constant_length_nonneg(**r);
                }
                l.constant_length() + r.constant_length()
            },
        }
    }

    /// Solves for `*`: how many rows the repeated part must fill so that the
    /// whole expression covers `degree` rows. At most one `*` may be used
    /// and the constant parts must fit the degree.
    pub fn solve(&self, degree: u64) -> (r: u64)
        requires
            self.spec_repetitions() <= 1,
            self.spec_constant_length() <= degree,
        ensures
            r == degree - self.spec_constant_length(),
    {
        let reps = self.number_of_repetitions();
        assert(reps <= 1);
        proof {
            lemma_constant_length_nonneg(*self);
        }
        let len = self.constant_length();
        // Fill up the remaining space with the repeated part.
        degree - len
    }

    /// The expressions of every part, left to right.
    pub open spec fn spec_exprs(self) -> Seq<Expression>
        decreases self,
    {
        match self {
            ArrayExpression::Value(v) | ArrayExpression::RepeatedValue(v) => v@,
            ArrayExpression::Concat(l, r) => l.spec_exprs() + r.spec_exprs(),
        }
    }

    /// The expressions of every part, left to right.
    pub fn children(&self) -> (r: Vec<&Expression>)
        ensures
            r@.len() == self.spec_exprs().len(),
            forall|k: int| 0 <= k < r@.len() ==> *r@[k] == self.spec_exprs()[k],
        decreases *self,
    {
        match self {
            ArrayExpression::Value(v) | ArrayExpression::RepeatedValue(v) => {
                let mut r: Vec<&Expression> = Vec::new();
                let mut i: usize = 0;
                while i < v.len()
                    invariant
                        i <= v@.len(),
                        r@.len() == i,
                        forall|k: int| 0 <= k < i ==> *r@[k] == v@[k],
                    decreases v@.len() - i,
                {
                    r.push(&v[i]);
                    i += 1;
                }
                r
            },
            ArrayExpression::Concat(l, rr) => {
                let mut r = l.children();
                let rest = rr.children();
                let ghost lexprs = l.spec_exprs();
                let ghost rexprs = rr.spec_exprs();
                let mut i: usize = 0;
                while i < rest.len()
                    invariant
                        *self is Concat,
                        lexprs == self->Concat_0.spec_exprs(),
                        rexprs == self->Concat_1.spec_exprs(),
                        rest@.len() == rexprs.len(),
                        forall|k: int| 0 <= k < rest@.len() ==> *rest@[k] == rexprs[k],
                        i <= rest@.len(),
                        r@.len() == lexprs.len() + i,
                        forall|k: int| 0 <= k < lexprs.len() ==> *r@[k] == lexprs[k],
                        forall|k: int| 0 <= k < i ==> *r@[lexprs.len() + k] == rexprs[k],
                    decreases rest@.len() - i,
                {
                    r.push(rest[i]);
                    i += 1;
                }
                proof {
                    assert forall|k: int| 0 <= k < r@.len() implies *r@[k]
                        == self.spec_exprs()[k] by {
                        assert(self.spec_exprs() == lexprs + rexprs);
                    }
                }
                r
            },
        }
    }
}

/// Repetition counts are never negative.
proof fn lemma_repetitions_nonneg(a: ArrayExpression)
    ensures
        a.spec_repetitions() >= 0,
    decreases a,
{
    match a {
        ArrayExpression::Concat(l, r) => {
            lemma_repetitions_nonneg(*l);
            lemma_repetitions_nonneg(*r);
        },
        _ => {},
    }
}

/// Constant lengths are never negative.
proof fn lemma_constant_length_nonneg(a: ArrayExpression)
    ensures
        a.spec_constant_length() >= 0,
    decreases a,
{
    match a {
        ArrayExpression::Concat(l, r) => {
            lemma_constant_length_nonneg(*l);
            lemma_constant_length_nonneg(*r);
        },
        _ => {},
    }
}

/// A source location attached to a statement.
#[derive(Debug, Clone, Copy, PartialEq, Eq, Structural)]
pub struct SourceRef {
    pub start: u64,
    pub end: u64,
}

/// A named polynomial declaration, with an optional array size.
#[derive(Debug, PartialEq, Eq)]
pub struct PolynomialName {
    pub name: String,
    pub array_size: Option<Expression>,
}

/// An expression paired with an optional type scheme.
#[derive(Debug, PartialEq, Eq)]
pub struct TypedExpression {
    pub e: Expression,
    pub type_scheme: Option<TypeScheme<Expression>>,
}

/// One top-level statement of a PIL source file.
#[derive(Debug, PartialEq, Eq)]
pub enum PilStatement {
    /// The name of an included file.
    Include(SourceRef, String),
    /// The name of a namespace and its polynomial degree.
    Namespace(SourceRef, SymbolPath, Expression),
    LetStatement(SourceRef, String, Option<TypeScheme<Expression>>, Option<Expression>),
    PolynomialDefinition(SourceRef, String, Expression),
    /// A public value: its name, the column holding it, an optional array
    /// element index, and the row number.
    PublicDeclaration(
        SourceRef,
        String,
        NamespacedPolynomialReference,
        Option<Expression>,
        Expression,
    ),
    PolynomialConstantDeclaration(SourceRef, Vec<PolynomialName>),
    PolynomialConstantDefinition(SourceRef, String, FunctionDefinition),
    /// Committed columns: stage, names, and an optional prover query.
    PolynomialCommitDeclaration(SourceRef, Option<u32>, Vec<PolynomialName>, Option<
        FunctionDefinition,
    >),
    PlookupIdentity(
        SourceRef,
        SelectedExpressions<Expression>,
        SelectedExpressions<Expression>,
    ),
    PermutationIdentity(
        SourceRef,
        SelectedExpressions<Expression>,
        SelectedExpressions<Expression>,
    ),
    ConnectIdentity(SourceRef, Vec<Expression>, Vec<Expression>),
    ConstantDefinition(SourceRef, String, Expression),
    EnumDeclaration(SourceRef, EnumDeclaration<Expression>),
    Expression(SourceRef, Expression),
}

impl PilStatement {
    /// If the statement is a symbol definition, all (local) names of defined
    /// symbols, without nested definitions. The boolean says whether the name
    /// is a type definition rather than a value definition.
    pub fn symbol_definition_names(&self) -> (r: Vec<(&String, bool)>)
        ensures
            match self {
                PilStatement::PolynomialDefinition(_, name, _)
                    | PilStatement::PolynomialConstantDefinition(_, name, _)
                    | PilStatement::ConstantDefinition(_, name, _)
                    | PilStatement::PublicDeclaration(_, name, _, _, _)
                    | PilStatement::LetStatement(_, name, _, _) => r@.len() == 1 && *r@[0].0 == name
                    && !r@[0].1,
                PilStatement::EnumDeclaration(_, decl) => r@.len() == 1 && *r@[0].0 == decl.name
                    && r@[0].1,
                PilStatement::PolynomialConstantDeclaration(_, polynomials)
                    | PilStatement::PolynomialCommitDeclaration(_, _, polynomials, _) => r@.len()
                    == polynomials@.len() && (forall|k: int|
                    0 <= k < r@.len() ==> (*(#[trigger] r@[k]).0 == polynomials@[k].name
                        && !r@[k].1)),
                _ => r@.len() == 0,
            },
    {
        let mut r: Vec<(&String, bool)> = Vec::new();
        match self {
            PilStatement::PolynomialDefinition(_, name, _)
                | PilStatement::PolynomialConstantDefinition(_, name, _)
                | PilStatement::ConstantDefinition(_, name, _)
                | PilStatement::PublicDeclaration(_, name, _, _, _)
                | PilStatement::LetStatement(_, name, _, _) => {
                r.push((name, false));
            },
            PilStatement::EnumDeclaration(_, decl) => {
                r.push((&decl.name, true));
            },
            PilStatement::PolynomialConstantDeclaration(_, polynomials)
                | PilStatement::PolynomialCommitDeclaration(_, _, polynomials, _) => {
                let mut i: usize = 0;
                while i < polynomials.len()
                    invariant
                        i <= polynomials@.len(),
                        r@.len() == i,
                        forall|k: int| 0 <= k < i ==> (*(#[trigger] r@[k]).0
                            == polynomials@[k].name && !r@[k].1),
                    decreases polynomials@.len() - i,
                {
                    r.push((&polynomials[i].name, false));
                    i += 1;
                }
            },
            PilStatement::Include(_, _) | PilStatement::Namespace(_, _, _)
                | PilStatement::PlookupIdentity(_, _, _) | PilStatement::PermutationIdentity(
                _,
                _,
                _,
            ) | PilStatement::ConnectIdentity(_, _, _) | PilStatement::Expression(_, _) => {},
        }
        r
    }

    /// If the statement defines symbols inside a namespace, the namespace
    /// name and each defined name inside it. The boolean says whether the
    /// name is a type definition.
    pub fn defined_contained_names(&self) -> (r: Vec<(&String, &String, bool)>)
        ensures
            match self {
                PilStatement::EnumDeclaration(_, decl) => r@.len() == decl.variants@.len() && (
                forall|k: int|
                    0 <= k < r@.len() ==> (*(#[trigger] r@[k]).0 == decl.name && *r@[k].1
                        == decl.variants@[k].name && !r@[k].2)),
                _ => r@.len() == 0,
            },
    {
        let mut r: Vec<(&String, &String, bool)> = Vec::new();
        match self {
            PilStatement::EnumDeclaration(_, decl) => {
                let mut i: usize = 0;
                while i < decl.variants.len()
                    invariant
                        i <= decl.variants@.len(),
                        r@.len() == i,
                        forall|k: int| 0 <= k < i ==> (*(#[trigger] r@[k]).0 == decl.name && *r@[k].1
                            == decl.variants@[k].name && !r@[k].2),
                    decreases decl.variants@.len() - i,
                {
                    r.push((&decl.name, &decl.variants[i].name, false));
                    i += 1;
                }
            },
            _ => {},
        }
        r
    }

    /// The (top-level) expressions of this statement, in source order. A
    /// let statement contributes its bound value; the expressions inside its
    /// type scheme are not traversed here.
    pub fn children(&self) -> (r: Vec<&Expression>)
        ensures
            match self {
                PilStatement::Expression(_, e) | PilStatement::Namespace(_, _, e)
                    | PilStatement::PolynomialDefinition(_, _, e)
                    | PilStatement::ConstantDefinition(_, _, e) => r@.len() == 1 && *r@[0] == *e,
                PilStatement::ConnectIdentity(_, left, right) => r@.len() == left@.len()
                    + right@.len(),
                PilStatement::PlookupIdentity(_, left, right)
                    | PilStatement::PermutationIdentity(_, left, right) => {
                    let loff: int = if left.selector is Some {
                        1int
                    } else {
                        0int
                    };
                    let roff: int = if right.selector is Some {
                        1int
                    } else {
                        0int
                    };
                    &&& r@.len() == loff + left.expressions@.len() + roff
                        + right.expressions@.len()
                    &&& (left.selector is Some ==> *r@[0] == left.selector->0)
                    &&& forall|k: int| 0 <= k < left.expressions@.len() ==> *r@[k + loff]
                        == left.expressions@[k]
                    &&& (right.selector is Some ==> *r@[loff + left.expressions@.len()]
                        == right.selector->0)
                    &&& forall|k: int| 0 <= k < right.expressions@.len()
                        ==> *r@[loff + left.expressions@.len() + roff + k]
                        == right.expressions@[k]
                },
                PilStatement::PublicDeclaration(_, _, _, i, e) => match i {
                    Some(idx) => r@.len() == 2 && *r@[0] == *idx && *r@[1] == *e,
                    None => r@.len() == 1 && *r@[0] == *e,
                },
                PilStatement::LetStatement(_, _, scheme, value) => {
                    let se: Seq<Expression> = match scheme {
                        Some(sch) => spec_scheme_exprs(*sch),
                        None => Seq::empty(),
                    };
                    let voff: int = if value is Some {
                        1int
                    } else {
                        0int
                    };
                    &&& r@.len() == se.len() + voff
                    &&& forall|k: int| 0 <= k < se.len() ==> *r@[k] == se[k]
                    &&& (value is Some ==> *r@[se.len() as int] == value->0)
                },
                PilStatement::EnumDeclaration(_, decl) => r@.len() == spec_enum_exprs(
                    decl.variants@,
                ).len() && (forall|k: int|
                    0 <= k < r@.len() ==> *r@[k] == spec_enum_exprs(decl.variants@)[k]),
                PilStatement::PolynomialConstantDefinition(_, _, def) => r@.len()
                    == def.spec_exprs().len() && (forall|k: int|
                    0 <= k < r@.len() ==> *r@[k] == def.spec_exprs()[k]),
                PilStatement::PolynomialCommitDeclaration(_, _, _, def) => {
                    let de: Seq<Expression> = match def {
                        Some(d) => d.spec_exprs(),
                        None => Seq::empty(),
                    };
                    &&& r@.len() == de.len()
                    &&& forall|k: int| 0 <= k < r@.len() ==> *r@[k] == de[k]
                },
                PilStatement::Include(_, _) | PilStatement::PolynomialConstantDeclaration(
                    _,
                    _,
                ) => r@.len() == 0,
            },
    {
        let mut r: Vec<&Expression> = Vec::new();
        match self {
            PilStatement::PlookupIdentity(_, left, right) | PilStatement::PermutationIdentity(
                _,
                left,
                right,
            ) => {
                let ghost loff: int = if left.selector is Some {
                    1int
                } else {
                    0int
                };
                let ghost roff: int = if right.selector is Some {
                    1int
                } else {
                    0int
                };
                let lc = left.children();
                let mut i: usize = 0;
                while i < lc.len()
                    invariant
                        loff == (if left.selector is Some {
                            1int
                        } else {
                            0int
                        }),
                        lc@.len() == loff + left.expressions@.len(),
                        left.selector is Some ==> *lc@[0] == left.selector->0,
                        forall|k: int| 0 <= k < left.expressions@.len() ==> *lc@[k + loff]
                            == left.expressions@[k],
                        i <= lc@.len(),
                        r@.len() == i,
                        forall|k: int| 0 <= k < i ==> r@[k] == lc@[k],
                    decreases lc@.len() - i,
                {
                    r.push(lc[i]);
                    i += 1;
                }
                let rc = right.children();
                let mut i: usize = 0;
                while i < rc.len()
                    invariant
                        loff == (if left.selector is Some {
                            1int
                        } else {
                            0int
                        }),
                        roff == (if right.selector is Some {
                            1int
                        } else {
                            0int
                        }),
                        lc@.len() == loff + left.expressions@.len(),
                        left.selector is Some ==> *lc@[0] == left.selector->0,
                        forall|k: int| 0 <= k < left.expressions@.len() ==> *lc@[k + loff]
                            == left.expressions@[k],
                        rc@.len() == roff + right.expressions@.len(),
                        right.selector is Some ==> *rc@[0] == right.selector->0,
                        forall|k: int| 0 <= k < right.expressions@.len() ==> *rc@[k + roff]
                            == right.expressions@[k],
                        i <= rc@.len(),
                        r@.len() == lc@.len() + i,
                        forall|k: int| 0 <= k < lc@.len() ==> r@[k] == lc@[k],
                        forall|k: int| 0 <= k < i ==> r@[lc@.len() + k] == rc@[k],
                    decreases rc@.len() - i,
                {
                    r.push(rc[i]);
                    i += 1;
                }
            },
            PilStatement::ConnectIdentity(_, left, right) => {
                let mut i: usize = 0;
                while i < left.len()
                    invariant
                        i <= left@.len(),
                        r@.len() == i,
                    decreases left@.len() - i,
                {
                    r.push(&left[i]);
                    i += 1;
                }
                let mut i: usize = 0;
                while i < right.len()
                    invariant
                        i <= right@.len(),
                        r@.len() == left@.len() + i,
                    decreases right@.len() - i,
                {
                    r.push(&right[i]);
                    i += 1;
                }
            },
            PilStatement::Expression(_, e) | PilStatement::Namespace(_, _, e)
                | PilStatement::PolynomialDefinition(_, _, e) | PilStatement::ConstantDefinition(
                _,
                _,
                e,
            ) => {
                r.push(e);
            },
            PilStatement::EnumDeclaration(_, decl) => {
                let c = decl.children();
                let mut i: usize = 0;
                while i < c.len()
                    invariant
                        *self is EnumDeclaration,
                        c@.len() == spec_enum_exprs(self->EnumDeclaration_1.variants@).len(),
                        forall|k: int| 0 <= k < c@.len() ==> *c@[k] == spec_enum_exprs(
                            self->EnumDeclaration_1.variants@,
                        )[k],
                        i <= c@.len(),
                        r@.len() == i,
                        forall|k: int| 0 <= k < i ==> r@[k] == c@[k],
                    decreases c@.len() - i,
                {
                    r.push(c[i]);
                    i += 1;
                }
            },
            PilStatement::LetStatement(_, _, scheme, value) => {
                match scheme {
                    Some(sch) => {
                        type_exprs(&sch.ty, &mut r);
                    },
                    None => {},
                }
                match value {
                    Some(v) => {
                        r.push(v);
                    },
                    None => {},
                }
            },
            PilStatement::PublicDeclaration(_, _, _, i, e) => {
                match i {
                    Some(idx) => {
                        r.push(idx);
                    },
                    None => {},
                }
                r.push(e);
            },
            PilStatement::PolynomialConstantDefinition(_, _, def) => {
                let c = def.children();
                let mut i: usize = 0;
                while i < c.len()
                    invariant
                        *self is PolynomialConstantDefinition,
                        c@.len() == self->PolynomialConstantDefinition_2.spec_exprs().len(),
                        forall|k: int| 0 <= k < c@.len() ==> *c@[k]
                            == self->PolynomialConstantDefinition_2.spec_exprs()[k],
                        i <= c@.len(),
                        r@.len() == i,
                        forall|k: int| 0 <= k < i ==> r@[k] == c@[k],
                    decreases c@.len() - i,
                {
                    r.push(c[i]);
                    i += 1;
                }
            },
            PilStatement::PolynomialCommitDeclaration(_, _, _, def) => {
                match def {
                    Some(d) => {
                        let c = d.children();
                        let mut i: usize = 0;
                        while i < c.len()
                            invariant
                                *self is PolynomialCommitDeclaration,
                                self->PolynomialCommitDeclaration_3 matches Some(dd) && (c@.len()
                                    == dd.spec_exprs().len() && (forall|k: int|
                                    0 <= k < c@.len() ==> *c@[k] == dd.spec_exprs()[k])),
                                i <= c@.len(),
                                r@.len() == i,
                                forall|k: int| 0 <= k < i ==> r@[k] == c@[k],
                            decreases c@.len() - i,
                        {
                            r.push(c[i]);
                            i += 1;
                        }
                    },
                    None => {},
                }
            },
            PilStatement::Include(_, _) | PilStatement::PolynomialConstantDeclaration(_, _) => {},
        }
        r
    }
}

/// A parsed PIL source file: its statements in order.
#[derive(Debug, PartialEq, Eq)]
pub struct PILFile(pub Vec<PilStatement>);

} // verus!
