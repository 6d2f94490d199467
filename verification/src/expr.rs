//! The analyzed algebraic expression tree that identities are made of, and
//! its meaning as a function of a row pair.

use vstd::prelude::*;
use crate::field::{f_add, f_mul, f_neg, f_pow, f_sub, in_field};
use crate::parsed::SelectedExpressions;

verus! {

/// The three kinds of columns of an analyzed program.
#[derive(Debug, Clone, Copy, PartialEq, Eq, Hash, Structural)]
pub enum PolynomialType {
    Committed,
    Constant,
    Intermediate,
}

/// A column identifier: unique id within its kind.
#[derive(Debug, Clone, Copy, PartialEq, Eq, Hash, Structural)]
pub struct PolyId {
    pub id: u64,
    pub ptype: PolynomialType,
}

/// A reference to a column, either on the current row or on the next.
#[derive(Debug, Clone, Copy, PartialEq, Eq, Hash, Structural)]
pub struct AlgebraicReference {
    pub poly_id: PolyId,
    pub next: bool,
}

#[derive(Debug, Clone, Copy, PartialEq, Eq, Structural)]
pub enum AlgebraicBinaryOperator {
    Add,
    Sub,
    Mul,
    Pow,
}

#[derive(Debug, Clone, Copy, PartialEq, Eq, Structural)]
pub enum AlgebraicUnaryOperator {
    Minus,
}

/// An analyzed algebraic expression. Intermediate polynomials are required to
/// have been inlined, so references name committed or constant columns.
#[derive(Debug, PartialEq, Eq)]
pub enum AlgebraicExpression {
    Reference(AlgebraicReference),
    PublicReference(String),
    Number(u64),
    BinaryOperation(Box<AlgebraicExpression>, AlgebraicBinaryOperator, Box<AlgebraicExpression>),
    UnaryOperation(AlgebraicUnaryOperator, Box<AlgebraicExpression>),
}

impl AlgebraicExpression {
    /// Well-formed: every number literal is a canonical field element.
    pub open spec fn wf(self) -> bool
        decreases self,
    {
        match self {
            AlgebraicExpression::Reference(_) => true,
            AlgebraicExpression::PublicReference(_) => true,
            AlgebraicExpression::Number(n) => in_field(n),
            AlgebraicExpression::BinaryOperation(l, _, r) => l.wf() && r.wf(),
            AlgebraicExpression::UnaryOperation(_, e) => e.wf(),
        }
    }
}

/// The value environment of one row pair: for each column kind, the values on
/// the anchor row and on the row after it (with wrap-around), indexed by the
/// column id.
pub struct RowValues {
    pub wit_cur: Seq<int>,
    pub wit_next: Seq<int>,
    pub fix_cur: Seq<int>,
    pub fix_next: Seq<int>,
}

impl RowValues {
    /// The value of a reference, if it names a column that exists.
    pub open spec fn lookup(self, r: AlgebraicReference) -> Option<int> {
        match r.poly_id.ptype {
            PolynomialType::Committed => if r.next {
                if r.poly_id.id < self.wit_next.len() {
                    Some(self.wit_next[r.poly_id.id as int])
                } else {
                    None
                }
            } else {
                if r.poly_id.id < self.wit_cur.len() {
                    Some(self.wit_cur[r.poly_id.id as int])
                } else {
                    None
                }
            },
            PolynomialType::Constant => if r.next {
                if r.poly_id.id < self.fix_next.len() {
                    Some(self.fix_next[r.poly_id.id as int])
                } else {
                    None
                }
            } else {
                if r.poly_id.id < self.fix_cur.len() {
                    Some(self.fix_cur[r.poly_id.id as int])
                } else {
                    None
                }
            },
            PolynomialType::Intermediate => None,
        }
    }
}

/// The value of an expression over fully known rows, or `None` where the
/// expression is outside the analyzed fragment (a public or intermediate
/// reference, or a column that does not exist).
pub open spec fn spec_eval(e: AlgebraicExpression, env: RowValues) -> Option<int>
    decreases e,
{
    match e {
        AlgebraicExpression::Reference(r) => env.lookup(r),
        AlgebraicExpression::PublicReference(_) => None,
        AlgebraicExpression::Number(n) => Some(n as int),
        AlgebraicExpression::BinaryOperation(l, op, r) => match (spec_eval(*l, env), spec_eval(
            *r,
            env,
        )) {
            (Some(lv), Some(rv)) => match op {
                AlgebraicBinaryOperator::Add => Some(f_add(lv, rv)),
                AlgebraicBinaryOperator::Sub => Some(f_sub(lv, rv)),
                AlgebraicBinaryOperator::Mul => Some(f_mul(lv, rv)),
                AlgebraicBinaryOperator::Pow => Some(f_pow(lv, rv as nat)),
            },
            _ => None,
        },
        AlgebraicExpression::UnaryOperation(op, inner) => match spec_eval(*inner, env) {
            Some(v) => match op {
                AlgebraicUnaryOperator::Minus => Some(f_neg(v)),
            },
            None => None,
        },
    }
}

/// The four identity kinds of an analyzed program.
#[derive(Debug, Clone, Copy, PartialEq, Eq, Structural)]
pub enum IdentityKind {
    Polynomial,
    Plookup,
    Permutation,
    Connect,
}

/// An identity of the analyzed program. Polynomial identities are normalized:
/// the constrained expression is the left selector and the right side is
/// empty.
#[derive(Debug, PartialEq, Eq)]
pub struct Identity {
    pub id: u64,
    pub kind: IdentityKind,
    pub left: SelectedExpressions<AlgebraicExpression>,
    pub right: SelectedExpressions<AlgebraicExpression>,
}

impl Identity {
    /// Well-formed: every contained expression is well-formed, and a
    /// polynomial identity has its normalized shape.
    pub open spec fn wf(self) -> bool {
        &&& match self.left.selector {
            Some(s) => s.wf(),
            None => true,
        }
        &&& match self.right.selector {
            Some(s) => s.wf(),
            None => true,
        }
        &&& forall|i: int| 0 <= i < self.left.expressions@.len()
            ==> (#[trigger] self.left.expressions@[i]).wf()
        &&& forall|i: int| 0 <= i < self.right.expressions@.len()
            ==> (#[trigger] self.right.expressions@[i]).wf()
        &&& self.kind is Polynomial ==> {
            &&& self.left.selector is Some
            &&& self.right.selector is None
            &&& self.left.expressions@.len() == 0
            &&& self.right.expressions@.len() == 0
        }
        &&& (self.kind is Plookup || self.kind is Permutation || self.kind is Connect)
            ==> self.left.expressions@.len() == self.right.expressions@.len()
    }
}

/// Whether an expression stays inside the analyzed fragment a machine can
/// evaluate: every reference names an existing committed or fixed column.
/// Intermediate polynomials must have been inlined and public references
/// resolved before witness generation.
pub open spec fn in_scope(e: AlgebraicExpression, nwit: nat, nfix: nat) -> bool
    decreases e,
{
    match e {
        AlgebraicExpression::Reference(r) => match r.poly_id.ptype {
            PolynomialType::Committed => r.poly_id.id < nwit,
            PolynomialType::Constant => r.poly_id.id < nfix,
            PolynomialType::Intermediate => false,
        },
        AlgebraicExpression::PublicReference(_) => false,
        AlgebraicExpression::Number(_) => true,
        AlgebraicExpression::BinaryOperation(l, _, r) => in_scope(*l, nwit, nfix) && in_scope(
            *r,
            nwit,
            nfix,
        ),
        AlgebraicExpression::UnaryOperation(_, inner) => in_scope(*inner, nwit, nfix),
    }
}

/// Checks well-formedness of an expression, executably.
pub fn check_expr_wf(e: &AlgebraicExpression) -> (r: bool)
    ensures
        r == e.wf(),
    decreases *e,
{
    match e {
        AlgebraicExpression::Reference(_) => true,
        AlgebraicExpression::PublicReference(_) => true,
        AlgebraicExpression::Number(n) => *n < crate::field::FIELD_MODULUS,
        AlgebraicExpression::BinaryOperation(l, _, r) => check_expr_wf(l) && check_expr_wf(r),
        AlgebraicExpression::UnaryOperation(_, inner) => check_expr_wf(inner),
    }
}

/// Checks that an expression stays inside the analyzed fragment, executably.
pub fn check_in_scope(e: &AlgebraicExpression, nwit: usize, nfix: usize) -> (r: bool)
    ensures
        r == in_scope(*e, nwit as nat, nfix as nat),
    decreases *e,
{
    match e {
        AlgebraicExpression::Reference(rf) => match rf.poly_id.ptype {
            PolynomialType::Committed => rf.poly_id.id < nwit as u64,
            PolynomialType::Constant => rf.poly_id.id < nfix as u64,
            PolynomialType::Intermediate => false,
        },
        AlgebraicExpression::PublicReference(_) => false,
        AlgebraicExpression::Number(_) => true,
        AlgebraicExpression::BinaryOperation(l, _, r) => check_in_scope(l, nwit, nfix)
            && check_in_scope(r, nwit, nfix),
        AlgebraicExpression::UnaryOperation(_, inner) => check_in_scope(inner, nwit, nfix),
    }
}

/// Well-formed and in scope, for a whole identity.
pub open spec fn identity_in_scope(id: Identity, nwit: nat, nfix: nat) -> bool {
    &&& id.wf()
    &&& match id.left.selector {
        Some(s) => in_scope(s, nwit, nfix),
        None => true,
    }
    &&& match id.right.selector {
        Some(s) => in_scope(s, nwit, nfix),
        None => true,
    }
    &&& forall|i: int| 0 <= i < id.left.expressions@.len() ==> in_scope(
        #[trigger] id.left.expressions@[i],
        nwit,
        nfix,
    )
    &&& forall|i: int| 0 <= i < id.right.expressions@.len() ==> in_scope(
        #[trigger] id.right.expressions@[i],
        nwit,
        nfix,
    )
}

impl Identity {
    /// Checks that the identity is well-formed and in scope, executably.
    pub fn check_in_scope(&self, nwit: usize, nfix: usize) -> (r: bool)
        ensures
            r == identity_in_scope(*self, nwit as nat, nfix as nat),
    {
        let sel_ok = match &self.left.selector {
            Some(s) => check_expr_wf(s) && check_in_scope(s, nwit, nfix),
            None => true,
        };
        if !sel_ok {
            return false;
        }
        let rsel_ok = match &self.right.selector {
            Some(s) => check_expr_wf(s) && check_in_scope(s, nwit, nfix),
            None => true,
        };
        if !rsel_ok {
            return false;
        }
        let shape_ok = match self.kind {
            IdentityKind::Polynomial => self.left.selector.is_some() && self.right.selector.is_none()
                && self.left.expressions.len() == 0 && self.right.expressions.len() == 0,
            _ => self.left.expressions.len() == self.right.expressions.len(),
        };
        if !shape_ok {
            return false;
        }
        let mut i: usize = 0;
        while i < self.left.expressions.len()
            invariant
                i <= self.left.expressions@.len(),
                forall|j: int| 0 <= j < i ==> (#[trigger] self.left.expressions@[j]).wf()
                    && in_scope(self.left.expressions@[j], nwit as nat, nfix as nat),
            decreases self.left.expressions@.len() - i,
        {
            if !(check_expr_wf(&self.left.expressions[i]) && check_in_scope(
                &self.left.expressions[i],
                nwit,
                nfix,
            )) {
                return false;
            }
            i += 1;
        }
        let mut i: usize = 0;
        while i < self.right.expressions.len()
            invariant
                i <= self.right.expressions@.len(),
                forall|j: int| 0 <= j < i ==> (#[trigger] self.right.expressions@[j]).wf()
                    && in_scope(self.right.expressions@[j], nwit as nat, nfix as nat),
            decreases self.right.expressions@.len() - i,
        {
            if !(check_expr_wf(&self.right.expressions[i]) && check_in_scope(
                &self.right.expressions[i],
                nwit,
                nfix,
            )) {
                return false;
            }
            i += 1;
        }
        true
    }
}

/// Whether partial evaluation of an expression can never be deferred as a
/// non-linear step: every product has a side free of committed columns, and
/// every exponentiation is free of them on both sides. (A committed-free
/// side always evaluates to a constant.)
pub open spec fn evaluable(e: AlgebraicExpression, nwit: nat, nfix: nat) -> bool
    decreases e,
{
    match e {
        AlgebraicExpression::Reference(_) => true,
        AlgebraicExpression::PublicReference(_) => false,
        AlgebraicExpression::Number(_) => true,
        AlgebraicExpression::BinaryOperation(l, op, r) => evaluable(*l, nwit, nfix) && evaluable(
            *r,
            nwit,
            nfix,
        ) && match op {
            AlgebraicBinaryOperator::Add | AlgebraicBinaryOperator::Sub => true,
            AlgebraicBinaryOperator::Mul => in_scope(*l, 0, nfix) || in_scope(*r, 0, nfix),
            AlgebraicBinaryOperator::Pow => in_scope(*l, 0, nfix) && in_scope(*r, 0, nfix),
        },
        AlgebraicExpression::UnaryOperation(_, inner) => evaluable(*inner, nwit, nfix),
    }
}

} // verus!
