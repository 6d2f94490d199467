//! Partial evaluation of algebraic expressions against a row pair: known
//! cells become constants, unknown cells become affine variables.
//!
//! The variable numbering is `2 * column + (0 for the current row, 1 for the
//! next)`. The soundness contract ties the produced affine expression to
//! [`spec_eval`]: under every valuation that agrees with the known cells, the
//! affine value is the expression's value.

use vstd::prelude::*;
use crate::affine::{valuation_wf, AffineExpression};
use crate::expr::{
    in_scope, spec_eval, AlgebraicBinaryOperator, AlgebraicExpression, AlgebraicUnaryOperator,
    PolynomialType, RowValues,
};
use crate::field::{f_pow, fe_pow, in_field, lemma_f_add_neg_is_sub, lemma_f_mul_comm};
use crate::fixed::FixedData;
use crate::rows::{row_wf, Row};
use crate::types::EvalError;

verus! {

/// How evaluation treats a cell without a definite value.
#[derive(Debug, Clone, Copy, PartialEq, Eq, Structural)]
pub enum UnknownStrategy {
    /// Unknown cells become affine variables.
    Unknown,
    /// Unknown cells read as zero.
    Zero,
}

/// A view over two adjacent rows (with wrap-around at the last row) and the
/// fixed data, anchored at a global row index.
pub struct RowPair<'a> {
    pub current: &'a Row,
    pub next: &'a Row,
    pub current_row_index: u64,
    pub fixed_data: &'a FixedData,
    pub unknown_strategy: UnknownStrategy,
}

impl<'a> RowPair<'a> {
    /// Well-formed: both rows shaped for this machine and the anchor row in
    /// range.
    pub open spec fn wf(self) -> bool {
        &&& self.fixed_data.wf()
        &&& row_wf(*self.current, self.fixed_data.witness_cols@.len())
        &&& row_wf(*self.next, self.fixed_data.witness_cols@.len())
        &&& self.current_row_index < self.fixed_data.degree
    }

    /// The global index of the row after the anchor, wrapping at the degree.
    pub open spec fn spec_next_row_index(self) -> int {
        (self.current_row_index + 1) % (self.fixed_data.degree as int)
    }

    /// Builds the view.
    pub fn new(
        current: &'a Row,
        next: &'a Row,
        current_row_index: u64,
        fixed_data: &'a FixedData,
        unknown_strategy: UnknownStrategy,
    ) -> (r: RowPair<'a>)
        ensures
            r.current == current,
            r.next == next,
            r.current_row_index == current_row_index,
            r.fixed_data == fixed_data,
            r.unknown_strategy == unknown_strategy,
    {
        RowPair { current, next, current_row_index, fixed_data, unknown_strategy }
    }

    /// The full value environment induced by a valuation of the affine
    /// variables.
    pub open spec fn env_of(self, val: Seq<int>) -> RowValues {
        let nwit = self.fixed_data.witness_cols@.len();
        let nfix = self.fixed_data.fixed_cols@.len();
        RowValues {
            wit_cur: Seq::new(nwit, |i: int| val[2 * i]),
            wit_next: Seq::new(nwit, |i: int| val[2 * i + 1]),
            fix_cur: Seq::new(
                nfix,
                |c: int| self.fixed_data.fixed_cols@[c].values@[self.current_row_index as int] as int,
            ),
            fix_next: Seq::new(
                nfix,
                |c: int| self.fixed_data.fixed_cols@[c].values@[self.spec_next_row_index()] as int,
            ),
        }
    }

    /// Whether a valuation agrees with every known cell of the pair.
    pub open spec fn val_consistent(self, val: Seq<int>) -> bool {
        let nwit = self.fixed_data.witness_cols@.len();
        &&& val.len() == 2 * nwit
        &&& valuation_wf(val)
        &&& forall|i: int| 0 <= i < nwit && (#[trigger] self.current.cells@[i]).value is Some
            ==> val[2 * i] == self.current.cells@[i].value->0 as int
        &&& forall|i: int| 0 <= i < nwit && (#[trigger] self.next.cells@[i]).value is Some
            ==> val[2 * i + 1] == self.next.cells@[i].value->0 as int
    }

    /// Reads a fixed column on the anchor row or the one after it.
    fn fixed_value(&self, id: usize, next: bool) -> (r: u64)
        requires
            self.wf(),
            id < self.fixed_data.fixed_cols@.len(),
        ensures
            in_field(r),
            r as int == if next {
                self.env_of(Seq::empty()).fix_next[id as int]
            } else {
                self.env_of(Seq::empty()).fix_cur[id as int]
            },
    {
        let row: u64 = if next {
            let n = self.current_row_index + 1;
            if n == self.fixed_data.degree {
                0
            } else {
                n
            }
        } else {
            self.current_row_index
        };
        proof {
            if next {
                if self.current_row_index + 1 == self.fixed_data.degree {
                    assert((self.current_row_index + 1) % (self.fixed_data.degree as int) == 0) by {
                        vstd::arithmetic::div_mod::lemma_mod_self_0(self.fixed_data.degree as int);
                    }
                } else {
                    vstd::arithmetic::div_mod::lemma_small_mod(
                        (self.current_row_index + 1) as nat,
                        self.fixed_data.degree as nat,
                    );
                }
            }
        }
        self.fixed_data.fixed_cols[id].values[row as usize]
    }

    /// Partially evaluates `e` against the pair: known cells and fixed
    /// columns become constants, unknown cells become variables. Fails with
    /// `NonLinearStep` where two non-constant parts would have to be
    /// multiplied or raised to a non-constant power.
    pub fn evaluate(&self, e: &AlgebraicExpression) -> (r: Result<AffineExpression, EvalError>)
        requires
            self.wf(),
            self.unknown_strategy is Unknown,
            e.wf(),
            in_scope(*e, self.fixed_data.witness_cols@.len(), self.fixed_data.fixed_cols@.len()),
        ensures
            match r {
                Ok(a) => {
                    &&& a.wf()
                    &&& a.spec_width() == self.fixed_data.spec_width()
                    &&& forall|val: Seq<int>| self.val_consistent(val) ==> spec_eval(
                        *e,
                        self.env_of(val),
                    ) == Some(#[trigger] a.spec_value(val))
                    &&& forall|v: int| 0 <= v < a.spec_width() && #[trigger] a.spec_occurs(v) ==> {
                        if v % 2 == 0 {
                            self.current.cells@[v / 2].value is None
                        } else {
                            self.next.cells@[v / 2].value is None
                        }
                    }
                },
                Err(err) => err is NonLinearStep,
            },
            // An expression free of committed columns always evaluates, to a
            // constant.
            in_scope(*e, 0, self.fixed_data.fixed_cols@.len()) ==> (r matches Ok(a) && forall|
                v: int,
            |
                0 <= v < a.spec_width() ==> !a.spec_occurs(v)),
            // An expression whose products and powers each have a
            // committed-free side always evaluates: deferral happens only on
            // a genuinely non-linear step.
            crate::expr::evaluable(
                *e,
                self.fixed_data.witness_cols@.len(),
                self.fixed_data.fixed_cols@.len(),
            ) ==> r is Ok,
            // Over fully-known rows every expression evaluates, to a
            // constant.
            (crate::rows::spec_row_fully_known(*self.current) && crate::rows::spec_row_fully_known(
                *self.next,
            )) ==> (r matches Ok(a) && forall|v: int|
                0 <= v < a.spec_width() ==> !a.spec_occurs(v)),
        decreases *e,
    {
        let ghost nfix = self.fixed_data.fixed_cols@.len();
        let width = self.fixed_data.width();
        match e {
            AlgebraicExpression::Reference(r) => {
                let id = r.poly_id.id as usize;
                match r.poly_id.ptype {
                    PolynomialType::Committed => {
                        let cell = if r.next {
                            &self.next.cells[id]
                        } else {
                            &self.current.cells[id]
                        };
                        match cell.value {
                            Some(w) => {
                                let a = AffineExpression::from_constant(w, width);
                                proof {
                                    assert forall|val: Seq<int>| self.val_consistent(val)
                                        implies spec_eval(*e, self.env_of(val)) == Some(
                                        #[trigger] a.spec_value(val),
                                    ) by {
                                        if r.next {
                                            assert(self.env_of(val).wit_next[id as int] == val[2 * id
                                                + 1]);
                                        } else {
                                            assert(self.env_of(val).wit_cur[id as int] == val[2 * id]);
                                        }
                                    }
                                }
                                Ok(a)
                            },
                            None => {
                                let var = if r.next {
                                    2 * id + 1
                                } else {
                                    2 * id
                                };
                                let a = AffineExpression::from_variable(var, width);
                                proof {
                                    assert forall|val: Seq<int>| self.val_consistent(val)
                                        implies spec_eval(*e, self.env_of(val)) == Some(
                                        #[trigger] a.spec_value(val),
                                    ) by {
                                        if r.next {
                                            assert(self.env_of(val).wit_next[id as int] == val[2 * id
                                                + 1]);
                                        } else {
                                            assert(self.env_of(val).wit_cur[id as int] == val[2 * id]);
                                        }
                                    }
                                    assert forall|v: int|
                                        0 <= v < a.spec_width() && #[trigger] a.spec_occurs(v)
                                        implies {
                                        if v % 2 == 0 {
                                            self.current.cells@[v / 2].value is None
                                        } else {
                                            self.next.cells@[v / 2].value is None
                                        }
                                    } by {
                                        assert(v == var);
                                    }
                                }
                                Ok(a)
                            },
                        }
                    },
                    PolynomialType::Constant => {
                        let w = self.fixed_value(id, r.next);
                        let a = AffineExpression::from_constant(w, width);
                        proof {
                            assert forall|val: Seq<int>| self.val_consistent(val)
                                implies spec_eval(*e, self.env_of(val)) == Some(
                                #[trigger] a.spec_value(val),
                            ) by {
                                if r.next {
                                    assert(self.env_of(val).fix_next[id as int] == self.env_of(
                                        Seq::empty(),
                                    ).fix_next[id as int]);
                                } else {
                                    assert(self.env_of(val).fix_cur[id as int] == self.env_of(
                                        Seq::empty(),
                                    ).fix_cur[id as int]);
                                }
                            }
                        }
                        Ok(a)
                    },
                    PolynomialType::Intermediate => {
                        proof {
                            assert(false);
                        }
                        Err(EvalError::NonLinearStep)
                    },
                }
            },
            AlgebraicExpression::PublicReference(_) => {
                proof {
                    assert(false);
                }
                Err(EvalError::NonLinearStep)
            },
            AlgebraicExpression::Number(n) => Ok(AffineExpression::from_constant(*n, width)),
            AlgebraicExpression::BinaryOperation(l, op, rr) => {
                let lv = self.evaluate(l)?;
                let rv = self.evaluate(rr)?;
                match op {
                    AlgebraicBinaryOperator::Add => {
                        let a = lv.add(&rv);
                        proof {
                            assert forall|val: Seq<int>| self.val_consistent(val) implies spec_eval(
                                *e,
                                self.env_of(val),
                            ) == Some(#[trigger] a.spec_value(val)) by {
                                assert(spec_eval(**l, self.env_of(val)) == Some(lv.spec_value(val)));
                                assert(spec_eval(**rr, self.env_of(val)) == Some(rv.spec_value(val)));
                            }
                        }
                        Ok(a)
                    },
                    AlgebraicBinaryOperator::Sub => {
                        let a = lv.sub(&rv);
                        proof {
                            assert forall|val: Seq<int>| self.val_consistent(val) implies spec_eval(
                                *e,
                                self.env_of(val),
                            ) == Some(#[trigger] a.spec_value(val)) by {
                                assert(spec_eval(**l, self.env_of(val)) == Some(lv.spec_value(val)));
                                assert(spec_eval(**rr, self.env_of(val)) == Some(rv.spec_value(val)));
                                lemma_f_add_neg_is_sub(lv.spec_value(val), rv.spec_value(val));
                            }
                        }
                        Ok(a)
                    },
                    AlgebraicBinaryOperator::Mul => {
                        if lv.is_constant() {
                            let c = lv.constant_value();
                            let a = rv.scale(c);
                            proof {
                                assert forall|val: Seq<int>| self.val_consistent(val)
                                    implies spec_eval(*e, self.env_of(val)) == Some(
                                    #[trigger] a.spec_value(val),
                                ) by {
                                    assert(spec_eval(**l, self.env_of(val)) == Some(
                                        lv.spec_value(val),
                                    ));
                                    assert(spec_eval(**rr, self.env_of(val)) == Some(
                                        rv.spec_value(val),
                                    ));
                                    assert(lv.spec_value(val) == c as int);
                                }
                            }
                            Ok(a)
                        } else if rv.is_constant() {
                            let c = rv.constant_value();
                            let a = lv.scale(c);
                            proof {
                                assert forall|val: Seq<int>| self.val_consistent(val)
                                    implies spec_eval(*e, self.env_of(val)) == Some(
                                    #[trigger] a.spec_value(val),
                                ) by {
                                    assert(spec_eval(**l, self.env_of(val)) == Some(
                                        lv.spec_value(val),
                                    ));
                                    assert(spec_eval(**rr, self.env_of(val)) == Some(
                                        rv.spec_value(val),
                                    ));
                                    assert(rv.spec_value(val) == c as int);
                                    lemma_f_mul_comm(c as int, lv.spec_value(val));
                                }
                            }
                            Ok(a)
                        } else {
                            Err(EvalError::NonLinearStep)
                        }
                    },
                    AlgebraicBinaryOperator::Pow => {
                        if lv.is_constant() && rv.is_constant() {
                            let base = lv.constant_value();
                            let exp = rv.constant_value();
                            let w = fe_pow(base, exp);
                            let a = AffineExpression::from_constant(w, width);
                            proof {
                                assert forall|val: Seq<int>| self.val_consistent(val)
                                    implies spec_eval(*e, self.env_of(val)) == Some(
                                    #[trigger] a.spec_value(val),
                                ) by {
                                    assert(spec_eval(**l, self.env_of(val)) == Some(
                                        lv.spec_value(val),
                                    ));
                                    assert(spec_eval(**rr, self.env_of(val)) == Some(
                                        rv.spec_value(val),
                                    ));
                                    assert(lv.spec_value(val) == base as int);
                                    assert(rv.spec_value(val) == exp as int);
                                    assert(spec_eval(*e, self.env_of(val)) == Some(
                                        f_pow(base as int, exp as nat),
                                    ));
                                }
                            }
                            Ok(a)
                        } else {
                            Err(EvalError::NonLinearStep)
                        }
                    },
                }
            },
            AlgebraicExpression::UnaryOperation(op, inner) => {
                let iv = self.evaluate(inner)?;
                match op {
                    AlgebraicUnaryOperator::Minus => {
                        let a = iv.neg();
                        proof {
                            assert forall|val: Seq<int>| self.val_consistent(val) implies spec_eval(
                                *e,
                                self.env_of(val),
                            ) == Some(#[trigger] a.spec_value(val)) by {
                                assert(spec_eval(**inner, self.env_of(val)) == Some(
                                    iv.spec_value(val),
                                ));
                            }
                        }
                        Ok(a)
                    },
                }
            },
        }
    }
}

/// The value environment of the fixed columns alone at a given row: committed
/// columns are absent.
pub open spec fn fixed_env(fixed: FixedData, row: int) -> RowValues {
    let nfix = fixed.fixed_cols@.len();
    RowValues {
        wit_cur: Seq::empty(),
        wit_next: Seq::empty(),
        fix_cur: Seq::new(nfix, |c: int| fixed.fixed_cols@[c].values@[row] as int),
        fix_next: Seq::new(
            nfix,
            |c: int| fixed.fixed_cols@[c].values@[(row + 1) % (fixed.degree as int)] as int,
        ),
    }
}

/// Evaluates an expression over fixed columns only, at the given row. Such an
/// expression always has a definite value.
pub fn evaluate_fixed_only(fixed: &FixedData, e: &AlgebraicExpression, row: u64) -> (r: u64)
    requires
        fixed.wf(),
        row < fixed.degree,
        e.wf(),
        in_scope(*e, 0, fixed.fixed_cols@.len()),
    ensures
        in_field(r),
        spec_eval(*e, fixed_env(*fixed, row as int)) == Some(r as int),
    decreases *e,
{
    match e {
        AlgebraicExpression::Reference(rf) => {
            let id = rf.poly_id.id as usize;
            let idx: u64 = if rf.next {
                let n = row + 1;
                if n == fixed.degree {
                    0
                } else {
                    n
                }
            } else {
                row
            };
            proof {
                if rf.next {
                    if row + 1 == fixed.degree {
                        vstd::arithmetic::div_mod::lemma_mod_self_0(fixed.degree as int);
                    } else {
                        vstd::arithmetic::div_mod::lemma_small_mod(
                            (row + 1) as nat,
                            fixed.degree as nat,
                        );
                    }
                }
            }
            fixed.fixed_cols[id].values[idx as usize]
        },
        AlgebraicExpression::PublicReference(_) => {
            proof {
                assert(false);
            }
            0
        },
        AlgebraicExpression::Number(n) => *n,
        AlgebraicExpression::BinaryOperation(l, op, rr) => {
            let lv = evaluate_fixed_only(fixed, l, row);
            let rv = evaluate_fixed_only(fixed, rr, row);
            match op {
                AlgebraicBinaryOperator::Add => crate::field::fe_add(lv, rv),
                AlgebraicBinaryOperator::Sub => crate::field::fe_sub(lv, rv),
                AlgebraicBinaryOperator::Mul => crate::field::fe_mul(lv, rv),
                AlgebraicBinaryOperator::Pow => fe_pow(lv, rv),
            }
        },
        AlgebraicExpression::UnaryOperation(op, inner) => {
            let iv = evaluate_fixed_only(fixed, inner, row);
            match op {
                AlgebraicUnaryOperator::Minus => crate::field::fe_neg(iv),
            }
        },
    }
}

} // verus!
