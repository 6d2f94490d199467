//! The plonky3 adapter's computational core. That proof system has no fixed
//! columns, so fixed columns are encoded as extra witness columns: the
//! encoded columns are the committed columns followed by the fixed columns.
//! This module resolves column references to encoded indexes, flattens the
//! columns into a row-major trace, and extracts the expressions a constraint
//! builder must assert to be zero; the builder itself lives with the backend.

use vstd::prelude::*;
use crate::expr::{
    AlgebraicBinaryOperator, AlgebraicExpression, AlgebraicUnaryOperator, Identity, IdentityKind,
    PolynomialType,
};
use crate::types::EvalError;

verus! {

/// A constraint expression with every column reference resolved to an
/// encoded column index and a row choice (the current or the next row).
#[derive(Debug, PartialEq, Eq)]
pub enum IndexedExpression {
    Cell(usize, bool),
    Constant(u64),
    Add(Box<IndexedExpression>, Box<IndexedExpression>),
    Sub(Box<IndexedExpression>, Box<IndexedExpression>),
    Mul(Box<IndexedExpression>, Box<IndexedExpression>),
    Neg(Box<IndexedExpression>),
}

/// The resolution of an analyzed expression against `nwit` committed
/// columns: committed indexes are unchanged, fixed indexes are offset by the
/// committed count. Exponentiation, public references and uninlined
/// intermediates are outside this backend's fragment.
pub open spec fn spec_indexed(e: AlgebraicExpression, nwit: nat) -> Option<IndexedExpression>
    decreases e,
{
    match e {
        AlgebraicExpression::Reference(r) => match r.poly_id.ptype {
            PolynomialType::Committed => Some(
                IndexedExpression::Cell(r.poly_id.id as usize, r.next),
            ),
            PolynomialType::Constant => Some(
                IndexedExpression::Cell((nwit + r.poly_id.id) as usize, r.next),
            ),
            PolynomialType::Intermediate => None,
        },
        AlgebraicExpression::PublicReference(_) => None,
        AlgebraicExpression::Number(n) => Some(IndexedExpression::Constant(n)),
        AlgebraicExpression::BinaryOperation(l, op, r) => match (
            spec_indexed(*l, nwit),
            spec_indexed(*r, nwit),
        ) {
            (Some(li), Some(ri)) => match op {
                AlgebraicBinaryOperator::Add => Some(
                    IndexedExpression::Add(Box::new(li), Box::new(ri)),
                ),
                AlgebraicBinaryOperator::Sub => Some(
                    IndexedExpression::Sub(Box::new(li), Box::new(ri)),
                ),
                AlgebraicBinaryOperator::Mul => Some(
                    IndexedExpression::Mul(Box::new(li), Box::new(ri)),
                ),
                AlgebraicBinaryOperator::Pow => None,
            },
            _ => None,
        },
        AlgebraicExpression::UnaryOperation(op, inner) => match spec_indexed(*inner, nwit) {
            Some(ii) => match op {
                AlgebraicUnaryOperator::Minus => Some(IndexedExpression::Neg(Box::new(ii))),
            },
            None => None,
        },
    }
}

/// One identity this backend can translate: a normalized polynomial identity
/// whose expression resolves to encoded indexes.
pub open spec fn spec_backend_accepts(id: Identity, nwit: nat, nfix: nat) -> bool {
    &&& id.kind is Polynomial
    &&& id.left.selector is Some
    &&& id.left.expressions@.len() == 0
    &&& id.right.expressions@.len() == 0
    &&& id.right.selector is None
    &&& crate::expr::in_scope(id.left.selector->0, nwit, nfix)
    &&& spec_indexed(id.left.selector->0, nwit) is Some
}

/// The analyzed data this backend consumes: the committed and fixed columns
/// by name, and the identities.
pub struct PowdrCircuit {
    /// The values of the committed columns.
    pub witness: Vec<(String, Vec<u64>)>,
    /// The values of the fixed columns.
    pub fixed: Vec<(String, Vec<u64>)>,
    /// The identities of the analyzed program.
    pub identities: Vec<Identity>,
    /// The machine's degree.
    pub degree: u64,
}

impl PowdrCircuit {
    /// Resolves one constraint expression to encoded column indexes.
    pub fn to_indexed_expr(&self, e: &AlgebraicExpression) -> (r: Result<
        IndexedExpression,
        EvalError,
    >)
        requires
            self.witness@.len() + self.fixed@.len() <= 0x2000_0000,
            crate::expr::in_scope(*e, self.witness@.len(), self.fixed@.len()),
        ensures
            match r {
                Ok(ix) => spec_indexed(*e, self.witness@.len()) == Some(ix),
                Err(_) => spec_indexed(*e, self.witness@.len()) is None,
            },
        decreases *e,
    {
        let nwit = self.witness.len();
        match e {
            AlgebraicExpression::Reference(rf) => {
                match rf.poly_id.ptype {
                    PolynomialType::Committed => Ok(
                        IndexedExpression::Cell(rf.poly_id.id as usize, rf.next),
                    ),
                    PolynomialType::Constant => Ok(
                        IndexedExpression::Cell(nwit + rf.poly_id.id as usize, rf.next),
                    ),
                    PolynomialType::Intermediate => {
                        proof {
                            assert(false);
                        }
                        Err(EvalError::InvalidProgram)
                    },
                }
            },
            AlgebraicExpression::PublicReference(_) => {
                proof {
                    assert(false);
                }
                Err(EvalError::InvalidProgram)
            },
            AlgebraicExpression::Number(n) => Ok(IndexedExpression::Constant(*n)),
            AlgebraicExpression::BinaryOperation(l, op, rr) => {
                let li = self.to_indexed_expr(l)?;
                let ri = self.to_indexed_expr(rr)?;
                match op {
                    AlgebraicBinaryOperator::Add => Ok(
                        IndexedExpression::Add(Box::new(li), Box::new(ri)),
                    ),
                    AlgebraicBinaryOperator::Sub => Ok(
                        IndexedExpression::Sub(Box::new(li), Box::new(ri)),
                    ),
                    AlgebraicBinaryOperator::Mul => Ok(
                        IndexedExpression::Mul(Box::new(li), Box::new(ri)),
                    ),
                    AlgebraicBinaryOperator::Pow => Err(EvalError::InvalidProgram),
                }
            },
            AlgebraicExpression::UnaryOperation(op, inner) => {
                let ii = self.to_indexed_expr(inner)?;
                match op {
                    AlgebraicUnaryOperator::Minus => Ok(IndexedExpression::Neg(Box::new(ii))),
                }
            },
        }
    }

    /// The trace width: one encoded column per committed and per fixed
    /// column (intermediates are required to be inlined).
    pub fn width(&self) -> (r: usize)
        requires
            self.witness@.len() + self.fixed@.len() <= 0x2000_0000,
        ensures
            r == self.witness@.len() + self.fixed@.len(),
    {
        self.witness.len() + self.fixed.len()
    }

    /// The row-major trace: for each row, the committed column values
    /// followed by the fixed column values. Fails when a column does not
    /// have exactly `degree` values.
    pub fn preprocessed_trace(&self) -> (r: Option<Vec<u64>>)
        requires
            self.witness@.len() + self.fixed@.len() <= 0x2000_0000,
            self.degree <= 0x1000_0000,
        ensures
            match r {
                Some(values) => {
                    &&& values@.len() == self.degree * (self.witness@.len() + self.fixed@.len())
                    &&& forall|i: int, j: int|
                        0 <= i < self.degree && 0 <= j < self.witness@.len() ==> values@[i * (
                        self.witness@.len() + self.fixed@.len()) + j] == self.witness@[j].1@[i]
                    &&& forall|i: int, j: int|
                        0 <= i < self.degree && 0 <= j < self.fixed@.len() ==> values@[i * (
                        self.witness@.len() + self.fixed@.len()) + self.witness@.len() + j]
                            == self.fixed@[j].1@[i]
                },
                None => true,
            },
            // The trace exists exactly when every column has one value per
            // row.
            r is None <==> ((exists|j: int|
                0 <= j < self.witness@.len() && (#[trigger] self.witness@[j]).1@.len()
                    != self.degree) || (exists|j: int|
                0 <= j < self.fixed@.len() && (#[trigger] self.fixed@[j]).1@.len()
                    != self.degree)),
    {
        let nwit = self.witness.len();
        let nfix = self.fixed.len();
        let width = nwit + nfix;
        let degree = self.degree as usize;
        // Every column must have exactly `degree` values.
        let mut j: usize = 0;
        while j < nwit
            invariant
                nwit == self.witness@.len(),
                degree == self.degree,
                j <= nwit,
                forall|k: int| 0 <= k < j ==> (#[trigger] self.witness@[k]).1@.len()
                    == self.degree,
            decreases nwit - j,
        {
            if self.witness[j].1.len() != degree {
                return None;
            }
            j += 1;
        }
        let mut j: usize = 0;
        while j < nfix
            invariant
                nfix == self.fixed@.len(),
                degree == self.degree,
                j <= nfix,
                forall|k: int| 0 <= k < j ==> (#[trigger] self.fixed@[k]).1@.len() == self.degree,
            decreases nfix - j,
        {
            if self.fixed[j].1.len() != degree {
                return None;
            }
            j += 1;
        }
        proof {
            assert(self.degree as int * width as int <= 0x1000_0000 * 0x2000_0000int)
                by (nonlinear_arith)
                requires
                    self.degree <= 0x1000_0000,
                    0 <= width <= 0x2000_0000,
            ;
        }
        let mut values: Vec<u64> = Vec::new();
        let mut i: usize = 0;
        while i < degree
            invariant
                nwit == self.witness@.len(),
                nfix == self.fixed@.len(),
                width == nwit + nfix,
                degree == self.degree,
                self.degree <= 0x1000_0000,
                width <= 0x2000_0000,
                forall|k: int| 0 <= k < nwit ==> (#[trigger] self.witness@[k]).1@.len()
                    == self.degree,
                forall|k: int| 0 <= k < nfix ==> (#[trigger] self.fixed@[k]).1@.len()
                    == self.degree,
                i <= degree,
                values@.len() == i * width,
                forall|t: int, j: int| 0 <= t < i && 0 <= j < nwit ==> values@[t * width + j]
                    == self.witness@[j].1@[t],
                forall|t: int, j: int| 0 <= t < i && 0 <= j < nfix ==> values@[t * width + nwit
                    + j] == self.fixed@[j].1@[t],
            decreases degree - i,
        {
            let ghost row_start = values@.len() as int;
            proof {
                assert(row_start == i * width);
                assert((i + 1) * width == i * width + width) by (nonlinear_arith);
                assert(i * width <= 0x1000_0000 * 0x2000_0000int) by (nonlinear_arith)
                    requires
                        0 <= i <= 0x1000_0000,
                        0 <= width <= 0x2000_0000,
                ;
            }
            let mut j: usize = 0;
            while j < nwit
                invariant
                    nwit == self.witness@.len(),
                    width == nwit + nfix,
                    i < degree,
                    degree == self.degree,
                    forall|k: int| 0 <= k < nwit ==> (#[trigger] self.witness@[k]).1@.len()
                        == self.degree,
                    j <= nwit,
                    values@.len() == row_start + j,
                    row_start == i * width,
                    row_start + width <= 0x1000_0000 * 0x2000_0000int + 0x2000_0000int,
                    forall|k: int| 0 <= k < j ==> values@[row_start + k]
                        == self.witness@[k].1@[i as int],
                    forall|t: int, k: int| 0 <= t < i && 0 <= k < nwit ==> values@[t * width + k]
                        == self.witness@[k].1@[t],
                    forall|t: int, k: int| 0 <= t < i && 0 <= k < nfix ==> values@[t * width + nwit
                        + k] == self.fixed@[k].1@[t],
                decreases nwit - j,
            {
                proof {
                    assert forall|t: int| 0 <= t < i implies #[trigger] (t * width) + width <= i
                        * width by {
                        assert((t + 1) * width <= i * width) by (nonlinear_arith)
                            requires
                                t + 1 <= i,
                                width >= 0,
                        ;
                        assert((t + 1) * width == t * width + width) by (nonlinear_arith);
                    }
                }
                values.push(self.witness[j].1[i]);
                j += 1;
            }
            let mut j: usize = 0;
            while j < nfix
                invariant
                    nfix == self.fixed@.len(),
                    nwit == self.witness@.len(),
                    width == nwit + nfix,
                    i < degree,
                    degree == self.degree,
                    forall|k: int| 0 <= k < nfix ==> (#[trigger] self.fixed@[k]).1@.len()
                        == self.degree,
                    j <= nfix,
                    values@.len() == row_start + nwit + j,
                    row_start == i * width,
                    row_start + width <= 0x1000_0000 * 0x2000_0000int + 0x2000_0000int,
                    forall|k: int| 0 <= k < nwit ==> values@[row_start + k]
                        == self.witness@[k].1@[i as int],
                    forall|k: int| 0 <= k < j ==> values@[row_start + nwit + k]
                        == self.fixed@[k].1@[i as int],
                    forall|t: int, k: int| 0 <= t < i && 0 <= k < nwit ==> values@[t * width + k]
                        == self.witness@[k].1@[t],
                    forall|t: int, k: int| 0 <= t < i && 0 <= k < nfix ==> values@[t * width + nwit
                        + k] == self.fixed@[k].1@[t],
                decreases nfix - j,
            {
                proof {
                    assert forall|t: int| 0 <= t < i implies #[trigger] (t * width) + width <= i
                        * width by {
                        assert((t + 1) * width <= i * width) by (nonlinear_arith)
                            requires
                                t + 1 <= i,
                                width >= 0,
                        ;
                        assert((t + 1) * width == t * width + width) by (nonlinear_arith);
                    }
                }
                values.push(self.fixed[j].1[i]);
                j += 1;
            }
            proof {
                assert forall|t: int, k: int| 0 <= t < i + 1 && 0 <= k < nwit implies values@[t
                    * width + k] == self.witness@[k].1@[t] by {
                    if t == i {
                        assert(values@[row_start + k] == self.witness@[k].1@[i as int]);
                    }
                }
                assert forall|t: int, k: int| 0 <= t < i + 1 && 0 <= k < nfix implies values@[t
                    * width + nwit + k] == self.fixed@[k].1@[t] by {
                    if t == i {
                        assert(values@[row_start + nwit + k] == self.fixed@[k].1@[i as int]);
                    }
                }
                assert((i + 1) * width == i * width + width) by (nonlinear_arith);
            }
            i += 1;
        }
        Some(values)
    }

    /// The expressions a constraint builder must assert to be zero: the
    /// normalized form of every polynomial identity, with references
    /// resolved. Lookups, permutations and connect identities are outside
    /// this backend's fragment.
    pub fn assert_zero_expressions(&self) -> (r: Result<Vec<IndexedExpression>, EvalError>)
        requires
            self.witness@.len() + self.fixed@.len() <= 0x2000_0000,
        ensures
            match r {
                Ok(v) => {
                    &&& v@.len() == self.identities@.len()
                    &&& forall|k: int| 0 <= k < v@.len() ==> {
                        &&& (#[trigger] self.identities@[k]).kind is Polynomial
                        &&& self.identities@[k].left.selector is Some
                        &&& spec_indexed(
                            self.identities@[k].left.selector->0,
                            self.witness@.len(),
                        ) == Some(v@[k])
                    }
                },
                Err(_) => true,
            },
            // Extraction fails exactly on an identity this backend cannot
            // translate.
            r is Err <==> exists|k: int|
                0 <= k < self.identities@.len() && !spec_backend_accepts(
                    #[trigger] self.identities@[k],
                    self.witness@.len(),
                    self.fixed@.len(),
                ),
    {
        let mut out: Vec<IndexedExpression> = Vec::new();
        let mut k: usize = 0;
        while k < self.identities.len()
            invariant
                self.witness@.len() + self.fixed@.len() <= 0x2000_0000,
                k <= self.identities@.len(),
                out@.len() == k,
                forall|t: int| 0 <= t < k ==> {
                    &&& (#[trigger] self.identities@[t]).kind is Polynomial
                    &&& self.identities@[t].left.selector is Some
                    &&& spec_indexed(
                        self.identities@[t].left.selector->0,
                        self.witness@.len(),
                    ) == Some(out@[t])
                },
                forall|t: int| 0 <= t < k ==> spec_backend_accepts(
                    #[trigger] self.identities@[t],
                    self.witness@.len(),
                    self.fixed@.len(),
                ),
            decreases self.identities@.len() - k,
        {
            let id = &self.identities[k];
            match id.kind {
                IdentityKind::Polynomial => {},
                _ => {
                    proof {
                        assert(!spec_backend_accepts(
                            self.identities@[k as int],
                            self.witness@.len(),
                            self.fixed@.len(),
                        ));
                    }
                    return Err(EvalError::InvalidProgram);
                },
            }
            let sel = match &id.left.selector {
                Some(sel) => sel,
                None => {
                    proof {
                        assert(!spec_backend_accepts(
                            self.identities@[k as int],
                            self.witness@.len(),
                            self.fixed@.len(),
                        ));
                    }
                    return Err(EvalError::InvalidProgram);
                },
            };
            if id.left.expressions.len() != 0 || id.right.expressions.len() != 0
                || id.right.selector.is_some() {
                proof {
                    assert(!spec_backend_accepts(
                        self.identities@[k as int],
                        self.witness@.len(),
                        self.fixed@.len(),
                    ));
                }
                return Err(EvalError::InvalidProgram);
            }
            if !crate::expr::check_in_scope(sel, self.witness.len(), self.fixed.len()) {
                proof {
                    assert(!spec_backend_accepts(
                        self.identities@[k as int],
                        self.witness@.len(),
                        self.fixed@.len(),
                    ));
                }
                return Err(EvalError::InvalidProgram);
            }
            let ix = match self.to_indexed_expr(sel) {
                Ok(ix) => ix,
                Err(err) => {
                    proof {
                        assert(!spec_backend_accepts(
                            self.identities@[k as int],
                            self.witness@.len(),
                            self.fixed@.len(),
                        ));
                    }
                    return Err(err);
                },
            };
            out.push(ix);
            k += 1;
        }
        Ok(out)
    }
}

} // verus!
