//! The constraint and error vocabulary shared by the solver's components.

use vstd::prelude::*;
use crate::expr::AlgebraicReference;
use crate::field::in_field;
use crate::range::RangeConstraint;

verus! {

/// A fatal or deferrable failure of a solving step.
#[derive(Debug, Clone, PartialEq, Eq)]
pub enum EvalError {
    /// An identity evaluated to a non-zero constant.
    ConstraintUnsatisfiable,
    /// An attempt to set a cell to a value different from its current one.
    ConflictingAssignment,
    /// Solving finished with cells still unknown.
    IncompleteProgress,
    /// A callee machine returned a fatal error.
    SubMachineFailure,
    /// The host query oracle returned an error; the payload is its message.
    QueryOracleFailure(String),
    /// A step would need the product of two non-constant affine expressions.
    /// Non-fatal: the step is deferred as "no progress".
    NonLinearStep,
    /// Combined range constraints became empty.
    RangeContradiction,
    /// The analyzed program violates the solver's input contract (a
    /// reference out of range, an uninlined intermediate polynomial, a size
    /// beyond the supported bounds): a setup-time error.
    InvalidProgram,
}

/// What solving produced for one cell: a definitive value or a narrowing of
/// the allowed set.
#[derive(Debug, Clone, Copy, PartialEq, Eq, Structural)]
pub enum Constraint {
    Assignment(u64),
    RangeConstraint(RangeConstraint),
}

impl Constraint {
    /// Well-formed: an assigned value is a canonical field element.
    pub open spec fn wf(self) -> bool {
        match self {
            Constraint::Assignment(v) => in_field(v),
            Constraint::RangeConstraint(_) => true,
        }
    }
}

/// Every constraint is a definitive assignment (no range narrowing).
pub open spec fn assignments_only(cs: Seq<(AlgebraicReference, Constraint)>) -> bool {
    forall|t: int| 0 <= t < cs.len() ==> (#[trigger] cs[t]).1 is Assignment
}

/// The result of processing one identity or query: constraints on referenced
/// cells, and whether the identity was fully resolved.
#[derive(Debug, Clone, PartialEq, Eq)]
pub struct EvalValue {
    pub constraints: Vec<(AlgebraicReference, Constraint)>,
    pub complete: bool,
}

impl EvalValue {
    /// Every produced constraint is well-formed and names a committed column.
    pub open spec fn wf(self) -> bool {
        forall|i: int| 0 <= i < self.constraints@.len() ==> {
            &&& (#[trigger] self.constraints@[i]).1.wf()
            &&& self.constraints@[i].0.poly_id.ptype is Committed
        }
    }

    /// An empty, complete result.
    pub fn complete_empty() -> (r: EvalValue)
        ensures
            r.wf(),
            r.constraints@.len() == 0,
            r.complete,
    {
        EvalValue { constraints: Vec::new(), complete: true }
    }

    /// An empty, incomplete result: the step made no progress and must be
    /// retried later.
    pub fn incomplete_empty() -> (r: EvalValue)
        ensures
            r.wf(),
            r.constraints@.len() == 0,
            !r.complete,
    {
        EvalValue { constraints: Vec::new(), complete: false }
    }

    /// Merges another result into this one: the constraints accumulate and
    /// completeness is the conjunction.
    pub fn combine(&mut self, other: EvalValue)
        requires
            old(self).wf(),
            other.wf(),
        ensures
            final(self).wf(),
            final(self).constraints@ == old(self).constraints@ + other.constraints@,
            final(self).complete == (old(self).complete && other.complete),
    {
        let mut rest = other.constraints;
        let ghost orig = self.constraints@;
        let ghost extra = rest@;
        while rest.len() > 0
            invariant
                rest@.len() <= extra.len(),
                rest@ == extra.subrange(extra.len() - rest@.len(), extra.len() as int),
                self.complete == old(self).complete,
                self.constraints@ == orig + extra.subrange(0, extra.len() - rest@.len()),
                forall|j: int| 0 <= j < orig.len() + extra.len() ==> ((#[trigger] (orig + extra)[j]).1.wf()
                    && (orig + extra)[j].0.poly_id.ptype is Committed),
            decreases rest@.len(),
        {
            let ghost done = extra.len() - rest@.len();
            let kc = rest.remove(0);
            self.constraints.push(kc);
            proof {
                assert(extra.subrange(0, done + 1) == extra.subrange(0, done).push(extra[done]));
                assert(extra.subrange(done, extra.len() as int)[0] == extra[done]);
                assert(extra.subrange(done, extra.len() as int).subrange(1,
                    extra.len() - done) == extra.subrange(done + 1, extra.len() as int));
            }
        }
        proof {
            assert(extra.subrange(0, extra.len() as int) == extra);
        }
        self.complete = self.complete && other.complete;
        proof {
            assert forall|j: int| 0 <= j < self.constraints@.len() implies ((#[trigger] self.constraints@[j]).1.wf()
                && self.constraints@[j].0.poly_id.ptype is Committed) by {
                assert(self.constraints@[j] == (orig + extra)[j]);
            }
        }
    }
}

} // verus!
