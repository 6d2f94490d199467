//! The identity processor: evaluates a single identity against a row pair
//! and returns either constraints on the referenced cells or an error.
//!
//! Polynomial identities solve their normalized expression; connect
//! identities reduce to equal-length equality constraints between the listed
//! expressions; lookups and permutations are routed to the machine owning the
//! right-hand side, which here is the fixed-column lookup.

use vstd::prelude::*;
use crate::affine::{AffineExpression, SolveResult};
use crate::eval::RowPair;
use crate::expr::{identity_in_scope, in_scope, Identity, IdentityKind};
use crate::fixed::FixedData;
use crate::machines::{assignments_to_eval_value, targets_in_range, MutableState};
use crate::types::{assignments_only, EvalError, EvalValue};

verus! {

/// Turns the solution of one affine constraint `a = 0` into an identity
/// answer: assignments become a complete answer, open cases an incomplete
/// one, and a non-zero constant is unsatisfiable.
pub fn solve_affine_to_eval(a: &AffineExpression, nwit: usize) -> (r: Result<EvalValue, EvalError>)
    requires
        a.wf(),
        a.spec_width() == 2 * nwit,
        nwit <= 0x1000_0000,
    ensures
        match r {
            Ok(ev) => ev.wf() && targets_in_range(ev.constraints@, nwit as nat)
                && assignments_only(ev.constraints@),
            Err(e) => e is ConstraintUnsatisfiable,
        },
        // An already-satisfied constant is answered with nothing to do.
        ((forall|i: int| 0 <= i < a.spec_width() ==> !a.spec_occurs(i)) && a.offset == 0) ==> (r
            matches Ok(ev) && (ev.constraints@.len() == 0 && ev.complete)),
{
    match a.solve() {
        SolveResult::Complete(cs) => {
            proof {
                assert forall|t: int| 0 <= t < cs@.len() implies ((#[trigger] cs@[t]).0 < 2 * nwit
                    && crate::field::in_field(cs@[t].1)) by {}
            }
            Ok(assignments_to_eval_value(cs, nwit))
        },
        SolveResult::ConstraintUnsatisfiable => Err(EvalError::ConstraintUnsatisfiable),
        SolveResult::Incomplete(_) => Ok(EvalValue::incomplete_empty()),
        SolveResult::MultipleSolutions => Ok(EvalValue::incomplete_empty()),
    }
}

/// Stateless with respect to the table: borrows the fixed data and routes
/// lookups through the mutable machine state.
pub struct IdentityProcessor<'a> {
    pub fixed_data: &'a FixedData,
}

impl<'a> IdentityProcessor<'a> {
    /// A processor over the given fixed data.
    pub fn new(fixed_data: &'a FixedData) -> (r: IdentityProcessor<'a>)
        ensures
            r.fixed_data == fixed_data,
    {
        IdentityProcessor { fixed_data }
    }

    /// Processes one identity against a row pair.
    ///
    /// A deferred step (a non-linear product, an unknown selector, an
    /// undecided lookup) yields an incomplete answer with no constraints; an
    /// identity violated outright yields the fatal error.
    pub fn process_identity(
        &self,
        ms: &mut MutableState,
        identity: &Identity,
        rp: &RowPair,
    ) -> (r: Result<EvalValue, EvalError>)
        requires
            rp.wf(),
            rp.fixed_data == self.fixed_data,
            rp.unknown_strategy is Unknown,
            identity_in_scope(
                *identity,
                self.fixed_data.witness_cols@.len(),
                self.fixed_data.fixed_cols@.len(),
            ),
        ensures
            match r {
                Ok(ev) => ev.wf() && targets_in_range(
                    ev.constraints@,
                    self.fixed_data.witness_cols@.len(),
                ) && assignments_only(ev.constraints@),
                Err(e) => e is ConstraintUnsatisfiable || e is SubMachineFailure,
            },
            // A polynomial identity whose expression has no genuinely
            // non-linear step is never deferred: it is either answered or
            // unsatisfiable.
            (identity.kind is Polynomial && crate::expr::evaluable(
                identity.left.selector->0,
                self.fixed_data.witness_cols@.len(),
                self.fixed_data.fixed_cols@.len(),
            )) ==> (r is Ok || (r matches Err(e) && e is ConstraintUnsatisfiable)),
            // A polynomial identity can fail in no other way.
            identity.kind is Polynomial ==> (r matches Err(e) ==> e is ConstraintUnsatisfiable),
            // A polynomial identity already satisfied on fully-known rows is
            // answered with nothing to do.
            (identity.kind is Polynomial && crate::rows::spec_row_fully_known(*rp.current)
                && crate::rows::spec_row_fully_known(*rp.next) && (forall|val: Seq<int>|
                rp.val_consistent(val) ==> crate::expr::spec_eval(
                    identity.left.selector->0,
                    rp.env_of(val),
                ) == Some(0int))) ==> (r matches Ok(ev) && ev.constraints@.len() == 0),
    {
        let nwit = self.fixed_data.witness_count();
        match identity.kind {
            IdentityKind::Polynomial => {
                match &identity.left.selector {
                    Some(sel) => {
                        match rp.evaluate(sel) {
                            Ok(a) => {
                                proof {
                                    if crate::rows::spec_row_fully_known(*rp.current)
                                        && crate::rows::spec_row_fully_known(*rp.next) && (forall|
                                        val: Seq<int>,
                                    |
                                        rp.val_consistent(val) ==> crate::expr::spec_eval(
                                            identity.left.selector->0,
                                            rp.env_of(val),
                                        ) == Some(0int)) {
                                        // Build the table's one consistent
                                        // valuation; the expression is a
                                        // satisfied constant under it.
                                        let nw = self.fixed_data.witness_cols@.len() as int;
                                        let kv = Seq::new(
                                            (2 * nw) as nat,
                                            |v: int|
                                                if v % 2 == 0 {
                                                    rp.current.cells@[v / 2].value->0 as int
                                                } else {
                                                    rp.next.cells@[v / 2].value->0 as int
                                                },
                                        );
                                        assert forall|v: int| 0 <= v < kv.len() implies 0
                                            <= #[trigger] kv[v]
                                            < crate::field::FIELD_MODULUS as int by {
                                            if v % 2 == 0 {
                                                assert(crate::rows::cell_wf(
                                                    rp.current.cells@[v / 2],
                                                ));
                                                assert(rp.current.cells@[v / 2].value is Some);
                                            } else {
                                                assert(crate::rows::cell_wf(
                                                    rp.next.cells@[v / 2],
                                                ));
                                                assert(rp.next.cells@[v / 2].value is Some);
                                            }
                                        }
                                        assert forall|i: int|
                                            0 <= i < nw && (
                                            #[trigger] rp.current.cells@[i]).value is Some
                                            implies kv[2 * i] == rp.current.cells@[i].value->0 as int by {
                                            assert((2 * i) % 2 == 0 && (2 * i) / 2 == i);
                                        }
                                        assert forall|i: int|
                                            0 <= i < nw && (#[trigger] rp.next.cells@[i]).value
                                                is Some implies kv[2 * i + 1]
                                            == rp.next.cells@[i].value->0 as int by {
                                            assert((2 * i + 1) % 2 == 1 && (2 * i + 1) / 2 == i);
                                        }
                                        assert(rp.val_consistent(kv));
                                        assert(crate::expr::spec_eval(
                                            identity.left.selector->0,
                                            rp.env_of(kv),
                                        ) == Some(0int));
                                        assert(a.spec_value(kv) == 0);
                                        crate::affine::lemma_constant_spec_value(a);
                                        assert(a.offset == 0);
                                    }
                                }
                                solve_affine_to_eval(&a, nwit)
                            },
                            Err(_) => Ok(EvalValue::incomplete_empty()),
                        }
                    },
                    None => {
                        proof {
                            assert(false);
                        }
                        Err(EvalError::ConstraintUnsatisfiable)
                    },
                }
            },
            IdentityKind::Connect => {
                let n = identity.left.expressions.len();
                let mut acc = EvalValue::complete_empty();
                let mut j: usize = 0;
                while j < n
                    invariant
                        rp.wf(),
                        rp.fixed_data == self.fixed_data,
                        rp.unknown_strategy is Unknown,
                        identity_in_scope(
                            *identity,
                            self.fixed_data.witness_cols@.len(),
                            self.fixed_data.fixed_cols@.len(),
                        ),
                        nwit == self.fixed_data.witness_cols@.len(),
                        self.fixed_data.wf(),
                        n == identity.left.expressions@.len(),
                        n == identity.right.expressions@.len(),
                        j <= n,
                        acc.wf(),
                        targets_in_range(acc.constraints@, nwit as nat),
                        assignments_only(acc.constraints@),
                    decreases n - j,
                {
                    let lv = match rp.evaluate(&identity.left.expressions[j]) {
                        Ok(a) => a,
                        Err(_) => {
                            let ghost before = acc.constraints@;
                            acc.combine(EvalValue::incomplete_empty());
                            proof {
                                assert(acc.constraints@ =~= before);
                            }
                            j += 1;
                            continue ;
                        },
                    };
                    let rv = match rp.evaluate(&identity.right.expressions[j]) {
                        Ok(a) => a,
                        Err(_) => {
                            let ghost before = acc.constraints@;
                            acc.combine(EvalValue::incomplete_empty());
                            proof {
                                assert(acc.constraints@ =~= before);
                            }
                            j += 1;
                            continue ;
                        },
                    };
                    let diff = lv.sub(&rv);
                    let ev = solve_affine_to_eval(&diff, nwit)?;
                    let ghost before = acc.constraints@;
                    let ghost added = ev.constraints@;
                    acc.combine(ev);
                    proof {
                        assert forall|t: int| 0 <= t < acc.constraints@.len()
                            implies ((#[trigger] acc.constraints@[t]).0.poly_id.id < nwit
                            && acc.constraints@[t].1 is Assignment) by {
                            if t < before.len() {
                                assert(acc.constraints@[t] == before[t]);
                            } else {
                                assert(acc.constraints@[t] == added[t - before.len()]);
                            }
                        }
                    }
                    j += 1;
                }
                Ok(acc)
            },
            IdentityKind::Plookup | IdentityKind::Permutation => {
                self.process_lookup_or_permutation(ms, identity, rp)
            },
        }
    }

    /// Routes a lookup or permutation: evaluates the left side against the
    /// row pair, then asks the machine owning the right side for matching
    /// assignments. A right side over fixed columns only goes to the
    /// fixed-column lookup; any other callee is unavailable here and
    /// surfaces as a sub-machine failure.
    fn process_lookup_or_permutation(
        &self,
        ms: &mut MutableState,
        identity: &Identity,
        rp: &RowPair,
    ) -> (r: Result<EvalValue, EvalError>)
        requires
            rp.wf(),
            rp.fixed_data == self.fixed_data,
            rp.unknown_strategy is Unknown,
            identity_in_scope(
                *identity,
                self.fixed_data.witness_cols@.len(),
                self.fixed_data.fixed_cols@.len(),
            ),
            identity.kind is Plookup || identity.kind is Permutation,
        ensures
            match r {
                Ok(ev) => ev.wf() && targets_in_range(
                    ev.constraints@,
                    self.fixed_data.witness_cols@.len(),
                ) && assignments_only(ev.constraints@),
                Err(e) => e is ConstraintUnsatisfiable || e is SubMachineFailure,
            },
    {
        let nwit = self.fixed_data.witness_count();
        let nfix = self.fixed_data.fixed_cols.len();
        // The left selector must be known; 0 disables the row, 1 selects it.
        match &identity.left.selector {
            Some(sel) => {
                let a = match rp.evaluate(sel) {
                    Ok(a) => a,
                    Err(_) => {
                        return Ok(EvalValue::incomplete_empty());
                    },
                };
                if !a.is_constant() {
                    return Ok(EvalValue::incomplete_empty());
                }
                let v = a.constant_value();
                if v == 0 {
                    return Ok(EvalValue::complete_empty());
                }
                if v != 1 {
                    return Err(EvalError::ConstraintUnsatisfiable);
                }
            },
            None => {},
        }
        // Evaluate the left expressions to affine form.
        let n = identity.left.expressions.len();
        let mut left: Vec<AffineExpression> = Vec::new();
        let mut j: usize = 0;
        while j < n
            invariant
                rp.wf(),
                rp.fixed_data == self.fixed_data,
                rp.unknown_strategy is Unknown,
                identity_in_scope(
                    *identity,
                    self.fixed_data.witness_cols@.len(),
                    self.fixed_data.fixed_cols@.len(),
                ),
                self.fixed_data.wf(),
                n == identity.left.expressions@.len(),
                j <= n,
                left@.len() == j,
                forall|t: int| 0 <= t < j ==> ((#[trigger] left@[t]).wf() && left@[t].spec_width()
                    == self.fixed_data.spec_width()),
            decreases n - j,
        {
            match rp.evaluate(&identity.left.expressions[j]) {
                Ok(a) => {
                    left.push(a);
                },
                Err(_) => {
                    return Ok(EvalValue::incomplete_empty());
                },
            }
            j += 1;
        }
        // Determine the callee from the right-hand side.
        if identity.right.selector.is_some() {
            return Err(EvalError::SubMachineFailure);
        }
        let mut all_fixed = true;
        let mut j: usize = 0;
        while j < identity.right.expressions.len()
            invariant
                identity_in_scope(
                    *identity,
                    self.fixed_data.witness_cols@.len(),
                    self.fixed_data.fixed_cols@.len(),
                ),
                nfix == self.fixed_data.fixed_cols@.len(),
                j <= identity.right.expressions@.len(),
                all_fixed ==> forall|t: int| 0 <= t < j ==> in_scope(
                    #[trigger] identity.right.expressions@[t],
                    0,
                    nfix as nat,
                ),
            decreases identity.right.expressions@.len() - j,
        {
            if !crate::expr::check_in_scope(&identity.right.expressions[j], 0, nfix) {
                all_fixed = false;
            }
            j += 1;
        }
        if !all_fixed {
            return Err(EvalError::SubMachineFailure);
        }
        if identity.left.expressions.len() != identity.right.expressions.len() {
            return Err(EvalError::SubMachineFailure);
        }
        ms.fixed_lookup.process_plookup(self.fixed_data, &left, &identity.right)
    }

    /// Evaluates a caller's left-hand side against this machine's rows: the
    /// callee side of an outer query. Produces equality constraints between
    /// the caller's affine expressions and the local right-hand values.
    pub fn process_link(
        &self,
        left: &Vec<AffineExpression>,
        right: &crate::parsed::SelectedExpressions<crate::expr::AlgebraicExpression>,
        rp: &RowPair,
    ) -> (r: Result<EvalValue, EvalError>)
        requires
            rp.wf(),
            rp.fixed_data == self.fixed_data,
            rp.unknown_strategy is Unknown,
            forall|t: int| 0 <= t < left@.len() ==> ((#[trigger] left@[t]).wf()
                && left@[t].spec_width() == self.fixed_data.spec_width()),
            match right.selector {
                Some(s) => s.wf() && in_scope(
                    s,
                    self.fixed_data.witness_cols@.len(),
                    self.fixed_data.fixed_cols@.len(),
                ),
                None => true,
            },
            left@.len() == right.expressions@.len(),
            forall|t: int| 0 <= t < right.expressions@.len() ==> ((
            #[trigger] right.expressions@[t]).wf() && in_scope(
                right.expressions@[t],
                self.fixed_data.witness_cols@.len(),
                self.fixed_data.fixed_cols@.len(),
            )),
        ensures
            match r {
                Ok(ev) => ev.wf() && targets_in_range(
                    ev.constraints@,
                    self.fixed_data.witness_cols@.len(),
                ) && assignments_only(ev.constraints@),
                Err(e) => e is ConstraintUnsatisfiable,
            },
    {
        let nwit = self.fixed_data.witness_count();
        // The local selector must be known and on for this row to answer.
        match &right.selector {
            Some(sel) => {
                let a = match rp.evaluate(sel) {
                    Ok(a) => a,
                    Err(_) => {
                        return Ok(EvalValue::incomplete_empty());
                    },
                };
                if !a.is_constant() {
                    return Ok(EvalValue::incomplete_empty());
                }
                let v = a.constant_value();
                if v == 0 {
                    return Ok(EvalValue::incomplete_empty());
                }
                if v != 1 {
                    return Err(EvalError::ConstraintUnsatisfiable);
                }
            },
            None => {},
        }
        let n = left.len();
        let mut acc = EvalValue::complete_empty();
        let mut j: usize = 0;
        while j < n
            invariant
                rp.wf(),
                rp.fixed_data == self.fixed_data,
                rp.unknown_strategy is Unknown,
                self.fixed_data.wf(),
                nwit == self.fixed_data.witness_cols@.len(),
                n == left@.len(),
                n == right.expressions@.len(),
                forall|t: int| 0 <= t < left@.len() ==> ((#[trigger] left@[t]).wf()
                    && left@[t].spec_width() == self.fixed_data.spec_width()),
                forall|t: int| 0 <= t < right.expressions@.len() ==> ((
                #[trigger] right.expressions@[t]).wf() && in_scope(
                    right.expressions@[t],
                    self.fixed_data.witness_cols@.len(),
                    self.fixed_data.fixed_cols@.len(),
                )),
                j <= n,
                acc.wf(),
                targets_in_range(acc.constraints@, nwit as nat),
                assignments_only(acc.constraints@),
            decreases n - j,
        {
            let rv = match rp.evaluate(&right.expressions[j]) {
                Ok(a) => a,
                Err(_) => {
                    let ghost before = acc.constraints@;
                    acc.combine(EvalValue::incomplete_empty());
                    proof {
                        assert(acc.constraints@ =~= before);
                    }
                    j += 1;
                    continue ;
                },
            };
            let diff = left[j].sub(&rv);
            let ev = solve_affine_to_eval(&diff, nwit)?;
            let ghost before = acc.constraints@;
            let ghost added = ev.constraints@;
            acc.combine(ev);
            proof {
                assert forall|t: int| 0 <= t < acc.constraints@.len()
                    implies ((#[trigger] acc.constraints@[t]).0.poly_id.id < nwit
                    && acc.constraints@[t].1 is Assignment) by {
                    if t < before.len() {
                        assert(acc.constraints@[t] == before[t]);
                    } else {
                        assert(acc.constraints@[t] == added[t - before.len()]);
                    }
                }
            }
            j += 1;
        }
        Ok(acc)
    }
}

} // verus!
