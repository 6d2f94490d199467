//! The block processor: determines a satisfying witness for a block of rows
//! against a list of identities, by consuming a processing-sequence iterator
//! and applying the resulting updates until no further progress is made.
//!
//! Progress is monotone ([`data_extends`]): no cell value is ever replaced
//! and no range ever grows. Running over an already fully-known table leaves
//! it untouched.

use vstd::prelude::*;
use core::marker::PhantomData;
use crate::affine::AffineExpression;
use crate::eval::{RowPair, UnknownStrategy};
use crate::expr::{identity_in_scope, in_scope, AlgebraicExpression, Identity};
use crate::fixed::FixedData;
use crate::identity::IdentityProcessor;
use crate::machines::{targets_in_range, MutableState};
use crate::parsed::SelectedExpressions;
use crate::query::QueryProcessor;
use crate::rows::{
    data_extends, data_fully_known, data_wf, lemma_data_extends_refl, lemma_data_extends_trans,
    FinalizableData, RowFactory,
};
use crate::sequence::{Action, ProcessingSequenceIterator, SequenceStep};
use crate::types::{assignments_only, Constraint, EvalError, EvalValue};

verus! {

/// Marker: the processor carries an outer query.
pub struct WithCalldata;

/// Marker: the processor has no outer query.
pub struct WithoutCalldata;

/// Data needed to handle an outer query: a local copy of the caller's
/// left-hand side, mutated as values become known, and the right-hand side
/// this machine answers with.
pub struct OuterQuery {
    pub left: Vec<AffineExpression>,
    pub right: SelectedExpressions<AlgebraicExpression>,
}

/// Well-formed against a machine's fixed data.
pub open spec fn outer_query_wf(oq: OuterQuery, fixed: FixedData) -> bool {
    &&& forall|t: int| 0 <= t < oq.left@.len() ==> ((#[trigger] oq.left@[t]).wf()
        && oq.left@[t].spec_width() == fixed.spec_width())
    &&& oq.left@.len() == oq.right.expressions@.len()
    &&& match oq.right.selector {
        Some(s) => s.wf() && in_scope(s, fixed.witness_cols@.len(), fixed.fixed_cols@.len()),
        None => true,
    }
    &&& forall|t: int| 0 <= t < oq.right.expressions@.len() ==> ((
    #[trigger] oq.right.expressions@[t]).wf() && in_scope(
        oq.right.expressions@[t],
        fixed.witness_cols@.len(),
        fixed.fixed_cols@.len(),
    ))
}

impl OuterQuery {
    /// Pairs a caller's left-hand side with this machine's right-hand side.
    pub fn new(left: Vec<AffineExpression>, right: SelectedExpressions<AlgebraicExpression>) -> (r:
        OuterQuery)
        ensures
            r.left == left,
            r.right == right,
    {
        OuterQuery { left, right }
    }
}

/// Every identity of the list is well-formed and in scope.
pub open spec fn identities_in_scope(ids: Seq<Identity>, nwit: nat, nfix: nat) -> bool {
    forall|i: int| 0 <= i < ids.len() ==> identity_in_scope(#[trigger] ids[i], nwit, nfix)
}

/// A basic processor that determines a unique satisfying witness for a given
/// list of identities over a block of rows.
pub struct BlockProcessor<'a, CalldataAvailable> {
    /// The global index of the first row of `data`.
    pub row_offset: u64,
    /// The rows being processed.
    pub data: FinalizableData,
    /// The identities to satisfy.
    pub identities: &'a Vec<Identity>,
    /// The fixed data, shared by every component.
    pub fixed_data: &'a FixedData,
    /// Produces fresh rows seeded with the global range constraints.
    pub row_factory: RowFactory,
    /// Whether a committed column belongs to this machine.
    pub is_relevant_witness: Vec<bool>,
    /// The outer query, if any.
    pub outer_query: Option<OuterQuery>,
    pub _marker: PhantomData<CalldataAvailable>,
}

impl<'a, C> BlockProcessor<'a, C> {
    /// The processor's structural invariant.
    pub open spec fn wf(self) -> bool {
        &&& self.fixed_data.wf()
        &&& data_wf(self.data, self.fixed_data.witness_cols@.len())
        &&& self.data.rows@.len() == self.fixed_data.degree
        &&& self.row_offset == 0
        &&& forall|i: int| 0 <= i < self.data.finalized@.len() ==> !self.data.finalized@[i]
        &&& self.is_relevant_witness@.len() == self.fixed_data.witness_cols@.len()
        &&& identities_in_scope(
            self.identities@,
            self.fixed_data.witness_cols@.len(),
            self.fixed_data.fixed_cols@.len(),
        )
        &&& match self.outer_query {
            Some(oq) => outer_query_wf(oq, *self.fixed_data),
            None => true,
        }
    }
}

impl<'a> BlockProcessor<'a, WithoutCalldata> {
    /// A processor over `data`, owning the committed columns listed in
    /// `witness_cols`.
    pub fn new(
        row_offset: u64,
        data: FinalizableData,
        identities: &'a Vec<Identity>,
        fixed_data: &'a FixedData,
        row_factory: RowFactory,
        witness_cols: &Vec<u64>,
    ) -> (r: BlockProcessor<'a, WithoutCalldata>)
        requires
            fixed_data.wf(),
            data_wf(data, fixed_data.witness_cols@.len()),
            data.rows@.len() == fixed_data.degree,
            row_offset == 0,
            forall|i: int| 0 <= i < data.finalized@.len() ==> !data.finalized@[i],
            identities_in_scope(
                identities@,
                fixed_data.witness_cols@.len(),
                fixed_data.fixed_cols@.len(),
            ),
        ensures
            r.wf(),
            r.data == data,
            r.outer_query is None,
            r.identities == identities,
            r.fixed_data == fixed_data,
            r.row_offset == row_offset,
            r.row_factory == row_factory,
            // A column is owned exactly when it is listed.
            forall|i: int| 0 <= i < fixed_data.witness_cols@.len()
                ==> (#[trigger] r.is_relevant_witness@[i] == witness_cols@.contains(i as u64)),
    {
        let nwit = fixed_data.witness_count();
        let mut is_relevant_witness: Vec<bool> = Vec::new();
        let mut i: usize = 0;
        while i < nwit
            invariant
                i <= nwit,
                is_relevant_witness@.len() == i,
                forall|k: int| 0 <= k < i ==> !(#[trigger] is_relevant_witness@[k]),
            decreases nwit - i,
        {
            is_relevant_witness.push(false);
            i += 1;
        }
        let mut j: usize = 0;
        while j < witness_cols.len()
            invariant
                is_relevant_witness@.len() == nwit,
                j <= witness_cols@.len(),
                forall|k: int| 0 <= k < nwit ==> (#[trigger] is_relevant_witness@[k] == exists|
                    u: int,
                |
                    0 <= u < j && witness_cols@[u] == k as u64),
            decreases witness_cols@.len() - j,
        {
            let id = witness_cols[j];
            if id < nwit as u64 {
                is_relevant_witness[id as usize] = true;
            }
            j += 1;
        }
        proof {
            assert forall|i: int| 0 <= i < fixed_data.witness_cols@.len()
                implies (#[trigger] is_relevant_witness@[i] == witness_cols@.contains(
                i as u64,
            )) by {
                if witness_cols@.contains(i as u64) {
                    let u = choose|u: int| 0 <= u < witness_cols@.len() && witness_cols@[u]
                        == i as u64;
                    assert(exists|u: int|
                        0 <= u < witness_cols@.len() && witness_cols@[u] == i as u64);
                }
                if is_relevant_witness@[i] {
                    let u = choose|u: int|
                        0 <= u < witness_cols@.len() && witness_cols@[u] == i as u64;
                    assert(witness_cols@.contains(i as u64));
                }
            }
        }
        BlockProcessor {
            row_offset,
            data,
            identities,
            fixed_data,
            row_factory,
            is_relevant_witness,
            outer_query: None,
            _marker: PhantomData,
        }
    }

    /// Attaches an outer query, marking the processor as carrying calldata.
    pub fn with_outer_query(self, outer_query: OuterQuery) -> (r: BlockProcessor<
        'a,
        WithCalldata,
    >)
        requires
            self.wf(),
            outer_query_wf(outer_query, *self.fixed_data),
        ensures
            r.wf(),
            r.data == self.data,
            r.outer_query == Some(outer_query),
            r.identities == self.identities,
            r.fixed_data == self.fixed_data,
            r.is_relevant_witness == self.is_relevant_witness,
            r.row_offset == self.row_offset,
            r.row_factory == self.row_factory,
    {
        BlockProcessor {
            outer_query: Some(outer_query),
            _marker: PhantomData,
            row_offset: self.row_offset,
            data: self.data,
            identities: self.identities,
            fixed_data: self.fixed_data,
            row_factory: self.row_factory,
            is_relevant_witness: self.is_relevant_witness,
        }
    }

    /// Destroys itself and returns the data.
    pub fn finish(self) -> (r: FinalizableData)
        ensures
            r == self.data,
    {
        self.data
    }
}

impl<'a> BlockProcessor<'a, WithCalldata> {
    /// Destroys itself, returns the data and the updated left-hand side of
    /// the outer query.
    pub fn finish(self) -> (r: (FinalizableData, Vec<AffineExpression>))
        requires
            self.outer_query is Some,
        ensures
            r.0 == self.data,
            r.1 == self.outer_query->0.left,
    {
        let left = match self.outer_query {
            Some(oq) => oq.left,
            None => Vec::new(),
        };
        (self.data, left)
    }
}

impl<'a, C> BlockProcessor<'a, C> {
    /// Figures out unknown values by consuming the sequence iterator.
    /// Returns the assignments to outer-query columns.
    ///
    /// The table only ever extends: no value is overwritten, no range grows.
    /// An already fully-known table is left untouched, and where it satisfies
    /// a list of polynomial identities the run also succeeds outright.
    pub fn solve<Q: Fn(String) -> Result<Option<u64>, String>>(
        &mut self,
        ms: &mut MutableState,
        query_callback: &Q,
        sequence_iterator: &mut ProcessingSequenceIterator,
    ) -> (r: Result<Vec<(crate::expr::AlgebraicReference, Constraint)>, EvalError>)
        requires
            old(self).wf(),
            old(sequence_iterator).wf(),
            forall|q: String| #[trigger] call_requires(*query_callback, (q,)),
        ensures
            final(self).wf(),
            final(self).identities == old(self).identities,
            final(self).fixed_data == old(self).fixed_data,
            data_extends(final(self).data, old(self).data),
            data_fully_known(old(self).data) ==> final(self).data.rows == old(self).data.rows,
            r matches Ok(outer) ==> (assignments_only(outer@) && targets_in_range(
                outer@,
                old(self).fixed_data.witness_cols@.len(),
            )),
            final(self).outer_query is Some <==> old(self).outer_query is Some,
            // On success the iterator was consumed to exhaustion.
            r is Ok ==> final(sequence_iterator).spec_remaining() == 0,
            r matches Err(e) ==> (e is ConstraintUnsatisfiable || e is SubMachineFailure || e
                is ConflictingAssignment || e is RangeContradiction || e is QueryOracleFailure),
            // A machine with nothing to solve succeeds at once.
            (old(self).identities@.len() == 0 && old(self).fixed_data.witness_cols@.len() == 0
                && old(self).outer_query is None) ==> r is Ok,
            // With no committed columns and only polynomial identities, the
            // one possible failure is an unsatisfiable identity.
            (old(self).fixed_data.witness_cols@.len() == 0 && old(self).outer_query is None && (
            forall|k: int|
                0 <= k < old(self).identities@.len() ==> (#[trigger] old(
                    self,
                ).identities@[k]).kind is Polynomial)) ==> (r matches Err(e) ==> e
                is ConstraintUnsatisfiable),
            // A fully-known table satisfying a list of polynomial identities
            // solves successfully: nothing is left to do.
            (data_fully_known(old(self).data) && old(self).outer_query is None && (forall|k: int|
                0 <= k < old(self).identities@.len() ==> (#[trigger] old(
                    self,
                ).identities@[k]).kind is Polynomial) && crate::checker::all_identities_hold(
                old(self).identities@,
                *old(self).fixed_data,
                old(self).data.rows@,
                true,
            )) ==> r is Ok,
    {
        let mut outer_assignments: Vec<(crate::expr::AlgebraicReference, Constraint)> = Vec::new();
        let ghost orig = *self;
        proof {
            lemma_data_extends_refl(self.data);
        }
        loop
            invariant
                orig == *old(self),
                self.wf(),
                self.identities == orig.identities,
                self.fixed_data == orig.fixed_data,
                self.row_offset == orig.row_offset,
                self.is_relevant_witness == orig.is_relevant_witness,
                data_extends(self.data, orig.data),
                data_fully_known(orig.data) ==> self.data.rows == orig.data.rows,
                self.outer_query is Some <==> orig.outer_query is Some,
                sequence_iterator.wf(),
                assignments_only(outer_assignments@),
                targets_in_range(outer_assignments@, orig.fixed_data.witness_cols@.len()),
                forall|q: String| #[trigger] call_requires(*query_callback, (q,)),
            ensures
                orig == *old(self),
                self.wf(),
                self.identities == orig.identities,
                self.fixed_data == orig.fixed_data,
                self.row_offset == orig.row_offset,
                self.is_relevant_witness == orig.is_relevant_witness,
                data_extends(self.data, orig.data),
                data_fully_known(orig.data) ==> self.data.rows == orig.data.rows,
                self.outer_query is Some <==> orig.outer_query is Some,
                assignments_only(outer_assignments@),
                targets_in_range(outer_assignments@, orig.fixed_data.witness_cols@.len()),
                sequence_iterator.spec_remaining() == 0,
            decreases sequence_iterator.spec_remaining(),
        {
            proof {
                crate::sequence::lemma_remaining_nonneg(*sequence_iterator);
            }
            let step = match sequence_iterator.next() {
                Some(step) => step,
                None => {
                    break ;
                },
            };
            proof {
                crate::sequence::lemma_remaining_nonneg(*sequence_iterator);
            }
            let SequenceStep { row_delta, action } = step;
            // Guard against steps outside this block.
            if row_delta < -1 || row_delta >= (self.data.len() as i64) - 1 {
                sequence_iterator.report_progress(false);
                proof {
                    crate::sequence::lemma_remaining_nonneg(*sequence_iterator);
                }
                continue ;
            }
            let row_index = (1 + row_delta) as usize;
            let ghost before_step = self.data;
            let progress = match action {
                Action::InternalIdentity(identity_index) => {
                    if identity_index >= self.identities.len() {
                        false
                    } else {
                        match self.process_identity(ms, row_index, identity_index) {
                            Ok(p) => p,
                            Err(e) => {
                                proof {
                                    lemma_data_extends_trans(orig.data, before_step, self.data);
                                    if data_fully_known(orig.data) && orig.outer_query is None && (
                                    forall|k: int|
                                        0 <= k < orig.identities@.len() ==> (#[trigger] orig.identities@[k]).kind
                                            is Polynomial)
                                        && crate::checker::all_identities_hold(
                                        orig.identities@,
                                        *orig.fixed_data,
                                        orig.data.rows@,
                                        true,
                                    ) {
                                        assert(crate::checker::identity_holds(
                                            orig.identities@[identity_index as int],
                                            *orig.fixed_data,
                                            orig.data.rows@,
                                            true,
                                        ));
                                        assert(false);
                                    }
                                }
                                return Err(e);
                            },
                        }
                    }
                },
                Action::OuterQuery => {
                    if self.outer_query.is_some() {
                        match self.process_outer_query(row_index) {
                            Ok((p, new_outer)) => {
                                let ghost before = outer_assignments@;
                                let ghost fresh = new_outer@;
                                let mut rest = new_outer;
                                while rest.len() > 0
                                    invariant
                                        rest@.len() <= fresh.len(),
                                        rest@ == fresh.subrange(
                                            fresh.len() - rest@.len(),
                                            fresh.len() as int,
                                        ),
                                        assignments_only(fresh),
                                        targets_in_range(
                                            fresh,
                                            orig.fixed_data.witness_cols@.len(),
                                        ),
                                        assignments_only(outer_assignments@),
                                        targets_in_range(
                                            outer_assignments@,
                                            orig.fixed_data.witness_cols@.len(),
                                        ),
                                    decreases rest@.len(),
                                {
                                    let ghost done = fresh.len() - rest@.len();
                                    let kc = rest.remove(0);
                                    proof {
                                        assert(fresh.subrange(done, fresh.len() as int)[0]
                                            == fresh[done]);
                                        assert(fresh.subrange(done, fresh.len() as int).subrange(
                                            1,
                                            fresh.len() - done,
                                        ) == fresh.subrange(done + 1, fresh.len() as int));
                                    }
                                    outer_assignments.push(kc);
                                }
                                p
                            },
                            Err(e) => {
                                proof {
                                    lemma_data_extends_trans(orig.data, before_step, self.data);
                                }
                                return Err(e);
                            },
                        }
                    } else {
                        false
                    }
                },
                Action::ProverQueries => {
                    match self.process_queries(query_callback, row_index) {
                        Ok(p) => p,
                        Err(e) => {
                            proof {
                                lemma_data_extends_trans(orig.data, before_step, self.data);
                                if data_fully_known(orig.data) {
                                    assert(false);
                                }
                                if orig.fixed_data.witness_cols@.len() == 0 {
                                    assert(false);
                                }
                            }
                            return Err(e);
                        },
                    }
                },
            };
            proof {
                lemma_data_extends_refl(self.data);
                lemma_data_extends_trans(orig.data, before_step, self.data);
            }
            sequence_iterator.report_progress(progress);
            proof {
                crate::sequence::lemma_remaining_nonneg(*sequence_iterator);
            }
        }
        Ok(outer_assignments)
    }

    /// Given a row and identity index, computes any updates, applies them and
    /// returns whether progress was made.
    fn process_identity(&mut self, ms: &mut MutableState, row_index: usize, identity_index: usize)
        -> (r: Result<bool, EvalError>)
        requires
            old(self).wf(),
            row_index < old(self).data.rows@.len(),
            identity_index < old(self).identities@.len(),
        ensures
            final(self).wf(),
            final(self).identities == old(self).identities,
            final(self).fixed_data == old(self).fixed_data,
            final(self).row_offset == old(self).row_offset,
            final(self).is_relevant_witness == old(self).is_relevant_witness,
            data_extends(final(self).data, old(self).data),
            data_fully_known(old(self).data) ==> final(self).data.rows == old(self).data.rows,
            final(self).outer_query is Some <==> old(self).outer_query is Some,
            r matches Err(e) ==> (e is ConstraintUnsatisfiable || e is SubMachineFailure || e
                is ConflictingAssignment || e is RangeContradiction),
            // No progress means nothing changed.
            r == Result::<bool, EvalError>::Ok(false) ==> *final(self) == *old(self),
            // With no committed columns a polynomial identity can fail only
            // as unsatisfiable.
            (old(self).fixed_data.witness_cols@.len() == 0 && old(
                self,
            ).identities@[identity_index as int].kind is Polynomial) ==> (r matches Err(e) ==> e
                is ConstraintUnsatisfiable),
            // A polynomial identity already satisfied on the fully-known
            // anchored pair succeeds with no progress.
            (data_fully_known(old(self).data) && old(
                self,
            ).identities@[identity_index as int].kind is Polynomial && crate::expr::spec_eval(
                old(self).identities@[identity_index as int].left.selector->0,
                crate::checker::env_at(
                    *old(self).fixed_data,
                    old(self).data.rows@,
                    row_index as int,
                ),
            ) == Some(0int)) ==> r == Result::<bool, EvalError>::Ok(false),
    {
        let len = self.data.len();
        let next_index = if row_index + 1 == len {
            0
        } else {
            row_index + 1
        };
        let updates = {
            let rp = RowPair::new(
                self.data.row(row_index),
                self.data.row(next_index),
                self.row_offset + row_index as u64,
                self.fixed_data,
                UnknownStrategy::Unknown,
            );
            let processor = IdentityProcessor::new(self.fixed_data);
            proof {
                if data_fully_known(self.data) && self.identities@[identity_index as int].kind
                    is Polynomial && crate::expr::spec_eval(
                    self.identities@[identity_index as int].left.selector->0,
                    crate::checker::env_at(*self.fixed_data, self.data.rows@, row_index as int),
                ) == Some(0int) {
                    assert(next_index as int == (row_index as int + 1) % (
                    self.fixed_data.degree as int)) by {
                        if row_index + 1 == self.data.rows@.len() {
                            vstd::arithmetic::div_mod::lemma_mod_self_0(
                                self.fixed_data.degree as int,
                            );
                        } else {
                            vstd::arithmetic::div_mod::lemma_small_mod(
                                (row_index + 1) as nat,
                                self.fixed_data.degree as nat,
                            );
                        }
                    }
                    assert forall|val: Seq<int>| rp.val_consistent(val)
                        implies crate::expr::spec_eval(
                        self.identities@[identity_index as int].left.selector->0,
                        rp.env_of(val),
                    ) == Some(0int) by {
                        crate::checker::lemma_known_env(
                            rp,
                            self.data.rows@,
                            row_index as int,
                            next_index as int,
                            val,
                        );
                    }
                }
            }
            match processor.process_identity(ms, &self.identities[identity_index], &rp) {
                Ok(updates) => updates,
                Err(e) => {
                    proof {
                        lemma_data_extends_refl(self.data);
                    }
                    return Err(e);
                },
            }
        };
        proof {
            if self.fixed_data.witness_cols@.len() == 0 {
                assert(updates.constraints@.len() == 0) by {
                    if updates.constraints@.len() > 0 {
                        assert(updates.constraints@[0].0.poly_id.id
                            < self.fixed_data.witness_cols@.len());
                    }
                }
            }
        }
        self.apply_updates(row_index, &updates)
    }

    /// Asks the host oracle about every relevant, still-unknown cell of the
    /// row and applies the returned assignments.
    fn process_queries<Q: Fn(String) -> Result<Option<u64>, String>>(
        &mut self,
        query_callback: &Q,
        row_index: usize,
    ) -> (r: Result<bool, EvalError>)
        requires
            old(self).wf(),
            row_index < old(self).data.rows@.len(),
            forall|q: String| #[trigger] call_requires(*query_callback, (q,)),
        ensures
            final(self).wf(),
            final(self).identities == old(self).identities,
            final(self).fixed_data == old(self).fixed_data,
            final(self).row_offset == old(self).row_offset,
            final(self).is_relevant_witness == old(self).is_relevant_witness,
            data_extends(final(self).data, old(self).data),
            data_fully_known(old(self).data) ==> final(self).data.rows == old(self).data.rows,
            final(self).outer_query is Some <==> old(self).outer_query is Some,
            r matches Err(e) ==> (e is QueryOracleFailure || e is ConflictingAssignment || e
                is RangeContradiction),
            old(self).fixed_data.witness_cols@.len() == 0 ==> (r
                == Result::<bool, EvalError>::Ok(false) && *final(self) == *old(self)),
            // No progress means nothing changed.
            r == Result::<bool, EvalError>::Ok(false) ==> *final(self) == *old(self),
            // On an already fully-known row there is nothing to ask.
            crate::rows::spec_row_fully_known(old(self).data.rows@[row_index as int]) ==> r
                == Result::<bool, EvalError>::Ok(false),
    {
        let len = self.data.len();
        let next_index = if row_index + 1 == len {
            0
        } else {
            row_index + 1
        };
        let nwit = self.fixed_data.witness_count();
        let mut updates = EvalValue::complete_empty();
        {
            let rp = RowPair::new(
                self.data.row(row_index),
                self.data.row(next_index),
                self.row_offset + row_index as u64,
                self.fixed_data,
                UnknownStrategy::Unknown,
            );
            let qp = QueryProcessor::new(self.fixed_data, query_callback);
            let mut id: usize = 0;
            while id < nwit
                invariant
                    old(self).wf(),
                    *self == *old(self),
                    rp.wf(),
                    rp.fixed_data == self.fixed_data,
                    rp.current == self.data.rows@[row_index as int],
                    self.fixed_data.wf(),
                    nwit == self.fixed_data.witness_cols@.len(),
                    qp.fixed_data == self.fixed_data,
                    qp.query_callback == query_callback,
                    self.is_relevant_witness@.len() == nwit,
                    id <= nwit,
                    updates.wf(),
                    targets_in_range(updates.constraints@, nwit as nat),
                    assignments_only(updates.constraints@),
                    spec_row_fully_known_helper(self.data, row_index as int)
                        ==> updates.constraints@.len() == 0,
                    forall|q: String| #[trigger] call_requires(*query_callback, (q,)),
                decreases nwit - id,
            {
                if self.is_relevant_witness[id] {
                    let ev = match qp.process_query(&rp, id) {
                        Ok(ev) => ev,
                        Err(e) => {
                            proof {
                                lemma_data_extends_refl(self.data);
                            }
                            return Err(e);
                        },
                    };
                    let ghost before = updates.constraints@;
                    let ghost added = ev.constraints@;
                    updates.combine(ev);
                    proof {
                        assert forall|t: int| 0 <= t < updates.constraints@.len()
                            implies ((#[trigger] updates.constraints@[t]).0.poly_id.id < nwit
                            && updates.constraints@[t].1 is Assignment) by {
                            if t < before.len() {
                                assert(updates.constraints@[t] == before[t]);
                            } else {
                                assert(updates.constraints@[t] == added[t - before.len()]);
                            }
                        }
                    }
                }
                id += 1;
            }
        }
        proof {
            if self.fixed_data.witness_cols@.len() == 0 {
                assert(updates.constraints@.len() == 0) by {
                    if updates.constraints@.len() > 0 {
                        assert(updates.constraints@[0].0.poly_id.id
                            < self.fixed_data.witness_cols@.len());
                    }
                }
            }
        }
        self.apply_updates(row_index, &updates)
    }

    /// Evaluates the caller's left-hand side against this row, applies the
    /// local updates and returns the assignments to columns this machine does
    /// not own.
    fn process_outer_query(&mut self, row_index: usize) -> (r: Result<
        (bool, Vec<(crate::expr::AlgebraicReference, Constraint)>),
        EvalError,
    >)
        requires
            old(self).wf(),
            row_index < old(self).data.rows@.len(),
            old(self).outer_query is Some,
        ensures
            final(self).wf(),
            final(self).identities == old(self).identities,
            final(self).fixed_data == old(self).fixed_data,
            final(self).row_offset == old(self).row_offset,
            final(self).is_relevant_witness == old(self).is_relevant_witness,
            data_extends(final(self).data, old(self).data),
            data_fully_known(old(self).data) ==> final(self).data.rows == old(self).data.rows,
            r matches Ok(pr) ==> (assignments_only(pr.1@) && targets_in_range(
                pr.1@,
                old(self).fixed_data.witness_cols@.len(),
            )),
            // The returned assignments are exactly to columns this machine
            // does not own.
            r matches Ok(pr) ==> forall|t: int|
                0 <= t < pr.1@.len() ==> !old(self).is_relevant_witness@[(
                #[trigger] pr.1@[t]).0.poly_id.id as int],
            final(self).outer_query is Some <==> old(self).outer_query is Some,
            r matches Err(e) ==> (e is ConstraintUnsatisfiable || e is ConflictingAssignment || e
                is RangeContradiction),
            // No progress means nothing changed and nothing to hand back.
            r matches Ok(pr) ==> (!pr.0 ==> (pr.1@.len() == 0 && *final(self) == *old(self))),
    {
        let len = self.data.len();
        let next_index = if row_index + 1 == len {
            0
        } else {
            row_index + 1
        };
        let nwit = self.fixed_data.witness_count();
        let updates = {
            let rp = RowPair::new(
                self.data.row(row_index),
                self.data.row(next_index),
                self.row_offset + row_index as u64,
                self.fixed_data,
                UnknownStrategy::Unknown,
            );
            let processor = IdentityProcessor::new(self.fixed_data);
            let oq = match &self.outer_query {
                Some(oq) => oq,
                None => {
                    proof {
                        assert(false);
                    }
                    return Err(EvalError::SubMachineFailure);
                },
            };
            match processor.process_link(&oq.left, &oq.right, &rp) {
                Ok(updates) => updates,
                Err(e) => {
                    proof {
                        lemma_data_extends_refl(self.data);
                    }
                    return Err(e);
                },
            }
        };
        // Assignments to columns this machine does not own go to the caller.
        let mut outer_assignments: Vec<(crate::expr::AlgebraicReference, Constraint)> = Vec::new();
        let mut t: usize = 0;
        while t < updates.constraints.len()
            invariant
                old(self).wf(),
                *self == *old(self),
                updates.wf(),
                targets_in_range(updates.constraints@, self.fixed_data.witness_cols@.len()),
                assignments_only(updates.constraints@),
                self.is_relevant_witness@.len() == self.fixed_data.witness_cols@.len(),
                t <= updates.constraints@.len(),
                outer_assignments@.len() <= t,
                assignments_only(outer_assignments@),
                targets_in_range(outer_assignments@, self.fixed_data.witness_cols@.len()),
                forall|k: int| 0 <= k < outer_assignments@.len()
                    ==> !self.is_relevant_witness@[(#[trigger] outer_assignments@[k]).0.poly_id.id as int],
            decreases updates.constraints@.len() - t,
        {
            let (rf, c) = &updates.constraints[t];
            let id = rf.poly_id.id as usize;
            if !self.is_relevant_witness[id] {
                let ghost before = outer_assignments@;
                outer_assignments.push((*rf, *c));
                proof {
                    assert forall|k: int| 0 <= k < outer_assignments@.len()
                        implies ((#[trigger] outer_assignments@[k]).1 is Assignment
                        && outer_assignments@[k].0.poly_id.id
                            < self.fixed_data.witness_cols@.len()
                        && !self.is_relevant_witness@[outer_assignments@[k].0.poly_id.id as int]) by {
                        if k < before.len() {
                            assert(outer_assignments@[k] == before[k]);
                        } else {
                            assert(outer_assignments@[k].0 == updates.constraints@[t as int].0);
                            assert(outer_assignments@[k].1 == updates.constraints@[t as int].1);
                        }
                    }
                }
            }
            t += 1;
        }
        let progress = self.apply_updates(row_index, &updates)?;
        Ok((progress, outer_assignments))
    }

    /// Applies the updates of one step: an assignment to an owned column is
    /// written into its target cell of the anchored row pair; an assignment
    /// to any other column is substituted into every entry of the outer
    /// query's left-hand side. Returns whether the step produced any update.
    fn apply_updates(&mut self, row_index: usize, updates: &EvalValue) -> (r: Result<
        bool,
        EvalError,
    >)
        requires
            old(self).wf(),
            row_index < old(self).data.rows@.len(),
            updates.wf(),
            targets_in_range(updates.constraints@, old(self).fixed_data.witness_cols@.len()),
            assignments_only(updates.constraints@),
        ensures
            final(self).wf(),
            final(self).identities == old(self).identities,
            final(self).fixed_data == old(self).fixed_data,
            final(self).row_offset == old(self).row_offset,
            final(self).is_relevant_witness == old(self).is_relevant_witness,
            data_extends(final(self).data, old(self).data),
            data_fully_known(old(self).data) ==> final(self).data.rows == old(self).data.rows,
            r matches Ok(p) ==> (p == (updates.constraints@.len() != 0)),
            updates.constraints@.len() == 0 ==> (r == Result::<bool, EvalError>::Ok(false)
                && *final(self) == *old(self)),
            r matches Err(e) ==> (e is ConflictingAssignment || e is RangeContradiction),
            final(self).outer_query is Some <==> old(self).outer_query is Some,
            old(self).outer_query is Some ==> final(self).outer_query->0.left@.len() == old(
                self,
            ).outer_query->0.left@.len(),
            // Every owned assignment is present in its target cell.
            r is Ok ==> forall|t: int|
                0 <= t < updates.constraints@.len() ==> (match (#[trigger] updates.constraints@[t]).1 {
                    Constraint::Assignment(v) => old(self).is_relevant_witness@[updates.constraints@[t].0.poly_id.id as int]
                        ==> final(self).data.rows@[spec_target_row(
                        row_index as int,
                        updates.constraints@[t].0.next,
                        old(self).data.rows@.len() as int,
                    )].cells@[updates.constraints@[t].0.poly_id.id as int].value == Some(v),
                    Constraint::RangeConstraint(_) => true,
                }),
            // Every other assignment was substituted out of the outer query's
            // left-hand side: the answered variable no longer occurs there.
            (r is Ok && old(self).outer_query is Some) ==> forall|t: int, u: int|
                0 <= t < updates.constraints@.len() && 0 <= u
                    < final(self).outer_query->0.left@.len() ==> ((#[trigger] updates.constraints@[t]).1
                    is Assignment && !old(self).is_relevant_witness@[updates.constraints@[t].0.poly_id.id as int]
                    ==> !(#[trigger] final(self).outer_query->0.left@[u]).spec_occurs(
                    crate::machines::var_of_ref(updates.constraints@[t].0),
                )),
            // Substitution preserves the value: under any valuation assigning
            // each answered variable its answered value, every outer left
            // entry keeps its value.
            (r is Ok && old(self).outer_query is Some) ==> forall|u: int, val: Seq<int>|
                (0 <= u < final(self).outer_query->0.left@.len()
                    && crate::affine::valuation_wf(val) && val.len() == old(
                    self,
                ).fixed_data.spec_width() && subst_consistent(
                    val,
                    updates.constraints@,
                    updates.constraints@.len() as int,
                    old(self).is_relevant_witness@,
                )) ==> #[trigger] final(self).outer_query->0.left@[u].spec_value(val) == old(
                    self,
                ).outer_query->0.left@[u].spec_value(val),
    {
        proof {
            lemma_data_extends_refl(self.data);
        }
        if updates.constraints.len() == 0 {
            return Ok(false);
        }
        let len = self.data.len();
        let next_index = if row_index + 1 == len {
            0
        } else {
            row_index + 1
        };
        let mut t: usize = 0;
        while t < updates.constraints.len()
            invariant
                old(self).wf(),
                self.wf(),
                self.identities == old(self).identities,
                self.fixed_data == old(self).fixed_data,
                self.row_offset == old(self).row_offset,
                self.is_relevant_witness == old(self).is_relevant_witness,
                data_extends(self.data, old(self).data),
                data_fully_known(old(self).data) ==> self.data.rows == old(self).data.rows,
                self.data.rows@.len() == old(self).data.rows@.len(),
                row_index < self.data.rows@.len(),
                next_index == spec_target_row(
                    row_index as int,
                    true,
                    old(self).data.rows@.len() as int,
                ),
                next_index < self.data.rows@.len(),
                updates.wf(),
                targets_in_range(updates.constraints@, old(self).fixed_data.witness_cols@.len()),
                assignments_only(updates.constraints@),
                t <= updates.constraints@.len(),
                self.outer_query is Some <==> old(self).outer_query is Some,
                old(self).outer_query is Some ==> self.outer_query->0.left@.len() == old(
                    self,
                ).outer_query->0.left@.len(),
                old(self).outer_query is Some ==> (forall|u: int|
                    0 <= u < self.outer_query->0.left@.len() ==> ((
                    #[trigger] self.outer_query->0.left@[u]).wf()
                        && self.outer_query->0.left@[u].spec_width()
                        == old(self).fixed_data.spec_width())),
                forall|tt: int|
                    0 <= tt < t ==> (match (#[trigger] updates.constraints@[tt]).1 {
                        Constraint::Assignment(v) => old(self).is_relevant_witness@[updates.constraints@[tt].0.poly_id.id as int]
                            ==> self.data.rows@[spec_target_row(
                            row_index as int,
                            updates.constraints@[tt].0.next,
                            old(self).data.rows@.len() as int,
                        )].cells@[updates.constraints@[tt].0.poly_id.id as int].value == Some(v),
                        Constraint::RangeConstraint(_) => true,
                    }),
                old(self).outer_query is Some ==> (forall|tt: int, u: int|
                    0 <= tt < t && 0 <= u < self.outer_query->0.left@.len() ==> ((
                    #[trigger] updates.constraints@[tt]).1 is Assignment && !old(
                        self,
                    ).is_relevant_witness@[updates.constraints@[tt].0.poly_id.id as int]
                        ==> !(#[trigger] self.outer_query->0.left@[u]).spec_occurs(
                        crate::machines::var_of_ref(updates.constraints@[tt].0),
                    ))),
                old(self).outer_query is Some ==> (forall|u: int, val: Seq<int>|
                    (0 <= u < self.outer_query->0.left@.len() && crate::affine::valuation_wf(val)
                        && val.len() == old(self).fixed_data.spec_width() && subst_consistent(
                        val,
                        updates.constraints@,
                        t as int,
                        old(self).is_relevant_witness@,
                    )) ==> #[trigger] self.outer_query->0.left@[u].spec_value(val) == old(
                        self,
                    ).outer_query->0.left@[u].spec_value(val)),
            decreases updates.constraints@.len() - t,
        {
            let (rf, c) = &updates.constraints[t];
            let id = rf.poly_id.id as usize;
            let is_local = self.is_relevant_witness[id];
            if is_local {
                let target_row = if rf.next {
                    next_index
                } else {
                    row_index
                };
                let ghost before = self.data;
                match self.data.apply_cell_update(target_row, id, c) {
                    Ok(applied) => {
                        proof {
                            lemma_data_extends_trans(old(self).data, before, self.data);
                            assert(match *c {
                                Constraint::Assignment(v) => self.data.rows@[target_row as int].cells@[id as int].value
                                    == Some(v),
                                Constraint::RangeConstraint(_) => true,
                            }) by {
                                if !applied {
                                    assert(self.data == before);
                                }
                            }
                            if data_fully_known(old(self).data) {
                                assert(before.rows == old(self).data.rows);
                                assert(spec_row_fully_known_helper(before, target_row as int));
                                assert(before.rows@[target_row as int].cells@[id as int].value
                                    is Some);
                            }
                            // Earlier placements persist: a present value is
                            // never replaced.
                            assert forall|tt: int| 0 <= tt < t implies (match (
                            #[trigger] updates.constraints@[tt]).1 {
                                Constraint::Assignment(v) => old(self).is_relevant_witness@[updates.constraints@[tt].0.poly_id.id as int]
                                    ==> self.data.rows@[spec_target_row(
                                    row_index as int,
                                    updates.constraints@[tt].0.next,
                                    old(self).data.rows@.len() as int,
                                )].cells@[updates.constraints@[tt].0.poly_id.id as int].value
                                    == Some(v),
                                Constraint::RangeConstraint(_) => true,
                            }) by {
                                let trow = spec_target_row(
                                    row_index as int,
                                    updates.constraints@[tt].0.next,
                                    old(self).data.rows@.len() as int,
                                );
                                assert(crate::rows::row_extends(
                                    self.data.rows@[trow],
                                    before.rows@[trow],
                                ));
                            }
                        }
                    },
                    Err(e) => {
                        return Err(e);
                    },
                }
            } else {
                match c {
                    Constraint::Assignment(v) => {
                        let value = *v;
                        let var = 2 * id + if rf.next {
                            1
                        } else {
                            0
                        };
                        proof {
                            assert(var == crate::machines::var_of_ref(
                                updates.constraints@[t as int].0,
                            ));
                        }
                        let nleft = match &self.outer_query {
                            Some(oq) => oq.left.len(),
                            None => 0,
                        };
                        let ghost mid = *self;
                        let mut k: usize = 0;
                        while k < nleft
                            invariant
                                old(self).wf(),
                                self.wf(),
                                self.identities == old(self).identities,
                                self.fixed_data == old(self).fixed_data,
                                self.row_offset == old(self).row_offset,
                                self.is_relevant_witness == old(self).is_relevant_witness,
                                self.data == mid.data,
                                data_extends(self.data, old(self).data),
                                data_fully_known(old(self).data) ==> self.data.rows == old(
                                    self,
                                ).data.rows,
                                self.outer_query is Some <==> mid.outer_query is Some,
                                mid.outer_query is Some <==> old(self).outer_query is Some,
                                self.outer_query is Some ==> (self.outer_query->0.left@.len()
                                    == nleft && self.outer_query->0.right
                                    == mid.outer_query->0.right),
                                old(self).outer_query is Some ==> nleft == old(
                                    self,
                                ).outer_query->0.left@.len(),
                                k <= nleft,
                                var < self.fixed_data.spec_width(),
                                var == crate::machines::var_of_ref(
                                    updates.constraints@[t as int].0,
                                ),
                                value < crate::field::FIELD_MODULUS,
                                t < updates.constraints@.len(),
                                row_index < self.data.rows@.len(),
                                self.data.rows@.len() == old(self).data.rows@.len(),
                                targets_in_range(
                                    updates.constraints@,
                                    old(self).fixed_data.witness_cols@.len(),
                                ),
                                assignments_only(updates.constraints@),
                                forall|tt: int|
                                    0 <= tt < t ==> (match (
                                    #[trigger] updates.constraints@[tt]).1 {
                                        Constraint::Assignment(v) => old(self).is_relevant_witness@[updates.constraints@[tt].0.poly_id.id as int]
                                            ==> self.data.rows@[spec_target_row(
                                            row_index as int,
                                            updates.constraints@[tt].0.next,
                                            old(self).data.rows@.len() as int,
                                        )].cells@[updates.constraints@[tt].0.poly_id.id as int].value
                                            == Some(v),
                                        Constraint::RangeConstraint(_) => true,
                                    }),
                                self.outer_query is Some ==> (forall|u: int|
                                    0 <= u < nleft ==> ((
                                    #[trigger] self.outer_query->0.left@[u]).wf()
                                        && self.outer_query->0.left@[u].spec_width()
                                        == old(self).fixed_data.spec_width())),
                                self.outer_query is Some ==> (forall|u: int|
                                    0 <= u < k ==> !(
                                    #[trigger] self.outer_query->0.left@[u]).spec_occurs(
                                    var as int,
                                )),
                                self.outer_query is Some ==> (forall|u: int|
                                    k <= u < nleft ==> #[trigger] self.outer_query->0.left@[u]
                                        == mid.outer_query->0.left@[u]),
                                self.outer_query is Some ==> (forall|u: int, val: Seq<int>|
                                    (0 <= u < k && crate::affine::valuation_wf(val) && val.len()
                                        == old(self).fixed_data.spec_width() && val[var as int]
                                        == value as int)
                                        ==> #[trigger] self.outer_query->0.left@[u].spec_value(
                                        val,
                                    ) == mid.outer_query->0.left@[u].spec_value(val)),
                                old(self).outer_query is Some ==> (forall|tt: int, u: int|
                                    0 <= tt < t && 0 <= u < nleft ==> ((
                                    #[trigger] updates.constraints@[tt]).1 is Assignment && !old(
                                        self,
                                    ).is_relevant_witness@[updates.constraints@[tt].0.poly_id.id as int]
                                        ==> !(#[trigger] self.outer_query->0.left@[u]).spec_occurs(
                                        crate::machines::var_of_ref(updates.constraints@[tt].0),
                                    ))),
                            decreases nleft - k,
                        {
                            match &mut self.outer_query {
                                Some(oq) => {
                                    let entry = &mut oq.left[k];
                                    entry.assign(var, value);
                                },
                                None => {},
                            }
                            k += 1;
                        }
                        proof {
                            // Chain the per-entry preservation with the
                            // batch's earlier substitutions.
                            if old(self).outer_query is Some {
                                assert forall|u: int, val: Seq<int>|
                                    (0 <= u < self.outer_query->0.left@.len()
                                        && crate::affine::valuation_wf(val) && val.len() == old(
                                        self,
                                    ).fixed_data.spec_width() && subst_consistent(
                                        val,
                                        updates.constraints@,
                                        t + 1,
                                        old(self).is_relevant_witness@,
                                    ))
                                    implies #[trigger] self.outer_query->0.left@[u].spec_value(
                                    val,
                                ) == old(self).outer_query->0.left@[u].spec_value(val) by {
                                    assert(subst_consistent(
                                        val,
                                        updates.constraints@,
                                        t as int,
                                        old(self).is_relevant_witness@,
                                    ));
                                    assert(val[var as int] == value as int) by {
                                        assert(match updates.constraints@[t as int].1 {
                                            Constraint::Assignment(v) => !old(
                                                self,
                                            ).is_relevant_witness@[updates.constraints@[t as int].0.poly_id.id as int]
                                                ==> val[crate::machines::var_of_ref(
                                                updates.constraints@[t as int].0,
                                            )] == v as int,
                                            Constraint::RangeConstraint(_) => true,
                                        });
                                    }
                                    assert(self.outer_query->0.left@[u].spec_value(val)
                                        == mid.outer_query->0.left@[u].spec_value(val));
                                    assert(mid.outer_query->0.left@[u].spec_value(val) == old(
                                        self,
                                    ).outer_query->0.left@[u].spec_value(val));
                                }
                            }
                        }
                    },
                    Constraint::RangeConstraint(_) => {
                        proof {
                            assert(updates.constraints@[t as int].1 is Assignment);
                        }
                    },
                }
            }
            proof {
                assert(match updates.constraints@[t as int].1 {
                    Constraint::Assignment(v) => old(self).is_relevant_witness@[updates.constraints@[t as int].0.poly_id.id as int]
                        ==> self.data.rows@[spec_target_row(
                        row_index as int,
                        updates.constraints@[t as int].0.next,
                        old(self).data.rows@.len() as int,
                    )].cells@[updates.constraints@[t as int].0.poly_id.id as int].value == Some(
                        v,
                    ),
                    Constraint::RangeConstraint(_) => true,
                });
            }
            t += 1;
        }
        Ok(true)
    }
}

/// Whether a given row of the table is fully known.
pub open spec fn spec_row_fully_known_helper(d: FinalizableData, i: int) -> bool {
    crate::rows::spec_row_fully_known(d.rows@[i])
}

/// A valuation agrees with the first `n` non-owned assignments of an update
/// batch: each answered variable carries its answered value.
pub open spec fn subst_consistent(
    val: Seq<int>,
    cs: Seq<(crate::expr::AlgebraicReference, Constraint)>,
    n: int,
    owned: Seq<bool>,
) -> bool {
    forall|t: int| 0 <= t < n ==> (match (#[trigger] cs[t]).1 {
        Constraint::Assignment(v) => !owned[cs[t].0.poly_id.id as int] ==> val[crate::machines::var_of_ref(
            cs[t].0,
        )] == v as int,
        Constraint::RangeConstraint(_) => true,
    })
}

/// The row a constraint lands on, relative to the anchored row: the anchor
/// itself, or the row after it with wrap-around at the block's end.
pub open spec fn spec_target_row(row_index: int, next: bool, len: int) -> int {
    if next {
        if row_index + 1 == len {
            0int
        } else {
            row_index + 1
        }
    } else {
        row_index
    }
}

/// The zero-filled view of a table: every unknown cell reads as zero.
pub open spec fn zero_fill_rel(z: Seq<crate::rows::Row>, orig: Seq<crate::rows::Row>) -> bool {
    &&& z.len() == orig.len()
    &&& forall|r: int| 0 <= r < z.len() ==> (#[trigger] z[r]).cells@.len()
        == orig[r].cells@.len()
    &&& forall|r: int, i: int| 0 <= r < z.len() && 0 <= i < z[r].cells@.len()
        ==> (#[trigger] z[r].cells@[i]).value == Some(
        match orig[r].cells@[i].value {
            Some(v) => v,
            None => 0u64,
        },
    )
}

impl<'a, C> BlockProcessor<'a, C> {
    /// Evaluates all identities on all *non-wrapping* row pairs, assuming
    /// zero for unknown values: succeeds exactly when every identity holds of
    /// the zero-filled table on those pairs.
    pub fn check_constraints(&self) -> (r: Result<(), EvalError>)
        requires
            self.wf(),
        ensures
            r is Ok <==> (forall|z: Seq<crate::rows::Row>|
                zero_fill_rel(z, self.data.rows@) ==> crate::checker::all_identities_hold(
                    self.identities@,
                    *self.fixed_data,
                    z,
                    false,
                )),
            r is Ok ==> exists|z: Seq<crate::rows::Row>| zero_fill_rel(z, self.data.rows@)
                && crate::checker::all_identities_hold(self.identities@, *self.fixed_data, z, false),
            r matches Err(e) ==> e is ConstraintUnsatisfiable,
    {
        let nwit = self.fixed_data.witness_count();
        let n = self.data.len();
        let mut rows: Vec<crate::rows::Row> = Vec::new();
        let mut finalized: Vec<bool> = Vec::new();
        let unconstrained = crate::range::RangeConstraint::unconstrained();
        let mut r: usize = 0;
        while r < n
            invariant
                self.wf(),
                nwit == self.fixed_data.witness_cols@.len(),
                n == self.data.rows@.len(),
                forall|v: u64| crate::field::in_field(v) ==> unconstrained.spec_allows(v),
                r <= n,
                rows@.len() == r,
                finalized@.len() == r,
                forall|t: int| 0 <= t < r ==> !finalized@[t],
                forall|t: int| 0 <= t < r ==> crate::rows::row_wf(#[trigger] rows@[t], nwit as nat),
                forall|t: int| 0 <= t < r ==> (#[trigger] rows@[t]).cells@.len()
                    == self.data.rows@[t].cells@.len(),
                forall|t: int, i: int| 0 <= t < r && 0 <= i < rows@[t].cells@.len()
                    ==> (#[trigger] rows@[t].cells@[i]).value == Some(
                    match self.data.rows@[t].cells@[i].value {
                        Some(v) => v,
                        None => 0u64,
                    },
                ),
            decreases n - r,
        {
            let src = self.data.row(r);
            let mut cells: Vec<crate::rows::Cell> = Vec::new();
            let mut i: usize = 0;
            while i < src.cells.len()
                invariant
                    self.wf(),
                    nwit == self.fixed_data.witness_cols@.len(),
                    r < n,
                    n == self.data.rows@.len(),
                    *src == self.data.rows@[r as int],
                    crate::rows::row_wf(*src, nwit as nat),
                    forall|v: u64| crate::field::in_field(v) ==> unconstrained.spec_allows(v),
                    i <= src.cells@.len(),
                    cells@.len() == i,
                    forall|t: int| 0 <= t < i ==> crate::rows::cell_wf(#[trigger] cells@[t]),
                    forall|t: int| 0 <= t < i ==> (#[trigger] cells@[t]).value == Some(
                        match src.cells@[t].value {
                            Some(v) => v,
                            None => 0u64,
                        },
                    ),
                decreases src.cells@.len() - i,
            {
                let v = match src.cells[i].value {
                    Some(v) => v,
                    None => 0,
                };
                proof {
                    assert(crate::rows::cell_wf(src.cells@[i as int]));
                    assert(crate::field::in_field(v));
                    assert(unconstrained.spec_allows(v));
                    assert(crate::rows::cell_wf(
                        crate::rows::Cell { value: Some(v), range: unconstrained },
                    ));
                }
                cells.push(crate::rows::Cell { value: Some(v), range: unconstrained });
                i += 1;
            }
            rows.push(crate::rows::Row { cells });
            finalized.push(false);
            r += 1;
        }
        let zdata = crate::rows::FinalizableData { rows, finalized };
        let outcome = crate::checker::check_identities(
            self.fixed_data,
            self.identities,
            &zdata,
            false,
        );
        proof {
            assert(zero_fill_rel(zdata.rows@, self.data.rows@));
            // Any zero-filled view of this table satisfies the same
            // identities as the one just checked: the environments read only
            // the cell values, which the relation pins.
            assert forall|z: Seq<crate::rows::Row>| zero_fill_rel(z, self.data.rows@)
                implies crate::checker::all_identities_hold(
                self.identities@,
                *self.fixed_data,
                z,
                false,
            ) == crate::checker::all_identities_hold(
                self.identities@,
                *self.fixed_data,
                zdata.rows@,
                false,
            ) by {
                assert forall|t: int, i: int|
                    0 <= t < zdata.rows@.len() && 0 <= i < zdata.rows@[t].cells@.len()
                    implies (#[trigger] zdata.rows@[t].cells@[i]).value == z[t].cells@[i].value by {
                    assert(zdata.rows@[t].cells@[i].value == Some(
                        match self.data.rows@[t].cells@[i].value {
                            Some(v) => v,
                            None => 0u64,
                        },
                    ));
                }
                crate::checker::lemma_identities_congruent(
                    self.identities@,
                    *self.fixed_data,
                    zdata.rows@,
                    z,
                    false,
                );
            }
        }
        match outcome {
            Ok(_) => Ok(()),
            Err(err) => Err(err),
        }
    }
}

} // verus!
