//! The query processor: dispatches prover-query hints to the host-supplied
//! oracle for cells no identity determines.

use vstd::prelude::*;
use crate::eval::RowPair;
use crate::expr::{AlgebraicReference, PolyId, PolynomialType};
use crate::field::fe_reduce;
use crate::fixed::FixedData;
use crate::machines::targets_in_range;
use crate::types::{assignments_only, Constraint, EvalError, EvalValue};

verus! {

/// Dispatches prover queries. The oracle maps a canonical query string to an
/// optional field value; `None` leaves the cell unknown, an error is fatal.
pub struct QueryProcessor<'a, Q> {
    pub fixed_data: &'a FixedData,
    pub query_callback: &'a Q,
}

impl<'a, Q: Fn(String) -> Result<Option<u64>, String>> QueryProcessor<'a, Q> {
    /// A processor over the given fixed data and oracle.
    pub fn new(fixed_data: &'a FixedData, query_callback: &'a Q) -> (r: QueryProcessor<'a, Q>)
        ensures
            r.fixed_data == fixed_data,
            r.query_callback == query_callback,
    {
        QueryProcessor { fixed_data, query_callback }
    }

    /// Asks the oracle about the cell of `poly_id` on the pair's anchor row,
    /// if that cell is still unknown and the column has a registered query.
    ///
    /// A known cell and a column without a query yield no constraint without
    /// consulting the oracle. Otherwise the oracle is invoked with the
    /// column's registered query string: an answer assigns its value reduced
    /// into the field, no answer leaves the cell unknown, and an oracle error
    /// is fatal.
    pub fn process_query(&self, rp: &RowPair, poly_id: usize) -> (r: Result<EvalValue, EvalError>)
        requires
            rp.wf(),
            rp.fixed_data == self.fixed_data,
            poly_id < self.fixed_data.witness_cols@.len(),
            forall|q: String| #[trigger] call_requires(*self.query_callback, (q,)),
        ensures
            match r {
                Ok(ev) => {
                    &&& ev.wf()
                    &&& targets_in_range(ev.constraints@, self.fixed_data.witness_cols@.len())
                    &&& assignments_only(ev.constraints@)
                    &&& (rp.current.cells@[poly_id as int].value is Some ==> (ev.constraints@.len()
                        == 0 && ev.complete))
                    &&& (rp.current.cells@[poly_id as int].value is None ==> match self.fixed_data.witness_cols@[poly_id as int].query {
                        None => ev.constraints@.len() == 0 && !ev.complete,
                        Some(q) => {
                            ||| (exists|v: u64|
                                #[trigger] call_ensures(*self.query_callback, (q,), Ok(Some(v)))
                                    && ev.complete && ev.constraints@.len() == 1
                                    && ev.constraints@[0].0 == (AlgebraicReference {
                                    poly_id: PolyId {
                                        id: poly_id as u64,
                                        ptype: PolynomialType::Committed,
                                    },
                                    next: false,
                                }) && (ev.constraints@[0].1 matches Constraint::Assignment(w)
                                    && w == v as int % (crate::field::FIELD_MODULUS as int)))
                            ||| (call_ensures(*self.query_callback, (q,), Ok(None))
                                && ev.constraints@.len() == 0 && !ev.complete)
                        },
                    })
                },
                Err(e) => e matches EvalError::QueryOracleFailure(msg)
                    && (rp.current.cells@[poly_id as int].value is None
                    && (self.fixed_data.witness_cols@[poly_id as int].query matches Some(q)
                    && call_ensures(*self.query_callback, (q,), Err(msg)))),
            },
    {
        if rp.current.cells[poly_id].value.is_some() {
            return Ok(EvalValue::complete_empty());
        }
        let query = match &self.fixed_data.witness_cols[poly_id].query {
            Some(q) => q.clone(),
            None => {
                return Ok(EvalValue::incomplete_empty());
            },
        };
        match (self.query_callback)(query) {
            Ok(Some(v)) => {
                let value = fe_reduce(v);
                let rf = AlgebraicReference {
                    poly_id: PolyId { id: poly_id as u64, ptype: PolynomialType::Committed },
                    next: false,
                };
                let mut constraints: Vec<(AlgebraicReference, Constraint)> = Vec::new();
                constraints.push((rf, Constraint::Assignment(value)));
                Ok(EvalValue { constraints, complete: true })
            },
            Ok(None) => Ok(EvalValue::incomplete_empty()),
            Err(msg) => Err(EvalError::QueryOracleFailure(msg)),
        }
    }
}

} // verus!
