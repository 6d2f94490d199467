//! The top-level driver: builds the table, runs the solve loop to
//! saturation, validates the result against every identity, and hands back
//! the witness columns.
//!
//! The contract of [`generate_witness`] is the point of the library: on
//! success, the returned columns form a complete table of canonical field
//! elements on which every identity holds on every row, with wrap-around at
//! the last row, and every cell lies within its declared range constraint.

use vstd::prelude::*;
use crate::block::{BlockProcessor, WithoutCalldata};
use crate::checker::{all_identities_hold, check_identities};
use crate::expr::Identity;
use crate::field::{fe_reduce, in_field};
use crate::fixed::FixedData;
use crate::global_constraints::determine_global_constraints;
use crate::machines::{FixedLookup, MutableState};
use crate::rows::{
    data_extends, data_fully_known, data_wf, lemma_data_extends_refl, lemma_data_extends_trans,
    FinalizableData, Row, RowFactory,
};
use crate::sequence::{DefaultSequenceIterator, ProcessingSequenceIterator};
use crate::types::{Constraint, EvalError};

verus! {

/// The returned witness columns agree cell-for-cell with a table of the
/// machine's degree on which every identity holds (with wrap-around), every
/// value is a canonical field element, and every value lies within its
/// column's declared global range constraint.
pub open spec fn witness_table_ok(
    fixed: FixedData,
    ids: Seq<Identity>,
    rows: Seq<Row>,
    w: Seq<(String, Vec<u64>)>,
) -> bool {
    &&& rows.len() == fixed.degree
    &&& all_identities_hold(ids, fixed, rows, true)
    &&& forall|i: int, r: int| 0 <= i < w.len() && 0 <= r < fixed.degree ==> {
        &&& (#[trigger] rows[r].cells@[i]).value == Some(w[i].1@[r])
        &&& in_field(w[i].1@[r])
        &&& fixed.global_range_constraints@[i].spec_allows(w[i].1@[r])
    }
}

/// The full success contract of witness generation: one column per
/// committed column, under its name and of the machine's degree, and a
/// table agreeing with the columns on which every identity holds.
pub open spec fn generate_witness_ok(
    fixed: FixedData,
    ids: Seq<Identity>,
    w: Seq<(String, Vec<u64>)>,
) -> bool {
    &&& w.len() == fixed.witness_cols@.len()
    &&& forall|i: int| 0 <= i < w.len() ==> ((#[trigger] w[i]).0@ == fixed.witness_cols@[i].name@
        && w[i].1@.len() == fixed.degree)
    &&& exists|rows: Seq<Row>| witness_table_ok(fixed, ids, rows, w)
}

/// The driver's input contract: a program the solver accepts — identity
/// count within bounds, every identity well-formed and in scope.
pub open spec fn spec_program_valid(fixed: FixedData, ids: Seq<Identity>) -> bool {
    &&& ids.len() <= 0x1000_0000
    &&& forall|k: int| 0 <= k < ids.len() ==> crate::expr::identity_in_scope(
        #[trigger] ids[k],
        fixed.witness_cols@.len(),
        fixed.fixed_cols@.len(),
    )
}

/// Generates the witness: one value column per committed column, such that
/// every identity holds on every row.
///
/// The solver derives per-column range constraints from the identities,
/// seeds any externally supplied columns, iterates identity propagation and
/// prover queries until saturation, and then checks the fully-known table
/// against every identity. Failure surfaces the first fatal error: a violated
/// identity as `ConstraintUnsatisfiable`, a cell the constraints do not
/// determine as `IncompleteProgress`, a conflicting seed as
/// `ConflictingAssignment`, an oracle failure as `QueryOracleFailure`.
pub fn generate_witness<Q: Fn(String) -> Result<Option<u64>, String>>(
    fixed: &FixedData,
    identities: &Vec<Identity>,
    query_callback: &Q,
    external_witness: &Vec<(String, Vec<u64>)>,
) -> (res: Result<Vec<(String, Vec<u64>)>, EvalError>)
    requires
        fixed.wf(),
        forall|q: String| #[trigger] call_requires(*query_callback, (q,)),
    ensures
        res matches Ok(w) ==> generate_witness_ok(*fixed, identities@, w@),
        // The setup-time rejection comes exactly on an invalid program.
        res == Result::<Vec<(String, Vec<u64>)>, EvalError>::Err(EvalError::InvalidProgram)
            <==> !spec_program_valid(*fixed, identities@),
        // A valid program with nothing to solve succeeds.
        (spec_program_valid(*fixed, identities@) && identities@.len() == 0
            && fixed.witness_cols@.len() == 0) ==> res is Ok,
        // A valid program over fixed columns alone (no committed columns,
        // polynomial identities only) succeeds exactly when its identities
        // hold of the empty table, and can fail in no other way than as
        // unsatisfiable.
        (spec_program_valid(*fixed, identities@) && fixed.witness_cols@.len() == 0 && (forall|
            k: int,
        |
            0 <= k < identities@.len() ==> (#[trigger] identities@[k]).kind is Polynomial)) ==> {
            &&& (res is Ok <==> (forall|z: Seq<Row>|
                (z.len() == fixed.degree && (forall|t: int|
                    0 <= t < z.len() ==> (#[trigger] z[t]).cells@.len() == 0))
                    ==> crate::checker::all_identities_hold(identities@, *fixed, z, true)))
            &&& (res matches Err(e) ==> e is ConstraintUnsatisfiable)
        },
{
    let nwit = fixed.witness_count();
    let nfix = fixed.fixed_cols.len();
    // Validate the program: every identity well-formed and in scope.
    if identities.len() > 0x1000_0000 {
        return Err(EvalError::InvalidProgram);
    }
    let mut k: usize = 0;
    while k < identities.len()
        invariant
            fixed.wf(),
            nwit == fixed.witness_cols@.len(),
            nfix == fixed.fixed_cols@.len(),
            identities@.len() <= 0x1000_0000,
            k <= identities@.len(),
            forall|t: int| 0 <= t < k ==> crate::expr::identity_in_scope(
                #[trigger] identities@[t],
                nwit as nat,
                nfix as nat,
            ),
        decreases identities@.len() - k,
    {
        if !identities[k].check_in_scope(nwit, nfix) {
            proof {
                assert(!spec_program_valid(*fixed, identities@));
            }
            return Err(EvalError::InvalidProgram);
        }
        k += 1;
    }
    proof {
        assert(spec_program_valid(*fixed, identities@));
    }
    // Derive the global range constraints and build the fresh table.
    let constraints = determine_global_constraints(identities, &fixed.global_range_constraints);
    let ghost gcs = constraints@;
    let factory = RowFactory::new(constraints);
    let degree = fixed.degree as usize;
    let mut data = FinalizableData::with_initial_rows_in_progress(&factory, degree);
    proof {
        lemma_data_extends_refl(data);
    }
    let ghost initial = data;
    // Seed the externally supplied witness columns.
    let mut e: usize = 0;
    while e < external_witness.len()
        invariant
            fixed.wf(),
            spec_program_valid(*fixed, identities@),
            nwit == fixed.witness_cols@.len(),
            data_wf(data, nwit as nat),
            data.rows@.len() == fixed.degree,
            forall|i: int| 0 <= i < data.finalized@.len() ==> !data.finalized@[i],
            data_extends(data, initial),
            e <= external_witness@.len(),
        decreases external_witness@.len() - e,
    {
        let (name, values) = &external_witness[e];
        let mut j: usize = 0;
        while j < nwit
            invariant
                fixed.wf(),
                spec_program_valid(*fixed, identities@),
                nwit == fixed.witness_cols@.len(),
                data_wf(data, nwit as nat),
                data.rows@.len() == fixed.degree,
                forall|i: int| 0 <= i < data.finalized@.len() ==> !data.finalized@[i],
                data_extends(data, initial),
                j <= nwit,
            decreases nwit - j,
        {
            if &fixed.witness_cols[j].name == name {
                let mut r: usize = 0;
                while r < values.len() && r < data.len()
                    invariant
                        fixed.wf(),
                        spec_program_valid(*fixed, identities@),
                        nwit == fixed.witness_cols@.len(),
                        j < nwit,
                        data_wf(data, nwit as nat),
                        data.rows@.len() == fixed.degree,
                        forall|i: int| 0 <= i < data.finalized@.len() ==> !data.finalized@[i],
                        data_extends(data, initial),
                        r <= values@.len(),
                    decreases values@.len() - r,
                {
                    let v = fe_reduce(values[r]);
                    let ghost before = data;
                    match data.apply_cell_update(r, j, &Constraint::Assignment(v)) {
                        Ok(_) => {
                            proof {
                                lemma_data_extends_trans(initial, before, data);
                            }
                        },
                        Err(err) => {
                            return Err(err);
                        },
                    }
                    r += 1;
                }
            }
            j += 1;
        }
        e += 1;
    }
    // Solve to saturation: sweep all rows and identities, with a round
    // budget covering the height of the update lattice (one productive
    // round per assignable cell, plus slack).
    let mut witness_cols: Vec<u64> = Vec::new();
    let mut j: usize = 0;
    while j < nwit
        invariant
            spec_program_valid(*fixed, identities@),
            j <= nwit,
        decreases nwit - j,
    {
        witness_cols.push(j as u64);
        j += 1;
    }
    let mut bp: BlockProcessor<WithoutCalldata> = BlockProcessor::new(
        0,
        data,
        identities,
        fixed,
        factory,
        &witness_cols,
    );
    let mut ms = MutableState::new(FixedLookup::new());
    proof {
        assert(fixed.degree as int * (nwit as int + 2) + 2 < 0x8000_0000_0000_0000int)
            by (nonlinear_arith)
            requires
                fixed.degree <= 0x1000_0000,
                nwit <= 0x1000_0000,
        ;
    }
    let max_rounds: u64 = fixed.degree * (nwit as u64 + 2) + 2;
    let mut iterator = ProcessingSequenceIterator::Default(
        DefaultSequenceIterator::new((fixed.degree - 1) as usize, identities.len(), false,
            max_rounds),
    );
    let ghost seeded = bp.data;
    match bp.solve(&mut ms, query_callback, &mut iterator) {
        Ok(_) => {},
        Err(err) => {
            proof {
                if nwit == 0 && (forall|k: int|
                    0 <= k < identities@.len() ==> (#[trigger] identities@[k]).kind
                        is Polynomial) && (forall|z: Seq<Row>|
                    (z.len() == fixed.degree && (forall|t: int|
                        0 <= t < z.len() ==> (#[trigger] z[t]).cells@.len() == 0))
                        ==> crate::checker::all_identities_hold(identities@, *fixed, z, true)) {
                    // With no committed columns the table is trivially fully
                    // known and satisfies the identities, so the solve cannot
                    // have failed.
                    assert(forall|t: int| 0 <= t < seeded.rows@.len() ==> (
                    #[trigger] seeded.rows@[t]).cells@.len() == 0);
                    assert(crate::checker::all_identities_hold(
                        identities@,
                        *fixed,
                        seeded.rows@,
                        true,
                    ));
                    assert(data_fully_known(seeded));
                    assert(false);
                }
            }
            return Err(err);
        },
    }
    let mut data = bp.finish();
    proof {
        lemma_data_extends_trans(initial, seeded, data);
    }
    // Every cell must have been determined.
    let mut r: usize = 0;
    while r < data.len()
        invariant
            fixed.wf(),
            spec_program_valid(*fixed, identities@),
            nwit == fixed.witness_cols@.len(),
            data_wf(data, nwit as nat),
            data.rows@.len() == fixed.degree,
            r <= data.rows@.len(),
            forall|t: int| 0 <= t < r ==> crate::rows::spec_row_fully_known(
                #[trigger] data.rows@[t],
            ),
        decreases data.rows@.len() - r,
    {
        if !data.row(r).fully_known() {
            return Err(EvalError::IncompleteProgress);
        }
        r += 1;
    }
    // Validate the table against every identity, including the wrap pair.
    check_identities(fixed, identities, &data, true)?;
    // Promote the rows to immutable storage.
    let ghost checked = data;
    let mut r: usize = 0;
    while r < data.len()
        invariant
            spec_program_valid(*fixed, identities@),
            data.rows == checked.rows,
            data.rows@.len() == fixed.degree,
            data.finalized@.len() == data.rows@.len(),
            data_fully_known(data),
            data_extends(data, initial),
            crate::checker::all_identities_hold(identities@, *fixed, checked.rows@, true),
            r <= data.rows@.len(),
        decreases data.rows@.len() - r,
    {
        data.finalize(r);
        r += 1;
    }
    // Extract the columns.
    let mut out: Vec<(String, Vec<u64>)> = Vec::new();
    let mut i: usize = 0;
    while i < nwit
        invariant
            fixed.wf(),
            spec_program_valid(*fixed, identities@),
            nwit == fixed.witness_cols@.len(),
            data.rows == checked.rows,
            data_wf(data, nwit as nat),
            data.rows@.len() == fixed.degree,
            data_fully_known(data),
            crate::checker::all_identities_hold(identities@, *fixed, checked.rows@, true),
            i <= nwit,
            out@.len() == i,
            forall|t: int| 0 <= t < i ==> ((#[trigger] out@[t]).0@ == fixed.witness_cols@[t].name@
                && out@[t].1@.len() == fixed.degree),
            forall|t: int, u: int| 0 <= t < i && 0 <= u < fixed.degree
                ==> (#[trigger] out@[t].1@[u]) as int == data.rows@[u].cells@[t].value->0 as int,
            data_extends(data, initial),
            forall|t: int, u: int| 0 <= t < fixed.degree && 0 <= u < nwit
                ==> (#[trigger] initial.rows@[t].cells@[u]).range == gcs[u],
            forall|t: int| 0 <= t < nwit ==> forall|v: u64|
                (#[trigger] gcs[t]).spec_allows(v) ==> fixed.global_range_constraints@[t].spec_allows(v),
        decreases nwit - i,
    {
        let name = fixed.witness_cols[i].name.clone();
        let mut col: Vec<u64> = Vec::new();
        let mut r: usize = 0;
        while r < data.len()
            invariant
                fixed.wf(),
                spec_program_valid(*fixed, identities@),
                nwit == fixed.witness_cols@.len(),
                i < nwit,
                data_wf(data, nwit as nat),
                data.rows@.len() == fixed.degree,
                data_fully_known(data),
                r <= data.rows@.len(),
                col@.len() == r,
                forall|u: int| 0 <= u < r ==> (#[trigger] col@[u]) as int
                    == data.rows@[u].cells@[i as int].value->0 as int,
            decreases data.rows@.len() - r,
        {
            let v = match data.row(r).cells[i].value {
                Some(v) => v,
                None => {
                    return Err(EvalError::IncompleteProgress);
                },
            };
            col.push(v);
            r += 1;
        }
        out.push((name, col));
        i += 1;
    }
    proof {
        let rows = data.rows@;
        assert forall|i: int, r: int| 0 <= i < out@.len() && 0 <= r < fixed.degree implies {
            &&& (#[trigger] rows[r].cells@[i]).value == Some(out@[i].1@[r])
            &&& in_field(out@[i].1@[r])
            &&& fixed.global_range_constraints@[i].spec_allows(out@[i].1@[r])
        } by {
            assert(crate::rows::row_wf(rows[r], nwit as nat));
            assert(crate::rows::cell_wf(rows[r].cells@[i]));
            assert(crate::rows::spec_row_fully_known(rows[r]));
            assert(rows[r].cells@[i].value is Some);
            let v = rows[r].cells@[i].value->0;
            assert(out@[i].1@[r] as int == v as int);
            assert(rows[r].cells@[i].range.spec_allows(v));
            // The cell's range only ever shrank from the initial one, which
            // itself permits no more than the declared constraint.
            assert(crate::rows::row_extends(rows[r], initial.rows@[r]));
            assert(crate::rows::cell_extends(rows[r].cells@[i], initial.rows@[r].cells@[i]));
            assert(initial.rows@[r].cells@[i].range == gcs[i]);
            assert(initial.rows@[r].cells@[i].range.spec_allows(v));
            assert(fixed.global_range_constraints@[i].spec_allows(v));
        }
        assert(witness_table_ok(*fixed, identities@, rows, out@));
        assert(generate_witness_ok(*fixed, identities@, out@));
        if nwit == 0 {
            assert forall|z: Seq<Row>|
                (z.len() == fixed.degree && (forall|t: int|
                    0 <= t < z.len() ==> (#[trigger] z[t]).cells@.len() == 0))
                implies crate::checker::all_identities_hold(identities@, *fixed, z, true) by {
                assert(forall|t: int| 0 <= t < rows.len() ==> (#[trigger] rows[t]).cells@.len()
                    == 0);
                crate::checker::lemma_identities_congruent(identities@, *fixed, rows, z, true);
            }
        }
    }
    Ok(out)
}

} // verus!
