//! Rows of cells and the finalizable table the solver fills in.
//!
//! A cell holds an optional definite value and a range constraint. Updates
//! are monotone: a present value is never replaced by a different one, and a
//! range constraint only ever shrinks. The `*_extends` relations state that
//! order; every update function ensures it.

use vstd::prelude::*;
use crate::field::in_field;
use crate::range::RangeConstraint;
use crate::types::{Constraint, EvalError};

verus! {

/// One cell of a committed column on one row.
#[derive(Debug, Clone, Copy, PartialEq, Eq, Structural)]
pub struct Cell {
    pub value: Option<u64>,
    pub range: RangeConstraint,
}

/// Well-formed: a present value is canonical and permitted by the range.
pub open spec fn cell_wf(c: Cell) -> bool {
    match c.value {
        Some(v) => in_field(v) && c.range.spec_allows(v),
        None => true,
    }
}

/// Monotone progress on one cell: a present value persists unchanged, and
/// the set of permitted values never grows.
pub open spec fn cell_extends(new: Cell, prev: Cell) -> bool {
    &&& prev.value is Some ==> new.value == prev.value
    &&& forall|v: u64| new.range.spec_allows(v) ==> prev.range.spec_allows(v)
}

/// A row: one cell per committed column.
#[derive(Debug, Clone, PartialEq, Eq)]
pub struct Row {
    pub cells: Vec<Cell>,
}

/// Well-formed: the expected number of cells, each well-formed.
pub open spec fn row_wf(r: Row, ncols: nat) -> bool {
    &&& r.cells@.len() == ncols
    &&& forall|i: int| 0 <= i < r.cells@.len() ==> cell_wf(#[trigger] r.cells@[i])
}

/// Monotone progress on a whole row.
pub open spec fn row_extends(new: Row, prev: Row) -> bool {
    &&& new.cells@.len() == prev.cells@.len()
    &&& forall|i: int| 0 <= i < new.cells@.len() ==> cell_extends(
        #[trigger] new.cells@[i],
        prev.cells@[i],
    )
}

/// Whether every cell of the row has a definite value.
pub open spec fn spec_row_fully_known(r: Row) -> bool {
    forall|i: int| 0 <= i < r.cells@.len() ==> (#[trigger] r.cells@[i]).value is Some
}

impl Row {
    /// A fresh in-progress row: no values, the given range constraint per
    /// column.
    pub fn fresh(constraints: &Vec<RangeConstraint>) -> (r: Row)
        ensures
            row_wf(r, constraints@.len()),
            forall|i: int| 0 <= i < constraints@.len() ==> {
                &&& (#[trigger] r.cells@[i]).value is None
                &&& r.cells@[i].range == constraints@[i]
            },
    {
        let mut cells: Vec<Cell> = Vec::new();
        let mut i: usize = 0;
        while i < constraints.len()
            invariant
                i <= constraints@.len(),
                cells@.len() == i,
                forall|j: int| 0 <= j < i ==> {
                    &&& (#[trigger] cells@[j]).value is None
                    &&& cells@[j].range == constraints@[j]
                },
            decreases constraints@.len() - i,
        {
            cells.push(Cell { value: None, range: constraints[i] });
            i += 1;
        }
        Row { cells }
    }

    /// Whether every cell has a definite value, executably.
    pub fn fully_known(&self) -> (r: bool)
        ensures
            r == spec_row_fully_known(*self),
    {
        let mut i: usize = 0;
        while i < self.cells.len()
            invariant
                i <= self.cells@.len(),
                forall|j: int| 0 <= j < i ==> (#[trigger] self.cells@[j]).value is Some,
            decreases self.cells@.len() - i,
        {
            if self.cells[i].value.is_none() {
                return false;
            }
            i += 1;
        }
        true
    }
}

/// Produces fresh in-progress rows pre-seeded with the global range
/// constraints of each committed column.
#[derive(Debug, Clone, PartialEq, Eq)]
pub struct RowFactory {
    pub constraints: Vec<RangeConstraint>,
}

impl RowFactory {
    /// A factory seeding each cell with the given per-column constraint.
    pub fn new(constraints: Vec<RangeConstraint>) -> (r: RowFactory)
        ensures
            r.constraints == constraints,
    {
        RowFactory { constraints }
    }

    /// One fresh row.
    pub fn fresh_row(&self) -> (r: Row)
        ensures
            row_wf(r, self.constraints@.len()),
            forall|i: int| 0 <= i < self.constraints@.len() ==> {
                &&& (#[trigger] r.cells@[i]).value is None
                &&& r.cells@[i].range == self.constraints@[i]
            },
    {
        Row::fresh(&self.constraints)
    }
}

/// The table of rows being solved. Rows can be finalized once fully known;
/// a finalized row is immutable.
#[derive(Debug, Clone, PartialEq, Eq)]
pub struct FinalizableData {
    pub rows: Vec<Row>,
    pub finalized: Vec<bool>,
}

/// Well-formed: every row has `ncols` well-formed cells and the finalized
/// markers line up with the rows.
pub open spec fn data_wf(d: FinalizableData, ncols: nat) -> bool {
    &&& forall|i: int| 0 <= i < d.rows@.len() ==> row_wf(#[trigger] d.rows@[i], ncols)
    &&& d.finalized@.len() == d.rows@.len()
}

/// Whether every cell of every row has a definite value.
pub open spec fn data_fully_known(d: FinalizableData) -> bool {
    forall|i: int| 0 <= i < d.rows@.len() ==> spec_row_fully_known(#[trigger] d.rows@[i])
}

/// Monotone progress on the whole table.
pub open spec fn data_extends(new: FinalizableData, prev: FinalizableData) -> bool {
    &&& new.rows@.len() == prev.rows@.len()
    &&& forall|i: int| 0 <= i < new.rows@.len() ==> row_extends(
        #[trigger] new.rows@[i],
        prev.rows@[i],
    )
}

/// Monotone progress is reflexive.
pub proof fn lemma_data_extends_refl(d: FinalizableData)
    ensures
        data_extends(d, d),
{
}

/// Monotone progress is transitive: a solve made of many single-cell updates
/// never rewrites a value and never grows a range.
pub proof fn lemma_data_extends_trans(a: FinalizableData, b: FinalizableData, c: FinalizableData)
    requires
        data_extends(c, b),
        data_extends(b, a),
    ensures
        data_extends(c, a),
{
    assert forall|i: int| 0 <= i < c.rows@.len() implies row_extends(
        #[trigger] c.rows@[i],
        a.rows@[i],
    ) by {
        assert(row_extends(c.rows@[i], b.rows@[i]));
        assert(row_extends(b.rows@[i], a.rows@[i]));
    }
}

impl FinalizableData {
    /// A table of `count` fresh in-progress rows.
    pub fn with_initial_rows_in_progress(factory: &RowFactory, count: usize) -> (r:
        FinalizableData)
        ensures
            data_wf(r, factory.constraints@.len()),
            r.rows@.len() == count,
            forall|i: int, j: int| 0 <= i < count && 0 <= j < factory.constraints@.len()
                ==> ((#[trigger] r.rows@[i].cells@[j]).value is None && r.rows@[i].cells@[j].range
                == factory.constraints@[j]),
            forall|i: int| 0 <= i < r.finalized@.len() ==> !r.finalized@[i],
    {
        let mut rows: Vec<Row> = Vec::new();
        let mut finalized: Vec<bool> = Vec::new();
        let mut i: usize = 0;
        while i < count
            invariant
                i <= count,
                rows@.len() == i,
                finalized@.len() == i,
                forall|j: int| 0 <= j < i ==> row_wf(
                    #[trigger] rows@[j],
                    factory.constraints@.len(),
                ),
                forall|j: int, k: int| 0 <= j < i && 0 <= k < factory.constraints@.len()
                    ==> ((#[trigger] rows@[j].cells@[k]).value is None && rows@[j].cells@[k].range
                    == factory.constraints@[k]),
                forall|j: int| 0 <= j < i ==> !finalized@[j],
            decreases count - i,
        {
            rows.push(factory.fresh_row());
            finalized.push(false);
            i += 1;
        }
        FinalizableData { rows, finalized }
    }

    /// The number of rows.
    pub fn len(&self) -> (r: usize)
        ensures
            r == self.rows@.len(),
    {
        self.rows.len()
    }

    /// Read access to one row.
    pub fn row(&self, i: usize) -> (r: &Row)
        requires
            i < self.rows@.len(),
        ensures
            *r == self.rows@[i as int],
    {
        &self.rows[i]
    }

    /// Promotes a fully-known row to immutable storage.
    pub fn finalize(&mut self, i: usize)
        requires
            i < old(self).rows@.len(),
            old(self).finalized@.len() == old(self).rows@.len(),
            spec_row_fully_known(old(self).rows@[i as int]),
        ensures
            final(self).rows == old(self).rows,
            final(self).finalized@ == old(self).finalized@.update(i as int, true),
    {
        self.finalized[i] = true;
    }

    /// Applies one constraint to the cell at `(row, col)`.
    ///
    /// Returns whether the table changed. Errors leave the table untouched:
    /// a conflicting assignment, an assignment outside the cell's range, or a
    /// range combination that became empty.
    pub fn apply_cell_update(&mut self, row: usize, col: usize, c: &Constraint) -> (r: Result<
        bool,
        EvalError,
    >)
        requires
            row < old(self).rows@.len(),
            col < old(self).rows@[row as int].cells@.len(),
            c.wf(),
            cell_wf(old(self).rows@[row as int].cells@[col as int]),
            !old(self).finalized@[row as int],
            old(self).finalized@.len() == old(self).rows@.len(),
        ensures
            final(self).finalized == old(self).finalized,
            final(self).rows@.len() == old(self).rows@.len(),
            data_extends(*final(self), *old(self)),
            forall|i: int| 0 <= i < old(self).rows@.len() && i != row
                ==> final(self).rows@[i] == old(self).rows@[i],
            forall|j: int| 0 <= j < old(self).rows@[row as int].cells@.len() && j != col
                ==> final(self).rows@[row as int].cells@[j] == old(self).rows@[row as int].cells@[j],
            final(self).rows@[row as int].cells@.len() == old(self).rows@[row as int].cells@.len(),
            cell_wf(final(self).rows@[row as int].cells@[col as int]),
            r is Err ==> *final(self) == *old(self),
            r == Result::<bool, EvalError>::Ok(false) ==> *final(self) == *old(self),
            match *c {
                Constraint::Assignment(v) => {
                    let cell = old(self).rows@[row as int].cells@[col as int];
                    &&& (r matches Err(e) ==> e is ConflictingAssignment)
                    &&& (r is Err <==> (match cell.value {
                        Some(w) => w != v,
                        None => !cell.range.spec_allows(v),
                    }))
                    &&& (r == Result::<bool, EvalError>::Ok(false) <==> cell.value == Some(v))
                    &&& (r == Result::<bool, EvalError>::Ok(true)
                        ==> final(self).rows@[row as int].cells@[col as int] == (Cell {
                        value: Some(v),
                        range: cell.range,
                    }))
                },
                Constraint::RangeConstraint(rc) => {
                    let cell = old(self).rows@[row as int].cells@[col as int];
                    let combined = cell.range.spec_conjunction(rc);
                    &&& (r matches Err(e) ==> e is RangeContradiction)
                    &&& (r is Err <==> (match cell.value {
                        Some(w) => !combined.spec_allows(w),
                        None => combined.min > combined.max,
                    }))
                    &&& (r == Result::<bool, EvalError>::Ok(false) <==> (!(r is Err) && combined
                        == cell.range))
                    &&& (r == Result::<bool, EvalError>::Ok(true)
                        ==> final(self).rows@[row as int].cells@[col as int] == (Cell {
                        value: cell.value,
                        range: combined,
                    }))
                },
            },
    {
        let cell = self.rows[row].cells[col];
        match c {
            Constraint::Assignment(v) => {
                match cell.value {
                    Some(w) => {
                        if w == *v {
                            proof {
                                lemma_data_extends_refl(*self);
                            }
                            Ok(false)
                        } else {
                            proof {
                                lemma_data_extends_refl(*self);
                            }
                            Err(EvalError::ConflictingAssignment)
                        }
                    },
                    None => {
                        if cell.range.allows(*v) {
                            let new_cell = Cell { value: Some(*v), range: cell.range };
                            self.set_cell(row, col, new_cell);
                            Ok(true)
                        } else {
                            proof {
                                lemma_data_extends_refl(*self);
                            }
                            Err(EvalError::ConflictingAssignment)
                        }
                    },
                }
            },
            Constraint::RangeConstraint(rc) => {
                let combined = cell.range.conjunction(rc);
                match cell.value {
                    Some(w) => {
                        if combined.allows(w) {
                            if combined == cell.range {
                                proof {
                                    lemma_data_extends_refl(*self);
                                }
                                Ok(false)
                            } else {
                                let new_cell = Cell { value: Some(w), range: combined };
                                self.set_cell(row, col, new_cell);
                                Ok(true)
                            }
                        } else {
                            proof {
                                lemma_data_extends_refl(*self);
                            }
                            Err(EvalError::RangeContradiction)
                        }
                    },
                    None => {
                        if combined.is_empty() {
                            proof {
                                lemma_data_extends_refl(*self);
                            }
                            Err(EvalError::RangeContradiction)
                        } else if combined == cell.range {
                            proof {
                                lemma_data_extends_refl(*self);
                            }
                            Ok(false)
                        } else {
                            let new_cell = Cell { value: None, range: combined };
                            self.set_cell(row, col, new_cell);
                            Ok(true)
                        }
                    },
                }
            },
        }
    }

    /// Replaces one cell, provided the replacement extends the old cell.
    fn set_cell(&mut self, row: usize, col: usize, new_cell: Cell)
        requires
            row < old(self).rows@.len(),
            col < old(self).rows@[row as int].cells@.len(),
            cell_wf(new_cell),
            cell_extends(new_cell, old(self).rows@[row as int].cells@[col as int]),
        ensures
            final(self).finalized == old(self).finalized,
            final(self).rows@.len() == old(self).rows@.len(),
            forall|i: int| 0 <= i < old(self).rows@.len() && i != row
                ==> final(self).rows@[i] == old(self).rows@[i],
            final(self).rows@[row as int].cells@ == old(self).rows@[row as int].cells@.update(
                col as int,
                new_cell,
            ),
            data_extends(*final(self), *old(self)),
    {
        let ghost before = *self;
        let row_ref = &mut self.rows[row];
        let cell_ref = &mut row_ref.cells[col];
        *cell_ref = new_cell;
        proof {
            assert forall|i: int| 0 <= i < before.rows@.len() implies row_extends(
                #[trigger] self.rows@[i],
                before.rows@[i],
            ) by {
                if i != row {
                    assert(self.rows@[i] == before.rows@[i]);
                } else {
                    assert forall|j: int| 0 <= j < self.rows@[i].cells@.len() implies cell_extends(
                        #[trigger] self.rows@[i].cells@[j],
                        before.rows@[i].cells@[j],
                    ) by {}
                }
            }
        }
    }
}

} // verus!
