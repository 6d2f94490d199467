//! What it means for a witness to satisfy the identities, and an executable
//! checker that establishes it.
//!
//! The central specs: [`env_at`] reads a fully-known table at a row pair with
//! wrap-around, and [`identity_holds`] states satisfaction per identity kind:
//! a polynomial identity evaluates to zero on every row, a connect identity
//! equates its expression lists row by row, a lookup finds every selected
//! left tuple among the selected right tuples, and a permutation makes the
//! selected tuple collections equal as multisets (stated by equal counts).

use vstd::prelude::*;
use crate::expr::{
    identity_in_scope, in_scope, spec_eval, AlgebraicExpression, Identity, IdentityKind, RowValues,
};
use crate::eval::{RowPair, UnknownStrategy};
use crate::field::in_field;
use crate::fixed::FixedData;
use crate::rows::{data_fully_known, data_wf, FinalizableData, Row};
use crate::types::EvalError;

verus! {

/// The value environment of the row pair `(r, (r+1) mod degree)` of a fully
/// known table.
pub open spec fn env_at(fixed: FixedData, rows: Seq<Row>, r: int) -> RowValues {
    let rn = (r + 1) % (fixed.degree as int);
    let nwit = fixed.witness_cols@.len();
    let nfix = fixed.fixed_cols@.len();
    RowValues {
        wit_cur: Seq::new(nwit, |i: int| rows[r].cells@[i].value->0 as int),
        wit_next: Seq::new(nwit, |i: int| rows[rn].cells@[i].value->0 as int),
        fix_cur: Seq::new(nfix, |c: int| fixed.fixed_cols@[c].values@[r] as int),
        fix_next: Seq::new(nfix, |c: int| fixed.fixed_cols@[c].values@[rn] as int),
    }
}

/// The value of a selector: an absent selector selects every row.
pub open spec fn sel_value(sel: Option<AlgebraicExpression>, env: RowValues) -> Option<int> {
    match sel {
        None => Some(1int),
        Some(e) => spec_eval(e, env),
    }
}

/// A connect identity holds in one environment: the expression lists agree
/// pointwise.
pub open spec fn connect_holds_at(id: Identity, env: RowValues) -> bool {
    forall|j: int| 0 <= j < id.left.expressions@.len() ==> {
        &&& spec_eval(#[trigger] id.left.expressions@[j], env) is Some
        &&& spec_eval(id.left.expressions@[j], env) == spec_eval(id.right.expressions@[j], env)
    }
}

/// Row `s` of the right-hand side answers row `r` of the left: the right
/// selector is on and the tuples agree.
pub open spec fn lookup_row_matches(id: Identity, fixed: FixedData, rows: Seq<Row>, r: int, s: int) -> bool {
    &&& sel_value(id.right.selector, env_at(fixed, rows, s)) == Some(1int)
    &&& forall|j: int| 0 <= j < id.left.expressions@.len() ==> {
        &&& spec_eval(#[trigger] id.left.expressions@[j], env_at(fixed, rows, r)) is Some
        &&& spec_eval(id.left.expressions@[j], env_at(fixed, rows, r)) == spec_eval(
            id.right.expressions@[j],
            env_at(fixed, rows, s),
        )
    }
}

/// A lookup holds on the first `pair_end` rows: both selectors evaluate to 0
/// or 1 everywhere, and wherever the left selector is on, some row of the
/// table answers it.
pub open spec fn plookup_holds(id: Identity, fixed: FixedData, rows: Seq<Row>, pair_end: int) -> bool {
    &&& forall|r: int| 0 <= r < pair_end ==> (sel_value(
        id.left.selector,
        #[trigger] env_at(fixed, rows, r),
    ) == Some(0int) || sel_value(id.left.selector, env_at(fixed, rows, r)) == Some(1int))
    &&& forall|s: int| 0 <= s < rows.len() ==> (sel_value(
        id.right.selector,
        #[trigger] env_at(fixed, rows, s),
    ) == Some(0int) || sel_value(id.right.selector, env_at(fixed, rows, s)) == Some(1int))
    &&& forall|r: int| 0 <= r < pair_end ==> {
        ||| sel_value(id.left.selector, #[trigger] env_at(fixed, rows, r)) == Some(0int)
        ||| (sel_value(id.left.selector, env_at(fixed, rows, r)) == Some(1int) && exists|s: int|
            0 <= s < rows.len() && lookup_row_matches(id, fixed, rows, r, s))
    }
}

/// The selected tuple of one side at one row: the evaluated expression list
/// where the selector is on and every entry is defined, nothing otherwise.
pub open spec fn sel_tuple_at(
    sel: Option<AlgebraicExpression>,
    exprs: Seq<AlgebraicExpression>,
    fixed: FixedData,
    rows: Seq<Row>,
    r: int,
) -> Option<Seq<int>> {
    let env = env_at(fixed, rows, r);
    if sel_value(sel, env) == Some(1int) && (forall|j: int|
        0 <= j < exprs.len() ==> spec_eval(#[trigger] exprs[j], env) is Some) {
        Some(Seq::new(exprs.len(), |j: int| spec_eval(exprs[j], env)->0))
    } else {
        None
    }
}

/// How many of the first `n` rows contribute exactly the tuple `tup`.
pub open spec fn count_sel_tuples(
    sel: Option<AlgebraicExpression>,
    exprs: Seq<AlgebraicExpression>,
    fixed: FixedData,
    rows: Seq<Row>,
    n: int,
    tup: Seq<int>,
) -> int
    decreases n,
{
    if n <= 0 {
        0
    } else {
        count_sel_tuples(sel, exprs, fixed, rows, n - 1, tup) + if sel_tuple_at(
            sel,
            exprs,
            fixed,
            rows,
            n - 1,
        ) == Some(tup) {
            1int
        } else {
            0int
        }
    }
}

/// A permutation identity holds: both selectors are 0/1 everywhere, every
/// selected row has a defined tuple, and each tuple appears equally often
/// among the selected left and selected right rows — the selected tuple
/// collections are equal as multisets.
pub open spec fn permutation_holds(id: Identity, fixed: FixedData, rows: Seq<Row>) -> bool {
    let n = rows.len() as int;
    let le = id.left.expressions@;
    let re = id.right.expressions@;
    &&& forall|r: int| 0 <= r < n ==> (sel_value(id.left.selector, #[trigger] env_at(fixed, rows, r))
        == Some(0int) || sel_value(id.left.selector, env_at(fixed, rows, r)) == Some(1int))
    &&& forall|r: int| 0 <= r < n ==> (sel_value(
        id.right.selector,
        #[trigger] env_at(fixed, rows, r),
    ) == Some(0int) || sel_value(id.right.selector, env_at(fixed, rows, r)) == Some(1int))
    &&& forall|r: int| 0 <= r < n && sel_value(
        id.left.selector,
        #[trigger] env_at(fixed, rows, r),
    ) == Some(1int) ==> sel_tuple_at(id.left.selector, le, fixed, rows, r) is Some
    &&& forall|r: int| 0 <= r < n && sel_value(
        id.right.selector,
        #[trigger] env_at(fixed, rows, r),
    ) == Some(1int) ==> sel_tuple_at(id.right.selector, re, fixed, rows, r) is Some
    &&& forall|r: int| 0 <= r < n && #[trigger] sel_tuple_at(id.left.selector, le, fixed, rows, r)
        is Some ==> count_sel_tuples(
        id.left.selector,
        le,
        fixed,
        rows,
        n,
        sel_tuple_at(id.left.selector, le, fixed, rows, r)->0,
    ) == count_sel_tuples(
        id.right.selector,
        re,
        fixed,
        rows,
        n,
        sel_tuple_at(id.left.selector, le, fixed, rows, r)->0,
    )
    &&& forall|r: int| 0 <= r < n && #[trigger] sel_tuple_at(id.right.selector, re, fixed, rows, r)
        is Some ==> count_sel_tuples(
        id.left.selector,
        le,
        fixed,
        rows,
        n,
        sel_tuple_at(id.right.selector, re, fixed, rows, r)->0,
    ) == count_sel_tuples(
        id.right.selector,
        re,
        fixed,
        rows,
        n,
        sel_tuple_at(id.right.selector, re, fixed, rows, r)->0,
    )
}

/// One identity holds of the table. `wrap` decides whether polynomial,
/// connect and lookup anchors include the last row (whose pair wraps to row
/// 0); lookups may always answer from any row, and permutations always range
/// over the whole table.
pub open spec fn identity_holds(id: Identity, fixed: FixedData, rows: Seq<Row>, wrap: bool) -> bool {
    let n = rows.len() as int;
    let pair_end = if wrap {
        n
    } else {
        n - 1
    };
    match id.kind {
        IdentityKind::Polynomial => forall|r: int|
            0 <= r < pair_end ==> spec_eval(id.left.selector->0, #[trigger] env_at(fixed, rows, r))
                == Some(0int),
        IdentityKind::Connect => forall|r: int|
            0 <= r < pair_end ==> connect_holds_at(id, #[trigger] env_at(fixed, rows, r)),
        IdentityKind::Plookup => plookup_holds(id, fixed, rows, pair_end),
        IdentityKind::Permutation => permutation_holds(id, fixed, rows),
    }
}

/// Every identity of the list holds of the table.
pub open spec fn all_identities_hold(
    ids: Seq<Identity>,
    fixed: FixedData,
    rows: Seq<Row>,
    wrap: bool,
) -> bool {
    forall|k: int| 0 <= k < ids.len() ==> identity_holds(#[trigger] ids[k], fixed, rows, wrap)
}

/// Evaluates an expression at the row pair `(r, (r+1) mod degree)` of a
/// fully-known table.
#[verifier::rlimit(30)]
pub fn eval_at(fixed: &FixedData, data: &FinalizableData, r: usize, e: &AlgebraicExpression) -> (res:
    Result<u64, EvalError>)
    requires
        fixed.wf(),
        data_wf(*data, fixed.witness_cols@.len()),
        data.rows@.len() == fixed.degree,
        data_fully_known(*data),
        r < fixed.degree,
        e.wf(),
        in_scope(*e, fixed.witness_cols@.len(), fixed.fixed_cols@.len()),
    ensures
        res is Ok,
        res matches Ok(w) ==> (in_field(w) && spec_eval(*e, env_at(*fixed, data.rows@, r as int))
            == Some(w as int)),
{
    let rn = if r + 1 == data.len() {
        0
    } else {
        r + 1
    };
    proof {
        if r + 1 == data.rows@.len() {
            vstd::arithmetic::div_mod::lemma_mod_self_0(fixed.degree as int);
        } else {
            vstd::arithmetic::div_mod::lemma_small_mod((r + 1) as nat, fixed.degree as nat);
        }
    }
    let rp = RowPair::new(data.row(r), data.row(rn), r as u64, fixed, UnknownStrategy::Unknown);
    let a = match rp.evaluate(e) {
        Ok(a) => a,
        Err(err) => {
            return Err(err);
        },
    };
    proof {
        assert forall|v: int| 0 <= v < a.spec_width() implies !a.spec_occurs(v) by {
            if a.spec_occurs(v) {
                if v % 2 == 0 {
                    assert(rp.current.cells@[v / 2].value is None);
                } else {
                    assert(rp.next.cells@[v / 2].value is None);
                }
            }
        }
    }
    let w = a.constant_value();
    proof {
        let nwit = fixed.witness_cols@.len() as int;
        let kv = Seq::new(2 * nwit as nat, |v: int| if v % 2 == 0 {
            data.rows@[r as int].cells@[v / 2].value->0 as int
        } else {
            data.rows@[rn as int].cells@[v / 2].value->0 as int
        });
        assert forall|v: int| 0 <= v < kv.len() implies 0 <= #[trigger] kv[v]
            < crate::field::FIELD_MODULUS as int by {
            if v % 2 == 0 {
                assert(crate::rows::cell_wf(data.rows@[r as int].cells@[v / 2]));
                assert(data.rows@[r as int].cells@[v / 2].value is Some);
            } else {
                assert(crate::rows::cell_wf(data.rows@[rn as int].cells@[v / 2]));
                assert(data.rows@[rn as int].cells@[v / 2].value is Some);
            }
        }
        assert forall|i: int| 0 <= i < nwit && (#[trigger] rp.current.cells@[i]).value is Some
            implies kv[2 * i] == rp.current.cells@[i].value->0 as int by {
            assert((2 * i) % 2 == 0 && (2 * i) / 2 == i);
        }
        assert forall|i: int| 0 <= i < nwit && (#[trigger] rp.next.cells@[i]).value is Some
            implies kv[2 * i + 1] == rp.next.cells@[i].value->0 as int by {
            assert((2 * i + 1) % 2 == 1 && (2 * i + 1) / 2 == i);
        }
        assert(rp.val_consistent(kv));
        assert(spec_eval(*e, rp.env_of(kv)) == Some(a.spec_value(kv)));
        assert(a.spec_value(kv) == w as int);
        let env1 = rp.env_of(kv);
        let env2 = env_at(*fixed, data.rows@, r as int);
        assert(rp.spec_next_row_index() == rn as int);
        assert forall|i: int| 0 <= i < nwit implies env1.wit_cur[i] == env2.wit_cur[i] by {
            assert(kv[2 * i] == data.rows@[r as int].cells@[i].value->0 as int) by {
                assert((2 * i) % 2 == 0 && (2 * i) / 2 == i);
            }
        }
        assert forall|i: int| 0 <= i < nwit implies env1.wit_next[i] == env2.wit_next[i] by {
            assert(kv[2 * i + 1] == data.rows@[rn as int].cells@[i].value->0 as int) by {
                assert((2 * i + 1) % 2 == 1 && (2 * i + 1) / 2 == i);
            }
        }
        assert(env1.wit_cur =~= env2.wit_cur);
        assert(env1.wit_next =~= env2.wit_next);
        assert(env1.fix_cur =~= env2.fix_cur);
        assert(env1.fix_next =~= env2.fix_next);
        assert(env1 == env2);
    }
    Ok(w)
}

/// Checks a polynomial identity on the first `pair_end` rows.
fn check_polynomial(
    fixed: &FixedData,
    data: &FinalizableData,
    id: &Identity,
    pair_end: usize,
) -> (res: Result<(), EvalError>)
    requires
        fixed.wf(),
        data_wf(*data, fixed.witness_cols@.len()),
        data.rows@.len() == fixed.degree,
        data_fully_known(*data),
        identity_in_scope(*id, fixed.witness_cols@.len(), fixed.fixed_cols@.len()),
        id.kind is Polynomial,
        pair_end <= fixed.degree,
    ensures
        res is Ok <==> (forall|r: int|
            0 <= r < pair_end ==> spec_eval(
                id.left.selector->0,
                #[trigger] env_at(*fixed, data.rows@, r),
            ) == Some(0int)),
        res matches Err(e) ==> e is ConstraintUnsatisfiable,
{
    let e = match &id.left.selector {
        Some(e) => e,
        None => {
            proof {
                assert(false);
            }
            return Err(EvalError::ConstraintUnsatisfiable);
        },
    };
    let mut r: usize = 0;
    while r < pair_end
        invariant
            fixed.wf(),
            data_wf(*data, fixed.witness_cols@.len()),
            data.rows@.len() == fixed.degree,
            data_fully_known(*data),
            identity_in_scope(*id, fixed.witness_cols@.len(), fixed.fixed_cols@.len()),
            id.kind is Polynomial,
            pair_end <= fixed.degree,
            *e == id.left.selector->0,
            r <= pair_end,
            forall|t: int| 0 <= t < r ==> spec_eval(
                id.left.selector->0,
                #[trigger] env_at(*fixed, data.rows@, t),
            ) == Some(0int),
        decreases pair_end - r,
    {
        let w = match eval_at(fixed, data, r, e) {
            Ok(w) => w,
            Err(err) => {
                proof {
                    assert(false);
                }
                return Err(err);
            },
        };
        if w != 0 {
            proof {
                assert(spec_eval(id.left.selector->0, env_at(*fixed, data.rows@, r as int))
                    != Some(0int));
            }
            return Err(EvalError::ConstraintUnsatisfiable);
        }
        r += 1;
    }
    Ok(())
}

/// Checks a connect identity on the first `pair_end` rows.
fn check_connect(fixed: &FixedData, data: &FinalizableData, id: &Identity, pair_end: usize) -> (res:
    Result<(), EvalError>)
    requires
        fixed.wf(),
        data_wf(*data, fixed.witness_cols@.len()),
        data.rows@.len() == fixed.degree,
        data_fully_known(*data),
        identity_in_scope(*id, fixed.witness_cols@.len(), fixed.fixed_cols@.len()),
        id.kind is Connect,
        pair_end <= fixed.degree,
    ensures
        res is Ok <==> (forall|r: int|
            0 <= r < pair_end ==> connect_holds_at(*id, #[trigger] env_at(*fixed, data.rows@, r))),
        res matches Err(e) ==> e is ConstraintUnsatisfiable,
{
    let mut r: usize = 0;
    while r < pair_end
        invariant
            fixed.wf(),
            data_wf(*data, fixed.witness_cols@.len()),
            data.rows@.len() == fixed.degree,
            data_fully_known(*data),
            identity_in_scope(*id, fixed.witness_cols@.len(), fixed.fixed_cols@.len()),
            id.kind is Connect,
            pair_end <= fixed.degree,
            r <= pair_end,
            forall|t: int| 0 <= t < r ==> connect_holds_at(
                *id,
                #[trigger] env_at(*fixed, data.rows@, t),
            ),
        decreases pair_end - r,
    {
        let n = id.left.expressions.len();
        let mut j: usize = 0;
        while j < n
            invariant
                fixed.wf(),
                data_wf(*data, fixed.witness_cols@.len()),
                data.rows@.len() == fixed.degree,
                data_fully_known(*data),
                identity_in_scope(*id, fixed.witness_cols@.len(), fixed.fixed_cols@.len()),
                id.kind is Connect,
                r < pair_end <= fixed.degree,
                n == id.left.expressions@.len(),
                n == id.right.expressions@.len(),
                j <= n,
                forall|u: int| 0 <= u < j ==> {
                    &&& spec_eval(
                        #[trigger] id.left.expressions@[u],
                        env_at(*fixed, data.rows@, r as int),
                    ) is Some
                    &&& spec_eval(id.left.expressions@[u], env_at(*fixed, data.rows@, r as int))
                        == spec_eval(
                        id.right.expressions@[u],
                        env_at(*fixed, data.rows@, r as int),
                    )
                },
            decreases n - j,
        {
            let lw = match eval_at(fixed, data, r, &id.left.expressions[j]) {
                Ok(w) => w,
                Err(err) => {
                    proof {
                        assert(false);
                    }
                    return Err(err);
                },
            };
            let rw = match eval_at(fixed, data, r, &id.right.expressions[j]) {
                Ok(w) => w,
                Err(err) => {
                    proof {
                        assert(false);
                    }
                    return Err(err);
                },
            };
            if lw != rw {
                proof {
                    assert(!connect_holds_at(*id, env_at(*fixed, data.rows@, r as int))) by {
                        assert(spec_eval(
                            id.left.expressions@[j as int],
                            env_at(*fixed, data.rows@, r as int),
                        ) != spec_eval(
                            id.right.expressions@[j as int],
                            env_at(*fixed, data.rows@, r as int),
                        ));
                    }
                }
                return Err(EvalError::ConstraintUnsatisfiable);
            }
            j += 1;
        }
        r += 1;
    }
    Ok(())
}

/// Evaluates a selector at a row: an absent selector is on; any value other
/// than 0 or 1 is rejected.
fn eval_selector(
    fixed: &FixedData,
    data: &FinalizableData,
    r: usize,
    sel: &Option<AlgebraicExpression>,
) -> (res: Result<bool, EvalError>)
    requires
        fixed.wf(),
        data_wf(*data, fixed.witness_cols@.len()),
        data.rows@.len() == fixed.degree,
        data_fully_known(*data),
        r < fixed.degree,
        match sel {
            Some(e) => e.wf() && in_scope(*e, fixed.witness_cols@.len(), fixed.fixed_cols@.len()),
            None => true,
        },
    ensures
        res matches Ok(on) ==> sel_value(*sel, env_at(*fixed, data.rows@, r as int)) == Some(
            if on {
                1int
            } else {
                0int
            },
        ),
        res is Err <==> !(sel_value(*sel, env_at(*fixed, data.rows@, r as int)) == Some(0int)
            || sel_value(*sel, env_at(*fixed, data.rows@, r as int)) == Some(1int)),
        res matches Err(e) ==> e is ConstraintUnsatisfiable,
{
    match sel {
        None => Ok(true),
        Some(e) => {
            let w = match eval_at(fixed, data, r, e) {
                Ok(w) => w,
                Err(err) => {
                    proof {
                        assert(false);
                    }
                    return Err(err);
                },
            };
            if w == 0 {
                Ok(false)
            } else if w == 1 {
                Ok(true)
            } else {
                Err(EvalError::ConstraintUnsatisfiable)
            }
        },
    }
}

/// Evaluates an expression list at a row.
fn eval_tuple(
    fixed: &FixedData,
    data: &FinalizableData,
    r: usize,
    exprs: &Vec<AlgebraicExpression>,
) -> (res: Result<Vec<u64>, EvalError>)
    requires
        fixed.wf(),
        data_wf(*data, fixed.witness_cols@.len()),
        data.rows@.len() == fixed.degree,
        data_fully_known(*data),
        r < fixed.degree,
        forall|j: int| 0 <= j < exprs@.len() ==> ((#[trigger] exprs@[j]).wf() && in_scope(
            exprs@[j],
            fixed.witness_cols@.len(),
            fixed.fixed_cols@.len(),
        )),
    ensures
        res is Ok,
        res matches Ok(vals) ==> {
            &&& vals@.len() == exprs@.len()
            &&& forall|j: int| 0 <= j < exprs@.len() ==> spec_eval(
                #[trigger] exprs@[j],
                env_at(*fixed, data.rows@, r as int),
            ) == Some(vals@[j] as int)
        },
{
    let mut vals: Vec<u64> = Vec::new();
    let mut j: usize = 0;
    while j < exprs.len()
        invariant
            fixed.wf(),
            data_wf(*data, fixed.witness_cols@.len()),
            data.rows@.len() == fixed.degree,
            data_fully_known(*data),
            r < fixed.degree,
            forall|u: int| 0 <= u < exprs@.len() ==> ((#[trigger] exprs@[u]).wf() && in_scope(
                exprs@[u],
                fixed.witness_cols@.len(),
                fixed.fixed_cols@.len(),
            )),
            j <= exprs@.len(),
            vals@.len() == j,
            forall|u: int| 0 <= u < j ==> spec_eval(
                #[trigger] exprs@[u],
                env_at(*fixed, data.rows@, r as int),
            ) == Some(vals@[u] as int),
        decreases exprs@.len() - j,
    {
        let w = match eval_at(fixed, data, r, &exprs[j]) {
            Ok(w) => w,
            Err(err) => {
                proof {
                    assert(false);
                }
                return Err(err);
            },
        };
        vals.push(w);
        j += 1;
    }
    Ok(vals)
}

/// Checks a lookup identity on the first `pair_end` rows: succeeds exactly
/// when both selectors are boolean and every selected left tuple is answered
/// by some selected right row.
fn check_plookup(fixed: &FixedData, data: &FinalizableData, id: &Identity, pair_end: usize) -> (res:
    Result<(), EvalError>)
    requires
        fixed.wf(),
        data_wf(*data, fixed.witness_cols@.len()),
        data.rows@.len() == fixed.degree,
        data_fully_known(*data),
        identity_in_scope(*id, fixed.witness_cols@.len(), fixed.fixed_cols@.len()),
        id.kind is Plookup,
        pair_end <= fixed.degree,
    ensures
        res is Ok <==> plookup_holds(*id, *fixed, data.rows@, pair_end as int),
        res matches Err(e) ==> e is ConstraintUnsatisfiable,
{
    let ghost rows = data.rows@;
    let ghost re = id.right.expressions@;
    // The right side's selected tuples, once for all left rows; this also
    // establishes that the right selector is boolean everywhere.
    let rtab = match build_side_table(fixed, data, &id.right.selector, &id.right.expressions) {
        Ok(t) => t,
        Err(err) => {
            return Err(err);
        },
    };
    let n = data.len();
    let mut r: usize = 0;
    while r < pair_end
        invariant
            fixed.wf(),
            data_wf(*data, fixed.witness_cols@.len()),
            data.rows@.len() == fixed.degree,
            data_fully_known(*data),
            identity_in_scope(*id, fixed.witness_cols@.len(), fixed.fixed_cols@.len()),
            id.kind is Plookup,
            pair_end <= fixed.degree,
            rows == data.rows@,
            re == id.right.expressions@,
            n == data.rows@.len(),
            tab_links(rtab@, id.right.selector, re, *fixed, rows),
            forall|t: int| 0 <= t < rows.len() ==> (sel_value(
                id.right.selector,
                #[trigger] env_at(*fixed, rows, t),
            ) == Some(0int) || sel_value(id.right.selector, env_at(*fixed, rows, t)) == Some(
                1int,
            )),
            forall|t: int| 0 <= t < rows.len() && sel_value(
                id.right.selector,
                #[trigger] env_at(*fixed, rows, t),
            ) == Some(1int) ==> sel_tuple_at(id.right.selector, re, *fixed, rows, t) is Some,
            r <= pair_end,
            forall|t: int| 0 <= t < r ==> (sel_value(
                id.left.selector,
                #[trigger] env_at(*fixed, rows, t),
            ) == Some(0int) || sel_value(id.left.selector, env_at(*fixed, rows, t)) == Some(
                1int,
            )),
            forall|t: int| 0 <= t < r ==> {
                ||| sel_value(id.left.selector, #[trigger] env_at(*fixed, rows, t)) == Some(0int)
                ||| (sel_value(id.left.selector, env_at(*fixed, rows, t)) == Some(1int) && exists|
                    s: int,
                |
                    0 <= s < rows.len() && lookup_row_matches(*id, *fixed, rows, t, s))
            },
        decreases pair_end - r,
    {
        let on = match eval_selector(fixed, data, r, &id.left.selector) {
            Ok(on) => on,
            Err(err) => {
                return Err(err);
            },
        };
        if on {
            let lvals = match eval_tuple(fixed, data, r, &id.left.expressions) {
                Ok(v) => v,
                Err(err) => {
                    proof {
                        assert(false);
                    }
                    return Err(err);
                },
            };
            let mut found = false;
            let mut s: usize = 0;
            while s < n && !found
                invariant
                    fixed.wf(),
                    rows == data.rows@,
                    re == id.right.expressions@,
                    n == rows.len(),
                    identity_in_scope(*id, fixed.witness_cols@.len(), fixed.fixed_cols@.len()),
                    id.kind is Plookup,
                    r < pair_end <= fixed.degree,
                    tab_links(rtab@, id.right.selector, re, *fixed, rows),
                    lvals@.len() == id.left.expressions@.len(),
                    id.left.expressions@.len() == re.len(),
                    forall|j: int| 0 <= j < id.left.expressions@.len() ==> spec_eval(
                        #[trigger] id.left.expressions@[j],
                        env_at(*fixed, rows, r as int),
                    ) == Some(lvals@[j] as int),
                    s <= n,
                    forall|t: int| 0 <= t < rows.len() && sel_value(
                        id.right.selector,
                        #[trigger] env_at(*fixed, rows, t),
                    ) == Some(1int) ==> sel_tuple_at(id.right.selector, re, *fixed, rows, t)
                        is Some,
                    !found ==> forall|t: int|
                        0 <= t < s ==> !lookup_row_matches(*id, *fixed, rows, r as int, t),
                    found ==> exists|w: int|
                        0 <= w < rows.len() && lookup_row_matches(*id, *fixed, rows, r as int, w),
                decreases n - s + if found {
                    0int
                } else {
                    1int
                },
            {
                match &rtab[s] {
                    Some(v) => {
                        let eq = vec_eq(v, &lvals);
                        proof {
                            let st = sel_tuple_at(id.right.selector, re, *fixed, rows, s as int);
                            let env = env_at(*fixed, rows, s as int);
                            assert(st == Some(ints_of(v@)));
                            assert(sel_value(id.right.selector, env) == Some(1int) && (forall|
                                j: int,
                            |
                                0 <= j < re.len() ==> spec_eval(#[trigger] re[j], env)
                                    is Some)) by {
                                if !(sel_value(id.right.selector, env) == Some(1int) && (forall|
                                    j: int,
                                |
                                    0 <= j < re.len() ==> spec_eval(#[trigger] re[j], env)
                                        is Some)) {
                                    assert(st is None);
                                }
                            }
                            assert(v@.len() == re.len()) by {
                                assert(ints_of(v@).len() == st->0.len());
                            }
                            assert forall|j: int| 0 <= j < re.len() implies spec_eval(
                                #[trigger] re[j],
                                env_at(*fixed, rows, s as int),
                            ) == Some(v@[j] as int) by {
                                assert(st->0[j] == spec_eval(
                                    re[j],
                                    env_at(*fixed, rows, s as int),
                                )->0);
                                assert(st->0[j] == ints_of(v@)[j]);
                                assert(spec_eval(re[j], env) is Some);
                            }
                            if eq {
                                assert(lookup_row_matches(*id, *fixed, rows, r as int, s as int));
                            } else {
                                assert(v@ != lvals@);
                                assert(exists|j: int| 0 <= j < v@.len() && v@[j] != lvals@[j]) by {
                                    assert(v@.len() == lvals@.len());
                                    if forall|j: int| 0 <= j < v@.len() ==> v@[j] == lvals@[j] {
                                        assert(v@ =~= lvals@);
                                        assert(false);
                                    }
                                }
                                let j = choose|j: int| 0 <= j < v@.len() && v@[j] != lvals@[j];
                                assert(spec_eval(re[j], env_at(*fixed, rows, s as int)) != Some(
                                    lvals@[j] as int,
                                ));
                                assert(spec_eval(
                                    id.left.expressions@[j],
                                    env_at(*fixed, rows, r as int),
                                ) == Some(lvals@[j] as int));
                                assert(spec_eval(
                                    id.left.expressions@[j],
                                    env_at(*fixed, rows, r as int),
                                ) != spec_eval(
                                    id.right.expressions@[j],
                                    env_at(*fixed, rows, s as int),
                                ));
                                assert(!lookup_row_matches(*id, *fixed, rows, r as int, s as int));
                            }
                        }
                        if eq {
                            found = true;
                        }
                    },
                    None => {
                        proof {
                            assert(sel_tuple_at(id.right.selector, re, *fixed, rows, s as int)
                                is None);
                            assert(sel_value(id.right.selector, env_at(*fixed, rows, s as int))
                                != Some(1int)) by {
                                if sel_value(id.right.selector, env_at(*fixed, rows, s as int))
                                    == Some(1int) {
                                    assert(sel_tuple_at(
                                        id.right.selector,
                                        re,
                                        *fixed,
                                        rows,
                                        s as int,
                                    ) is Some);
                                }
                            }
                            assert(!lookup_row_matches(*id, *fixed, rows, r as int, s as int));
                        }
                    },
                }
                if !found {
                    s += 1;
                }
            }
            if !found {
                proof {
                    assert(!plookup_holds(*id, *fixed, rows, pair_end as int)) by {
                        assert(sel_value(id.left.selector, env_at(*fixed, rows, r as int)) == Some(
                            1int,
                        ));
                        assert(forall|t: int|
                            0 <= t < rows.len() ==> !lookup_row_matches(
                                *id,
                                *fixed,
                                rows,
                                r as int,
                                t,
                            ));
                    }
                }
                return Err(EvalError::ConstraintUnsatisfiable);
            }
        }
        r += 1;
    }
    Ok(())
}

/// The integer view of a tuple of field elements.
pub open spec fn ints_of(v: Seq<u64>) -> Seq<int> {
    Seq::new(v.len(), |j: int| v[j] as int)
}

proof fn lemma_ints_of_eq(a: Seq<u64>, b: Seq<u64>)
    ensures
        (ints_of(a) == ints_of(b)) <==> (a == b),
{
    if ints_of(a) == ints_of(b) {
        assert(a.len() == b.len()) by {
            assert(ints_of(a).len() == a.len());
            assert(ints_of(b).len() == b.len());
        }
        assert forall|j: int| 0 <= j < a.len() implies a[j] == b[j] by {
            assert(ints_of(a)[j] == ints_of(b)[j]);
        }
        assert(a =~= b);
    }
    if a == b {
        assert(ints_of(a) =~= ints_of(b));
    }
}

/// Element-wise equality of two tuples.
fn vec_eq(a: &Vec<u64>, b: &Vec<u64>) -> (r: bool)
    ensures
        r == (a@ == b@),
{
    if a.len() != b.len() {
        proof {
            assert(a@.len() != b@.len());
        }
        return false;
    }
    let mut j: usize = 0;
    while j < a.len()
        invariant
            a@.len() == b@.len(),
            j <= a@.len(),
            forall|u: int| 0 <= u < j ==> a@[u] == b@[u],
        decreases a@.len() - j,
    {
        if a[j] != b[j] {
            return false;
        }
        j += 1;
    }
    proof {
        assert(a@ =~= b@);
    }
    true
}

/// The table of one side's selected tuples agrees with the spec-level view.
pub open spec fn tab_links(
    tab: Seq<Option<Vec<u64>>>,
    sel: Option<AlgebraicExpression>,
    exprs: Seq<AlgebraicExpression>,
    fixed: FixedData,
    rows: Seq<Row>,
) -> bool {
    &&& tab.len() == rows.len()
    &&& forall|r: int| 0 <= r < tab.len() ==> match #[trigger] tab[r] {
        Some(v) => sel_tuple_at(sel, exprs, fixed, rows, r) == Some(ints_of(v@)),
        None => sel_tuple_at(sel, exprs, fixed, rows, r) is None,
    }
}

/// Counts the rows of a side whose selected tuple is exactly `tup`.
fn count_in_table(
    tab: &Vec<Option<Vec<u64>>>,
    tup: &Vec<u64>,
    Ghost(sel): Ghost<Option<AlgebraicExpression>>,
    Ghost(exprs): Ghost<Seq<AlgebraicExpression>>,
    Ghost(fixed): Ghost<FixedData>,
    Ghost(rows): Ghost<Seq<Row>>,
) -> (c: u64)
    requires
        tab_links(tab@, sel, exprs, fixed, rows),
        tab@.len() <= 0x1000_0000,
    ensures
        c == count_sel_tuples(sel, exprs, fixed, rows, tab@.len() as int, ints_of(tup@)),
{
    let mut c: u64 = 0;
    let mut s: usize = 0;
    while s < tab.len()
        invariant
            tab_links(tab@, sel, exprs, fixed, rows),
            tab@.len() <= 0x1000_0000,
            s <= tab@.len(),
            c <= s,
            c == count_sel_tuples(sel, exprs, fixed, rows, s as int, ints_of(tup@)),
        decreases tab@.len() - s,
    {
        match &tab[s] {
            Some(v) => {
                let eq = vec_eq(v, tup);
                proof {
                    lemma_ints_of_eq(v@, tup@);
                    assert(sel_tuple_at(sel, exprs, fixed, rows, s as int) == Some(ints_of(v@)));
                }
                if eq {
                    c += 1;
                }
            },
            None => {
                proof {
                    assert(sel_tuple_at(sel, exprs, fixed, rows, s as int) is None);
                }
            },
        }
        s += 1;
    }
    c
}

/// Builds the selected-tuple table of one side, rejecting non-boolean
/// selectors.
fn build_side_table(
    fixed: &FixedData,
    data: &FinalizableData,
    sel: &Option<AlgebraicExpression>,
    exprs: &Vec<AlgebraicExpression>,
) -> (res: Result<Vec<Option<Vec<u64>>>, EvalError>)
    requires
        fixed.wf(),
        data_wf(*data, fixed.witness_cols@.len()),
        data.rows@.len() == fixed.degree,
        data_fully_known(*data),
        match sel {
            Some(e) => e.wf() && in_scope(*e, fixed.witness_cols@.len(), fixed.fixed_cols@.len()),
            None => true,
        },
        forall|j: int| 0 <= j < exprs@.len() ==> ((#[trigger] exprs@[j]).wf() && in_scope(
            exprs@[j],
            fixed.witness_cols@.len(),
            fixed.fixed_cols@.len(),
        )),
    ensures
        res matches Ok(tab) ==> {
            &&& tab_links(tab@, *sel, exprs@, *fixed, data.rows@)
            &&& forall|r: int| 0 <= r < data.rows@.len() ==> (sel_value(
                *sel,
                #[trigger] env_at(*fixed, data.rows@, r),
            ) == Some(0int) || sel_value(*sel, env_at(*fixed, data.rows@, r)) == Some(1int))
            &&& forall|r: int| 0 <= r < data.rows@.len() && sel_value(
                *sel,
                #[trigger] env_at(*fixed, data.rows@, r),
            ) == Some(1int) ==> sel_tuple_at(*sel, exprs@, *fixed, data.rows@, r) is Some
        },
        res is Err ==> exists|r: int|
            0 <= r < data.rows@.len() && !(sel_value(*sel, #[trigger] env_at(*fixed, data.rows@, r))
                == Some(0int) || sel_value(*sel, env_at(*fixed, data.rows@, r)) == Some(1int)),
        res matches Err(e) ==> e is ConstraintUnsatisfiable,
{
    let n = data.len();
    let mut tab: Vec<Option<Vec<u64>>> = Vec::new();
    let mut r: usize = 0;
    while r < n
        invariant
            fixed.wf(),
            data_wf(*data, fixed.witness_cols@.len()),
            data.rows@.len() == fixed.degree,
            data_fully_known(*data),
            match sel {
                Some(e) => e.wf() && in_scope(
                    *e,
                    fixed.witness_cols@.len(),
                    fixed.fixed_cols@.len(),
                ),
                None => true,
            },
            forall|j: int| 0 <= j < exprs@.len() ==> ((#[trigger] exprs@[j]).wf() && in_scope(
                exprs@[j],
                fixed.witness_cols@.len(),
                fixed.fixed_cols@.len(),
            )),
            n == data.rows@.len(),
            r <= n,
            tab@.len() == r,
            forall|t: int| 0 <= t < r ==> match #[trigger] tab@[t] {
                Some(v) => sel_tuple_at(*sel, exprs@, *fixed, data.rows@, t) == Some(ints_of(v@)),
                None => sel_tuple_at(*sel, exprs@, *fixed, data.rows@, t) is None,
            },
            forall|t: int| 0 <= t < r ==> (sel_value(*sel, #[trigger] env_at(*fixed, data.rows@, t))
                == Some(0int) || sel_value(*sel, env_at(*fixed, data.rows@, t)) == Some(1int)),
            forall|t: int| 0 <= t < r && sel_value(*sel, #[trigger] env_at(*fixed, data.rows@, t))
                == Some(1int) ==> sel_tuple_at(*sel, exprs@, *fixed, data.rows@, t) is Some,
        decreases n - r,
    {
        let on = match eval_selector(fixed, data, r, sel) {
            Ok(on) => on,
            Err(err) => {
                return Err(err);
            },
        };
        if on {
            let vals = match eval_tuple(fixed, data, r, exprs) {
                Ok(v) => v,
                Err(err) => {
                    proof {
                        assert(false);
                    }
                    return Err(err);
                },
            };
            proof {
                let st = sel_tuple_at(*sel, exprs@, *fixed, data.rows@, r as int);
                assert(st is Some);
                assert(st->0 =~= ints_of(vals@));
            }
            tab.push(Some(vals));
        } else {
            proof {
                assert(sel_tuple_at(*sel, exprs@, *fixed, data.rows@, r as int) is None);
            }
            tab.push(None);
        }
        r += 1;
    }
    Ok(tab)
}

/// Checks a permutation identity: the selected tuple collections of the two
/// sides must be equal as multisets.
fn check_permutation(fixed: &FixedData, data: &FinalizableData, id: &Identity) -> (res: Result<
    (),
    EvalError,
>)
    requires
        fixed.wf(),
        data_wf(*data, fixed.witness_cols@.len()),
        data.rows@.len() == fixed.degree,
        data_fully_known(*data),
        identity_in_scope(*id, fixed.witness_cols@.len(), fixed.fixed_cols@.len()),
        id.kind is Permutation,
    ensures
        res is Ok <==> permutation_holds(*id, *fixed, data.rows@),
        res matches Err(e) ==> e is ConstraintUnsatisfiable,
{
    let ltab = match build_side_table(fixed, data, &id.left.selector, &id.left.expressions) {
        Ok(t) => t,
        Err(err) => {
            return Err(err);
        },
    };
    let rtab = match build_side_table(fixed, data, &id.right.selector, &id.right.expressions) {
        Ok(t) => t,
        Err(err) => {
            return Err(err);
        },
    };
    let n = data.len();
    let ghost le = id.left.expressions@;
    let ghost re = id.right.expressions@;
    let mut r: usize = 0;
    while r < n
        invariant
            fixed.wf(),
            data.rows@.len() == fixed.degree,
            n == data.rows@.len(),
            n <= 0x1000_0000,
            le == id.left.expressions@,
            re == id.right.expressions@,
            tab_links(ltab@, id.left.selector, le, *fixed, data.rows@),
            tab_links(rtab@, id.right.selector, re, *fixed, data.rows@),
            forall|t: int| 0 <= t < data.rows@.len() ==> (sel_value(
                id.left.selector,
                #[trigger] env_at(*fixed, data.rows@, t),
            ) == Some(0int) || sel_value(id.left.selector, env_at(*fixed, data.rows@, t)) == Some(
                1int,
            )),
            forall|t: int| 0 <= t < data.rows@.len() ==> (sel_value(
                id.right.selector,
                #[trigger] env_at(*fixed, data.rows@, t),
            ) == Some(0int) || sel_value(id.right.selector, env_at(*fixed, data.rows@, t)) == Some(
                1int,
            )),
            forall|t: int| 0 <= t < data.rows@.len() && sel_value(
                id.left.selector,
                #[trigger] env_at(*fixed, data.rows@, t),
            ) == Some(1int) ==> sel_tuple_at(id.left.selector, le, *fixed, data.rows@, t) is Some,
            forall|t: int| 0 <= t < data.rows@.len() && sel_value(
                id.right.selector,
                #[trigger] env_at(*fixed, data.rows@, t),
            ) == Some(1int) ==> sel_tuple_at(id.right.selector, re, *fixed, data.rows@, t)
                is Some,
            r <= n,
            forall|t: int| 0 <= t < r && #[trigger] sel_tuple_at(
                id.left.selector,
                le,
                *fixed,
                data.rows@,
                t,
            ) is Some ==> count_sel_tuples(
                id.left.selector,
                le,
                *fixed,
                data.rows@,
                n as int,
                sel_tuple_at(id.left.selector, le, *fixed, data.rows@, t)->0,
            ) == count_sel_tuples(
                id.right.selector,
                re,
                *fixed,
                data.rows@,
                n as int,
                sel_tuple_at(id.left.selector, le, *fixed, data.rows@, t)->0,
            ),
            forall|t: int| 0 <= t < r && #[trigger] sel_tuple_at(
                id.right.selector,
                re,
                *fixed,
                data.rows@,
                t,
            ) is Some ==> count_sel_tuples(
                id.left.selector,
                le,
                *fixed,
                data.rows@,
                n as int,
                sel_tuple_at(id.right.selector, re, *fixed, data.rows@, t)->0,
            ) == count_sel_tuples(
                id.right.selector,
                re,
                *fixed,
                data.rows@,
                n as int,
                sel_tuple_at(id.right.selector, re, *fixed, data.rows@, t)->0,
            ),
        decreases n - r,
    {
        match &ltab[r] {
            Some(v) => {
                let cl = count_in_table(&ltab, v, Ghost(id.left.selector), Ghost(le),
                    Ghost(*fixed), Ghost(data.rows@));
                let cr = count_in_table(&rtab, v, Ghost(id.right.selector), Ghost(re),
                    Ghost(*fixed), Ghost(data.rows@));
                if cl != cr {
                    proof {
                        assert(sel_tuple_at(id.left.selector, le, *fixed, data.rows@, r as int)
                            == Some(ints_of(v@)));
                        assert(!permutation_holds(*id, *fixed, data.rows@));
                    }
                    return Err(EvalError::ConstraintUnsatisfiable);
                }
                proof {
                    assert(sel_tuple_at(id.left.selector, le, *fixed, data.rows@, r as int)
                        == Some(ints_of(v@)));
                }
            },
            None => {},
        }
        match &rtab[r] {
            Some(v) => {
                let cl = count_in_table(&ltab, v, Ghost(id.left.selector), Ghost(le),
                    Ghost(*fixed), Ghost(data.rows@));
                let cr = count_in_table(&rtab, v, Ghost(id.right.selector), Ghost(re),
                    Ghost(*fixed), Ghost(data.rows@));
                if cl != cr {
                    proof {
                        assert(sel_tuple_at(id.right.selector, re, *fixed, data.rows@, r as int)
                            == Some(ints_of(v@)));
                        assert(!permutation_holds(*id, *fixed, data.rows@));
                    }
                    return Err(EvalError::ConstraintUnsatisfiable);
                }
                proof {
                    assert(sel_tuple_at(id.right.selector, re, *fixed, data.rows@, r as int)
                        == Some(ints_of(v@)));
                }
            },
            None => {},
        }
        r += 1;
    }
    Ok(())
}

/// Checks every identity of the list against a fully-known table: the
/// verified core of the solver's final validation. Success establishes
/// [`all_identities_hold`]; any violated identity is reported as
/// unsatisfiable.
pub fn check_identities(
    fixed: &FixedData,
    identities: &Vec<Identity>,
    data: &FinalizableData,
    wrap: bool,
) -> (res: Result<(), EvalError>)
    requires
        fixed.wf(),
        data_wf(*data, fixed.witness_cols@.len()),
        data.rows@.len() == fixed.degree,
        data_fully_known(*data),
        crate::block::identities_in_scope(
            identities@,
            fixed.witness_cols@.len(),
            fixed.fixed_cols@.len(),
        ),
    ensures
        res is Ok <==> all_identities_hold(identities@, *fixed, data.rows@, wrap),
        res matches Err(e) ==> e is ConstraintUnsatisfiable,
{
    let n = data.len();
    let pair_end = if wrap {
        n
    } else {
        n - 1
    };
    let mut k: usize = 0;
    while k < identities.len()
        invariant
            fixed.wf(),
            data_wf(*data, fixed.witness_cols@.len()),
            data.rows@.len() == fixed.degree,
            data_fully_known(*data),
            crate::block::identities_in_scope(
                identities@,
                fixed.witness_cols@.len(),
                fixed.fixed_cols@.len(),
            ),
            n == data.rows@.len(),
            n >= 1,
            pair_end == (if wrap { n as int } else { n - 1 }),
            k <= identities@.len(),
            forall|t: int| 0 <= t < k ==> identity_holds(
                #[trigger] identities@[t],
                *fixed,
                data.rows@,
                wrap,
            ),
        decreases identities@.len() - k,
    {
        let id = &identities[k];
        let outcome = match id.kind {
            IdentityKind::Polynomial => check_polynomial(fixed, data, id, pair_end),
            IdentityKind::Connect => check_connect(fixed, data, id, pair_end),
            IdentityKind::Plookup => check_plookup(fixed, data, id, pair_end),
            IdentityKind::Permutation => check_permutation(fixed, data, id),
        };
        match outcome {
            Ok(_) => {},
            Err(err) => {
                proof {
                    assert(!identity_holds(identities@[k as int], *fixed, data.rows@, wrap));
                }
                return Err(err);
            },
        }
        k += 1;
    }
    Ok(())
}

/// A permutation identity between two identical selected-expression lists is
/// trivially satisfied: on any table where its selector is boolean and its
/// selected tuples are defined, the two selected tuple collections are the
/// same collection.
pub proof fn lemma_permutation_identical_sides(id: Identity, fixed: FixedData, rows: Seq<Row>)
    requires
        id.kind is Permutation,
        id.left == id.right,
        forall|r: int| 0 <= r < rows.len() ==> (sel_value(
            id.left.selector,
            #[trigger] env_at(fixed, rows, r),
        ) == Some(0int) || sel_value(id.left.selector, env_at(fixed, rows, r)) == Some(1int)),
        forall|r: int| 0 <= r < rows.len() && sel_value(
            id.left.selector,
            #[trigger] env_at(fixed, rows, r),
        ) == Some(1int) ==> forall|j: int|
            0 <= j < id.left.expressions@.len() ==> spec_eval(
                #[trigger] id.left.expressions@[j],
                env_at(fixed, rows, r),
            ) is Some,
    ensures
        permutation_holds(id, fixed, rows),
{
    let n = rows.len() as int;
    let le = id.left.expressions@;
    assert forall|r: int|
        0 <= r < n && sel_value(id.left.selector, #[trigger] env_at(fixed, rows, r)) == Some(1int)
        implies sel_tuple_at(id.left.selector, le, fixed, rows, r) is Some by {
        assert(forall|j: int| 0 <= j < le.len() ==> spec_eval(
            #[trigger] le[j],
            env_at(fixed, rows, r),
        ) is Some);
    }
}

/// A connect identity reduces to equality on a permutation of indices: it
/// holds exactly when, on every anchored row, each listed left expression
/// evaluates to the same value as the right expression at the same position.
pub proof fn lemma_connect_reduces_to_equalities(
    id: Identity,
    fixed: FixedData,
    rows: Seq<Row>,
    wrap: bool,
)
    requires
        id.kind is Connect,
    ensures
        identity_holds(id, fixed, rows, wrap) <==> (forall|r: int, j: int|
            0 <= r < (if wrap {
                rows.len() as int
            } else {
                rows.len() - 1
            }) && 0 <= j < id.left.expressions@.len() ==> {
                &&& #[trigger] spec_eval(id.left.expressions@[j], env_at(fixed, rows, r)) is Some
                &&& spec_eval(id.left.expressions@[j], env_at(fixed, rows, r)) == spec_eval(
                    id.right.expressions@[j],
                    env_at(fixed, rows, r),
                )
            }),
{
    let pair_end: int = if wrap {
        rows.len() as int
    } else {
        rows.len() - 1
    };
    if identity_holds(id, fixed, rows, wrap) {
        assert forall|r: int, j: int|
            0 <= r < pair_end && 0 <= j < id.left.expressions@.len() implies {
            &&& #[trigger] spec_eval(id.left.expressions@[j], env_at(fixed, rows, r)) is Some
            &&& spec_eval(id.left.expressions@[j], env_at(fixed, rows, r)) == spec_eval(
                id.right.expressions@[j],
                env_at(fixed, rows, r),
            )
        } by {
            assert(connect_holds_at(id, env_at(fixed, rows, r)));
        }
    }
    if (forall|r: int, j: int|
        0 <= r < pair_end && 0 <= j < id.left.expressions@.len() ==> {
            &&& #[trigger] spec_eval(id.left.expressions@[j], env_at(fixed, rows, r)) is Some
            &&& spec_eval(id.left.expressions@[j], env_at(fixed, rows, r)) == spec_eval(
                id.right.expressions@[j],
                env_at(fixed, rows, r),
            )
        }) {
        assert forall|r: int| 0 <= r < pair_end implies connect_holds_at(
            id,
            #[trigger] env_at(fixed, rows, r),
        ) by {
            assert forall|j: int| 0 <= j < id.left.expressions@.len() implies {
                &&& spec_eval(#[trigger] id.left.expressions@[j], env_at(fixed, rows, r)) is Some
                &&& spec_eval(id.left.expressions@[j], env_at(fixed, rows, r)) == spec_eval(
                    id.right.expressions@[j],
                    env_at(fixed, rows, r),
                )
            } by {
                assert(0 <= r < pair_end && 0 <= j < id.left.expressions@.len());
            }
        }
    }
}

/// Environments read only cell values: two tables of the machine's shape that
/// agree cell-for-cell on values give the same environment at every row.
pub proof fn lemma_env_congruent(fixed: FixedData, z1: Seq<Row>, z2: Seq<Row>)
    requires
        fixed.wf(),
        z1.len() == fixed.degree,
        z2.len() == fixed.degree,
        forall|r: int| 0 <= r < z1.len() ==> (#[trigger] z1[r]).cells@.len() == z2[r].cells@.len(),
        forall|r: int| 0 <= r < z1.len() ==> fixed.witness_cols@.len() <= (
        #[trigger] z1[r]).cells@.len(),
        forall|r: int, i: int| 0 <= r < z1.len() && 0 <= i < z1[r].cells@.len()
            ==> (#[trigger] z1[r].cells@[i]).value == z2[r].cells@[i].value,
    ensures
        forall|r: int| 0 <= r < z1.len() ==> env_at(fixed, z1, r) == env_at(fixed, z2, r),
{
    assert forall|r: int| 0 <= r < z1.len() implies env_at(fixed, z1, r) == env_at(
        fixed,
        z2,
        r,
    ) by {
        let rn = (r + 1) % (fixed.degree as int);
        assert(0 <= rn < z1.len());
        assert(env_at(fixed, z1, r).wit_cur =~= env_at(fixed, z2, r).wit_cur);
        assert(env_at(fixed, z1, r).wit_next =~= env_at(fixed, z2, r).wit_next);
        assert(env_at(fixed, z1, r).fix_cur =~= env_at(fixed, z2, r).fix_cur);
        assert(env_at(fixed, z1, r).fix_next =~= env_at(fixed, z2, r).fix_next);
    }
}

/// Counting selected tuples depends only on the environments.
proof fn lemma_count_congruent(
    sel: Option<AlgebraicExpression>,
    exprs: Seq<AlgebraicExpression>,
    fixed: FixedData,
    z1: Seq<Row>,
    z2: Seq<Row>,
    n: int,
    tup: Seq<int>,
)
    requires
        z1.len() == z2.len(),
        n <= z1.len(),
        forall|r: int| 0 <= r < z1.len() ==> env_at(fixed, z1, r) == env_at(fixed, z2, r),
    ensures
        count_sel_tuples(sel, exprs, fixed, z1, n, tup) == count_sel_tuples(
            sel,
            exprs,
            fixed,
            z2,
            n,
            tup,
        ),
    decreases n,
{
    if n > 0 {
        lemma_count_congruent(sel, exprs, fixed, z1, z2, n - 1, tup);
        assert(env_at(fixed, z1, n - 1) == env_at(fixed, z2, n - 1));
        assert(sel_tuple_at(sel, exprs, fixed, z1, n - 1) == sel_tuple_at(
            sel,
            exprs,
            fixed,
            z2,
            n - 1,
        ));
    }
}

/// Identity satisfaction depends only on the cell values: two tables of the
/// machine's shape that agree cell-for-cell satisfy the same identities.
pub proof fn lemma_identities_congruent(
    ids: Seq<Identity>,
    fixed: FixedData,
    z1: Seq<Row>,
    z2: Seq<Row>,
    wrap: bool,
)
    requires
        fixed.wf(),
        z1.len() == fixed.degree,
        z2.len() == fixed.degree,
        forall|r: int| 0 <= r < z1.len() ==> (#[trigger] z1[r]).cells@.len() == z2[r].cells@.len(),
        forall|r: int| 0 <= r < z1.len() ==> fixed.witness_cols@.len() <= (
        #[trigger] z1[r]).cells@.len(),
        forall|r: int, i: int| 0 <= r < z1.len() && 0 <= i < z1[r].cells@.len()
            ==> (#[trigger] z1[r].cells@[i]).value == z2[r].cells@[i].value,
    ensures
        all_identities_hold(ids, fixed, z1, wrap) == all_identities_hold(ids, fixed, z2, wrap),
{
    lemma_env_congruent(fixed, z1, z2);
    assert forall|k: int| 0 <= k < ids.len() implies identity_holds(#[trigger] ids[k], fixed, z1, wrap)
        == identity_holds(ids[k], fixed, z2, wrap) by {
        lemma_identity_congruent(ids[k], fixed, z1, z2, wrap);
    }
    if all_identities_hold(ids, fixed, z1, wrap) {
        assert forall|k: int| 0 <= k < ids.len() implies identity_holds(
            #[trigger] ids[k],
            fixed,
            z2,
            wrap,
        ) by {
            assert(identity_holds(ids[k], fixed, z1, wrap));
        }
    }
    if all_identities_hold(ids, fixed, z2, wrap) {
        assert forall|k: int| 0 <= k < ids.len() implies identity_holds(
            #[trigger] ids[k],
            fixed,
            z1,
            wrap,
        ) by {
            assert(identity_holds(ids[k], fixed, z2, wrap));
        }
    }
}

/// One identity's satisfaction under equal environments.
proof fn lemma_identity_congruent(
    id: Identity,
    fixed: FixedData,
    z1: Seq<Row>,
    z2: Seq<Row>,
    wrap: bool,
)
    requires
        z1.len() == fixed.degree,
        z2.len() == fixed.degree,
        forall|r: int| 0 <= r < z1.len() ==> env_at(fixed, z1, r) == env_at(fixed, z2, r),
    ensures
        identity_holds(id, fixed, z1, wrap) == identity_holds(id, fixed, z2, wrap),
{
    let n = z1.len() as int;
    let pair_end: int = if wrap {
        n
    } else {
        n - 1
    };
    match id.kind {
        IdentityKind::Polynomial => {},
        IdentityKind::Connect => {},
        IdentityKind::Plookup => {
            if plookup_holds(id, fixed, z1, pair_end) {
                assert forall|r: int|
                    0 <= r < pair_end && sel_value(id.left.selector, env_at(fixed, z2, r)) == Some(
                        1int,
                    ) implies exists|s: int|
                    0 <= s < z2.len() && lookup_row_matches(id, fixed, z2, r, s) by {
                    let s = choose|s: int|
                        0 <= s < z1.len() && lookup_row_matches(id, fixed, z1, r, s);
                    assert(lookup_row_matches(id, fixed, z2, r, s));
                }
            }
            if plookup_holds(id, fixed, z2, pair_end) {
                assert forall|r: int|
                    0 <= r < pair_end && sel_value(id.left.selector, env_at(fixed, z1, r)) == Some(
                        1int,
                    ) implies exists|s: int|
                    0 <= s < z1.len() && lookup_row_matches(id, fixed, z1, r, s) by {
                    let s = choose|s: int|
                        0 <= s < z2.len() && lookup_row_matches(id, fixed, z2, r, s);
                    assert(lookup_row_matches(id, fixed, z1, r, s));
                }
            }
        },
        IdentityKind::Permutation => {
            assert forall|r: int| 0 <= r < n implies (sel_tuple_at(
                id.left.selector,
                id.left.expressions@,
                fixed,
                z1,
                r,
            ) == sel_tuple_at(id.left.selector, id.left.expressions@, fixed, z2, r)
                && sel_tuple_at(id.right.selector, id.right.expressions@, fixed, z1, r)
                == sel_tuple_at(id.right.selector, id.right.expressions@, fixed, z2, r)) by {
                assert(env_at(fixed, z1, r) == env_at(fixed, z2, r));
            }
            assert forall|tup: Seq<int>|
                #![trigger count_sel_tuples(id.left.selector, id.left.expressions@, fixed, z1, n, tup)]
                true implies (count_sel_tuples(
                id.left.selector,
                id.left.expressions@,
                fixed,
                z1,
                n,
                tup,
            ) == count_sel_tuples(id.left.selector, id.left.expressions@, fixed, z2, n, tup)
                && count_sel_tuples(id.right.selector, id.right.expressions@, fixed, z1, n, tup)
                == count_sel_tuples(
                id.right.selector,
                id.right.expressions@,
                fixed,
                z2,
                n,
                tup,
            )) by {
                lemma_count_congruent(id.left.selector, id.left.expressions@, fixed, z1, z2, n,
                    tup);
                lemma_count_congruent(id.right.selector, id.right.expressions@, fixed, z1, z2, n,
                    tup);
            }
        },
    }
}

/// Over fully-known rows there is essentially one consistent valuation, and
/// it reads the table: every consistent valuation's environment is the
/// table's environment at the anchored row.
pub proof fn lemma_known_env(rp: RowPair, rows: Seq<Row>, r: int, rn: int, val: Seq<int>)
    requires
        rp.wf(),
        rows.len() == rp.fixed_data.degree,
        0 <= r < rows.len(),
        0 <= rn < rows.len(),
        *rp.current == rows[r],
        *rp.next == rows[rn],
        rp.current_row_index == r,
        rn == (r + 1) % (rp.fixed_data.degree as int),
        crate::rows::spec_row_fully_known(*rp.current),
        crate::rows::spec_row_fully_known(*rp.next),
        rp.val_consistent(val),
    ensures
        rp.env_of(val) == env_at(*rp.fixed_data, rows, r),
{
    let nwit = rp.fixed_data.witness_cols@.len();
    let env1 = rp.env_of(val);
    let env2 = env_at(*rp.fixed_data, rows, r);
    assert forall|i: int| 0 <= i < nwit implies env1.wit_cur[i] == env2.wit_cur[i] by {
        assert(rp.current.cells@[i].value is Some);
        assert(val[2 * i] == rp.current.cells@[i].value->0 as int);
    }
    assert forall|i: int| 0 <= i < nwit implies env1.wit_next[i] == env2.wit_next[i] by {
        assert(rp.next.cells@[i].value is Some);
        assert(val[2 * i + 1] == rp.next.cells@[i].value->0 as int);
    }
    assert(env1.wit_cur =~= env2.wit_cur);
    assert(env1.wit_next =~= env2.wit_next);
    assert(env1.fix_cur =~= env2.fix_cur);
    assert(env1.fix_next =~= env2.fix_next);
}

} // verus!
