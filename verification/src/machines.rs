//! Lookup and permutation targets: the fixed-column lookup machine and the
//! mutable state a processor routes such calls through.

use vstd::prelude::*;
use crate::affine::AffineExpression;
use crate::eval::evaluate_fixed_only;
use crate::expr::{in_scope, AlgebraicExpression, AlgebraicReference, PolyId, PolynomialType};
use crate::field::in_field;
use crate::fixed::FixedData;
use crate::parsed::SelectedExpressions;
use crate::types::{assignments_only, Constraint, EvalError, EvalValue};

verus! {

/// The affine variable standing for a committed-column reference.
pub open spec fn var_of_ref(r: AlgebraicReference) -> int {
    2 * r.poly_id.id + if r.next {
        1int
    } else {
        0int
    }
}

/// The committed-column reference of an affine variable.
pub fn ref_of_var(var: usize) -> (r: AlgebraicReference)
    requires
        var < 0x8000_0000_0000_0000,
    ensures
        r.poly_id.ptype is Committed,
        var_of_ref(r) == var,
        r.poly_id.id == var as int / 2,
        r.next == (var as int % 2 == 1),
{
    AlgebraicReference {
        poly_id: PolyId { id: (var / 2) as u64, ptype: PolynomialType::Committed },
        next: var % 2 == 1,
    }
}


/// Row `s` of the fixed table is compatible with a lookup's left-hand side:
/// every already-determined (constant) left entry equals the value the
/// corresponding right expression takes there.
pub open spec fn spec_lookup_candidate(
    left: Seq<AffineExpression>,
    fixed: FixedData,
    right: SelectedExpressions<AlgebraicExpression>,
    s: int,
) -> bool {
    forall|j: int| 0 <= j < left.len() ==> ((forall|i: int|
        0 <= i < (#[trigger] left[j]).spec_width() ==> !left[j].spec_occurs(i))
        ==> crate::expr::spec_eval(right.expressions@[j], crate::eval::fixed_env(fixed, s))
        == Some(left[j].offset as int))
}

/// The machine answering lookups whose right-hand side consists entirely of
/// fixed columns.
pub struct FixedLookup {}

impl FixedLookup {
    /// A fresh fixed-lookup machine.
    pub fn new() -> (r: FixedLookup) {
        FixedLookup {}
    }

    /// Answers a lookup of the left-hand affine expressions in the tuples the
    /// right-hand fixed-column expressions take over all rows.
    ///
    /// Exactly one matching row determines every open left entry and yields a
    /// complete answer; no matching row is unsatisfiable; several matching
    /// rows leave the lookup open for this step.
    pub fn process_plookup(
        &mut self,
        fixed: &FixedData,
        left: &Vec<AffineExpression>,
        right: &SelectedExpressions<AlgebraicExpression>,
    ) -> (r: Result<EvalValue, EvalError>)
        requires
            fixed.wf(),
            right.selector is None,
            left@.len() == right.expressions@.len(),
            forall|j: int| 0 <= j < right.expressions@.len() ==> {
                &&& (#[trigger] right.expressions@[j]).wf()
                &&& in_scope(right.expressions@[j], 0, fixed.fixed_cols@.len())
            },
            forall|j: int| 0 <= j < left@.len() ==> {
                &&& (#[trigger] left@[j]).wf()
                &&& left@[j].spec_width() == fixed.spec_width()
            },
        ensures
            match r {
                Ok(ev) => {
                    &&& ev.wf()
                    &&& targets_in_range(ev.constraints@, fixed.witness_cols@.len())
                    &&& assignments_only(ev.constraints@)
                },
                Err(e) => e is ConstraintUnsatisfiable,
            },
            // The lookup fails only when no row of the table is compatible
            // with the left-hand side.
            r is Err ==> forall|s: int|
                0 <= s < fixed.degree ==> !spec_lookup_candidate(left@, *fixed, *right, s),
            // A fully-determined lookup with exactly one compatible row is
            // answered completely.
            ((forall|j: int| 0 <= j < left@.len() ==> (forall|i: int|
                0 <= i < (#[trigger] left@[j]).spec_width() ==> !left@[j].spec_occurs(i)))
                && (exists|s: int|
                0 <= s < fixed.degree && spec_lookup_candidate(left@, *fixed, *right, s)
                    && (forall|s2: int|
                    0 <= s2 < fixed.degree && spec_lookup_candidate(left@, *fixed, *right, s2)
                        ==> s2 == s))) ==> (r matches Ok(ev) && ev.complete),
    {
        let n = left.len();
        let width = fixed.width();
        let degree = fixed.degree;
        let mut match_count: u64 = 0;
        let mut found: Vec<(usize, u64)> = Vec::new();
        let mut s: u64 = 0;
        while s < degree
            invariant
                fixed.wf(),
                right.selector is None,
                n == left@.len(),
                n == right.expressions@.len(),
                width == fixed.spec_width(),
                degree == fixed.degree,
                forall|j: int| 0 <= j < right.expressions@.len() ==> {
                    &&& (#[trigger] right.expressions@[j]).wf()
                    &&& in_scope(right.expressions@[j], 0, fixed.fixed_cols@.len())
                },
                forall|j: int| 0 <= j < left@.len() ==> {
                    &&& (#[trigger] left@[j]).wf()
                    &&& left@[j].spec_width() == fixed.spec_width()
                },
                s <= degree,
                assigns_ok(found@, fixed.spec_width()),
                match_count == 0 ==> forall|ss: int|
                    0 <= ss < s ==> !spec_lookup_candidate(left@, *fixed, *right, ss),
                (forall|j: int| 0 <= j < left@.len() ==> (forall|i: int|
                    0 <= i < (#[trigger] left@[j]).spec_width() ==> !left@[j].spec_occurs(i)))
                    ==> ((match_count >= 1 <==> exists|ss: int|
                    0 <= ss < s && spec_lookup_candidate(left@, *fixed, *right, ss))
                    && (match_count >= 2 <==> exists|s1: int, s2: int|
                    0 <= s1 < s2 < s && spec_lookup_candidate(left@, *fixed, *right, s1)
                        && spec_lookup_candidate(left@, *fixed, *right, s2))),
            decreases degree - s,
        {
            let mut ok = true;
            let mut indeterminate = false;
            let mut assigns: Vec<(usize, u64)> = Vec::new();
            let mut j: usize = 0;
            while j < n
                invariant
                    fixed.wf(),
                    n == left@.len(),
                    n == right.expressions@.len(),
                    width == fixed.spec_width(),
                    s < degree,
                    degree == fixed.degree,
                    forall|jj: int| 0 <= jj < right.expressions@.len() ==> {
                        &&& (#[trigger] right.expressions@[jj]).wf()
                        &&& in_scope(right.expressions@[jj], 0, fixed.fixed_cols@.len())
                    },
                    forall|jj: int| 0 <= jj < left@.len() ==> {
                        &&& (#[trigger] left@[jj]).wf()
                        &&& left@[jj].spec_width() == fixed.spec_width()
                    },
                    j <= n,
                    assigns_ok(assigns@, fixed.spec_width()),
                    !ok ==> !spec_lookup_candidate(left@, *fixed, *right, s as int),
                    (forall|jj: int| 0 <= jj < left@.len() ==> (forall|i: int|
                        0 <= i < (#[trigger] left@[jj]).spec_width() ==> !left@[jj].spec_occurs(
                            i,
                        ))) ==> !indeterminate,
                    (ok && (forall|jj: int| 0 <= jj < left@.len() ==> (forall|i: int|
                        0 <= i < (#[trigger] left@[jj]).spec_width() ==> !left@[jj].spec_occurs(
                            i,
                        )))) ==> (forall|jj: int| 0 <= jj < j ==> crate::expr::spec_eval(
                        (#[trigger] right.expressions@[jj]),
                        crate::eval::fixed_env(*fixed, s as int),
                    ) == Some(left@[jj].offset as int)),
                decreases n - j,
            {
                let w = evaluate_fixed_only(fixed, &right.expressions[j], s);
                let lj = &left[j];
                if lj.is_constant() {
                    let cv = lj.constant_value();
                    proof {
                        assert(left@[j as int].spec_value(Seq::empty()) == cv as int);
                        assert(left@[j as int].spec_value(Seq::empty())
                            == left@[j as int].offset as int) by {
                            lemma_affine_constant_is_offset(left@[j as int]);
                        }
                    }
                    if cv != w {
                        proof {
                            // The constant value of a variable-free affine
                            // expression is its offset.
                            assert(left@[j as int].spec_value(Seq::empty()) == cv as int);
                            assert(left@[j as int].spec_value(Seq::empty())
                                == left@[j as int].offset as int) by {
                                lemma_affine_constant_is_offset(left@[j as int]);
                            }
                            assert(!spec_lookup_candidate(left@, *fixed, *right, s as int));
                        }
                        ok = false;
                        j = n;
                    } else {
                        j += 1;
                    }
                } else {
                    let wc = AffineExpression::from_constant(w, width);
                    let diff = lj.sub(&wc);
                    match diff.solve() {
                        crate::affine::SolveResult::Complete(cs) => {
                            if cs.len() == 1 {
                                let (var, value) = (cs[0].0, cs[0].1);
                                assigns.push((var, value));
                            }
                            j += 1;
                        },
                        crate::affine::SolveResult::ConstraintUnsatisfiable => {
                            proof {
                                // A non-constant entry keeps its occurring
                                // variable after subtracting a constant, so
                                // the difference cannot be a constant.
                                let v = choose|v: int|
                                    0 <= v < left@[j as int].spec_width() && left@[j as int].spec_occurs(
                                        v,
                                    );
                                assert(!wc.spec_occurs(v));
                                assert(diff.coefficients@[v] == left@[j as int].coefficients@[v]);
                                assert(diff.spec_occurs(v));
                                assert(false);
                            }
                            ok = false;
                            j = n;
                        },
                        _ => {
                            indeterminate = true;
                            j = n;
                        },
                    }
                }
            }
            proof {
                if forall|jj: int| 0 <= jj < left@.len() ==> (forall|i: int|
                    0 <= i < (#[trigger] left@[jj]).spec_width() ==> !left@[jj].spec_occurs(i)) {
                    if ok {
                        assert(spec_lookup_candidate(left@, *fixed, *right, s as int)) by {
                            assert forall|jj: int| 0 <= jj < left@.len() && (forall|i: int|
                                0 <= i < (#[trigger] left@[jj]).spec_width()
                                    ==> !left@[jj].spec_occurs(i)) implies crate::expr::spec_eval(
                                right.expressions@[jj],
                                crate::eval::fixed_env(*fixed, s as int),
                            ) == Some(left@[jj].offset as int) by {}
                        }
                    }
                }
            }
            if indeterminate {
                return Ok(EvalValue::incomplete_empty());
            }
            if ok {
                if match_count == 0 {
                    found = assigns;
                }
                if match_count < u64::MAX {
                    match_count += 1;
                }
            }
            s += 1;
        }
        if match_count == 0 {
            Err(EvalError::ConstraintUnsatisfiable)
        } else if match_count == 1 {
            let ev = assignments_to_eval_value(found, fixed.witness_count());
            Ok(ev)
        } else {
            proof {
                if (forall|j: int| 0 <= j < left@.len() ==> (forall|i: int|
                    0 <= i < (#[trigger] left@[j]).spec_width() ==> !left@[j].spec_occurs(i)))
                    && (exists|s: int|
                    0 <= s < fixed.degree && spec_lookup_candidate(left@, *fixed, *right, s) && (
                    forall|s2: int|
                        0 <= s2 < fixed.degree && spec_lookup_candidate(left@, *fixed, *right, s2)
                            ==> s2 == s)) {
                    let (s1, s2) = choose|s1: int, s2: int|
                        0 <= s1 < s2 < degree && spec_lookup_candidate(left@, *fixed, *right, s1)
                            && spec_lookup_candidate(left@, *fixed, *right, s2);
                    let su = choose|su: int|
                        0 <= su < fixed.degree && spec_lookup_candidate(left@, *fixed, *right, su)
                            && (forall|t2: int|
                            0 <= t2 < fixed.degree && spec_lookup_candidate(
                                left@,
                                *fixed,
                                *right,
                                t2,
                            ) ==> t2 == su);
                    assert(s1 == su && s2 == su);
                    assert(false);
                }
            }
            Ok(EvalValue::incomplete_empty())
        }
    }
}

/// A variable-free affine expression evaluates to its offset.
proof fn lemma_affine_constant_is_offset(a: AffineExpression)
    requires
        a.wf(),
        forall|i: int| 0 <= i < a.spec_width() ==> !a.spec_occurs(i),
    ensures
        forall|val: Seq<int>| #[trigger] a.spec_value(val) == a.offset as int,
{
    crate::affine::lemma_constant_spec_value(a);
}

/// Raw solver output fits the machine: each variable is in range and each
/// value is canonical.
pub open spec fn assigns_ok(assigns: Seq<(usize, u64)>, width: nat) -> bool {
    forall|t: int| 0 <= t < assigns.len() ==> {
        &&& (#[trigger] assigns[t]).0 < width
        &&& in_field(assigns[t].1)
    }
}

/// Every constraint names an existing committed column.
pub open spec fn targets_in_range(cs: Seq<(AlgebraicReference, Constraint)>, nwit: nat) -> bool {
    forall|t: int| 0 <= t < cs.len() ==> (#[trigger] cs[t]).0.poly_id.id < nwit
}

/// Turns raw variable assignments into an identity-processor answer.
pub fn assignments_to_eval_value(assigns: Vec<(usize, u64)>, nwit: usize) -> (r: EvalValue)
    requires
        assigns_ok(assigns@, 2 * nwit as nat),
        nwit <= 0x1000_0000,
    ensures
        r.wf(),
        r.complete,
        r.constraints@.len() == assigns@.len(),
        targets_in_range(r.constraints@, nwit as nat),
        assignments_only(r.constraints@),
{
    let ghost all = assigns@;
    let mut constraints: Vec<(AlgebraicReference, Constraint)> = Vec::new();
    let mut i: usize = 0;
    while i < assigns.len()
        invariant
            i <= assigns@.len(),
            assigns@ == all,
            nwit <= 0x1000_0000,
            assigns_ok(all, 2 * nwit as nat),
            constraints@.len() == i,
            forall|t: int| 0 <= t < i ==> {
                &&& (#[trigger] constraints@[t]).0.poly_id.ptype is Committed
                &&& constraints@[t].0.poly_id.id < nwit
                &&& constraints@[t].1.wf()
                &&& constraints@[t].1 is Assignment
            },
        decreases assigns@.len() - i,
    {
        let (var, value) = assigns[i];
        proof {
            assert(assigns@[i as int].0 < 2 * nwit);
        }
        let rf = ref_of_var(var);
        proof {
            assert(rf.poly_id.id < nwit);
        }
        constraints.push((rf, Constraint::Assignment(value)));
        i += 1;
    }
    EvalValue { constraints, complete: true }
}

/// The mutable state a block processor routes lookups and permutations
/// through while solving.
pub struct MutableState {
    pub fixed_lookup: FixedLookup,
}

impl MutableState {
    /// State holding only a fixed-lookup machine.
    pub fn new(fixed_lookup: FixedLookup) -> (r: MutableState) {
        MutableState { fixed_lookup }
    }
}

} // verus!
