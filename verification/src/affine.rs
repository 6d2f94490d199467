//! Affine expressions `sum_i c_i * x_i + k` over the field, with a dense
//! coefficient vector indexed by variable number. The solver's working form:
//! evaluation of an identity against a row pair produces one of these, and
//! `solve` turns it into assignments.

use vstd::prelude::*;
use vstd::arithmetic::div_mod::{
    lemma_add_mod_noop, lemma_mod_add_multiples_vanish, lemma_mul_mod_noop_left, lemma_mul_mod_noop_right,
    lemma_small_mod, lemma_sub_mod_noop_right,
};
use vstd::arithmetic::mul::{lemma_mul_is_associative, lemma_mul_is_distributive_add};
use crate::field::{
    f_add, f_mul, f_neg, f_pow, fe_add, fe_inv, fe_mul, fe_neg, in_field, FIELD_MODULUS,
};
use crate::range::RangeConstraint;

verus! {

/// A valuation assigns a canonical field element to every variable.
pub open spec fn valuation_wf(val: Seq<int>) -> bool {
    forall|i: int| 0 <= i < val.len() ==> 0 <= #[trigger] val[i] < FIELD_MODULUS as int
}

/// The field sum of the first `n` terms `c_i * val_i`.
pub open spec fn terms_val(coeffs: Seq<u64>, val: Seq<int>, n: int) -> int
    decreases n,
{
    if n <= 0 {
        0
    } else {
        f_add(terms_val(coeffs, val, n - 1), f_mul(coeffs[n - 1] as int, val[n - 1]))
    }
}

/// An affine expression: `coefficients[i]` multiplies variable `i`, plus the
/// constant `offset`.
#[derive(Debug, Clone, PartialEq, Eq)]
pub struct AffineExpression {
    pub coefficients: Vec<u64>,
    pub offset: u64,
}

/// What solving one affine expression can yield.
#[derive(Debug, Clone, PartialEq, Eq)]
pub enum SolveResult {
    /// Exactly one variable was left and it has a unique value: the pair is
    /// the variable and its assignment.
    Complete(Vec<(usize, u64)>),
    /// Unknowns remain; the listed range constraints (possibly none) narrow
    /// single variables.
    Incomplete(Vec<(usize, RangeConstraint)>),
    /// The expression is a non-zero constant: no assignment can satisfy it.
    ConstraintUnsatisfiable,
    /// More than one variable is unknown, so more than one assignment could
    /// satisfy the expression.
    MultipleSolutions,
}

proof fn lemma_terms_in_range(coeffs: Seq<u64>, val: Seq<int>, n: int)
    ensures
        0 <= terms_val(coeffs, val, n) < FIELD_MODULUS as int,
    decreases n,
{
    if n <= 0 {
    } else {
        lemma_terms_in_range(coeffs, val, n - 1);
    }
}

proof fn lemma_terms_add(a: Seq<u64>, b: Seq<u64>, c: Seq<u64>, val: Seq<int>, n: int)
    requires
        forall|i: int| 0 <= i < n ==> #[trigger] c[i] as int == f_add(a[i] as int, b[i] as int),
    ensures
        terms_val(c, val, n) == f_add(terms_val(a, val, n), terms_val(b, val, n)),
    decreases n,
{
    let p = FIELD_MODULUS as int;
    if n <= 0 {
        lemma_small_mod(0, p as nat);
    } else {
        lemma_terms_add(a, b, c, val, n - 1);
        let i = n - 1;
        let v = val[i];
        let ta = terms_val(a, val, i);
        let tb = terms_val(b, val, i);
        let ma = f_mul(a[i] as int, v);
        let mb = f_mul(b[i] as int, v);
        // c_i * v ≡ (a_i + b_i) * v ≡ a_i*v + b_i*v
        lemma_mul_mod_noop_left(a[i] as int + b[i] as int, v, p);
        assert((a[i] as int + b[i] as int) * v == a[i] as int * v + b[i] as int * v) by {
            lemma_mul_is_distributive_add(v, a[i] as int, b[i] as int);
        }
        lemma_add_mod_noop(a[i] as int * v, b[i] as int * v, p);
        assert(f_mul(c[i] as int, v) == f_add(ma, mb));
        // regroup the two sums
        lemma_terms_in_range(a, val, i);
        lemma_terms_in_range(b, val, i);
        lemma_add_mod_noop(ta + tb, ma + mb, p);
        lemma_add_mod_noop(ta + ma, tb + mb, p);
        lemma_small_mod(ta as nat, p as nat);
        lemma_small_mod(tb as nat, p as nat);
        assert(f_add(f_add(ta, ma), f_add(tb, mb)) == (ta + ma + (tb + mb)) % p) by {
            lemma_add_mod_noop(ta + ma, tb + mb, p);
        }
        assert(f_add(f_add(ta, tb), f_add(ma, mb)) == (ta + tb + (ma + mb)) % p) by {
            lemma_add_mod_noop(ta + tb, ma + mb, p);
        }
    }
}

proof fn lemma_terms_neg(a: Seq<u64>, c: Seq<u64>, val: Seq<int>, n: int)
    requires
        forall|i: int| 0 <= i < n ==> #[trigger] c[i] as int == f_neg(a[i] as int),
    ensures
        terms_val(c, val, n) == f_neg(terms_val(a, val, n)),
    decreases n,
{
    let p = FIELD_MODULUS as int;
    if n <= 0 {
        lemma_small_mod(0, p as nat);
    } else {
        lemma_terms_neg(a, c, val, n - 1);
        let i = n - 1;
        let v = val[i];
        let ta = terms_val(a, val, i);
        let ma = f_mul(a[i] as int, v);
        // (-a_i) * v ≡ -(a_i * v)
        lemma_mul_mod_noop_left(0 - a[i] as int, v, p);
        assert((0 - a[i] as int) * v == 0 - (a[i] as int * v)) by (nonlinear_arith);
        lemma_sub_mod_noop_right(0, a[i] as int * v, p);
        assert(f_mul(c[i] as int, v) == f_neg(ma));
        // -(x) + -(y) ≡ -(x + y)
        lemma_terms_in_range(a, val, i);
        lemma_add_mod_noop(0 - ta, 0 - ma, p);
        lemma_sub_mod_noop_right(0, ta + ma, p);
        lemma_small_mod(ta as nat, p as nat);
        assert(f_add(f_neg(ta), f_neg(ma)) == (0 - ta + (0 - ma)) % p) by {
            lemma_add_mod_noop(0 - ta, 0 - ma, p);
        }
        assert(f_neg(f_add(ta, ma)) == (0 - (ta + ma)) % p) by {
            lemma_sub_mod_noop_right(0, ta + ma, p);
        }
    }
}

proof fn lemma_terms_scale(a: Seq<u64>, c: Seq<u64>, k: u64, val: Seq<int>, n: int)
    requires
        forall|i: int| 0 <= i < n ==> #[trigger] c[i] as int == f_mul(k as int, a[i] as int),
    ensures
        terms_val(c, val, n) == f_mul(k as int, terms_val(a, val, n)),
    decreases n,
{
    let p = FIELD_MODULUS as int;
    if n <= 0 {
        assert(k as int * 0 == 0);
        lemma_small_mod(0, p as nat);
    } else {
        lemma_terms_scale(a, c, k, val, n - 1);
        let i = n - 1;
        let v = val[i];
        let ki = k as int;
        let ai = a[i] as int;
        let ta = terms_val(a, val, i);
        let ma = f_mul(ai, v);
        // (k*a_i mod p) * v ≡ k * (a_i * v mod p)
        lemma_mul_mod_noop_left(ki * ai, v, p);
        lemma_mul_is_associative(ki, ai, v);
        lemma_mul_mod_noop_right(ki, ai * v, p);
        assert(f_mul(c[i] as int, v) == f_mul(ki, ma));
        // k*ta + k*ma ≡ k*(ta + ma)
        lemma_terms_in_range(a, val, i);
        lemma_mul_mod_noop_right(ki, ta, p);
        lemma_small_mod(ta as nat, p as nat);
        lemma_mul_mod_noop_right(ki, ma, p);
        lemma_small_mod(ma as nat, p as nat);
        lemma_add_mod_noop(ki * ta, ki * ma, p);
        lemma_mul_is_distributive_add(ki, ta, ma);
        lemma_mul_mod_noop_right(ki, ta + ma, p);
        assert(f_add(f_mul(ki, ta), f_mul(ki, ma)) == (ki * ta + ki * ma) % p);
        assert(f_mul(ki, f_add(ta, ma)) == (ki * (ta + ma)) % p);
    }
}

proof fn lemma_terms_skip_zero(a: Seq<u64>, val: Seq<int>, n: int, j: int)
    requires
        0 <= j,
        forall|i: int| 0 <= i < n && i != j ==> #[trigger] a[i] == 0,
    ensures
        terms_val(a, val, n) == if j < n {
            f_mul(a[j] as int, val[j])
        } else {
            0int
        },
    decreases n,
{
    let p = FIELD_MODULUS as int;
    if n <= 0 {
    } else {
        lemma_terms_skip_zero(a, val, n - 1, j);
        let i = n - 1;
        let v = val[i];
        let ta = terms_val(a, val, i);
        if i == j {
            // prefix is zero, term is a_j * v_j
            lemma_small_mod((f_mul(a[j] as int, v)) as nat, p as nat);
            assert(f_add(0, f_mul(a[j] as int, v)) == f_mul(a[j] as int, v)) by {
                lemma_small_mod((f_mul(a[j] as int, v)) as nat, p as nat);
            }
        } else {
            // term is zero
            assert(a[i] == 0);
            assert(0int * v == 0);
            lemma_small_mod(0, p as nat);
            assert(f_mul(0, v) == 0);
            lemma_terms_in_range(a, val, i);
            lemma_small_mod(ta as nat, p as nat);
            assert(f_add(ta, 0) == ta);
        }
    }
}

impl AffineExpression {
    /// Well-formed: every coefficient and the offset are canonical residues.
    pub open spec fn wf(self) -> bool {
        &&& forall|i: int| 0 <= i < self.coefficients@.len()
            ==> in_field(#[trigger] self.coefficients@[i])
        &&& in_field(self.offset)
    }

    /// The number of variables the expression ranges over.
    pub open spec fn spec_width(self) -> nat {
        self.coefficients@.len()
    }

    /// The field value of the expression under a valuation.
    pub open spec fn spec_value(self, val: Seq<int>) -> int {
        f_add(terms_val(self.coefficients@, val, self.coefficients@.len() as int), self.offset as int)
    }

    /// Whether variable `i` still occurs, that is, has a non-zero coefficient.
    pub open spec fn spec_occurs(self, i: int) -> bool {
        self.coefficients@[i] != 0
    }

    /// The constant expression `k` over `width` variables.
    pub fn from_constant(k: u64, width: usize) -> (r: AffineExpression)
        requires
            in_field(k),
        ensures
            r.wf(),
            r.spec_width() == width,
            forall|i: int| 0 <= i < width ==> !r.spec_occurs(i),
            forall|val: Seq<int>| r.spec_value(val) == k as int,
    {
        let mut coefficients: Vec<u64> = Vec::new();
        let mut i: usize = 0;
        while i < width
            invariant
                coefficients@.len() == i,
                i <= width,
                forall|j: int| 0 <= j < i ==> coefficients@[j] == 0,
            decreases width - i,
        {
            coefficients.push(0);
            i += 1;
        }
        let r = AffineExpression { coefficients, offset: k };
        proof {
            assert forall|val: Seq<int>| r.spec_value(val) == k as int by {
                lemma_terms_skip_zero(r.coefficients@, val, width as int, width as int);
                lemma_small_mod(k as nat, FIELD_MODULUS as nat);
            }
        }
        r
    }

    /// The expression consisting of variable `v` alone.
    pub fn from_variable(v: usize, width: usize) -> (r: AffineExpression)
        requires
            v < width,
        ensures
            r.wf(),
            r.spec_width() == width,
            forall|i: int| 0 <= i < width && i != v ==> !r.spec_occurs(i),
            r.spec_occurs(v as int),
            forall|val: Seq<int>|
                valuation_wf(val) && val.len() == width ==> r.spec_value(val) == val[v as int],
    {
        let mut coefficients: Vec<u64> = Vec::new();
        let mut i: usize = 0;
        while i < width
            invariant
                coefficients@.len() == i,
                i <= width,
                v < width,
                forall|j: int| 0 <= j < i ==> coefficients@[j] == (if j == v { 1u64 } else { 0u64 }),
            decreases width - i,
        {
            if i == v {
                coefficients.push(1);
            } else {
                coefficients.push(0);
            }
            i += 1;
        }
        let r = AffineExpression { coefficients, offset: 0 };
        proof {
            let p = FIELD_MODULUS as int;
            assert forall|val: Seq<int>|
                valuation_wf(val) && val.len() == width implies r.spec_value(val)
                == val[v as int] by {
                lemma_terms_skip_zero(r.coefficients@, val, width as int, v as int);
                let x = val[v as int];
                assert(1int * x == x);
                lemma_small_mod(x as nat, p as nat);
                assert(f_mul(1, x) == x);
                assert(f_add(x, 0) == x) by {
                    lemma_small_mod(x as nat, p as nat);
                }
            }
        }
        r
    }

    /// Whether the expression is a constant, executably.
    pub fn is_constant(&self) -> (r: bool)
        ensures
            r == forall|i: int| 0 <= i < self.spec_width() ==> !self.spec_occurs(i),
    {
        let mut i: usize = 0;
        while i < self.coefficients.len()
            invariant
                i <= self.coefficients@.len(),
                forall|j: int| 0 <= j < i ==> !self.spec_occurs(j),
            decreases self.coefficients@.len() - i,
        {
            if self.coefficients[i] != 0 {
                proof {
                    assert(self.spec_occurs(i as int));
                }
                return false;
            }
            i += 1;
        }
        true
    }

    /// The value of a constant expression.
    pub fn constant_value(&self) -> (r: u64)
        requires
            self.wf(),
            forall|i: int| 0 <= i < self.spec_width() ==> !self.spec_occurs(i),
        ensures
            in_field(r),
            forall|val: Seq<int>| self.spec_value(val) == r as int,
    {
        proof {
            self.lemma_constant_value();
        }
        self.offset
    }

    /// Pointwise field addition: the value of the sum is the field sum of the
    /// values, under every valuation.
    pub fn add(&self, other: &AffineExpression) -> (r: AffineExpression)
        requires
            self.wf(),
            other.wf(),
            self.spec_width() == other.spec_width(),
        ensures
            r.wf(),
            r.spec_width() == self.spec_width(),
            forall|i: int| 0 <= i < r.spec_width() ==> #[trigger] r.coefficients@[i] as int
                == f_add(self.coefficients@[i] as int, other.coefficients@[i] as int),
            r.offset as int == f_add(self.offset as int, other.offset as int),
            forall|val: Seq<int>|
                #[trigger] r.spec_value(val) == f_add(self.spec_value(val), other.spec_value(val)),
            forall|i: int| 0 <= i < r.spec_width() && !self.spec_occurs(i) && !other.spec_occurs(i)
                ==> !r.spec_occurs(i),
    {
        let n = self.coefficients.len();
        let mut coefficients: Vec<u64> = Vec::new();
        let mut i: usize = 0;
        while i < n
            invariant
                i <= n,
                n == self.coefficients@.len(),
                n == other.coefficients@.len(),
                self.wf(),
                other.wf(),
                coefficients@.len() == i,
                forall|j: int| 0 <= j < i ==> #[trigger] coefficients@[j] as int == f_add(
                    self.coefficients@[j] as int,
                    other.coefficients@[j] as int,
                ),
                forall|j: int| 0 <= j < i ==> in_field(#[trigger] coefficients@[j]),
            decreases n - i,
        {
            coefficients.push(fe_add(self.coefficients[i], other.coefficients[i]));
            i += 1;
        }
        let offset = fe_add(self.offset, other.offset);
        let r = AffineExpression { coefficients, offset };
        proof {
            let p = FIELD_MODULUS as int;
            assert forall|val: Seq<int>| #[trigger] r.spec_value(val) == f_add(
                self.spec_value(val),
                other.spec_value(val),
            ) by {
                let ta = terms_val(self.coefficients@, val, n as int);
                let tb = terms_val(other.coefficients@, val, n as int);
                lemma_terms_add(self.coefficients@, other.coefficients@, r.coefficients@, val,
                    n as int);
                lemma_terms_in_range(self.coefficients@, val, n as int);
                lemma_terms_in_range(other.coefficients@, val, n as int);
                lemma_add_mod_noop(ta + tb, self.offset as int + other.offset as int, p);
                lemma_add_mod_noop(ta + self.offset as int, tb + other.offset as int, p);
                lemma_small_mod(ta as nat, p as nat);
                lemma_small_mod(tb as nat, p as nat);
            }
            assert forall|i: int|
                0 <= i < r.spec_width() && !self.spec_occurs(i) && !other.spec_occurs(i)
                implies !r.spec_occurs(i) by {
                assert(r.coefficients@[i] as int == f_add(0, 0));
                lemma_small_mod(0, p as nat);
            }
        }
        r
    }

    /// Pointwise field negation.
    pub fn neg(&self) -> (r: AffineExpression)
        requires
            self.wf(),
        ensures
            r.wf(),
            r.spec_width() == self.spec_width(),
            forall|i: int| 0 <= i < r.spec_width() ==> #[trigger] r.coefficients@[i] as int
                == f_neg(self.coefficients@[i] as int),
            r.offset as int == f_neg(self.offset as int),
            forall|val: Seq<int>| #[trigger] r.spec_value(val) == f_neg(self.spec_value(val)),
            forall|i: int| 0 <= i < r.spec_width() && !self.spec_occurs(i) ==> !r.spec_occurs(i),
    {
        let n = self.coefficients.len();
        let mut coefficients: Vec<u64> = Vec::new();
        let mut i: usize = 0;
        while i < n
            invariant
                i <= n,
                n == self.coefficients@.len(),
                self.wf(),
                coefficients@.len() == i,
                forall|j: int| 0 <= j < i ==> #[trigger] coefficients@[j] as int == f_neg(
                    self.coefficients@[j] as int,
                ),
                forall|j: int| 0 <= j < i ==> in_field(#[trigger] coefficients@[j]),
            decreases n - i,
        {
            coefficients.push(fe_neg(self.coefficients[i]));
            i += 1;
        }
        let offset = fe_neg(self.offset);
        let r = AffineExpression { coefficients, offset };
        proof {
            let p = FIELD_MODULUS as int;
            assert forall|val: Seq<int>| #[trigger] r.spec_value(val) == f_neg(
                self.spec_value(val),
            ) by {
                let ta = terms_val(self.coefficients@, val, n as int);
                lemma_terms_neg(self.coefficients@, r.coefficients@, val, n as int);
                lemma_terms_in_range(self.coefficients@, val, n as int);
                lemma_add_mod_noop(0 - ta, 0 - self.offset as int, p);
                lemma_sub_mod_noop_right(0, ta + self.offset as int, p);
                lemma_small_mod(ta as nat, p as nat);
            }
            assert forall|i: int| 0 <= i < r.spec_width() && !self.spec_occurs(i)
                implies !r.spec_occurs(i) by {
                assert(r.coefficients@[i] as int == f_neg(0));
                lemma_small_mod(0, p as nat);
            }
        }
        r
    }

    /// Pointwise subtraction, as addition of the negation.
    pub fn sub(&self, other: &AffineExpression) -> (r: AffineExpression)
        requires
            self.wf(),
            other.wf(),
            self.spec_width() == other.spec_width(),
        ensures
            r.wf(),
            r.spec_width() == self.spec_width(),
            forall|i: int| 0 <= i < r.spec_width() ==> #[trigger] r.coefficients@[i] as int
                == f_add(self.coefficients@[i] as int, f_neg(other.coefficients@[i] as int)),
            r.offset as int == f_add(self.offset as int, f_neg(other.offset as int)),
            forall|val: Seq<int>|
                #[trigger] r.spec_value(val) == f_add(
                    self.spec_value(val),
                    f_neg(other.spec_value(val)),
                ),
            forall|i: int| 0 <= i < r.spec_width() && !self.spec_occurs(i) && !other.spec_occurs(i)
                ==> !r.spec_occurs(i),
            // Subtracting an expression in which a variable does not occur
            // leaves that variable's coefficient unchanged.
            forall|i: int| 0 <= i < r.spec_width() && !other.spec_occurs(i)
                ==> #[trigger] r.coefficients@[i] == self.coefficients@[i],
    {
        let negated = other.neg();
        let r = self.add(&negated);
        proof {
            assert forall|i: int| 0 <= i < r.spec_width() && !other.spec_occurs(i)
                implies #[trigger] r.coefficients@[i] == self.coefficients@[i] by {
                let p = FIELD_MODULUS as int;
                assert(other.coefficients@[i] == 0);
                assert(negated.coefficients@[i] as int == f_neg(0));
                lemma_small_mod(0, p as nat);
                assert(r.coefficients@[i] as int == f_add(self.coefficients@[i] as int, 0));
                lemma_small_mod(self.coefficients@[i] as nat, p as nat);
            }
        }
        r
    }

    /// Multiplication by the constant `k`.
    pub fn scale(&self, k: u64) -> (r: AffineExpression)
        requires
            self.wf(),
            in_field(k),
        ensures
            r.wf(),
            r.spec_width() == self.spec_width(),
            forall|i: int| 0 <= i < r.spec_width() ==> #[trigger] r.coefficients@[i] as int
                == f_mul(k as int, self.coefficients@[i] as int),
            r.offset as int == f_mul(k as int, self.offset as int),
            forall|val: Seq<int>|
                #[trigger] r.spec_value(val) == f_mul(k as int, self.spec_value(val)),
            forall|i: int| 0 <= i < r.spec_width() && !self.spec_occurs(i) ==> !r.spec_occurs(i),
    {
        let n = self.coefficients.len();
        let mut coefficients: Vec<u64> = Vec::new();
        let mut i: usize = 0;
        while i < n
            invariant
                i <= n,
                n == self.coefficients@.len(),
                self.wf(),
                in_field(k),
                coefficients@.len() == i,
                forall|j: int| 0 <= j < i ==> #[trigger] coefficients@[j] as int == f_mul(
                    k as int,
                    self.coefficients@[j] as int,
                ),
                forall|j: int| 0 <= j < i ==> in_field(#[trigger] coefficients@[j]),
            decreases n - i,
        {
            coefficients.push(fe_mul(k, self.coefficients[i]));
            i += 1;
        }
        let offset = fe_mul(k, self.offset);
        let r = AffineExpression { coefficients, offset };
        proof {
            let p = FIELD_MODULUS as int;
            let ki = k as int;
            assert forall|val: Seq<int>| #[trigger] r.spec_value(val) == f_mul(
                ki,
                self.spec_value(val),
            ) by {
                let ta = terms_val(self.coefficients@, val, n as int);
                let ko = self.offset as int;
                lemma_terms_scale(self.coefficients@, r.coefficients@, k, val, n as int);
                lemma_terms_in_range(self.coefficients@, val, n as int);
                lemma_mul_mod_noop_right(ki, ta, p);
                lemma_small_mod(ta as nat, p as nat);
                lemma_mul_mod_noop_right(ki, ko, p);
                lemma_small_mod(ko as nat, p as nat);
                lemma_add_mod_noop(ki * ta, ki * ko, p);
                lemma_mul_is_distributive_add(ki, ta, ko);
                lemma_mul_mod_noop_right(ki, ta + ko, p);
                assert(f_add(f_mul(ki, ta), f_mul(ki, ko)) == (ki * ta + ki * ko) % p);
                assert(f_mul(ki, f_add(ta, ko)) == (ki * (ta + ko)) % p);
            }
            assert forall|i: int| 0 <= i < r.spec_width() && !self.spec_occurs(i)
                implies !r.spec_occurs(i) by {
                assert(r.coefficients@[i] as int == f_mul(ki, 0));
                assert(ki * 0 == 0);
                lemma_small_mod(0, p as nat);
            }
        }
        r
    }

    /// Soundness of a complete solution: each constrained variable exists and
    /// still occurs, and every valuation that assigns all the listed values
    /// makes the expression zero.
    pub open spec fn solution_sound(self, cs: Seq<(usize, u64)>) -> bool {
        &&& cs.len() <= 1
        &&& forall|t: int| 0 <= t < cs.len() ==> {
            &&& (#[trigger] cs[t]).0 < self.spec_width()
            &&& in_field(cs[t].1)
            &&& self.spec_occurs(cs[t].0 as int)
        }
        &&& forall|val: Seq<int>|
            valuation_wf(val) && val.len() == self.spec_width() && (forall|t: int|
                0 <= t < cs.len() ==> val[#[trigger] cs[t].0 as int] == cs[t].1 as int)
                ==> #[trigger] self.spec_value(val) == 0
    }

    /// Solves `self = 0`.
    ///
    /// - With no remaining variable, the expression is a constant: zero means
    ///   the constraint already holds, non-zero means it cannot.
    /// - With exactly one variable `x` of coefficient `c`, the unique solution
    ///   `x = -offset / c` is returned; every valuation assigning it makes the
    ///   expression zero.
    /// - With two or more variables no single assignment is forced.
    pub fn solve(&self) -> (r: SolveResult)
        requires
            self.wf(),
        ensures
            match r {
                SolveResult::Complete(cs) => self.solution_sound(cs@),
                SolveResult::ConstraintUnsatisfiable => {
                    &&& forall|i: int| 0 <= i < self.spec_width() ==> !self.spec_occurs(i)
                    &&& forall|val: Seq<int>| #[trigger] self.spec_value(val) == self.offset as int
                    &&& self.offset != 0
                },
                SolveResult::Incomplete(hints) => hints@.len() == 0,
                SolveResult::MultipleSolutions => true,
            },
            (forall|i: int| 0 <= i < self.spec_width() ==> !self.spec_occurs(i)) && self.offset == 0
                ==> (r matches SolveResult::Complete(cs) && cs@.len() == 0),
            (forall|i: int| 0 <= i < self.spec_width() ==> !self.spec_occurs(i)) && self.offset != 0
                ==> r is ConstraintUnsatisfiable,
            forall|j: int|
                (0 <= j < self.spec_width() && self.spec_occurs(j) && (forall|i: int|
                    0 <= i < self.spec_width() && i != j ==> !self.spec_occurs(i))) ==> (r is Complete
                    || r is Incomplete),
            // With exactly one variable left, the outcome is a function of
            // its coefficient and the offset: the unique assignment where the
            // Fermat power inverts the coefficient, deferral otherwise.
            forall|j: int|
                (0 <= j < self.spec_width() && self.spec_occurs(j) && (forall|i: int|
                    0 <= i < self.spec_width() && i != j ==> !self.spec_occurs(i))) ==> {
                    let c = self.coefficients@[j] as int;
                    let ic = f_pow(c, (FIELD_MODULUS - 2) as nat);
                    if f_mul(c, ic) == 1 {
                        r matches SolveResult::Complete(cs) && cs@ =~= seq![
                            (j as usize, f_mul(f_neg(self.offset as int), ic) as u64),
                        ]
                    } else {
                        r is Incomplete
                    }
                },
            // With two or more variables left, no single assignment is
            // forced.
            (exists|i: int, j: int|
                0 <= i < j < self.spec_width() && self.spec_occurs(i) && self.spec_occurs(j))
                ==> r is MultipleSolutions,
    {
        // Find up to two occurring variables.
        let n = self.coefficients.len();
        let mut first: Option<usize> = None;
        let mut second: Option<usize> = None;
        let mut i: usize = 0;
        while i < n
            invariant
                i <= n,
                n == self.coefficients@.len(),
                match first {
                    None => second is None && forall|j: int| 0 <= j < i ==> !self.spec_occurs(j),
                    Some(v) => {
                        &&& v < i
                        &&& self.spec_occurs(v as int)
                        &&& match second {
                            None => forall|j: int| 0 <= j < i && j != v ==> !self.spec_occurs(j),
                            Some(w) => w < i && w != v && self.spec_occurs(w as int),
                        }
                    },
                },
            decreases n - i,
        {
            if self.coefficients[i] != 0 {
                if first.is_none() {
                    first = Some(i);
                } else if second.is_none() {
                    second = Some(i);
                }
            }
            i += 1;
        }
        let more = second.is_some();
        proof {
            if first is None || second is None {
                // At most one variable occurs: refute any two-variable pair.
                assert forall|a: int, b: int|
                    !(0 <= a < b < self.spec_width() && self.spec_occurs(a) && self.spec_occurs(
                        b,
                    )) by {
                    if 0 <= a < b < self.spec_width() && self.spec_occurs(a) && self.spec_occurs(
                        b,
                    ) {
                        match first {
                            None => {
                                assert(!self.spec_occurs(a));
                            },
                            Some(v) => {
                                if a != v {
                                    assert(!self.spec_occurs(a));
                                } else {
                                    assert(!self.spec_occurs(b));
                                }
                            },
                        }
                    }
                }
            }
            if first is Some && second is Some {
                let v = first->0 as int;
                let w = second->0 as int;
                if v < w {
                    assert(0 <= v < w < self.spec_width() && self.spec_occurs(v)
                        && self.spec_occurs(w));
                } else {
                    assert(0 <= w < v < self.spec_width() && self.spec_occurs(w)
                        && self.spec_occurs(v));
                }
                assert forall|j: int|
                    !(0 <= j < self.spec_width() && self.spec_occurs(j) && (forall|t: int|
                        0 <= t < self.spec_width() && t != j ==> !self.spec_occurs(t))) by {
                    if 0 <= j < self.spec_width() && self.spec_occurs(j) && (forall|t: int|
                        0 <= t < self.spec_width() && t != j ==> !self.spec_occurs(t)) {
                        if j != v {
                            assert(!self.spec_occurs(v));
                        } else {
                            assert(!self.spec_occurs(w));
                        }
                    }
                }
            }
        }
        match first {
            None => {
                if self.offset == 0 {
                    let cs: Vec<(usize, u64)> = Vec::new();
                    proof {
                        self.lemma_constant_value();
                        assert(self.solution_sound(cs@));
                    }
                    SolveResult::Complete(cs)
                } else {
                    proof {
                        self.lemma_constant_value();
                    }
                    SolveResult::ConstraintUnsatisfiable
                }
            },
            Some(v) => {
                if more {
                    SolveResult::MultipleSolutions
                } else {
                    let c = self.coefficients[v];
                    proof {
                        assert forall|j: int|
                            0 <= j < self.spec_width() && self.spec_occurs(j) && (forall|i: int|
                                0 <= i < self.spec_width() && i != j ==> !self.spec_occurs(i))
                            implies j == v as int by {
                            if j != v as int {
                                assert(!self.spec_occurs(v as int));
                            }
                        }
                    }
                    match fe_inv(c) {
                        Some(ic) => {
                            let value = fe_mul(fe_neg(self.offset), ic);
                            let mut cs: Vec<(usize, u64)> = Vec::new();
                            cs.push((v, value));
                            proof {
                                assert(cs@ =~= seq![(v, value)]);
                                self.lemma_single_variable_solution(v as int, ic);
                                assert forall|val: Seq<int>|
                                    valuation_wf(val) && val.len() == self.spec_width() && (
                                    forall|t: int|
                                        0 <= t < cs@.len() ==> val[#[trigger] cs@[t].0 as int]
                                            == cs@[t].1 as int)
                                    implies #[trigger] self.spec_value(val) == 0 by {
                                    assert(val[cs@[0].0 as int] == cs@[0].1 as int);
                                    assert(val[v as int] == value as int);
                                }
                                assert(self.solution_sound(cs@));
                            }
                            SolveResult::Complete(cs)
                        },
                        None => SolveResult::Incomplete(Vec::new()),
                    }
                }
            },
        }
    }

    /// A constant expression evaluates to its offset under every valuation.
    proof fn lemma_constant_value(&self)
        requires
            self.wf(),
            forall|i: int| 0 <= i < self.spec_width() ==> !self.spec_occurs(i),
        ensures
            forall|val: Seq<int>| #[trigger] self.spec_value(val) == self.offset as int,
    {
        let n = self.coefficients@.len() as int;
        assert forall|i: int| 0 <= i < n && i != n implies self.coefficients@[i] == 0 by {
            assert(!self.spec_occurs(i));
        }
        assert forall|val: Seq<int>| #[trigger] self.spec_value(val) == self.offset as int by {
            lemma_terms_skip_zero(self.coefficients@, val, n, n);
            lemma_small_mod(self.offset as nat, FIELD_MODULUS as nat);
        }
    }

    /// If only variable `v` occurs, with coefficient `c`, and `ic` inverts
    /// `c`, then assigning `-offset * ic` to `v` makes the value zero.
    proof fn lemma_single_variable_solution(&self, v: int, ic: u64)
        requires
            self.wf(),
            0 <= v < self.spec_width(),
            forall|i: int| 0 <= i < self.spec_width() && i != v ==> !self.spec_occurs(i),
            in_field(ic),
            f_mul(self.coefficients@[v] as int, ic as int) == 1,
        ensures
            forall|val: Seq<int>|
                valuation_wf(val) && val.len() == self.spec_width() && val[v] == f_mul(
                    f_neg(self.offset as int),
                    ic as int,
                ) ==> #[trigger] self.spec_value(val) == 0,
    {
        let p = FIELD_MODULUS as int;
        let c = self.coefficients@[v] as int;
        let k = self.offset as int;
        let x = f_mul(f_neg(k), ic as int);
        assert forall|val: Seq<int>|
            valuation_wf(val) && val.len() == self.spec_width() && val[v] == x
            implies #[trigger] self.spec_value(val) == 0 by {
            let n = self.coefficients@.len() as int;
            assert forall|i: int| 0 <= i < n && i != v implies self.coefficients@[i] == 0 by {
                assert(!self.spec_occurs(i));
            }
            lemma_terms_skip_zero(self.coefficients@, val, n, v);
            // c * (−k·ic) ≡ −k · (c·ic) ≡ −k
            let nk = f_neg(k);
            lemma_mul_mod_noop_right(c, nk * ic as int, p);
            assert(c * (nk * ic as int) == nk * (c * ic as int)) by (nonlinear_arith);
            lemma_mul_mod_noop_right(nk, c * ic as int, p);
            assert((nk * ((c * ic as int) % p)) % p == (nk * 1) % p);
            assert(nk * 1 == nk);
            assert(0 <= nk < p);
            lemma_small_mod(nk as nat, p as nat);
            assert(f_mul(c, x) == nk);
            // (−k) + k ≡ 0
            lemma_add_mod_noop(0 - k, k, p);
            assert((0 - k + k) % p == 0) by {
                lemma_small_mod(0, p as nat);
            }
            lemma_small_mod(k as nat, p as nat);
            assert(f_add(nk, k) == 0);
        }
    }
}

/// With exactly one variable left, an affine expression has at most one
/// satisfying assignment: any two zero valuations agree on that variable.
/// The inverse premise is the field structure itself; `solve` exhibits such
/// an inverse whenever it returns an assignment.
pub proof fn lemma_unique_assignment(
    e: AffineExpression,
    v: int,
    val1: Seq<int>,
    val2: Seq<int>,
)
    requires
        e.wf(),
        0 <= v < e.spec_width(),
        forall|i: int| 0 <= i < e.spec_width() && i != v ==> !e.spec_occurs(i),
        exists|ic: u64| in_field(ic) && f_mul(e.coefficients@[v] as int, ic as int) == 1,
        valuation_wf(val1),
        val1.len() == e.spec_width(),
        e.spec_value(val1) == 0,
        valuation_wf(val2),
        val2.len() == e.spec_width(),
        e.spec_value(val2) == 0,
    ensures
        val1[v] == val2[v],
{
    let p = FIELD_MODULUS as int;
    let c = e.coefficients@[v] as int;
    let k = e.offset as int;
    let ic = choose|ic: u64| in_field(ic) && f_mul(c, ic as int) == 1;
    let n = e.coefficients@.len() as int;
    assert forall|i: int| 0 <= i < n && i != v implies e.coefficients@[i] == 0 by {
        assert(!e.spec_occurs(i));
    }
    lemma_terms_skip_zero(e.coefficients@, val1, n, v);
    lemma_terms_skip_zero(e.coefficients@, val2, n, v);
    let x1 = val1[v];
    let x2 = val2[v];
    let m1 = f_mul(c, x1);
    let m2 = f_mul(c, x2);
    // From (m + k) % p == 0 with 0 <= m + k < 2p: m + k is 0 or p.
    assert(0 <= m1 < p && 0 <= m2 < p);
    lemma_cancel_mod(m1 + k, p);
    lemma_cancel_mod(m2 + k, p);
    assert(m1 == m2);
    // x = (c*x mod p) * ic mod p, so equal products force equal values.
    lemma_product_recovers(c, ic, x1);
    lemma_product_recovers(c, ic, x2);
}

/// For `0 <= a < 2m`, `a % m == 0` forces `a` to be `0` or `m`.
proof fn lemma_cancel_mod(a: int, m: int)
    requires
        0 < m,
        0 <= a < 2 * m,
        a % m == 0,
    ensures
        a == 0 || a == m,
{
    if a < m {
        lemma_small_mod(a as nat, m as nat);
    } else {
        lemma_mod_add_multiples_vanish(a - m, m);
        lemma_small_mod((a - m) as nat, m as nat);
    }
}

/// Multiplying `c*x mod p` by an inverse of `c` recovers `x`.
proof fn lemma_product_recovers(c: int, ic: u64, x: int)
    requires
        0 <= c < FIELD_MODULUS as int,
        in_field(ic),
        f_mul(c, ic as int) == 1,
        0 <= x < FIELD_MODULUS as int,
    ensures
        f_mul(f_mul(c, x), ic as int) == x,
{
    let p = FIELD_MODULUS as int;
    let ici = ic as int;
    lemma_mul_mod_noop_left(c * x, ici, p);
    assert(c * x * ici == x * (c * ici)) by (nonlinear_arith);
    lemma_mul_mod_noop_right(x, c * ici, p);
    assert((x * ((c * ici) % p)) % p == (x * 1) % p);
    assert(x * 1 == x);
    lemma_small_mod(x as nat, p as nat);
}

proof fn lemma_terms_congruent(a: Seq<u64>, b: Seq<u64>, val: Seq<int>, n: int)
    requires
        forall|i: int| 0 <= i < n ==> #[trigger] a[i] == b[i],
    ensures
        terms_val(a, val, n) == terms_val(b, val, n),
    decreases n,
{
    if n > 0 {
        lemma_terms_congruent(a, b, val, n - 1);
    }
}

/// Zeroing one coefficient removes exactly that term from the sum.
proof fn lemma_terms_update_zero(a: Seq<u64>, val: Seq<int>, n: int, j: int)
    requires
        0 <= j < n,
        n <= a.len(),
        n <= val.len(),
    ensures
        terms_val(a, val, n) == f_add(
            terms_val(a.update(j, 0u64), val, n),
            f_mul(a[j] as int, val[j]),
        ),
    decreases n,
{
    let p = FIELD_MODULUS as int;
    let b = a.update(j, 0u64);
    let i = n - 1;
    let v = val[i];
    let mj = f_mul(a[j] as int, val[j]);
    if i == j {
        lemma_terms_congruent(a, b, val, i);
        // the replaced term contributes zero
        assert(b[i] == 0);
        assert(0int * v == 0);
        lemma_small_mod(0, p as nat);
        assert(f_mul(b[i] as int, v) == 0);
        lemma_terms_in_range(b, val, i);
        lemma_small_mod(terms_val(b, val, i) as nat, p as nat);
        assert(terms_val(b, val, n) == terms_val(b, val, i));
        lemma_terms_in_range(a, val, i);
    } else {
        lemma_terms_update_zero(a, val, i, j);
        assert(b[i] == a[i]);
        let m = f_mul(a[i] as int, v);
        let tb = terms_val(b, val, i);
        lemma_terms_in_range(b, val, i);
        lemma_terms_in_range(a, val, i);
        // regroup: ((tb + mj) + m) and ((tb + m) + mj) agree mod p
        lemma_small_mod(tb as nat, p as nat);
        assert(f_add(f_add(tb, mj), m) == (tb + mj + m) % p) by {
            lemma_add_mod_noop(tb + mj, m, p);
            lemma_small_mod(m as nat, p as nat);
        }
        assert(f_add(f_add(tb, m), mj) == (tb + m + mj) % p) by {
            lemma_add_mod_noop(tb + m, mj, p);
            lemma_small_mod(mj as nat, p as nat);
        }
    }
}

impl AffineExpression {
    /// Substitutes a now-known value for one variable: the coefficient moves
    /// into the constant. Under any valuation that assigns that value to the
    /// variable, the expression's value is unchanged.
    pub fn assign(&mut self, var: usize, value: u64)
        requires
            old(self).wf(),
            var < old(self).spec_width(),
            in_field(value),
        ensures
            final(self).wf(),
            final(self).spec_width() == old(self).spec_width(),
            !final(self).spec_occurs(var as int),
            forall|i: int| 0 <= i < old(self).spec_width() && i != var
                ==> final(self).coefficients@[i] == old(self).coefficients@[i],
            forall|val: Seq<int>|
                valuation_wf(val) && val.len() == old(self).spec_width() && val[var as int]
                    == value as int ==> #[trigger] final(self).spec_value(val) == old(
                    self,
                ).spec_value(val),
    {
        let ghost before = *self;
        let c = self.coefficients[var];
        let delta = fe_mul(c, value);
        self.offset = fe_add(self.offset, delta);
        self.coefficients[var] = 0;
        proof {
            let p = FIELD_MODULUS as int;
            let n = before.coefficients@.len() as int;
            assert(self.coefficients@ =~= before.coefficients@.update(var as int, 0u64));
            assert forall|val: Seq<int>|
                valuation_wf(val) && val.len() == before.spec_width() && val[var as int]
                    == value as int implies #[trigger] self.spec_value(val) == before.spec_value(
                val,
            ) by {
                lemma_terms_update_zero(before.coefficients@, val, n, var as int);
                let tb = terms_val(self.coefficients@, val, n);
                let mj = f_mul(c as int, val[var as int]);
                let k = before.offset as int;
                lemma_terms_in_range(self.coefficients@, val, n);
                lemma_small_mod(tb as nat, p as nat);
                lemma_small_mod(k as nat, p as nat);
                lemma_small_mod(mj as nat, p as nat);
                assert(before.spec_value(val) == (tb + mj + k) % p) by {
                    lemma_add_mod_noop(tb + mj, k, p);
                }
                assert(self.spec_value(val) == (tb + (mj + k)) % p) by {
                    lemma_add_mod_noop(mj, k, p);
                    lemma_add_mod_noop(tb, mj + k, p);
                }
            }
        }
    }
}

/// A variable-free affine expression evaluates to its offset under every
/// valuation.
pub proof fn lemma_constant_spec_value(a: AffineExpression)
    requires
        a.wf(),
        forall|i: int| 0 <= i < a.spec_width() ==> !a.spec_occurs(i),
    ensures
        forall|val: Seq<int>| #[trigger] a.spec_value(val) == a.offset as int,
{
    a.lemma_constant_value();
}

} // verus!
