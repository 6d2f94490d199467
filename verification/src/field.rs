//! Arithmetic in the Goldilocks prime field, the field of all column values.
//!
//! Field elements are `u64` values below [`FIELD_MODULUS`]; the spec-level
//! operations `f_add`, `f_sub`, `f_mul`, `f_neg` and `f_pow` state the
//! mathematical meaning of each executable operation.

use vstd::prelude::*;
use vstd::arithmetic::div_mod::{
    lemma_add_mod_noop_right, lemma_mod_add_multiples_vanish, lemma_mul_mod_noop,
    lemma_mul_mod_noop_left, lemma_small_mod,
};
use vstd::arithmetic::power::{lemma_pow0, lemma_pow_adds, lemma_pow1, pow};

verus! {

/// The Goldilocks prime 2^64 - 2^32 + 1.
pub const FIELD_MODULUS: u64 = 0xffff_ffff_0000_0001;

/// A `u64` is a valid field element when it is a canonical residue.
pub open spec fn in_field(x: u64) -> bool {
    x < FIELD_MODULUS
}

/// Field addition, mathematically.
pub open spec fn f_add(a: int, b: int) -> int {
    (a + b) % (FIELD_MODULUS as int)
}

/// Field subtraction, mathematically.
pub open spec fn f_sub(a: int, b: int) -> int {
    (a - b) % (FIELD_MODULUS as int)
}

/// Field negation, mathematically.
pub open spec fn f_neg(a: int) -> int {
    (0 - a) % (FIELD_MODULUS as int)
}

/// Field multiplication, mathematically.
pub open spec fn f_mul(a: int, b: int) -> int {
    (a * b) % (FIELD_MODULUS as int)
}

/// Field exponentiation, mathematically.
pub open spec fn f_pow(b: int, e: nat) -> int {
    pow(b, e) % (FIELD_MODULUS as int)
}

/// Reduces an arbitrary `u64` into the field.
pub fn fe_reduce(x: u64) -> (r: u64)
    ensures
        in_field(r),
        r == x as int % (FIELD_MODULUS as int),
{
    x % FIELD_MODULUS
}

/// Adds two field elements.
pub fn fe_add(a: u64, b: u64) -> (r: u64)
    requires
        in_field(a),
        in_field(b),
    ensures
        in_field(r),
        r == f_add(a as int, b as int),
{
    let s: u128 = a as u128 + b as u128;
    let p: u128 = FIELD_MODULUS as u128;
    if s >= p {
        let r = (s - p) as u64;
        proof {
            lemma_mod_add_multiples_vanish(s - p, p as int);
            lemma_small_mod((s - p) as nat, p as nat);
        }
        r
    } else {
        proof {
            lemma_small_mod(s as nat, p as nat);
        }
        s as u64
    }
}

/// Subtracts one field element from another.
pub fn fe_sub(a: u64, b: u64) -> (r: u64)
    requires
        in_field(a),
        in_field(b),
    ensures
        in_field(r),
        r == f_sub(a as int, b as int),
{
    let ghost p: int = FIELD_MODULUS as int;
    if a >= b {
        proof {
            lemma_small_mod((a - b) as nat, p as nat);
        }
        a - b
    } else {
        let r = a + (FIELD_MODULUS - b);
        proof {
            lemma_mod_add_multiples_vanish(a - b, p);
            lemma_small_mod(r as nat, p as nat);
        }
        r
    }
}

/// Negates a field element.
pub fn fe_neg(a: u64) -> (r: u64)
    requires
        in_field(a),
    ensures
        in_field(r),
        r == f_neg(a as int),
{
    let ghost p: int = FIELD_MODULUS as int;
    if a == 0 {
        proof {
            lemma_small_mod(0, p as nat);
        }
        0
    } else {
        proof {
            lemma_mod_add_multiples_vanish(0 - a, p);
            lemma_small_mod((FIELD_MODULUS - a) as nat, p as nat);
        }
        FIELD_MODULUS - a
    }
}

/// Multiplies two field elements.
pub fn fe_mul(a: u64, b: u64) -> (r: u64)
    requires
        in_field(a),
        in_field(b),
    ensures
        in_field(r),
        r == f_mul(a as int, b as int),
{
    proof {
        assert((a as int) * (b as int) < 0x1_0000_0000_0000_0000_0000_0000_0000_0000int)
            by (nonlinear_arith)
            requires
                a < 0x1_0000_0000_0000_0000,
                b < 0x1_0000_0000_0000_0000,
        ;
    }
    let prod: u128 = a as u128 * b as u128;
    (prod % FIELD_MODULUS as u128) as u64
}

/// Raises a field element to a power by binary exponentiation.
pub fn fe_pow(base: u64, exp: u64) -> (r: u64)
    requires
        in_field(base),
    ensures
        in_field(r),
        r == f_pow(base as int, exp as nat),
    decreases exp,
{
    let ghost p: int = FIELD_MODULUS as int;
    if exp == 0 {
        proof {
            lemma_pow0(base as int);
            lemma_small_mod(1, p as nat);
        }
        1
    } else {
        let half = fe_pow(base, exp / 2);
        let sq = fe_mul(half, half);
        let ghost k = (exp / 2) as nat;
        proof {
            lemma_pow_adds(base as int, k, k);
            lemma_mul_mod_noop(pow(base as int, k), pow(base as int, k), p);
            assert(sq == pow(base as int, (k + k) as nat) % p);
        }
        if exp % 2 == 0 {
            assert(k + k == exp);
            assert(sq == f_pow(base as int, exp as nat));
            sq
        } else {
            let r = fe_mul(sq, base);
            proof {
                assert(k + k + 1 == exp);
                lemma_mul_mod_noop_left(pow(base as int, (k + k) as nat), base as int, p);
                lemma_pow1(base as int);
                lemma_pow_adds(base as int, (k + k) as nat, 1nat);
                assert(pow(base as int, ((k + k) + 1) as nat)
                    == pow(base as int, (k + k) as nat) * base);
                assert(r == (sq as int * base as int) % p);
                assert(r == (pow(base as int, (k + k) as nat) * base) % p);
                assert(r == f_pow(base as int, exp as nat));
            }
            r
        }
    }
}

/// Multiplicative inverse. Computes the Fermat power `a^(p-2)` and checks the
/// product at run time, so the contract needs no primality argument; for a
/// non-zero canonical residue of a prime modulus the check always passes.
/// The result is a function of the input alone: the Fermat power where the
/// product check passes, nothing otherwise.
pub fn fe_inv(a: u64) -> (r: Option<u64>)
    requires
        in_field(a),
    ensures
        r is None <==> (a == 0 || f_mul(
            a as int,
            f_pow(a as int, (FIELD_MODULUS - 2) as nat),
        ) != 1),
        r matches Some(v) ==> {
            &&& v == f_pow(a as int, (FIELD_MODULUS - 2) as nat)
            &&& in_field(v)
            &&& f_mul(a as int, v as int) == 1
            &&& a != 0
        },
{
    if a == 0 {
        None
    } else {
        let c = fe_pow(a, FIELD_MODULUS - 2);
        if fe_mul(a, c) == 1 {
            Some(c)
        } else {
            None
        }
    }
}

/// Adding a negation is subtraction.
pub proof fn lemma_f_add_neg_is_sub(a: int, b: int)
    requires
        0 <= a < FIELD_MODULUS as int,
    ensures
        f_add(a, f_neg(b)) == f_sub(a, b),
{
    let p = FIELD_MODULUS as int;
    lemma_add_mod_noop_right(a, 0 - b, p);
}

/// Field multiplication is commutative.
pub proof fn lemma_f_mul_comm(a: int, b: int)
    ensures
        f_mul(a, b) == f_mul(b, a),
{
    vstd::arithmetic::mul::lemma_mul_is_commutative(a, b);
}

} // verus!
