//! Witness generation for PIL (Polynomial Identity Language) constraint
//! systems: given an analyzed program (committed and fixed columns plus
//! identities), precomputed fixed-column values and a prover-query oracle,
//! the solver fills in a complete table of field-element values for the
//! committed columns such that every identity holds on every row, with
//! wrap-around on row indices.

pub mod affine;
pub mod block;
pub mod checker;
pub mod driver;
pub mod estark;
pub mod eval;
pub mod expr;
pub mod field;
pub mod fixed;
pub mod global_constraints;
pub mod identity;
pub mod machines;
pub mod mock;
pub mod parsed;
pub mod plonky3;
pub mod query;
pub mod range;
pub mod rows;
pub mod sequence;
pub mod types;
