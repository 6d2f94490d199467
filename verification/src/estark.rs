//! The eSTARK backend adapter's computational core: the default proof
//! parameters derived from the degree, and the column conversion into the
//! prover's dense polynomial arrays. The proving call itself is a backend
//! concern outside this library.

use vstd::prelude::*;
use vstd::arithmetic::power2::{lemma_pow2_strictly_increases, pow2};

verus! {

/// The proof-system parameters: FRI domain sizes, query count, hash kind and
/// folding step bit sizes.
#[derive(Debug, Clone, PartialEq, Eq)]
pub struct StarkParams {
    pub n_bits: u64,
    pub n_bits_ext: u64,
    pub n_queries: u64,
    pub verification_hash_type: String,
    pub steps: Vec<u64>,
}

/// The eSTARK backend configuration.
#[derive(Debug, Clone, PartialEq, Eq)]
pub struct EStark {
    pub params: StarkParams,
}

/// The number of bits needed to address `degree` rows: the smallest `b` with
/// `degree <= 2^b`.
pub fn degree_bits(degree: u64) -> (r: u64)
    requires
        1 <= degree,
    ensures
        r <= 64,
        degree <= pow2(r as nat),
        r > 0 ==> pow2((r - 1) as nat) < degree,
{
    let mut bits: u64 = 0;
    let mut cur: u128 = 1;
    proof {
        assert(pow2(0) == 1) by {
            vstd::arithmetic::power2::lemma2_to64();
        }
    }
    while cur < degree as u128
        invariant
            1 <= degree,
            bits <= 64,
            cur == pow2(bits as nat),
            bits > 0 ==> pow2((bits - 1) as nat) < degree,
        decreases 64 - bits,
    {
        proof {
            assert(pow2((bits + 1) as nat) == 2 * pow2(bits as nat)) by {
                vstd::arithmetic::power2::lemma_pow2_unfold((bits + 1) as nat);
            }
            assert(pow2(64) == 0x1_0000_0000_0000_0000) by {
                vstd::arithmetic::power2::lemma2_to64_rest();
            }
            if bits >= 64 {
                assert(cur >= degree as u128);
            }
            assert(bits < 64);
            assert(cur * 2 <= 0x2_0000_0000_0000_0000u128) by {
                if bits + 1 <= 64 {
                    lemma_pow2_strictly_increases((bits + 1) as nat, 65);
                    assert(pow2(65) == 2 * pow2(64)) by {
                        vstd::arithmetic::power2::lemma_pow2_unfold(65);
                    }
                }
            }
        }
        cur = cur * 2;
        bits = bits + 1;
    }
    bits
}

impl EStark {
    /// The default configuration for a machine of the given degree: the
    /// domain covers the degree, the extended domain one more bit, two
    /// queries, the Goldilocks hash, and the standard folding steps.
    pub fn new(degree: u64) -> (r: EStark)
        requires
            1 <= degree,
        ensures
            degree <= pow2(r.params.n_bits as nat),
            r.params.n_bits > 0 ==> pow2((r.params.n_bits - 1) as nat) < degree,
            r.params.n_bits_ext == r.params.n_bits + 1,
            r.params.n_queries == 2,
            r.params.verification_hash_type@ == "GL"@,
            r.params.steps@ =~= seq![19u64, 17u64, 7u64],
    {
        let bits = degree_bits(degree);
        let mut steps: Vec<u64> = Vec::new();
        steps.push(19);
        steps.push(17);
        steps.push(7);
        let params = StarkParams {
            n_bits: bits,
            n_bits_ext: bits + 1,
            n_queries: 2,
            verification_hash_type: "GL".to_owned(),
            steps,
        };
        EStark { params }
    }
}

/// Converts named columns into the prover's dense polynomial arrays: one
/// value vector per column, in order, contents unchanged. The expected shape
/// (column count and length) must match exactly.
pub fn to_pols_values(columns: &Vec<(String, Vec<u64>)>, n_pols: usize, degree: usize) -> (r:
    Option<Vec<Vec<u64>>>)
    ensures
        match r {
            Some(out) => {
                &&& columns@.len() == n_pols
                &&& out@.len() == n_pols
                &&& forall|i: int| 0 <= i < out@.len() ==> (#[trigger] out@[i])@
                    == columns@[i].1@ && out@[i]@.len() == degree
            },
            None => columns@.len() != n_pols || exists|i: int|
                0 <= i < columns@.len() && (#[trigger] columns@[i]).1@.len() != degree,
        },
{
    if columns.len() != n_pols {
        return None;
    }
    let mut out: Vec<Vec<u64>> = Vec::new();
    let mut i: usize = 0;
    while i < columns.len()
        invariant
            columns@.len() == n_pols,
            i <= columns@.len(),
            out@.len() == i,
            forall|k: int| 0 <= k < i ==> ((#[trigger] out@[k])@ == columns@[k].1@ && out@[k]@.len()
                == degree),
        decreases columns@.len() - i,
    {
        let src = &columns[i].1;
        if src.len() != degree {
            return None;
        }
        let mut col: Vec<u64> = Vec::new();
        let mut j: usize = 0;
        while j < src.len()
            invariant
                j <= src@.len(),
                col@.len() == j,
                forall|k: int| 0 <= k < j ==> col@[k] == src@[k],
            decreases src@.len() - j,
        {
            col.push(src[j]);
            j += 1;
        }
        proof {
            assert(col@ =~= src@);
        }
        out.push(col);
        i += 1;
    }
    Some(out)
}

} // verus!
