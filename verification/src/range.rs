//! Range constraints: monotonically shrinking descriptions of the values a
//! cell may still take, combining an interval with a bitmask.

use vstd::prelude::*;
use crate::field::{in_field, FIELD_MODULUS};

verus! {

/// The set of values a cell may take: all `v` with `min <= v <= max` whose
/// set bits lie inside `mask`.
#[derive(Clone, Copy, Debug, PartialEq, Eq, Structural)]
pub struct RangeConstraint {
    pub min: u64,
    pub max: u64,
    pub mask: u64,
}

impl RangeConstraint {
    /// Whether the constraint permits the value `v`.
    pub open spec fn spec_allows(self, v: u64) -> bool {
        &&& self.min <= v <= self.max
        &&& v & !self.mask == 0
    }

    /// The constraint that permits every field element.
    pub fn unconstrained() -> (r: RangeConstraint)
        ensures
            forall|v: u64| in_field(v) ==> r.spec_allows(v),
    {
        let r = RangeConstraint { min: 0, max: FIELD_MODULUS - 1, mask: u64::MAX };
        proof {
            assert forall|v: u64| in_field(v) implies r.spec_allows(v) by {
                assert(v & !0xffff_ffff_ffff_ffffu64 == 0) by (bit_vector);
            }
        }
        r
    }

    /// The constraint of a known bitmask, such as one derived from a
    /// `x * (x - 1) = 0` pattern.
    pub fn from_mask(mask: u64) -> (r: RangeConstraint)
        ensures
            forall|v: u64| r.spec_allows(v) <==> v & !mask == 0,
    {
        let r = RangeConstraint { min: 0, max: mask, mask };
        proof {
            assert forall|v: u64| v & !mask == 0 implies v <= mask by {
                assert(v & !mask == 0 ==> v <= mask) by (bit_vector);
            }
        }
        r
    }

    /// Whether the constraint permits `v`, executably.
    pub fn allows(&self, v: u64) -> (r: bool)
        ensures
            r == self.spec_allows(v),
    {
        self.min <= v && v <= self.max && v & !self.mask == 0
    }

    /// The conjunction at the spec level: the later of the minimums, the
    /// earlier of the maximums, the intersection of the masks.
    pub open spec fn spec_conjunction(self, other: RangeConstraint) -> RangeConstraint {
        RangeConstraint {
            min: if self.min >= other.min {
                self.min
            } else {
                other.min
            },
            max: if self.max <= other.max {
                self.max
            } else {
                other.max
            },
            mask: self.mask & other.mask,
        }
    }

    /// The conjunction of two constraints: permits exactly the values both
    /// permit, so combining never grows the permitted set.
    pub fn conjunction(&self, other: &RangeConstraint) -> (r: RangeConstraint)
        ensures
            r == self.spec_conjunction(*other),
            forall|v: u64| r.spec_allows(v) <==> (self.spec_allows(v) && other.spec_allows(v)),
    {
        let min = if self.min >= other.min { self.min } else { other.min };
        let max = if self.max <= other.max { self.max } else { other.max };
        let mask = self.mask & other.mask;
        let r = RangeConstraint { min, max, mask };
        proof {
            let m1 = self.mask;
            let m2 = other.mask;
            assert forall|v: u64| #[trigger] (v & !(m1 & m2)) == 0 <==> (v & !m1 == 0 && v & !m2
                == 0) by {
                assert((v & !(m1 & m2)) == 0 <==> (v & !m1 == 0 && v & !m2 == 0)) by (bit_vector);
            }
        }
        r
    }

    /// Whether the interval part is already contradictory. When this returns
    /// `true` no value is permitted at all.
    pub fn is_empty(&self) -> (r: bool)
        ensures
            r == (self.min > self.max),
            r ==> forall|v: u64| !self.spec_allows(v),
    {
        self.min > self.max
    }

    /// If the constraint pins down a single value, returns it.
    pub fn try_unique(&self) -> (r: Option<u64>)
        ensures
            r is Some ==> self.spec_allows(r->Some_0),
            r is Some ==> forall|v: u64| self.spec_allows(v) ==> v == r->Some_0,
    {
        if self.min == self.max && self.min & !self.mask == 0 {
            Some(self.min)
        } else {
            None
        }
    }
}

} // verus!
