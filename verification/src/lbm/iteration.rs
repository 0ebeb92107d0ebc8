//! The canonical enumeration of the 19 lattice directions and their
//! equilibrium weights. Every part of the engine that walks the directions
//! uses slots 0..19 in this one order, so collision and streaming always pair
//! the same direction with the same distribution.

use vstd::prelude::*;

use crate::math::Int3;

verus! {

/// Weights are stated exactly, as numerators over this common denominator:
/// 12/36 = 1/3 for the rest direction, 2/36 = 1/18 for an axis direction,
/// 1/36 for a diagonal.
pub const WEIGHT_DENOMINATOR: u32 = 36;

/// The direction vector of slot `d`, for 0 <= d < 19: the zero vector first,
/// then the six single-axis unit vectors, then the twelve two-axis diagonals.
pub open spec fn spec_direction(d: int) -> Int3 {
    if d == 0 {
        Int3 { x: 0, y: 0, z: 0 }
    } else if d == 1 {
        Int3 { x: 1, y: 0, z: 0 }
    } else if d == 2 {
        Int3 { x: -1i32, y: 0, z: 0 }
    } else if d == 3 {
        Int3 { x: 0, y: 1, z: 0 }
    } else if d == 4 {
        Int3 { x: 0, y: -1i32, z: 0 }
    } else if d == 5 {
        Int3 { x: 0, y: 0, z: 1 }
    } else if d == 6 {
        Int3 { x: 0, y: 0, z: -1i32 }
    } else if d == 7 {
        Int3 { x: 1, y: 1, z: 0 }
    } else if d == 8 {
        Int3 { x: -1i32, y: 1, z: 0 }
    } else if d == 9 {
        Int3 { x: 1, y: -1i32, z: 0 }
    } else if d == 10 {
        Int3 { x: -1i32, y: -1i32, z: 0 }
    } else if d == 11 {
        Int3 { x: 1, y: 0, z: 1 }
    } else if d == 12 {
        Int3 { x: -1i32, y: 0, z: 1 }
    } else if d == 13 {
        Int3 { x: 1, y: 0, z: -1i32 }
    } else if d == 14 {
        Int3 { x: -1i32, y: 0, z: -1i32 }
    } else if d == 15 {
        Int3 { x: 0, y: 1, z: 1 }
    } else if d == 16 {
        Int3 { x: 0, y: -1i32, z: 1 }
    } else if d == 17 {
        Int3 { x: 0, y: 1, z: -1i32 }
    } else {
        Int3 { x: 0, y: -1i32, z: -1i32 }
    }
}

/// The equilibrium weight of slot `d`, in 36ths.
pub open spec fn spec_weight_numerator(d: int) -> int {
    if d == 0 {
        12
    } else if 1 <= d < 7 {
        2
    } else {
        1
    }
}

/// A position in the direction enumeration: the rest slot, one of the six
/// axis slots, or one of the twelve diagonal slots.
#[derive(Clone, Copy, Debug, PartialEq, Eq, Structural)]
pub enum LatticeIndex {
    Q0,
    Q1(usize),
    Q2(usize),
}

impl LatticeIndex {
    pub open spec fn wf(self) -> bool {
        match self {
            LatticeIndex::Q0 => true,
            LatticeIndex::Q1(i) => i < 6,
            LatticeIndex::Q2(i) => i < 12,
        }
    }

    /// The slot in the canonical enumeration, in 0..19.
    pub open spec fn slot(self) -> int {
        match self {
            LatticeIndex::Q0 => 0,
            LatticeIndex::Q1(i) => 1 + i,
            LatticeIndex::Q2(i) => 7 + i,
        }
    }

    pub fn from_slot(d: usize) -> (r: LatticeIndex)
        requires
            d < 19,
        ensures
            r.wf(),
            r.slot() == d,
    {
        if d == 0 {
            LatticeIndex::Q0
        } else if d < 7 {
            LatticeIndex::Q1(d - 1)
        } else {
            LatticeIndex::Q2(d - 7)
        }
    }

    /// The direction vector of this slot.
    pub fn direction(&self) -> (r: Int3)
        requires
            self.wf(),
        ensures
            r == spec_direction(self.slot()),
    {
        let (x, y, z) = match self {
            LatticeIndex::Q0 => (0i32, 0i32, 0i32),
            LatticeIndex::Q1(i) => {
                let a = sign(*i);
                if *i < 2 {
                    (a, 0i32, 0i32)
                } else if *i < 4 {
                    (0i32, a, 0i32)
                } else {
                    (0i32, 0i32, a)
                }
            },
            LatticeIndex::Q2(i) => {
                let a = sign(*i);
                let b = sign(*i / 2);
                if *i < 4 {
                    (a, b, 0i32)
                } else if *i < 8 {
                    (a, 0i32, b)
                } else {
                    (0i32, a, b)
                }
            },
        };
        Int3::new(x, y, z)
    }

    /// The equilibrium weight of this slot, in 36ths.
    pub fn weight_numerator(&self) -> (r: u32)
        requires
            self.wf(),
        ensures
            r == spec_weight_numerator(self.slot()),
    {
        match self {
            LatticeIndex::Q0 => 12,
            LatticeIndex::Q1(_) => 2,
            LatticeIndex::Q2(_) => 1,
        }
    }
}

/// Alternating sign over an index: plus one on even, minus one on odd.
fn sign(v: usize) -> (r: i32)
    ensures
        r == (if v % 2 == 0 {
            1int
        } else {
            -1int
        }),
{
    if v % 2 == 0 {
        1
    } else {
        -1
    }
}

/// How many components of a vector are nonzero.
pub open spec fn nonzero_components(v: Int3) -> int {
    (if v.x != 0 {
        1int
    } else {
        0
    }) + (if v.y != 0 {
        1int
    } else {
        0
    }) + (if v.z != 0 {
        1int
    } else {
        0
    })
}

/// Each slot's direction has components in {-1, 0, 1}; the rest slot is the
/// zero vector, the six axis slots have exactly one nonzero component, and
/// the twelve diagonal slots exactly two.
pub proof fn lemma_direction_classes(d: int)
    requires
        0 <= d < 19,
    ensures
        -1 <= spec_direction(d).x <= 1,
        -1 <= spec_direction(d).y <= 1,
        -1 <= spec_direction(d).z <= 1,
        d == 0 ==> nonzero_components(spec_direction(d)) == 0,
        1 <= d < 7 ==> nonzero_components(spec_direction(d)) == 1,
        7 <= d < 19 ==> nonzero_components(spec_direction(d)) == 2,
{
}

/// No direction appears twice in the enumeration.
pub proof fn lemma_directions_distinct(d1: int, d2: int)
    requires
        0 <= d1 < 19,
        0 <= d2 < 19,
        d1 != d2,
    ensures
        spec_direction(d1) != spec_direction(d2),
{
}

/// Every vector with components in {-1, 0, 1} and at most two nonzero
/// components is one of the 19 directions; with the two lemmas above, the
/// enumeration lists exactly the zero vector, the six single-axis vectors,
/// and the twelve two-axis diagonals.
pub proof fn lemma_directions_complete(v: Int3)
    requires
        -1 <= v.x <= 1,
        -1 <= v.y <= 1,
        -1 <= v.z <= 1,
        nonzero_components(v) <= 2,
    ensures
        exists|d: int| 0 <= d < 19 && spec_direction(d) == v,
{
    if v.x == 0 && v.y == 0 && v.z == 0 {
        assert(spec_direction(0) == v);
    } else if v.y == 0 && v.z == 0 {
        assert(v.x == 1 ==> spec_direction(1) == v);
        assert(v.x == -1 ==> spec_direction(2) == v);
    } else if v.x == 0 && v.z == 0 {
        assert(v.y == 1 ==> spec_direction(3) == v);
        assert(v.y == -1 ==> spec_direction(4) == v);
    } else if v.x == 0 && v.y == 0 {
        assert(v.z == 1 ==> spec_direction(5) == v);
        assert(v.z == -1 ==> spec_direction(6) == v);
    } else if v.z == 0 {
        assert(v.x == 1 && v.y == 1 ==> spec_direction(7) == v);
        assert(v.x == -1 && v.y == 1 ==> spec_direction(8) == v);
        assert(v.x == 1 && v.y == -1 ==> spec_direction(9) == v);
        assert(v.x == -1 && v.y == -1 ==> spec_direction(10) == v);
    } else if v.y == 0 {
        assert(v.x == 1 && v.z == 1 ==> spec_direction(11) == v);
        assert(v.x == -1 && v.z == 1 ==> spec_direction(12) == v);
        assert(v.x == 1 && v.z == -1 ==> spec_direction(13) == v);
        assert(v.x == -1 && v.z == -1 ==> spec_direction(14) == v);
    } else {
        assert(v.x == 0);
        assert(v.y == 1 && v.z == 1 ==> spec_direction(15) == v);
        assert(v.y == -1 && v.z == 1 ==> spec_direction(16) == v);
        assert(v.y == 1 && v.z == -1 ==> spec_direction(17) == v);
        assert(v.y == -1 && v.z == -1 ==> spec_direction(18) == v);
    }
}

/// The sum of the weight numerators of slots 0..d.
pub open spec fn sum_weight_numerators(d: int) -> int
    decreases d,
{
    if d <= 0 {
        0
    } else {
        sum_weight_numerators(d - 1) + spec_weight_numerator(d - 1)
    }
}

/// The 19 weights sum to exactly one: 12 + 6 * 2 + 12 * 1 = 36 parts of 36.
pub proof fn lemma_weights_sum_to_one()
    ensures
        sum_weight_numerators(19) == WEIGHT_DENOMINATOR,
{
    reveal_with_fuel(sum_weight_numerators, 20);
}

} // verus!
