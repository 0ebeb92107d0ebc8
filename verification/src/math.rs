//! Integer 3-vectors and the validated, periodic grid index.

use vstd::prelude::*;

verus! {

/// Error returned when a coordinate lies outside its axis bound.
#[derive(Clone, Copy, Debug, PartialEq, Eq, Structural)]
pub struct IndexOutOfRange;

/// An integer 3-vector. Lattice direction vectors use components in {-1, 0, 1}.
#[derive(Clone, Copy, Debug, PartialEq, Eq, Structural)]
pub struct Int3 {
    pub x: i32,
    pub y: i32,
    pub z: i32,
}

impl Int3 {
    pub fn new(x: i32, y: i32, z: i32) -> (r: Int3)
        ensures
            r == (Int3 { x, y, z }),
    {
        Int3 { x, y, z }
    }

    /// Componentwise sum.
    pub fn plus(self, rhs: Int3) -> (r: Int3)
        requires
            i32::MIN <= self.x + rhs.x <= i32::MAX,
            i32::MIN <= self.y + rhs.y <= i32::MAX,
            i32::MIN <= self.z + rhs.z <= i32::MAX,
        ensures
            r.x == self.x + rhs.x,
            r.y == self.y + rhs.y,
            r.z == self.z + rhs.z,
    {
        Int3 { x: self.x + rhs.x, y: self.y + rhs.y, z: self.z + rhs.z }
    }

    /// True for the zero vector, the rest direction of the lattice.
    pub open spec fn is_zero(self) -> bool {
        self.x == 0 && self.y == 0 && self.z == 0
    }

    /// Reduce an unrestricted coordinate triple to a valid grid index by
    /// Euclidean remainder on each axis independently; this is how the
    /// periodic boundary is realised, with no branching at the edges.
    pub fn wrap<const X: usize, const Y: usize, const Z: usize>(self) -> (r: Bound3<X, Y, Z>)
        requires
            1 <= X <= i32::MAX,
            1 <= Y <= i32::MAX,
            1 <= Z <= i32::MAX,
        ensures
            r.spec_x() == self.x as int % X as int,
            r.spec_y() == self.y as int % Y as int,
            r.spec_z() == self.z as int % Z as int,
            r.spec_x() < X && r.spec_y() < Y && r.spec_z() < Z,
    {
        let x = wrap_coord(self.x, X);
        let y = wrap_coord(self.y, Y);
        let z = wrap_coord(self.z, Z);
        Bound3 { x, y, z }
    }
}

/// Euclidean remainder of `v` by a positive bound, as a valid coordinate.
fn wrap_coord(v: i32, n: usize) -> (r: usize)
    requires
        1 <= n <= i32::MAX,
    ensures
        r == (v as int) % (n as int),
        r < n,
{
    proof {
        vstd::arithmetic::div_mod::lemma_mod_bound(v as int, n as int);
    }
    let m = v.checked_rem_euclid(n as i32).unwrap();
    m as usize
}

/// A grid index proven to lie inside the X x Y x Z lattice. Values exist only
/// through the fallible constructor or periodic wrapping, so every array
/// access that takes one is in bounds by construction.
#[derive(Clone, Copy, Debug)]
pub struct Bound3<const X: usize, const Y: usize, const Z: usize> {
    x: usize,
    y: usize,
    z: usize,
}

impl<const X: usize, const Y: usize, const Z: usize> Bound3<X, Y, Z> {
    /// Holds of every value of this type, by construction.
    #[verifier::type_invariant]
    pub open spec fn in_bounds(self) -> bool {
        self.spec_x() < X && self.spec_y() < Y && self.spec_z() < Z
    }

    pub closed spec fn spec_x(self) -> usize {
        self.x
    }

    pub closed spec fn spec_y(self) -> usize {
        self.y
    }

    pub closed spec fn spec_z(self) -> usize {
        self.z
    }

    /// The only way in: rejects any coordinate outside its axis bound.
    pub fn new(x: usize, y: usize, z: usize) -> (r: Result<Self, IndexOutOfRange>)
        ensures
            r is Ok <==> x < X && y < Y && z < Z,
            r is Ok ==> r->Ok_0.spec_x() == x && r->Ok_0.spec_y() == y && r->Ok_0.spec_z() == z,
    {
        if x < X && y < Y && z < Z {
            Ok(Bound3 { x, y, z })
        } else {
            Err(IndexOutOfRange)
        }
    }

    pub fn x(&self) -> (r: usize)
        ensures
            r == self.spec_x(),
    {
        self.x
    }

    pub fn y(&self) -> (r: usize)
        ensures
            r == self.spec_y(),
    {
        self.y
    }

    pub fn z(&self) -> (r: usize)
        ensures
            r == self.spec_z(),
    {
        self.z
    }
}

} // verus!
