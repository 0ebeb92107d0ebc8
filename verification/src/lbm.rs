//! The simulation engine: per-direction packet storage, collision, streaming,
//! macroscopic recovery, and tracer-particle advection.

pub mod conservation;
pub mod determinism;
pub mod iteration;

use vstd::prelude::*;

use crate::math::Bound3;
use crate::math::Int3;
use crate::lbm::iteration::spec_direction;
use crate::lbm::iteration::spec_weight_numerator;

verus! {

/// The machine limits every grid must meet: positive extents, each axis bound
/// representable as an i32 for periodic wrapping, and a cell count that fits
/// in a usize.
pub open spec fn dims_ok<const X: usize, const Y: usize, const Z: usize>() -> bool {
    &&& 1 <= X <= i32::MAX
    &&& 1 <= Y <= i32::MAX
    &&& 1 <= Z <= i32::MAX
    &&& X * Y * Z <= usize::MAX
}

/// Row-major position of a cell inside the flat storage of an X x Y x Z grid.
pub open spec fn flat<const Y: usize, const Z: usize>(x: int, y: int, z: int) -> int {
    x * (Y * Z) + y * Z + z
}

/// A valid cell's flat position lies inside the storage.
pub proof fn lemma_flat_bound<const X: usize, const Y: usize, const Z: usize>(
    x: int,
    y: int,
    z: int,
)
    requires
        0 <= x < X,
        0 <= y < Y,
        0 <= z < Z,
    ensures
        0 <= flat::<Y, Z>(x, y, z) < X * Y * Z,
{
    assert(0 <= x * (Y * Z) + y * Z + z < X * Y * Z) by (nonlinear_arith)
        requires
            0 <= x < X,
            0 <= y < Y,
            0 <= z < Z,
    ;
}

/// Distinct cells occupy distinct flat positions.
pub proof fn lemma_flat_injective<const Y: usize, const Z: usize>(
    x1: int,
    y1: int,
    z1: int,
    x2: int,
    y2: int,
    z2: int,
)
    requires
        0 <= y1 < Y,
        0 <= z1 < Z,
        0 <= y2 < Y,
        0 <= z2 < Z,
        flat::<Y, Z>(x1, y1, z1) == flat::<Y, Z>(x2, y2, z2),
    ensures
        x1 == x2,
        y1 == y2,
        z1 == z2,
{
    assert(x1 == x2 && y1 == y2 && z1 == z2) by (nonlinear_arith)
        requires
            0 <= y1 < Y,
            0 <= z1 < Z,
            0 <= y2 < Y,
            0 <= z2 < Z,
            x1 * (Y * Z) + y1 * Z + z1 == x2 * (Y * Z) + y2 * Z + z2,
    ;
}

/// Stepping one coordinate up keeps the same remainder class.
proof fn lemma_succ_mod(a: int, n: int)
    requires
        1 <= n,
    ensures
        (a % n + 1) % n == (a + 1) % n,
{
    vstd::arithmetic::div_mod::lemma_add_mod_noop(a, 1, n);
    if n == 1 {
        vstd::arithmetic::div_mod::lemma_mod_bound(a % n + 1, n);
        vstd::arithmetic::div_mod::lemma_mod_bound(a, n);
    } else {
        vstd::arithmetic::div_mod::lemma_small_mod(1nat, n as nat);
    }
}

/// The next coordinate up, wrapping at the bound.
fn succ_wrap(i: usize, n: usize) -> (r: usize)
    requires
        1 <= n,
        i < n,
    ensures
        r == (i + 1) % (n as int),
        r < n,
{
    if i + 1 == n {
        proof {
            vstd::arithmetic::div_mod::lemma_mod_self_0(n as int);
        }
        0
    } else {
        proof {
            vstd::arithmetic::div_mod::lemma_small_mod((i + 1) as nat, n as nat);
        }
        i + 1
    }
}

/// One value of type T per grid cell, stored flat in row-major order.
#[derive(Clone, Debug)]
pub struct Field<const X: usize, const Y: usize, const Z: usize, T> {
    values: Vec<T>,
}

impl<const X: usize, const Y: usize, const Z: usize, T> View for Field<X, Y, Z, T> {
    type V = Seq<T>;

    closed spec fn view(&self) -> Seq<T> {
        self.values@
    }
}

impl<const X: usize, const Y: usize, const Z: usize, T> Field<X, Y, Z, T> {
    /// Well-formed: one stored value for every cell of the grid.
    pub open spec fn wf(self) -> bool {
        self@.len() == X * Y * Z
    }

    /// The value at a cell, by coordinates.
    pub open spec fn at(self, x: int, y: int, z: int) -> T {
        self@[flat::<Y, Z>(x, y, z)]
    }

    /// Fill every cell with one value.
    pub fn new_from(v: T) -> (r: Self) where T: Copy
        requires
            1 <= X,
            1 <= Y,
            1 <= Z,
            X * Y * Z <= usize::MAX,
        ensures
            r.wf(),
            forall|j: int| 0 <= j < X * Y * Z ==> r@[j] == v,
            forall|x: int, y: int, z: int|
                0 <= x < X && 0 <= y < Y && 0 <= z < Z ==> #[trigger] r.at(x, y, z) == v,
    {
        proof {
            assert(X * Y <= X * Y * Z && Y * Z <= X * Y * Z) by (nonlinear_arith)
                requires
                    1 <= X && 1 <= Y && 1 <= Z,
            ;
        }
        let n: usize = X * Y * Z;
        let mut values: Vec<T> = Vec::new();
        let mut i: usize = 0;
        while i < n
            invariant
                i <= n,
                values@.len() == i,
                forall|j: int| 0 <= j < i ==> values@[j] == v,
            decreases n - i,
        {
            values.push(v);
            i += 1;
        }
        let r = Field { values };
        proof {
            assert forall|x: int, y: int, z: int|
                0 <= x < X && 0 <= y < Y && 0 <= z < Z implies #[trigger] r.at(x, y, z) == v by {
                lemma_flat_bound::<X, Y, Z>(x, y, z);
            }
        }
        r
    }

    /// Flat position of a validated index; in bounds by construction.
    fn idx(&self, loc: Bound3<X, Y, Z>) -> (i: usize)
        requires
            self.wf(),
        ensures
            i == flat::<Y, Z>(loc.spec_x() as int, loc.spec_y() as int, loc.spec_z() as int),
            i < self@.len(),
    {
        let n = self.values.len();
        proof {
            use_type_invariant(loc);
            let x = loc.spec_x() as int;
            let y = loc.spec_y() as int;
            let z = loc.spec_z() as int;
            assert(Y * Z <= X * Y * Z && 0 <= x * (Y * Z) && 0 <= y * Z && x * (Y * Z) + y * Z
                + z < X * Y * Z) by (nonlinear_arith)
                requires
                    0 <= x < X,
                    0 <= y < Y,
                    0 <= z < Z,
            ;
        }
        let yz: usize = Y * Z;
        loc.x() * yz + loc.y() * Z + loc.z()
    }

    pub fn get(&self, loc: Bound3<X, Y, Z>) -> (r: &T)
        requires
            self.wf(),
        ensures
            *r == self.at(loc.spec_x() as int, loc.spec_y() as int, loc.spec_z() as int),
    {
        let i = self.idx(loc);
        &self.values[i]
    }

    pub fn get_mut(&mut self, loc: Bound3<X, Y, Z>) -> (r: &mut T)
        requires
            old(self).wf(),
        ensures
            *r == old(self).at(loc.spec_x() as int, loc.spec_y() as int, loc.spec_z() as int),
            final(self)@ == old(self)@.update(
                flat::<Y, Z>(loc.spec_x() as int, loc.spec_y() as int, loc.spec_z() as int),
                *final(r),
            ),
            final(self).wf(),
    {
        let i = self.idx(loc);
        &mut self.values[i]
    }

    /// A copy in which every cell holds the value of the cell one `dir` step
    /// behind it, wrapping periodically on each axis: the pure data shuffle
    /// of the streaming step, which relocates values and never alters them.
    fn streamed_copy(&self, dir: Int3) -> (r: Self) where T: Copy
        requires
            self.wf(),
            1 <= X <= i32::MAX,
            1 <= Y <= i32::MAX,
            1 <= Z <= i32::MAX,
            -1 <= dir.x <= 1,
            -1 <= dir.y <= 1,
            -1 <= dir.z <= 1,
        ensures
            r.wf(),
            forall|x: int, y: int, z: int|
                0 <= x < X && 0 <= y < Y && 0 <= z < Z ==> #[trigger] r.at(x, y, z) == self.at(
                    (x - dir.x) % (X as int),
                    (y - dir.y) % (Y as int),
                    (z - dir.z) % (Z as int),
                ),
    {
        let mut values: Vec<T> = Vec::new();
        let mut x: usize = 0;
        while x < X
            invariant
                self.wf(),
                1 <= X <= i32::MAX,
                1 <= Y <= i32::MAX,
                1 <= Z <= i32::MAX,
                -1 <= dir.x <= 1,
                -1 <= dir.y <= 1,
                -1 <= dir.z <= 1,
                x <= X,
                values@.len() == x * (Y * Z),
                forall|a: int, b: int, c: int|
                    0 <= a < X && 0 <= b < Y && 0 <= c < Z && flat::<Y, Z>(a, b, c)
                        < values@.len() ==> values@[flat::<Y, Z>(a, b, c)] == self.at(
                        (a - dir.x) % (X as int),
                        (b - dir.y) % (Y as int),
                        (c - dir.z) % (Z as int),
                    ),
            decreases X - x,
        {
            let mut y: usize = 0;
            while y < Y
                invariant
                    self.wf(),
                    1 <= X <= i32::MAX,
                    1 <= Y <= i32::MAX,
                    1 <= Z <= i32::MAX,
                    -1 <= dir.x <= 1,
                    -1 <= dir.y <= 1,
                    -1 <= dir.z <= 1,
                    x < X,
                    y <= Y,
                    values@.len() == x * (Y * Z) + y * Z,
                    forall|a: int, b: int, c: int|
                        0 <= a < X && 0 <= b < Y && 0 <= c < Z && flat::<Y, Z>(a, b, c)
                            < values@.len() ==> values@[flat::<Y, Z>(a, b, c)] == self.at(
                            (a - dir.x) % (X as int),
                            (b - dir.y) % (Y as int),
                            (c - dir.z) % (Z as int),
                        ),
                decreases Y - y,
            {
                let mut z: usize = 0;
                while z < Z
                    invariant
                        self.wf(),
                        1 <= X <= i32::MAX,
                        1 <= Y <= i32::MAX,
                        1 <= Z <= i32::MAX,
                        -1 <= dir.x <= 1,
                        -1 <= dir.y <= 1,
                        -1 <= dir.z <= 1,
                        x < X,
                        y < Y,
                        z <= Z,
                        values@.len() == flat::<Y, Z>(x as int, y as int, z as int),
                        forall|a: int, b: int, c: int|
                            0 <= a < X && 0 <= b < Y && 0 <= c < Z && flat::<Y, Z>(a, b, c)
                                < values@.len() ==> values@[flat::<Y, Z>(a, b, c)] == self.at(
                                (a - dir.x) % (X as int),
                                (b - dir.y) % (Y as int),
                                (c - dir.z) % (Z as int),
                            ),
                    decreases Z - z,
                {
                    proof {
                        lemma_flat_bound::<X, Y, Z>(x as int, y as int, z as int);
                    }
                    let sx: i32 = x as i32 - dir.x;
                    let sy: i32 = y as i32 - dir.y;
                    let sz: i32 = z as i32 - dir.z;
                    let src = Int3::new(sx, sy, sz).wrap::<X, Y, Z>();
                    proof {
                        lemma_flat_bound::<X, Y, Z>(
                            src.spec_x() as int,
                            src.spec_y() as int,
                            src.spec_z() as int,
                        );
                    }
                    let v: T = *self.get(src);
                    values.push(v);
                    proof {
                        let ghost old_len = values@.len() - 1;
                        assert forall|a: int, b: int, c: int|
                            0 <= a < X && 0 <= b < Y && 0 <= c < Z && flat::<Y, Z>(a, b, c)
                                < values@.len() implies values@[flat::<Y, Z>(a, b, c)] == self.at(
                            (a - dir.x) % (X as int),
                            (b - dir.y) % (Y as int),
                            (c - dir.z) % (Z as int),
                        ) by {
                            if flat::<Y, Z>(a, b, c) == old_len {
                                lemma_flat_injective::<Y, Z>(
                                    a,
                                    b,
                                    c,
                                    x as int,
                                    y as int,
                                    z as int,
                                );
                            }
                        }
                    }
                    z += 1;
                }
                y += 1;
                proof {
                    assert(x * (Y * Z) + (y - 1) * Z + Z == x * (Y * Z) + y * Z)
                        by (nonlinear_arith);
                }
            }
            x += 1;
            proof {
                assert((x - 1) * (Y * Z) + Y * Z == x * (Y * Z)) by (nonlinear_arith);
            }
        }
        proof {
            assert(X * (Y * Z) == X * Y * Z) by (nonlinear_arith);
        }
        let r = Field { values };
        proof {
            assert forall|a: int, b: int, c: int|
                0 <= a < X && 0 <= b < Y && 0 <= c < Z implies #[trigger] r.at(a, b, c) == self.at(
                (a - dir.x) % (X as int),
                (b - dir.y) % (Y as int),
                (c - dir.z) % (Z as int),
            ) by {
                lemma_flat_bound::<X, Y, Z>(a, b, c);
            }
        }
        r
    }

    /// Build a field by evaluating one function at every cell.
    pub fn from_cells<F: Fn(usize, usize, usize) -> T>(f: F) -> (r: Self)
        requires
            dims_ok::<X, Y, Z>(),
            forall|x: usize, y: usize, z: usize|
                x < X && y < Y && z < Z ==> #[trigger] call_requires(f, (x, y, z)),
        ensures
            r.wf(),
            forall|x: int, y: int, z: int|
                0 <= x < X && 0 <= y < Y && 0 <= z < Z ==> call_ensures(
                    f,
                    (x as usize, y as usize, z as usize),
                    #[trigger] r.at(x, y, z),
                ),
    {
        let mut values: Vec<T> = Vec::new();
        let mut x: usize = 0;
        while x < X
            invariant
                dims_ok::<X, Y, Z>(),
                forall|a: usize, b: usize, c: usize|
                    a < X && b < Y && c < Z ==> #[trigger] call_requires(f, (a, b, c)),
                x <= X,
                values@.len() == x * (Y * Z),
                forall|a: int, b: int, c: int|
                    0 <= a < X && 0 <= b < Y && 0 <= c < Z && flat::<Y, Z>(a, b, c)
                        < values@.len() ==> call_ensures(
                        f,
                        (a as usize, b as usize, c as usize),
                        #[trigger] values@[flat::<Y, Z>(a, b, c)],
                    ),
            decreases X - x,
        {
            let mut y: usize = 0;
            while y < Y
                invariant
                    dims_ok::<X, Y, Z>(),
                    forall|a: usize, b: usize, c: usize|
                        a < X && b < Y && c < Z ==> #[trigger] call_requires(f, (a, b, c)),
                    x < X,
                    y <= Y,
                    values@.len() == x * (Y * Z) + y * Z,
                    forall|a: int, b: int, c: int|
                        0 <= a < X && 0 <= b < Y && 0 <= c < Z && flat::<Y, Z>(a, b, c)
                            < values@.len() ==> call_ensures(
                            f,
                            (a as usize, b as usize, c as usize),
                            #[trigger] values@[flat::<Y, Z>(a, b, c)],
                        ),
                decreases Y - y,
            {
                let mut z: usize = 0;
                while z < Z
                    invariant
                        dims_ok::<X, Y, Z>(),
                        forall|a: usize, b: usize, c: usize|
                            a < X && b < Y && c < Z ==> #[trigger] call_requires(f, (a, b, c)),
                        x < X,
                        y < Y,
                        z <= Z,
                        values@.len() == flat::<Y, Z>(x as int, y as int, z as int),
                        forall|a: int, b: int, c: int|
                            0 <= a < X && 0 <= b < Y && 0 <= c < Z && flat::<Y, Z>(a, b, c)
                                < values@.len() ==> call_ensures(
                                f,
                                (a as usize, b as usize, c as usize),
                                #[trigger] values@[flat::<Y, Z>(a, b, c)],
                            ),
                    decreases Z - z,
                {
                    proof {
                        lemma_flat_bound::<X, Y, Z>(x as int, y as int, z as int);
                    }
                    let v: T = f(x, y, z);
                    values.push(v);
                    proof {
                        let ghost old_len = values@.len() - 1;
                        assert forall|a: int, b: int, c: int|
                            0 <= a < X && 0 <= b < Y && 0 <= c < Z && flat::<Y, Z>(a, b, c)
                                < values@.len() implies call_ensures(
                            f,
                            (a as usize, b as usize, c as usize),
                            #[trigger] values@[flat::<Y, Z>(a, b, c)],
                        ) by {
                            if flat::<Y, Z>(a, b, c) == old_len {
                                lemma_flat_injective::<Y, Z>(
                                    a,
                                    b,
                                    c,
                                    x as int,
                                    y as int,
                                    z as int,
                                );
                            }
                        }
                    }
                    z += 1;
                }
                y += 1;
                proof {
                    assert(x * (Y * Z) + (y - 1) * Z + Z == x * (Y * Z) + y * Z)
                        by (nonlinear_arith);
                }
            }
            x += 1;
            proof {
                assert((x - 1) * (Y * Z) + Y * Z == x * (Y * Z)) by (nonlinear_arith);
            }
        }
        proof {
            assert(X * (Y * Z) == X * Y * Z) by (nonlinear_arith);
        }
        let r = Field { values };
        proof {
            assert forall|a: int, b: int, c: int|
                0 <= a < X && 0 <= b < Y && 0 <= c < Z implies call_ensures(
                f,
                (a as usize, b as usize, c as usize),
                #[trigger] r.at(a, b, c),
            ) by {
                lemma_flat_bound::<X, Y, Z>(a, b, c);
            }
        }
        r
    }

    /// Sample the field at a continuous position by trilinear interpolation
    /// over the 8 enclosing cells, wrapping each axis periodically so that
    /// positions near a boundary interpolate across the wrap seam.
    /// `decompose` splits the position into an integer floor and a fraction
    /// per axis; this function wraps the floors and gathers the corner cells;
    /// `mix` blends the gathered values with the fractions.
    pub fn lerp_get<P: Copy, S, D, M>(&self, position: P, decompose: D, mix: M) -> (r: T) where
        T: Copy,
        D: Fn(P) -> ((i32, S), (i32, S), (i32, S)),
        M: Fn((S, S, S), Vec<T>) -> T,

        requires
            self.wf(),
            dims_ok::<X, Y, Z>(),
            call_requires(decompose, (position,)),
            forall|fr: (S, S, S), corners: Vec<T>|
                corners@.len() == 8 ==> #[trigger] call_requires(mix, (fr, corners)),
        ensures
            spec_sampled(*self, position, decompose, mix, r),
    {
        let fl = decompose(position);
        let base = Int3::new(fl.0.0, fl.1.0, fl.2.0).wrap::<X, Y, Z>();
        let x0 = base.x();
        let y0 = base.y();
        let z0 = base.z();
        let x1 = succ_wrap(x0, X);
        let y1 = succ_wrap(y0, Y);
        let z1 = succ_wrap(z0, Z);
        proof {
            lemma_succ_mod(fl.0.0 as int, X as int);
            lemma_succ_mod(fl.1.0 as int, Y as int);
            lemma_succ_mod(fl.2.0 as int, Z as int);
        }
        let mut corners: Vec<T> = Vec::new();
        corners.push(*self.get(Bound3::new(x0, y0, z0).unwrap()));
        corners.push(*self.get(Bound3::new(x0, y0, z1).unwrap()));
        corners.push(*self.get(Bound3::new(x0, y1, z0).unwrap()));
        corners.push(*self.get(Bound3::new(x0, y1, z1).unwrap()));
        corners.push(*self.get(Bound3::new(x1, y0, z0).unwrap()));
        corners.push(*self.get(Bound3::new(x1, y0, z1).unwrap()));
        corners.push(*self.get(Bound3::new(x1, y1, z0).unwrap()));
        corners.push(*self.get(Bound3::new(x1, y1, z1).unwrap()));
        proof {
            assert(corners@ =~= spec_corner_seq(
                *self,
                fl.0.0 as int,
                fl.1.0 as int,
                fl.2.0 as int,
            ));
        }
        let ghost gcorners = corners;
        let r = mix((fl.0.1, fl.1.1, fl.2.1), corners);
        proof {
            assert(call_ensures(decompose, (position,), fl) && gcorners@ == spec_corner_seq(
                *self,
                fl.0.0 as int,
                fl.1.0 as int,
                fl.2.0 as int,
            ) && call_ensures(mix, ((fl.0.1, fl.1.1, fl.2.1), gcorners), r));
        }
        r
    }
}

/// The packet populations flowing in one direction: one scalar per cell.
#[derive(Clone, Debug)]
pub struct PacketDistribution<const X: usize, const Y: usize, const Z: usize, T> {
    field: Field<X, Y, Z, T>,
}

impl<const X: usize, const Y: usize, const Z: usize, T> View for PacketDistribution<X, Y, Z, T> {
    type V = Seq<T>;

    closed spec fn view(&self) -> Seq<T> {
        self.field@
    }
}

impl<const X: usize, const Y: usize, const Z: usize, T> PacketDistribution<X, Y, Z, T> {
    /// Well-formed: one population value for every cell.
    pub open spec fn wf(self) -> bool {
        self@.len() == X * Y * Z
    }

    /// The population at a cell, by coordinates.
    pub open spec fn at(self, x: int, y: int, z: int) -> T {
        self@[flat::<Y, Z>(x, y, z)]
    }

    /// Fill every cell with one population value.
    pub fn new_from(v: T) -> (r: Self) where T: Copy
        requires
            1 <= X,
            1 <= Y,
            1 <= Z,
            X * Y * Z <= usize::MAX,
        ensures
            r.wf(),
            forall|j: int| 0 <= j < X * Y * Z ==> r@[j] == v,
            forall|x: int, y: int, z: int|
                0 <= x < X && 0 <= y < Y && 0 <= z < Z ==> #[trigger] r.at(x, y, z) == v,
    {
        let r = PacketDistribution { field: Field::new_from(v) };
        proof {
            assert forall|x: int, y: int, z: int|
                0 <= x < X && 0 <= y < Y && 0 <= z < Z implies #[trigger] r.at(x, y, z) == v by {
                assert(r.field.at(x, y, z) == v);
            }
        }
        r
    }

    pub fn get(&self, loc: Bound3<X, Y, Z>) -> (r: &T)
        requires
            self.wf(),
        ensures
            *r == self.at(loc.spec_x() as int, loc.spec_y() as int, loc.spec_z() as int),
    {
        self.field.get(loc)
    }

    pub fn get_mut(&mut self, loc: Bound3<X, Y, Z>) -> (r: &mut T)
        requires
            old(self).wf(),
        ensures
            *r == old(self).at(loc.spec_x() as int, loc.spec_y() as int, loc.spec_z() as int),
            final(self)@ == old(self)@.update(
                flat::<Y, Z>(loc.spec_x() as int, loc.spec_y() as int, loc.spec_z() as int),
                *final(r),
            ),
            final(self).wf(),
    {
        self.field.get_mut(loc)
    }

    /// The streaming shuffle for one direction; see `Field::streamed_copy`.
    fn streamed_copy(&self, dir: Int3) -> (r: Self) where T: Copy
        requires
            self.wf(),
            1 <= X <= i32::MAX,
            1 <= Y <= i32::MAX,
            1 <= Z <= i32::MAX,
            -1 <= dir.x <= 1,
            -1 <= dir.y <= 1,
            -1 <= dir.z <= 1,
        ensures
            r.wf(),
            forall|x: int, y: int, z: int|
                0 <= x < X && 0 <= y < Y && 0 <= z < Z ==> #[trigger] r.at(x, y, z) == self.at(
                    (x - dir.x) % (X as int),
                    (y - dir.y) % (Y as int),
                    (z - dir.z) % (Z as int),
                ),
    {
        let r = PacketDistribution { field: self.field.streamed_copy(dir) };
        proof {
            assert forall|x: int, y: int, z: int|
                0 <= x < X && 0 <= y < Y && 0 <= z < Z implies #[trigger] r.at(x, y, z)
                == self.at(
                (x - dir.x) % (X as int),
                (y - dir.y) % (Y as int),
                (z - dir.z) % (Z as int),
            ) by {
                assert(r.field.at(x, y, z) == self.field.at(
                    (x - dir.x) % (X as int),
                    (y - dir.y) % (Y as int),
                    (z - dir.z) % (Z as int),
                ));
            }
        }
        r
    }
}

/// The 19 packet distributions of the D3Q19 scheme, one per direction slot of
/// the canonical enumeration.
#[derive(Clone, Debug)]
pub struct Lattice<const X: usize, const Y: usize, const Z: usize, T> {
    dists: Vec<PacketDistribution<X, Y, Z, T>>,
}

impl<const X: usize, const Y: usize, const Z: usize, T> View for Lattice<X, Y, Z, T> {
    type V = Seq<Seq<T>>;

    closed spec fn view(&self) -> Seq<Seq<T>> {
        self.dists@.map_values(|d: PacketDistribution<X, Y, Z, T>| d@)
    }
}

impl<const X: usize, const Y: usize, const Z: usize, T> Lattice<X, Y, Z, T> {
    /// Well-formed: 19 distributions, each covering the whole grid.
    pub open spec fn wf(self) -> bool {
        &&& self@.len() == 19
        &&& forall|d: int| 0 <= d < 19 ==> #[trigger] self@[d].len() == X * Y * Z
    }

    /// The population of direction slot `d` at a cell.
    pub open spec fn at(self, d: int, x: int, y: int, z: int) -> T {
        self@[d][flat::<Y, Z>(x, y, z)]
    }

    /// A lattice with one population value in the rest slot and another in
    /// all 18 moving slots, the same at every cell.
    pub fn new_uniform(rest: T, moving: T) -> (r: Self) where T: Copy
        requires
            1 <= X,
            1 <= Y,
            1 <= Z,
            X * Y * Z <= usize::MAX,
        ensures
            r.wf(),
            forall|x: int, y: int, z: int|
                0 <= x < X && 0 <= y < Y && 0 <= z < Z ==> #[trigger] r.at(0, x, y, z) == rest,
            forall|d: int, x: int, y: int, z: int|
                1 <= d < 19 && 0 <= x < X && 0 <= y < Y && 0 <= z < Z ==> #[trigger] r.at(
                    d,
                    x,
                    y,
                    z,
                ) == moving,
    {
        let mut dists: Vec<PacketDistribution<X, Y, Z, T>> = Vec::new();
        dists.push(PacketDistribution::new_from(rest));
        let mut d: usize = 1;
        while d < 19
            invariant
                1 <= X,
                1 <= Y,
                1 <= Z,
                X * Y * Z <= usize::MAX,
                1 <= d <= 19,
                dists@.len() == d,
                forall|j: int| 0 <= j < X * Y * Z ==> dists@[0]@[j] == rest,
                forall|e: int| 0 <= e < d ==> (#[trigger] dists@[e]).wf(),
                forall|e: int, j: int|
                    1 <= e < d && 0 <= j < X * Y * Z ==> #[trigger] dists@[e]@[j] == moving,
            decreases 19 - d,
        {
            dists.push(PacketDistribution::new_from(moving));
            d += 1;
        }
        let r = Lattice { dists };
        proof {
            assert forall|x: int, y: int, z: int|
                0 <= x < X && 0 <= y < Y && 0 <= z < Z implies #[trigger] r.at(0, x, y, z)
                == rest by {
                lemma_flat_bound::<X, Y, Z>(x, y, z);
            }
            assert forall|d2: int, x: int, y: int, z: int|
                1 <= d2 < 19 && 0 <= x < X && 0 <= y < Y && 0 <= z < Z implies #[trigger] r.at(
                d2,
                x,
                y,
                z,
            ) == moving by {
                lemma_flat_bound::<X, Y, Z>(x, y, z);
            }
        }
        r
    }

    /// Read access to the distribution of one direction slot.
    pub fn dist(&self, d: usize) -> (r: &PacketDistribution<X, Y, Z, T>)
        requires
            self.wf(),
            d < 19,
        ensures
            r@ == self@[d as int],
            r.wf(),
    {
        &self.dists[d]
    }

    /// Write access to the distribution of one direction slot.
    pub fn dist_mut(&mut self, d: usize) -> (r: &mut PacketDistribution<X, Y, Z, T>)
        requires
            old(self).wf(),
            d < 19,
        ensures
            r@ == old(self)@[d as int],
            final(self)@ == old(self)@.update(d as int, final(r)@),
    {
        &mut self.dists[d]
    }

    /// The 19 populations of one cell, in canonical slot order.
    pub fn packets_at(&self, loc: Bound3<X, Y, Z>) -> (r: Vec<T>) where T: Copy
        requires
            self.wf(),
        ensures
            r@ == spec_packets_at(
                *self,
                loc.spec_x() as int,
                loc.spec_y() as int,
                loc.spec_z() as int,
            ),
    {
        let mut vals: Vec<T> = Vec::new();
        let mut d: usize = 0;
        while d < 19
            invariant
                self.wf(),
                d <= 19,
                vals@.len() == d,
                forall|e: int|
                    0 <= e < d ==> #[trigger] vals@[e] == self.at(
                        e,
                        loc.spec_x() as int,
                        loc.spec_y() as int,
                        loc.spec_z() as int,
                    ),
            decreases 19 - d,
        {
            vals.push(*self.dist(d).get(loc));
            d += 1;
        }
        proof {
            assert(vals@ =~= spec_packets_at(
                *self,
                loc.spec_x() as int,
                loc.spec_y() as int,
                loc.spec_z() as int,
            ));
        }
        vals
    }

    /// The lattice after one streaming step of this one: every population
    /// moves one cell along its own direction, wrapping periodically.
    pub fn streamed(&self) -> (r: Self) where T: Copy
        requires
            self.wf(),
            1 <= X <= i32::MAX,
            1 <= Y <= i32::MAX,
            1 <= Z <= i32::MAX,
        ensures
            r.wf(),
            spec_streamed(*self, r),
    {
        let mut dists: Vec<PacketDistribution<X, Y, Z, T>> = Vec::new();
        let mut d: usize = 0;
        while d < 19
            invariant
                self.wf(),
                1 <= X <= i32::MAX,
                1 <= Y <= i32::MAX,
                1 <= Z <= i32::MAX,
                d <= 19,
                dists@.len() == d,
                forall|e: int| 0 <= e < d ==> (#[trigger] dists@[e]).wf(),
                forall|e: int, x: int, y: int, z: int|
                    0 <= e < d && 0 <= x < X && 0 <= y < Y && 0 <= z < Z
                        ==> #[trigger] dists@[e].at(x, y, z) == self.at(
                        e,
                        (x - spec_direction(e).x) % (X as int),
                        (y - spec_direction(e).y) % (Y as int),
                        (z - spec_direction(e).z) % (Z as int),
                    ),
            decreases 19 - d,
        {
            proof {
                crate::lbm::iteration::lemma_direction_classes(d as int);
            }
            let dir = crate::lbm::iteration::LatticeIndex::from_slot(d).direction();
            dists.push(self.dist(d).streamed_copy(dir));
            d += 1;
        }
        let r = Lattice { dists };
        proof {
            assert forall|e: int, x: int, y: int, z: int|
                0 <= e < 19 && 0 <= x < X && 0 <= y < Y && 0 <= z < Z implies #[trigger] r.at(
                e,
                x,
                y,
                z,
            ) == self.at(
                e,
                (x - spec_direction(e).x) % (X as int),
                (y - spec_direction(e).y) % (Y as int),
                (z - spec_direction(e).z) % (Z as int),
            ) by {
                assert(r@[e] == dists@[e]@);
                assert(dists@[e].at(x, y, z) == self.at(
                    e,
                    (x - spec_direction(e).x) % (X as int),
                    (y - spec_direction(e).y) % (Y as int),
                    (z - spec_direction(e).z) % (Z as int),
                ));
            }
        }
        r
    }
}

/// The streaming relation between a pre-step and a post-step lattice: in
/// every direction slot, each cell's population afterwards is the population
/// that the periodic source cell one direction step behind held before.
pub open spec fn spec_streamed<const X: usize, const Y: usize, const Z: usize, T>(
    pre: Lattice<X, Y, Z, T>,
    post: Lattice<X, Y, Z, T>,
) -> bool {
    forall|d: int, x: int, y: int, z: int|
        0 <= d < 19 && 0 <= x < X && 0 <= y < Y && 0 <= z < Z ==> #[trigger] post.at(d, x, y, z)
            == pre.at(
            d,
            (x - spec_direction(d).x) % (X as int),
            (y - spec_direction(d).y) % (Y as int),
            (z - spec_direction(d).z) % (Z as int),
        )
}

/// The tunable constants of the simulation, over an abstract scalar type.
/// The host may read and replace them between steps.
#[derive(Clone, Copy, Debug)]
pub struct Constants<S> {
    /// Mix factor of the collision step, used directly as the interpolation
    /// factor (not in the canonical (t-1)/t form); documented to need a value
    /// above one for stability.
    pub time_relaxation_constant: S,
    /// The lattice speed of sound, canonically one over the square root of 3.
    pub speed_of_sound: S,
    /// Divides the sampled flow velocity when forcing a particle.
    pub particle_mass: S,
    /// Drag factor applied to a particle's velocity each step, typically
    /// below one.
    pub particle_velocity_decay: S,
}

/// A massless tracer with continuous position and velocity, advected through
/// the flow field each step and never fed back into it.
#[derive(Clone, Copy, Debug)]
pub struct Particle<V> {
    pub position: V,
    pub velocity: V,
}

/// What the initializer policy is asked about: one cell location, one
/// direction vector, and that direction's weight numerator (in 36ths).
pub struct InitArgs {
    pub loc: (usize, usize, usize),
    pub dir: Int3,
    pub weight: u32,
}

/// The policy arguments for direction slot `d` at cell (x, y, z).
pub open spec fn spec_init_args(d: int, x: int, y: int, z: int) -> InitArgs {
    InitArgs {
        loc: (x as usize, y as usize, z as usize),
        dir: spec_direction(d),
        weight: spec_weight_numerator(d) as u32,
    }
}

/// The population a cell gets from one policy answer: the policy's value
/// where it has an opinion, else the at-rest default, which is `rest` for the
/// zero direction and `empty` for every moving direction.
pub open spec fn spec_policy_value<T>(o: Option<T>, dir: Int3, rest: T, empty: T) -> T {
    match o {
        Option::Some(v) => v,
        Option::None => if dir.is_zero() {
            rest
        } else {
            empty
        },
    }
}

/// One population value is consistent with the policy: it is the policy's
/// answer for that cell, direction and weight, or the at-rest default where
/// the policy had no opinion.
pub open spec fn spec_policy_cell<T, F: Fn(InitArgs) -> Option<T>>(
    value: F,
    rest: T,
    empty: T,
    d: int,
    x: int,
    y: int,
    z: int,
    v: T,
) -> bool {
    exists|o: Option<T>|
        call_ensures(value, (spec_init_args(d, x, y, z),), o) && v == spec_policy_value(
            o,
            spec_direction(d),
            rest,
            empty,
        )
}

/// The fill relation of initialization: every slot of every cell holds a
/// policy-consistent population.
pub open spec fn spec_filled<const X: usize, const Y: usize, const Z: usize, T, F: Fn(InitArgs) -> Option<T>>(
    value: F,
    rest: T,
    empty: T,
    l: Lattice<X, Y, Z, T>,
) -> bool {
    forall|d: int, x: int, y: int, z: int|
        0 <= d < 19 && 0 <= x < X && 0 <= y < Y && 0 <= z < Z ==> spec_policy_cell(
            value,
            rest,
            empty,
            d,
            x,
            y,
            z,
            #[trigger] l.at(d, x, y, z),
        )
}

/// The 19 populations of one cell, in canonical slot order.
pub open spec fn spec_packets_at<const X: usize, const Y: usize, const Z: usize, T>(
    l: Lattice<X, Y, Z, T>,
    x: int,
    y: int,
    z: int,
) -> Seq<T> {
    Seq::new(19, |d: int| l.at(d, x, y, z))
}

/// One cell's density and velocity are consistent with `recover`: they are
/// what one call of it returns for the cell's 19 populations in canonical
/// order.
pub open spec fn spec_recovered_cell<const X: usize, const Y: usize, const Z: usize, T, V, G: Fn(
    Vec<T>,
) -> (T, V)>(
    recover: G,
    l: Lattice<X, Y, Z, T>,
    x: int,
    y: int,
    z: int,
    den_v: T,
    vel_v: V,
) -> bool {
    exists|vals: Vec<T>, dv: (T, V)|
        vals@ == spec_packets_at(l, x, y, z) && call_ensures(recover, (vals,), dv) && den_v == dv.0
            && vel_v == dv.1
}

/// The macroscopic-recovery relation: at every cell, the density and velocity
/// fields hold what `recover` returns for that cell's 19 populations in
/// canonical order.
pub open spec fn spec_recovered<const X: usize, const Y: usize, const Z: usize, T, V, G: Fn(
    Vec<T>,
) -> (T, V)>(
    l: Lattice<X, Y, Z, T>,
    recover: G,
    den: Field<X, Y, Z, T>,
    vel: Field<X, Y, Z, V>,
) -> bool {
    forall|x: int, y: int, z: int|
        0 <= x < X && 0 <= y < Y && 0 <= z < Z ==> spec_recovered_cell(
            recover,
            l,
            x,
            y,
            z,
            #[trigger] den.at(x, y, z),
            #[trigger] vel.at(x, y, z),
        )
}

/// The 8 cell values around a continuous position whose per-axis floors are
/// (fx, fy, fz), wrapped periodically, in the fixed order low/high on x, then
/// y, then z.
pub open spec fn spec_corner_seq<const X: usize, const Y: usize, const Z: usize, T>(
    f: Field<X, Y, Z, T>,
    fx: int,
    fy: int,
    fz: int,
) -> Seq<T> {
    Seq::new(
        8,
        |j: int|
            f.at(
                if j < 4 {
                    fx % (X as int)
                } else {
                    (fx + 1) % (X as int)
                },
                if (j / 2) % 2 == 0 {
                    fy % (Y as int)
                } else {
                    (fy + 1) % (Y as int)
                },
                if j % 2 == 0 {
                    fz % (Z as int)
                } else {
                    (fz + 1) % (Z as int)
                },
            ),
    )
}

/// The sampling relation of `lerp_get`: `decompose` split the position into a
/// floor and a fraction per axis, the 8 wrapped corner cells around the floor
/// were gathered in fixed order, and `mix` blended them into `r` using the
/// fractions.
pub open spec fn spec_sampled<
    const X: usize,
    const Y: usize,
    const Z: usize,
    T,
    P,
    S,
    D: Fn(P) -> ((i32, S), (i32, S), (i32, S)),
    M: Fn((S, S, S), Vec<T>) -> T,
>(f: Field<X, Y, Z, T>, position: P, decompose: D, mix: M, r: T) -> bool {
    exists|fl: ((i32, S), (i32, S), (i32, S)), corners: Vec<T>|
        {
            &&& call_ensures(decompose, (position,), fl)
            &&& corners@ == spec_corner_seq(f, fl.0.0 as int, fl.1.0 as int, fl.2.0 as int)
            &&& call_ensures(mix, ((fl.0.1, fl.1.1, fl.2.1), corners), r)
        }
}

/// The advection relation of one particle: the flow velocity was sampled at
/// its position by trilinear interpolation, and `advance` turned the particle
/// and that flow into its next state.
pub open spec fn spec_advected<
    const X: usize,
    const Y: usize,
    const Z: usize,
    T,
    V,
    S,
    D: Fn(V) -> ((i32, S), (i32, S), (i32, S)),
    M: Fn((S, S, S), Vec<V>) -> V,
    A: Fn(Particle<V>, V, Constants<T>) -> Particle<V>,
>(
    vel: Field<X, Y, Z, V>,
    cs: Constants<T>,
    p: Particle<V>,
    decompose: D,
    mix: M,
    advance: A,
    q: Particle<V>,
) -> bool {
    exists|flow: V|
        {
            &&& spec_sampled(vel, p.position, decompose, mix, flow)
            &&& call_ensures(advance, (p, flow, cs), q)
        }
}

/// The collision relation between a simulation's state and a freshly collided
/// lattice: in every direction slot and cell, the new population is what the
/// relaxation function returns for that cell's old population, density,
/// velocity, the slot's direction and weight, and the current constants.
pub open spec fn spec_collided<const X: usize, const Y: usize, const Z: usize, T, V, F: Fn(
    T,
    T,
    V,
    Int3,
    u32,
    Constants<T>,
) -> T>(s: Simulation<X, Y, Z, T, V>, relax: F, r: Lattice<X, Y, Z, T>) -> bool {
    forall|d: int, x: int, y: int, z: int|
        0 <= d < 19 && 0 <= x < X && 0 <= y < Y && 0 <= z < Z ==> call_ensures(
            relax,
            (
                s.distributions.at(d, x, y, z),
                s.density.at(x, y, z),
                s.velocity.at(x, y, z),
                spec_direction(d),
                spec_weight_numerator(d) as u32,
                s.constants,
            ),
            #[trigger] r.at(d, x, y, z),
        )
}

/// The whole state of one simulation: the 19 packet distributions, the
/// recovered density and velocity fields, the tunable constants, and the
/// tracer particles. The scalar type T and cell vector type V are abstract;
/// the caller supplies their arithmetic through the step functions' closures.
pub struct Simulation<const X: usize, const Y: usize, const Z: usize, T, V> {
    pub distributions: Lattice<X, Y, Z, T>,
    pub velocity: Field<X, Y, Z, V>,
    pub density: Field<X, Y, Z, T>,
    pub constants: Constants<T>,
    pub particles: Vec<Particle<V>>,
}

impl<const X: usize, const Y: usize, const Z: usize, T, V> Simulation<X, Y, Z, T, V> {
    /// Well-formed: every stored grid covers each cell exactly once.
    pub open spec fn wf(self) -> bool {
        &&& self.distributions.wf()
        &&& self.velocity.wf()
        &&& self.density.wf()
    }
}

impl<const X: usize, const Y: usize, const Z: usize, T: Copy, V: Copy> Simulation<X, Y, Z, T, V> {
    /// A simulation at rest: the rest slot of every cell holds
    /// `rest_density`, the moving slots hold `empty`, the density field
    /// starts at `rest_density` and the velocity field at `still`.
    pub fn new(
        constants: Constants<T>,
        particles: Vec<Particle<V>>,
        rest_density: T,
        empty: T,
        still: V,
    ) -> (r: Self)
        requires
            dims_ok::<X, Y, Z>(),
        ensures
            r.wf(),
            r.constants == constants,
            r.particles == particles,
            forall|x: int, y: int, z: int|
                0 <= x < X && 0 <= y < Y && 0 <= z < Z ==> #[trigger] r.distributions.at(0, x, y, z)
                    == rest_density,
            forall|d: int, x: int, y: int, z: int|
                1 <= d < 19 && 0 <= x < X && 0 <= y < Y && 0 <= z < Z
                    ==> #[trigger] r.distributions.at(d, x, y, z) == empty,
            forall|x: int, y: int, z: int|
                0 <= x < X && 0 <= y < Y && 0 <= z < Z ==> #[trigger] r.density.at(x, y, z)
                    == rest_density,
            forall|x: int, y: int, z: int|
                0 <= x < X && 0 <= y < Y && 0 <= z < Z ==> #[trigger] r.velocity.at(x, y, z)
                    == still,
    {
        Simulation {
            distributions: Lattice::new_uniform(rest_density, empty),
            velocity: Field::new_from(still),
            density: Field::new_from(rest_density),
            constants,
            particles,
        }
    }

    /// The collision step: relax every cell's population in every direction
    /// toward its local equilibrium, as computed by `relax` from the cell's
    /// population, density, velocity, the direction and its weight, and the
    /// constants. Produces a fresh lattice and leaves the state untouched, so
    /// that streaming can read every pre-step value.
    pub fn collide<F: Fn(T, T, V, Int3, u32, Constants<T>) -> T>(&self, relax: &F) -> (r: Lattice<
        X,
        Y,
        Z,
        T,
    >)
        requires
            self.wf(),
            dims_ok::<X, Y, Z>(),
            forall|a: (T, T, V, Int3, u32, Constants<T>)| #[trigger] call_requires(relax, a),
        ensures
            r.wf(),
            spec_collided(*self, relax, r),
    {
        let mut dists: Vec<PacketDistribution<X, Y, Z, T>> = Vec::new();
        let mut d: usize = 0;
        while d < 19
            invariant
                self.wf(),
                dims_ok::<X, Y, Z>(),
                forall|a: (T, T, V, Int3, u32, Constants<T>)| #[trigger] call_requires(relax, a),
                d <= 19,
                dists@.len() == d,
                forall|e: int| 0 <= e < d ==> (#[trigger] dists@[e]).wf(),
                forall|e: int, x: int, y: int, z: int|
                    0 <= e < d && 0 <= x < X && 0 <= y < Y && 0 <= z < Z ==> call_ensures(
                        relax,
                        (
                            self.distributions.at(e, x, y, z),
                            self.density.at(x, y, z),
                            self.velocity.at(x, y, z),
                            spec_direction(e),
                            spec_weight_numerator(e) as u32,
                            self.constants,
                        ),
                        #[trigger] dists@[e].at(x, y, z),
                    ),
            decreases 19 - d,
        {
            let li = crate::lbm::iteration::LatticeIndex::from_slot(d);
            let dir = li.direction();
            let w = li.weight_numerator();
            let cf = |cx: usize, cy: usize, cz: usize| -> (nv: T)
                requires
                    cx < X && cy < Y && cz < Z,
                ensures
                    call_ensures(
                        relax,
                        (
                            self.distributions.at(d as int, cx as int, cy as int, cz as int),
                            self.density.at(cx as int, cy as int, cz as int),
                            self.velocity.at(cx as int, cy as int, cz as int),
                            spec_direction(d as int),
                            spec_weight_numerator(d as int) as u32,
                            self.constants,
                        ),
                        nv,
                    ),
                {
                    let loc = Bound3::new(cx, cy, cz).unwrap();
                    let pv: T = *self.distributions.dist(d).get(loc);
                    let den: T = *self.density.get(loc);
                    let vel: V = *self.velocity.get(loc);
                    relax(pv, den, vel, dir, w, self.constants)
                };
            let fld = Field::from_cells(cf);
            dists.push(PacketDistribution { field: fld });
            proof {
                assert forall|x: int, y: int, z: int|
                    0 <= x < X && 0 <= y < Y && 0 <= z < Z implies call_ensures(
                    relax,
                    (
                        self.distributions.at(d as int, x, y, z),
                        self.density.at(x, y, z),
                        self.velocity.at(x, y, z),
                        spec_direction(d as int),
                        spec_weight_numerator(d as int) as u32,
                        self.constants,
                    ),
                    #[trigger] dists@[d as int].at(x, y, z),
                ) by {
                    assert(dists@[d as int]@ == fld@);
                    assert(call_ensures(
                        cf,
                        (x as usize, y as usize, z as usize),
                        fld.at(x, y, z),
                    ));
                    assert(dists@[d as int].at(x, y, z) == fld.at(x, y, z));
                }
            }
            d += 1;
        }
        let r = Lattice { dists };
        proof {
            assert forall|e: int, x: int, y: int, z: int|
                0 <= e < 19 && 0 <= x < X && 0 <= y < Y && 0 <= z < Z implies call_ensures(
                relax,
                (
                    self.distributions.at(e, x, y, z),
                    self.density.at(x, y, z),
                    self.velocity.at(x, y, z),
                    spec_direction(e),
                    spec_weight_numerator(e) as u32,
                    self.constants,
                ),
                #[trigger] r.at(e, x, y, z),
            ) by {
                assert(r@[e] == dists@[e]@);
                assert(dists@[e].at(x, y, z) == r.at(e, x, y, z));
            }
        }
        r
    }

    /// The streaming step: overwrite the distributions with the collided
    /// lattice shifted one cell along each slot's own direction, wrapping
    /// periodically. A pure relocation; no value is created or altered.
    pub fn stream(&mut self, collided: &Lattice<X, Y, Z, T>)
        requires
            old(self).wf(),
            collided.wf(),
            dims_ok::<X, Y, Z>(),
        ensures
            final(self).wf(),
            spec_streamed(*collided, final(self).distributions),
            final(self).velocity == old(self).velocity,
            final(self).density == old(self).density,
            final(self).constants == old(self).constants,
            final(self).particles == old(self).particles,
    {
        self.distributions = collided.streamed();
    }

    /// One-shot seeding: fill every slot of every cell from the policy, with
    /// the at-rest defaults (`rest` for the zero direction, `empty` for the
    /// others) where the policy returns no opinion, then recompute the
    /// macroscopic fields.
    pub fn initialize<F: Fn(InitArgs) -> Option<T>, G: Fn(Vec<T>) -> (T, V)>(
        &mut self,
        value: &F,
        rest: T,
        empty: T,
        recover: &G,
    )
        requires
            old(self).wf(),
            dims_ok::<X, Y, Z>(),
            forall|a: InitArgs| #[trigger] call_requires(value, (a,)),
            forall|vals: Vec<T>| vals@.len() == 19 ==> #[trigger] call_requires(recover, (vals,)),
        ensures
            final(self).wf(),
            spec_filled(value, rest, empty, final(self).distributions),
            spec_recovered(
                final(self).distributions,
                recover,
                final(self).density,
                final(self).velocity,
            ),
            final(self).constants == old(self).constants,
            final(self).particles == old(self).particles,
    {
        let mut dists: Vec<PacketDistribution<X, Y, Z, T>> = Vec::new();
        let mut d: usize = 0;
        while d < 19
            invariant
                dims_ok::<X, Y, Z>(),
                forall|a: InitArgs| #[trigger] call_requires(value, (a,)),
                d <= 19,
                dists@.len() == d,
                forall|e: int| 0 <= e < d ==> (#[trigger] dists@[e]).wf(),
                forall|e: int, x: int, y: int, z: int|
                    0 <= e < d && 0 <= x < X && 0 <= y < Y && 0 <= z < Z ==> spec_policy_cell(
                        value,
                        rest,
                        empty,
                        e,
                        x,
                        y,
                        z,
                        #[trigger] dists@[e].at(x, y, z),
                    ),
            decreases 19 - d,
        {
            let li = crate::lbm::iteration::LatticeIndex::from_slot(d);
            let dir = li.direction();
            let w = li.weight_numerator();
            let cf = |cx: usize, cy: usize, cz: usize| -> (nv: T)
                requires
                    cx < X && cy < Y && cz < Z,
                ensures
                    spec_policy_cell(value, rest, empty, d as int, cx as int, cy as int, cz as int, nv),
                {
                    let o = value(InitArgs { loc: (cx, cy, cz), dir, weight: w });
                    proof {
                        assert(InitArgs { loc: (cx, cy, cz), dir, weight: w } == spec_init_args(
                            d as int,
                            cx as int,
                            cy as int,
                            cz as int,
                        ));
                        assert(call_ensures(
                            value,
                            (spec_init_args(d as int, cx as int, cy as int, cz as int),),
                            o,
                        ));
                    }
                    let nv = match o {
                        Option::Some(v) => v,
                        Option::None => {
                            if dir.x == 0 && dir.y == 0 && dir.z == 0 {
                                rest
                            } else {
                                empty
                            }
                        },
                    };
                    proof {
                        assert(nv == spec_policy_value(o, spec_direction(d as int), rest, empty));
                    }
                    nv
                };
            let fld = Field::from_cells(cf);
            dists.push(PacketDistribution { field: fld });
            proof {
                assert forall|x: int, y: int, z: int|
                    0 <= x < X && 0 <= y < Y && 0 <= z < Z implies spec_policy_cell(
                    value,
                    rest,
                    empty,
                    d as int,
                    x,
                    y,
                    z,
                    #[trigger] dists@[d as int].at(x, y, z),
                ) by {
                    assert(dists@[d as int]@ == fld@);
                    assert(call_ensures(
                        cf,
                        (x as usize, y as usize, z as usize),
                        fld.at(x, y, z),
                    ));
                    assert((x as usize) as int == x && (y as usize) as int == y && (z as usize)
                        as int == z);
                    assert(dists@[d as int].at(x, y, z) == fld.at(x, y, z));
                }
            }
            d += 1;
        }
        let lat = Lattice { dists };
        proof {
            assert forall|e: int, x: int, y: int, z: int|
                0 <= e < 19 && 0 <= x < X && 0 <= y < Y && 0 <= z < Z implies spec_policy_cell(
                value,
                rest,
                empty,
                e,
                x,
                y,
                z,
                #[trigger] lat.at(e, x, y, z),
            ) by {
                assert(lat@[e] == dists@[e]@);
                assert(lat.at(e, x, y, z) == dists@[e].at(x, y, z));
            }
        }
        self.distributions = lat;
        self.calc_conditions(recover);
    }

    /// Macroscopic recovery: at every cell, hand the 19 populations in
    /// canonical order to `recover`, and store the density and velocity it
    /// returns. The distributions themselves are read, never changed.
    pub fn calc_conditions<G: Fn(Vec<T>) -> (T, V)>(&mut self, recover: &G)
        requires
            old(self).wf(),
            dims_ok::<X, Y, Z>(),
            forall|vals: Vec<T>| vals@.len() == 19 ==> #[trigger] call_requires(recover, (vals,)),
        ensures
            final(self).wf(),
            final(self).distributions == old(self).distributions,
            final(self).constants == old(self).constants,
            final(self).particles == old(self).particles,
            spec_recovered(
                old(self).distributions,
                recover,
                final(self).density,
                final(self).velocity,
            ),
    {
        let lat = &self.distributions;
        let cf = |cx: usize, cy: usize, cz: usize| -> (dv: (T, V))
            requires
                cx < X && cy < Y && cz < Z,
            ensures
                spec_recovered_cell(recover, *lat, cx as int, cy as int, cz as int, dv.0, dv.1),
            {
                let loc = Bound3::new(cx, cy, cz).unwrap();
                let vals = lat.packets_at(loc);
                let dv = recover(vals);
                dv
            };
        let pairs: Field<X, Y, Z, (T, V)> = Field::from_cells(cf);
        let pr = &pairs;
        let cd = |cx: usize, cy: usize, cz: usize| -> (nv: T)
            requires
                cx < X && cy < Y && cz < Z,
            ensures
                nv == pr.at(cx as int, cy as int, cz as int).0,
            {
                let loc = Bound3::new(cx, cy, cz).unwrap();
                pr.get(loc).0
            };
        let den: Field<X, Y, Z, T> = Field::from_cells(cd);
        let cv = |cx: usize, cy: usize, cz: usize| -> (nv: V)
            requires
                cx < X && cy < Y && cz < Z,
            ensures
                nv == pr.at(cx as int, cy as int, cz as int).1,
            {
                let loc = Bound3::new(cx, cy, cz).unwrap();
                pr.get(loc).1
            };
        let vel: Field<X, Y, Z, V> = Field::from_cells(cv);
        proof {
            assert forall|x: int, y: int, z: int|
                0 <= x < X && 0 <= y < Y && 0 <= z < Z implies spec_recovered_cell(
                recover,
                self.distributions,
                x,
                y,
                z,
                #[trigger] den.at(x, y, z),
                #[trigger] vel.at(x, y, z),
            ) by {
                assert(call_ensures(cf, (x as usize, y as usize, z as usize), pairs.at(x, y, z)));
                assert(call_ensures(cd, (x as usize, y as usize, z as usize), den.at(x, y, z)));
                assert(call_ensures(cv, (x as usize, y as usize, z as usize), vel.at(x, y, z)));
                assert((x as usize) as int == x && (y as usize) as int == y && (z as usize)
                    as int == z);
                assert(den.at(x, y, z) == pairs.at(x, y, z).0);
                assert(vel.at(x, y, z) == pairs.at(x, y, z).1);
            }
        }
        self.density = den;
        self.velocity = vel;
    }

    /// Advect every tracer particle: sample the flow velocity at its position
    /// by trilinear interpolation over the velocity field, then let `advance`
    /// apply drag and forcing and wrap the new position into the grid.
    pub fn stream_particles<S, D, M, A>(&mut self, decompose: &D, mix: &M, advance: &A) where
        D: Fn(V) -> ((i32, S), (i32, S), (i32, S)),
        M: Fn((S, S, S), Vec<V>) -> V,
        A: Fn(Particle<V>, V, Constants<T>) -> Particle<V>,

        requires
            old(self).wf(),
            dims_ok::<X, Y, Z>(),
            forall|p: V| #[trigger] call_requires(decompose, (p,)),
            forall|fr: (S, S, S), corners: Vec<V>|
                corners@.len() == 8 ==> #[trigger] call_requires(mix, (fr, corners)),
            forall|a: (Particle<V>, V, Constants<T>)| #[trigger] call_requires(advance, a),
        ensures
            final(self).wf(),
            final(self).distributions == old(self).distributions,
            final(self).density == old(self).density,
            final(self).velocity == old(self).velocity,
            final(self).constants == old(self).constants,
            final(self).particles@.len() == old(self).particles@.len(),
            forall|i: int|
                0 <= i < old(self).particles@.len() ==> spec_advected(
                    old(self).velocity,
                    old(self).constants,
                    old(self).particles@[i],
                    decompose,
                    mix,
                    advance,
                    #[trigger] final(self).particles@[i],
                ),
    {
        let n = self.particles.len();
        let mut i: usize = 0;
        while i < n
            invariant
                self.wf(),
                dims_ok::<X, Y, Z>(),
                forall|p: V| #[trigger] call_requires(decompose, (p,)),
                forall|fr: (S, S, S), corners: Vec<V>|
                    corners@.len() == 8 ==> #[trigger] call_requires(mix, (fr, corners)),
                forall|a: (Particle<V>, V, Constants<T>)| #[trigger] call_requires(advance, a),
                i <= n,
                self.particles@.len() == n,
                self.distributions == old(self).distributions,
                self.density == old(self).density,
                self.velocity == old(self).velocity,
                self.constants == old(self).constants,
                old(self).particles@.len() == n,
                forall|j: int| i <= j < n ==> self.particles@[j] == old(self).particles@[j],
                forall|j: int|
                    0 <= j < i ==> spec_advected(
                        old(self).velocity,
                        old(self).constants,
                        old(self).particles@[j],
                        decompose,
                        mix,
                        advance,
                        #[trigger] self.particles@[j],
                    ),
            decreases n - i,
        {
            let p: Particle<V> = self.particles[i];
            let flow: V = self.velocity.lerp_get(p.position, decompose, mix);
            let q = advance(p, flow, self.constants);
            self.particles.set(i, q);
            i += 1;
        }
    }

    /// One discrete tick, in the fixed order collide, stream, recover the
    /// macroscopic fields, advect particles. The closures supply the scalar
    /// and vector arithmetic: `relax` the per-direction collision update,
    /// `recover` the density and velocity of one cell, and `decompose`, `mix`
    /// and `advance` the particle interpolation and motion.
    pub fn step<FC, FM, S, D, M, A>(
        &mut self,
        relax: &FC,
        recover: &FM,
        decompose: &D,
        mix: &M,
        advance: &A,
    ) where
        FC: Fn(T, T, V, Int3, u32, Constants<T>) -> T,
        FM: Fn(Vec<T>) -> (T, V),
        D: Fn(V) -> ((i32, S), (i32, S), (i32, S)),
        M: Fn((S, S, S), Vec<V>) -> V,
        A: Fn(Particle<V>, V, Constants<T>) -> Particle<V>,

        requires
            old(self).wf(),
            dims_ok::<X, Y, Z>(),
            forall|a: (T, T, V, Int3, u32, Constants<T>)| #[trigger] call_requires(relax, a),
            forall|vals: Vec<T>| vals@.len() == 19 ==> #[trigger] call_requires(recover, (vals,)),
            forall|p: V| #[trigger] call_requires(decompose, (p,)),
            forall|fr: (S, S, S), corners: Vec<V>|
                corners@.len() == 8 ==> #[trigger] call_requires(mix, (fr, corners)),
            forall|a: (Particle<V>, V, Constants<T>)| #[trigger] call_requires(advance, a),
        ensures
            final(self).wf(),
            exists|collided: Lattice<X, Y, Z, T>|
                {
                    &&& #[trigger] spec_collided(*old(self), relax, collided)
                    &&& spec_streamed(collided, final(self).distributions)
                },
            spec_recovered(
                final(self).distributions,
                recover,
                final(self).density,
                final(self).velocity,
            ),
            final(self).constants == old(self).constants,
            final(self).particles@.len() == old(self).particles@.len(),
            forall|i: int|
                0 <= i < old(self).particles@.len() ==> spec_advected(
                    final(self).velocity,
                    old(self).constants,
                    old(self).particles@[i],
                    decompose,
                    mix,
                    advance,
                    #[trigger] final(self).particles@[i],
                ),
    {
        let collided = self.collide(relax);
        self.stream(&collided);
        self.calc_conditions(recover);
        self.stream_particles(decompose, mix, advance);
        proof {
            assert(spec_collided(*old(self), relax, collided) && spec_streamed(
                collided,
                self.distributions,
            ));
        }
    }
}

} // verus!
