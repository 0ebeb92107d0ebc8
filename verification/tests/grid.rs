//! Tests of the index math, the validated grid index, the generic field
//! storage, and the D3Q19 direction and weight tables.

use leaves_bm::lbm::iteration::{LatticeIndex, WEIGHT_DENOMINATOR};
use leaves_bm::lbm::{Field, Lattice};
use leaves_bm::math::{Bound3, Int3};

fn all_directions() -> Vec<Int3> {
    let mut dirs: Vec<Int3> = Vec::new();
    for d in 0..19usize {
        dirs.push(LatticeIndex::from_slot(d).direction());
    }
    dirs
}

#[test]
fn directions_are_the_d3q19_set() {
    // Exactly {0,0,0}, the six single-axis unit vectors, and the twelve
    // two-axis diagonals, with no duplicates.
    let dirs = all_directions();
    assert_eq!(dirs.len(), 19);
    for i in 0..19 {
        for j in 0..19 {
            if i != j {
                assert_ne!(dirs[i], dirs[j]);
            }
        }
    }
    for (d, dir) in dirs.iter().enumerate() {
        let nonzero = [dir.x, dir.y, dir.z].iter().filter(|c| **c != 0).count();
        assert!(dir.x.abs() <= 1 && dir.y.abs() <= 1 && dir.z.abs() <= 1);
        if d == 0 {
            assert_eq!(nonzero, 0);
        } else if d < 7 {
            assert_eq!(nonzero, 1);
        } else {
            assert_eq!(nonzero, 2);
        }
    }
    // Every vector of the described set occurs.
    for x in -1i32..=1 {
        for y in -1i32..=1 {
            for z in -1i32..=1 {
                let nonzero = [x, y, z].iter().filter(|c| **c != 0).count();
                if nonzero <= 2 {
                    assert!(dirs.contains(&Int3::new(x, y, z)));
                }
            }
        }
    }
}

#[test]
fn weights_sum_to_one() {
    // 12/36 + 6 * 2/36 + 12 * 1/36 = 36/36 exactly.
    let mut sum: u32 = 0;
    for d in 0..19usize {
        let li = LatticeIndex::from_slot(d);
        let w = li.weight_numerator();
        if d == 0 {
            assert_eq!(w, 12);
        } else if d < 7 {
            assert_eq!(w, 2);
        } else {
            assert_eq!(w, 1);
        }
        sum += w;
    }
    assert_eq!(sum, WEIGHT_DENOMINATOR);
}

#[test]
fn index_rejects_out_of_range_coordinates() {
    assert!(Bound3::<4, 3, 2>::new(3, 2, 1).is_ok());
    assert!(Bound3::<4, 3, 2>::new(4, 0, 0).is_err());
    assert!(Bound3::<4, 3, 2>::new(0, 3, 0).is_err());
    assert!(Bound3::<4, 3, 2>::new(0, 0, 2).is_err());
    let b = Bound3::<4, 3, 2>::new(2, 1, 0).unwrap();
    assert_eq!((b.x(), b.y(), b.z()), (2, 1, 0));
}

#[test]
fn wrap_is_euclidean_on_each_axis() {
    let w: Bound3<4, 4, 4> = Int3::new(-1, 5, 3).wrap();
    assert_eq!((w.x(), w.y(), w.z()), (3, 1, 3));
    let w2: Bound3<4, 3, 2> = Int3::new(-9, 7, -1).wrap();
    assert_eq!((w2.x(), w2.y(), w2.z()), (3, 1, 1));
    let w3: Bound3<1, 1, 1> = Int3::new(-5, 0, 12).wrap();
    assert_eq!((w3.x(), w3.y(), w3.z()), (0, 0, 0));
}

#[test]
fn wrap_handles_extreme_coordinates() {
    let w: Bound3<7, 5, 3> = Int3::new(i32::MIN, i32::MAX, i32::MIN + 1).wrap();
    assert_eq!(w.x() as i64, (i32::MIN as i64).rem_euclid(7));
    assert_eq!(w.y() as i64, (i32::MAX as i64).rem_euclid(5));
    assert_eq!(w.z() as i64, ((i32::MIN as i64) + 1).rem_euclid(3));
}

#[test]
fn int3_plus_adds_componentwise() {
    let a = Int3::new(1, -2, 3);
    let b = Int3::new(-1, 1, 1);
    assert_eq!(a.plus(b), Int3::new(0, -1, 4));
}

#[test]
fn field_stores_one_value_per_cell() {
    let mut f: Field<2, 3, 4, i64> = Field::new_from(9);
    let loc = Bound3::new(1, 2, 3).unwrap();
    assert_eq!(*f.get(loc), 9);
    *f.get_mut(loc) = -5;
    assert_eq!(*f.get(loc), -5);
    let other = Bound3::new(0, 2, 3).unwrap();
    assert_eq!(*f.get(other), 9);
}

#[test]
fn lattice_keeps_one_distribution_per_slot() {
    let mut lat: Lattice<2, 2, 2, i64> = Lattice::new_uniform(5, 0);
    let loc = Bound3::new(1, 0, 1).unwrap();
    assert_eq!(*lat.dist(0).get(loc), 5);
    for d in 1..19usize {
        assert_eq!(*lat.dist(d).get(loc), 0);
    }
    *lat.dist_mut(7).get_mut(loc) = 3;
    assert_eq!(*lat.dist(7).get(loc), 3);
    let packets = lat.packets_at(loc);
    assert_eq!(packets.len(), 19);
    assert_eq!(packets[0], 5);
    assert_eq!(packets[7], 3);
    assert_eq!(packets[8], 0);
}

#[test]
fn streamed_lattice_shifts_along_each_direction() {
    // On an integer lattice the streamed copy is a pure relocation of
    // values along each slot's own direction, wrapping at the edges.
    let mut lat: Lattice<3, 3, 3, i64> = Lattice::new_uniform(0, 0);
    // Slot 5 moves +z.
    *lat.dist_mut(5).get_mut(Bound3::new(0, 0, 2).unwrap()) = 11;
    let streamed = lat.streamed();
    assert_eq!(*streamed.dist(5).get(Bound3::new(0, 0, 0).unwrap()), 11);
    assert_eq!(*streamed.dist(5).get(Bound3::new(0, 0, 2).unwrap()), 0);
}
