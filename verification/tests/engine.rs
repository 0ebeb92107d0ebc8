//! End-to-end tests of the simulation engine at scalar type f32 and vector
//! type (f32, f32, f32), with the canonical D3Q19 arithmetic supplied as
//! closures.

use leaves_bm::lbm::iteration::LatticeIndex;
use leaves_bm::lbm::{Constants, InitArgs, Particle, Simulation};
use leaves_bm::math::{Bound3, Int3};

type V3 = (f32, f32, f32);

fn lerp(a: f32, b: f32, mix: f32) -> f32 {
    b * mix + a * (1.0 - mix)
}

/// The BGK collision update of one direction slot at one cell: relax the
/// population toward the second-order equilibrium, using the relaxation
/// constant directly as the mix factor.
fn relax(pv: f32, den: f32, vel: V3, dir: Int3, w36: u32, cs: Constants<f32>) -> f32 {
    let e = (dir.x as f32, dir.y as f32, dir.z as f32);
    let dm = vel.0 * e.0 + vel.1 * e.1 + vel.2 * e.2;
    let c = cs.speed_of_sound;
    let c2 = c * c;
    let weight = w36 as f32 / 36.0;
    let usq = vel.0 * vel.0 + vel.1 * vel.1 + vel.2 * vel.2;
    let equilibrium = weight * den * (1.0 + dm / c2 + dm * dm / (2.0 * c2 * c2) - usq / (2.0 * c2));
    lerp(pv, equilibrium, cs.time_relaxation_constant)
}

/// Macroscopic recovery of one cell: density is the sum of the 19
/// populations, velocity is the momentum over the density.
fn recover(vals: Vec<f32>) -> (f32, V3) {
    let mut den: f32 = 0.0;
    let mut mom: V3 = (0.0, 0.0, 0.0);
    let mut d: usize = 0;
    while d < 19 {
        let v = vals[d];
        let dir = LatticeIndex::from_slot(d).direction();
        den += v;
        mom = (
            mom.0 + v * dir.x as f32,
            mom.1 + v * dir.y as f32,
            mom.2 + v * dir.z as f32,
        );
        d += 1;
    }
    (den, (mom.0 / den, mom.1 / den, mom.2 / den))
}

/// Per-axis floor and fractional part of a continuous position.
fn decompose(p: V3) -> ((i32, f32), (i32, f32), (i32, f32)) {
    let fx = p.0.floor();
    let fy = p.1.floor();
    let fz = p.2.floor();
    (
        (fx as i32, p.0 - fx),
        (fy as i32, p.1 - fy),
        (fz as i32, p.2 - fz),
    )
}

/// Trilinear blend of the 8 corner values, in the fixed gather order
/// low/high on x, then y, then z.
fn mix(fr: (f32, f32, f32), corners: Vec<V3>) -> V3 {
    let wx = [1.0 - fr.0, fr.0];
    let wy = [1.0 - fr.1, fr.1];
    let wz = [1.0 - fr.2, fr.2];
    let mut out: V3 = (0.0, 0.0, 0.0);
    let mut j: usize = 0;
    while j < 8 {
        let w = wx[j / 4] * wy[(j / 2) % 2] * wz[j % 2];
        let c = corners[j];
        out = (out.0 + w * c.0, out.1 + w * c.1, out.2 + w * c.2);
        j += 1;
    }
    out
}

/// Particle update for a 4x4x4 grid: drag plus forcing by the sampled flow,
/// then a periodic position wrap.
fn advance4(p: Particle<V3>, flow: V3, cs: Constants<f32>) -> Particle<V3> {
    let vel = (
        cs.particle_velocity_decay * p.velocity.0 + flow.0 / cs.particle_mass,
        cs.particle_velocity_decay * p.velocity.1 + flow.1 / cs.particle_mass,
        cs.particle_velocity_decay * p.velocity.2 + flow.2 / cs.particle_mass,
    );
    let pos = (
        (p.position.0 + vel.0).rem_euclid(4.0),
        (p.position.1 + vel.1).rem_euclid(4.0),
        (p.position.2 + vel.2).rem_euclid(4.0),
    );
    Particle { position: pos, velocity: vel }
}

fn constants() -> Constants<f32> {
    Constants {
        time_relaxation_constant: 1.25,
        speed_of_sound: 1.0 / 3.0f32.sqrt(),
        particle_mass: 1.0,
        particle_velocity_decay: 0.95,
    }
}

fn new_sim(particles: Vec<Particle<V3>>) -> Simulation<4, 4, 4, f32, V3> {
    Simulation::new(constants(), particles, 1.0, 0.0, (0.0, 0.0, 0.0))
}

fn loc4(x: usize, y: usize, z: usize) -> Bound3<4, 4, 4> {
    Bound3::new(x, y, z).unwrap()
}

fn total_mass(sim: &Simulation<4, 4, 4, f32, V3>) -> f32 {
    let mut sum: f32 = 0.0;
    for d in 0..19usize {
        for x in 0..4usize {
            for y in 0..4usize {
                for z in 0..4usize {
                    sum += *sim.distributions.dist(d).get(loc4(x, y, z));
                }
            }
        }
    }
    sum
}

#[test]
fn new_simulation_is_at_rest() {
    let sim = new_sim(vec![]);
    for x in 0..4usize {
        for y in 0..4usize {
            for z in 0..4usize {
                assert_eq!(*sim.density.get(loc4(x, y, z)), 1.0);
                assert_eq!(*sim.velocity.get(loc4(x, y, z)), (0.0, 0.0, 0.0));
                assert_eq!(*sim.distributions.dist(0).get(loc4(x, y, z)), 1.0);
                for d in 1..19usize {
                    assert_eq!(*sim.distributions.dist(d).get(loc4(x, y, z)), 0.0);
                }
            }
        }
    }
}

#[test]
fn streaming_wraps_at_the_boundary() {
    // A population at the highest x cell, moving in +x (slot 1), must appear
    // at x = 0 after one stream call and nowhere else along that axis.
    let mut sim = new_sim(vec![]);
    let mut lat = sim.distributions.clone();
    for x in 0..4usize {
        *lat.dist_mut(1).get_mut(loc4(x, 1, 2)) = 0.0;
    }
    *lat.dist_mut(1).get_mut(loc4(3, 1, 2)) = 7.0;
    sim.stream(&lat);
    for x in 0..4usize {
        let expect = if x == 0 { 7.0 } else { 0.0 };
        assert_eq!(*sim.distributions.dist(1).get(loc4(x, 1, 2)), expect);
    }
}

#[test]
fn streaming_moves_interior_cells_one_step() {
    let mut sim = new_sim(vec![]);
    let mut lat = sim.distributions.clone();
    *lat.dist_mut(1).get_mut(loc4(1, 0, 0)) = 2.5;
    *lat.dist_mut(2).get_mut(loc4(1, 0, 0)) = 1.5;
    sim.stream(&lat);
    // Slot 1 moves +x, slot 2 moves -x.
    assert_eq!(*sim.distributions.dist(1).get(loc4(2, 0, 0)), 2.5);
    assert_eq!(*sim.distributions.dist(2).get(loc4(0, 0, 0)), 1.5);
}

#[test]
fn streaming_conserves_mass() {
    // The grid-wide sum of all populations is unchanged by stream alone.
    let mut sim = new_sim(vec![]);
    let mut lat = sim.distributions.clone();
    *lat.dist_mut(1).get_mut(loc4(3, 1, 2)) = 7.0;
    *lat.dist_mut(7).get_mut(loc4(3, 3, 0)) = 2.5;
    *lat.dist_mut(18).get_mut(loc4(0, 0, 0)) = 0.25;
    *lat.dist_mut(0).get_mut(loc4(2, 2, 2)) = 4.5;
    let mut before: f32 = 0.0;
    for d in 0..19usize {
        for x in 0..4usize {
            for y in 0..4usize {
                for z in 0..4usize {
                    before += *lat.dist(d).get(loc4(x, y, z));
                }
            }
        }
    }
    sim.stream(&lat);
    assert_eq!(total_mass(&sim), before);
}

#[test]
fn point_seed_initializes_uniform_density() {
    // Grid 4x4x4, relaxation 1.25, speed of sound 1/sqrt(3); the policy
    // answers Some(1.0) only at cell (0,0,0) for the zero direction. Every
    // cell ends with density exactly 1.0 and zero velocity.
    let mut sim = new_sim(vec![]);
    let value = |a: InitArgs| -> Option<f32> {
        if a.loc == (0, 0, 0) && a.dir == Int3::new(0, 0, 0) {
            Some(1.0)
        } else {
            None
        }
    };
    sim.initialize(&value, 1.0, 0.0, &recover);
    for x in 0..4usize {
        for y in 0..4usize {
            for z in 0..4usize {
                assert_eq!(*sim.density.get(loc4(x, y, z)), 1.0);
                assert_eq!(*sim.velocity.get(loc4(x, y, z)), (0.0, 0.0, 0.0));
            }
        }
    }
}

#[test]
fn initialize_uses_policy_values_and_fallback() {
    let mut sim = new_sim(vec![]);
    let value = |a: InitArgs| -> Option<f32> {
        if a.loc == (2, 1, 3) && a.dir == Int3::new(1, 0, 0) {
            Some(0.625)
        } else {
            None
        }
    };
    sim.initialize(&value, 1.0, 0.0, &recover);
    assert_eq!(*sim.distributions.dist(1).get(loc4(2, 1, 3)), 0.625);
    assert_eq!(*sim.distributions.dist(0).get(loc4(2, 1, 3)), 1.0);
    assert_eq!(*sim.distributions.dist(2).get(loc4(2, 1, 3)), 0.0);
    assert_eq!(*sim.distributions.dist(0).get(loc4(0, 0, 0)), 1.0);
}

#[test]
fn calc_conditions_recovers_density_and_velocity() {
    // One cell with populations 1.0 (rest), 2.0 (+x), 1.0 (-x): density 4.0,
    // momentum +1 on x, velocity exactly 0.25.
    let mut sim = new_sim(vec![]);
    *sim.distributions.dist_mut(1).get_mut(loc4(1, 2, 3)) = 2.0;
    *sim.distributions.dist_mut(2).get_mut(loc4(1, 2, 3)) = 1.0;
    sim.calc_conditions(&recover);
    assert_eq!(*sim.density.get(loc4(1, 2, 3)), 4.0);
    assert_eq!(*sim.velocity.get(loc4(1, 2, 3)), (0.25, 0.0, 0.0));
    assert_eq!(*sim.density.get(loc4(0, 0, 0)), 1.0);
}

#[test]
fn trilinear_sample_at_grid_point_is_exact() {
    // Sampling the velocity field at an exact integer coordinate returns the
    // stored value with zero error.
    let mut sim = new_sim(vec![]);
    *sim.velocity.get_mut(loc4(1, 2, 3)) = (1.5, -2.25, 0.5);
    let sampled = sim.velocity.lerp_get((1.0, 2.0, 3.0), decompose, mix);
    assert_eq!(sampled, (1.5, -2.25, 0.5));
    let elsewhere = sim.velocity.lerp_get((0.0, 0.0, 0.0), decompose, mix);
    assert_eq!(elsewhere, (0.0, 0.0, 0.0));
}

#[test]
fn trilinear_sample_wraps_across_seam() {
    // Sampling halfway between the last and the first cell of the x axis
    // blends the two across the periodic seam.
    let mut sim = new_sim(vec![]);
    *sim.velocity.get_mut(loc4(3, 0, 0)) = (1.0, 0.0, 2.0);
    *sim.velocity.get_mut(loc4(0, 0, 0)) = (3.0, 4.0, 0.0);
    let sampled = sim.velocity.lerp_get((3.5, 0.0, 0.0), decompose, mix);
    assert_eq!(sampled, (2.0, 2.0, 1.0));
}

#[test]
fn one_cell_grid_streams_to_itself() {
    // On a 1x1x1 grid every direction wraps back to the single cell, so
    // streaming leaves the lattice unchanged.
    let mut sim: Simulation<1, 1, 1, f32, V3> =
        Simulation::new(constants(), vec![], 1.0, 0.0, (0.0, 0.0, 0.0));
    let one = Bound3::new(0, 0, 0).unwrap();
    let mut lat = sim.distributions.clone();
    *lat.dist_mut(4).get_mut(one) = 2.5;
    sim.stream(&lat);
    assert_eq!(*sim.distributions.dist(4).get(one), 2.5);
    assert_eq!(*sim.distributions.dist(0).get(one), 1.0);
}

#[test]
fn particle_wraps_periodically() {
    // A particle at (X - 0.1, 0, 0) with velocity (1, 0, 0) and no flow ends
    // near 0.9 on x, and never leaves [0, X).
    let p = Particle { position: (3.9f32, 0.0, 0.0), velocity: (1.0f32, 0.0, 0.0) };
    let mut sim = new_sim(vec![p]);
    sim.constants.particle_velocity_decay = 1.0;
    sim.stream_particles(&decompose, &mix, &advance4);
    let q = sim.particles[0];
    assert!((q.position.0 - 0.9).abs() < 1e-5);
    assert!(q.position.0 >= 0.0 && q.position.0 < 4.0);
    assert_eq!(q.position.1, 0.0);
    assert_eq!(q.position.2, 0.0);
    assert_eq!(q.velocity, (1.0, 0.0, 0.0));
}

#[test]
fn identical_runs_are_bit_identical() {
    // Same constants and same initializer policy give bit-identical density
    // and velocity fields across independent runs.
    let value = |a: InitArgs| -> Option<f32> {
        if a.loc.1 == 0 {
            Some(1.0 + 0.125 * a.loc.0 as f32 * a.dir.x as f32)
        } else {
            None
        }
    };
    let mut run = || -> Simulation<4, 4, 4, f32, V3> {
        let p = Particle { position: (0.5f32, 1.5, 2.5), velocity: (0.0f32, 0.0, 0.0) };
        let mut sim = new_sim(vec![p]);
        sim.initialize(&value, 1.0, 0.0, &recover);
        for _ in 0..3 {
            sim.step(&relax, &recover, &decompose, &mix, &advance4);
        }
        sim
    };
    let a = run();
    let b = run();
    for x in 0..4usize {
        for y in 0..4usize {
            for z in 0..4usize {
                let l = loc4(x, y, z);
                assert_eq!(
                    sim_bits(*a.density.get(l)),
                    sim_bits(*b.density.get(l))
                );
                let va = *a.velocity.get(l);
                let vb = *b.velocity.get(l);
                assert_eq!(sim_bits(va.0), sim_bits(vb.0));
                assert_eq!(sim_bits(va.1), sim_bits(vb.1));
                assert_eq!(sim_bits(va.2), sim_bits(vb.2));
            }
        }
    }
    assert_eq!(a.particles[0].position, b.particles[0].position);
    assert_eq!(a.particles[0].velocity, b.particles[0].velocity);
}

fn sim_bits(v: f32) -> u32 {
    v.to_bits()
}

#[test]
fn step_runs_the_full_pipeline() {
    // A uniform at-rest state is a fixed point of collide + stream: density
    // stays 1.0 and velocity zero after stepping.
    let mut sim = new_sim(vec![]);
    let value = |_a: InitArgs| -> Option<f32> { None };
    sim.initialize(&value, 1.0, 0.0, &recover);
    sim.step(&relax, &recover, &decompose, &mix, &advance4);
    for x in 0..4usize {
        for y in 0..4usize {
            for z in 0..4usize {
                let den = *sim.density.get(loc4(x, y, z));
                assert!((den - 1.0).abs() < 1e-5);
                let vel = *sim.velocity.get(loc4(x, y, z));
                assert!(vel.0.abs() < 1e-6 && vel.1.abs() < 1e-6 && vel.2.abs() < 1e-6);
            }
        }
    }
}

#[test]
fn collide_preserves_the_source_lattice() {
    // Collision writes a fresh lattice; the simulation's own distributions
    // are untouched until streaming.
    let mut sim = new_sim(vec![]);
    *sim.distributions.dist_mut(3).get_mut(loc4(0, 1, 0)) = 0.5;
    sim.calc_conditions(&recover);
    let before = *sim.distributions.dist(3).get(loc4(0, 1, 0));
    let collided = sim.collide(&relax);
    assert_eq!(*sim.distributions.dist(3).get(loc4(0, 1, 0)), before);
    // The collided lattice relaxes toward equilibrium and so differs.
    assert!(*collided.dist(3).get(loc4(0, 1, 0)) != before);
}
