//! Determinism of the engine: the step relations pin every stored value as a
//! function of the previous state and of what the arithmetic closures
//! return. So whenever those closures are deterministic functions of their
//! arguments' values — as any pure arithmetic is — identical constants and
//! identical inputs give identical states: the engine itself adds no hidden
//! randomness. Each lemma below says this for one stage, and the two at the
//! end compose them for whole `initialize` and `step` calls.

use vstd::prelude::*;

use crate::lbm::conservation::lemma_unflat;
use crate::math::Int3;
use crate::lbm::dims_ok;
use crate::lbm::iteration::spec_direction;
use crate::lbm::iteration::spec_weight_numerator;
use crate::lbm::spec_advected;
use crate::lbm::spec_collided;
use crate::lbm::spec_corner_seq;
use crate::lbm::spec_filled;
use crate::lbm::spec_init_args;
use crate::lbm::spec_packets_at;
use crate::lbm::spec_policy_cell;
use crate::lbm::spec_policy_value;
use crate::lbm::spec_recovered;
use crate::lbm::spec_recovered_cell;
use crate::lbm::spec_sampled;
use crate::lbm::spec_streamed;
use crate::lbm::Constants;
use crate::lbm::Field;
use crate::lbm::InitArgs;
use crate::lbm::Lattice;
use crate::lbm::Particle;
use crate::lbm::Simulation;

verus! {

/// Two well-formed fields that agree at every cell are equal as sequences.
pub proof fn lemma_field_ext<const X: usize, const Y: usize, const Z: usize, T>(
    f1: Field<X, Y, Z, T>,
    f2: Field<X, Y, Z, T>,
)
    requires
        f1.wf(),
        f2.wf(),
        dims_ok::<X, Y, Z>(),
        forall|x: int, y: int, z: int|
            0 <= x < X && 0 <= y < Y && 0 <= z < Z ==> #[trigger] f1.at(x, y, z) == f2.at(
                x,
                y,
                z,
            ),
    ensures
        f1@ == f2@,
{
    assert forall|i: int| 0 <= i < f1@.len() implies f1@[i] == f2@[i] by {
        lemma_unflat::<X, Y, Z>(i);
        let yz = (Y * Z) as int;
        let zz = Z as int;
        assert(f1.at(i / yz, (i % yz) / zz, (i % yz) % zz) == f2.at(
            i / yz,
            (i % yz) / zz,
            (i % yz) % zz,
        ));
    }
    assert(f1@ =~= f2@);
}

/// Two well-formed lattices that agree in every slot at every cell are equal
/// as sequences of sequences.
pub proof fn lemma_lattice_ext<const X: usize, const Y: usize, const Z: usize, T>(
    l1: Lattice<X, Y, Z, T>,
    l2: Lattice<X, Y, Z, T>,
)
    requires
        l1.wf(),
        l2.wf(),
        dims_ok::<X, Y, Z>(),
        forall|d: int, x: int, y: int, z: int|
            0 <= d < 19 && 0 <= x < X && 0 <= y < Y && 0 <= z < Z ==> #[trigger] l1.at(d, x, y, z)
                == l2.at(d, x, y, z),
    ensures
        l1@ == l2@,
{
    assert forall|d: int| 0 <= d < l1@.len() implies l1@[d] == l2@[d] by {
        assert forall|i: int| 0 <= i < l1@[d].len() implies l1@[d][i] == l2@[d][i] by {
            lemma_unflat::<X, Y, Z>(i);
            let yz = (Y * Z) as int;
            let zz = Z as int;
            assert(l1.at(d, i / yz, (i % yz) / zz, (i % yz) % zz) == l2.at(
                d,
                i / yz,
                (i % yz) / zz,
                (i % yz) % zz,
            ));
        }
        assert(l1@[d] =~= l2@[d]);
    }
    assert(l1@ =~= l2@);
}

/// Two lattices filled from the same deterministic policy with the same
/// defaults are identical.
pub proof fn lemma_filled_deterministic<
    const X: usize,
    const Y: usize,
    const Z: usize,
    T,
    F: Fn(InitArgs) -> Option<T>,
>(value: F, rest: T, empty: T, l1: Lattice<X, Y, Z, T>, l2: Lattice<X, Y, Z, T>)
    requires
        l1.wf(),
        l2.wf(),
        dims_ok::<X, Y, Z>(),
        spec_filled(value, rest, empty, l1),
        spec_filled(value, rest, empty, l2),
        forall|a: (InitArgs,), r1: Option<T>, r2: Option<T>|
            #[trigger] call_ensures(value, a, r1) && #[trigger] call_ensures(value, a, r2)
                ==> r1 == r2,
    ensures
        l1@ == l2@,
{
    assert forall|d: int, x: int, y: int, z: int|
        0 <= d < 19 && 0 <= x < X && 0 <= y < Y && 0 <= z < Z implies #[trigger] l1.at(d, x, y, z)
        == l2.at(d, x, y, z) by {
        assert(spec_policy_cell(value, rest, empty, d, x, y, z, l1.at(d, x, y, z)));
        assert(spec_policy_cell(value, rest, empty, d, x, y, z, l2.at(d, x, y, z)));
        let o1 = choose|o: Option<T>|
            call_ensures(value, (spec_init_args(d, x, y, z),), o) && l1.at(d, x, y, z)
                == spec_policy_value(o, spec_direction(d), rest, empty);
        let o2 = choose|o: Option<T>|
            call_ensures(value, (spec_init_args(d, x, y, z),), o) && l2.at(d, x, y, z)
                == spec_policy_value(o, spec_direction(d), rest, empty);
        assert(o1 == o2);
    }
    lemma_lattice_ext(l1, l2);
}

/// Two collision results of states that agree in their fields and constants,
/// under the same deterministic relaxation function, agree at every slot and
/// cell.
pub proof fn lemma_collided_deterministic<
    const X: usize,
    const Y: usize,
    const Z: usize,
    T,
    V,
    FC: Fn(T, T, V, Int3, u32, Constants<T>) -> T,
>(
    s1: Simulation<X, Y, Z, T, V>,
    s2: Simulation<X, Y, Z, T, V>,
    relax: FC,
    c1: Lattice<X, Y, Z, T>,
    c2: Lattice<X, Y, Z, T>,
)
    requires
        dims_ok::<X, Y, Z>(),
        spec_collided(s1, relax, c1),
        spec_collided(s2, relax, c2),
        s1.distributions@ == s2.distributions@,
        s1.density@ == s2.density@,
        s1.velocity@ == s2.velocity@,
        s1.constants == s2.constants,
        forall|a: (T, T, V, Int3, u32, Constants<T>), r1: T, r2: T|
            #[trigger] call_ensures(relax, a, r1) && #[trigger] call_ensures(relax, a, r2)
                ==> r1 == r2,
    ensures
        forall|d: int, x: int, y: int, z: int|
            0 <= d < 19 && 0 <= x < X && 0 <= y < Y && 0 <= z < Z ==> #[trigger] c1.at(d, x, y, z)
                == c2.at(d, x, y, z),
{
    assert forall|d: int, x: int, y: int, z: int|
        0 <= d < 19 && 0 <= x < X && 0 <= y < Y && 0 <= z < Z implies #[trigger] c1.at(d, x, y, z)
        == c2.at(d, x, y, z) by {
        let a = (
            s1.distributions.at(d, x, y, z),
            s1.density.at(x, y, z),
            s1.velocity.at(x, y, z),
            spec_direction(d),
            spec_weight_numerator(d) as u32,
            s1.constants,
        );
        assert(call_ensures(relax, a, c1.at(d, x, y, z)));
        assert(call_ensures(relax, a, c2.at(d, x, y, z)));
    }
}

/// Streaming is a function: two streaming results of lattices that agree at
/// every slot and cell agree everywhere too.
pub proof fn lemma_streamed_deterministic<const X: usize, const Y: usize, const Z: usize, T>(
    c1: Lattice<X, Y, Z, T>,
    c2: Lattice<X, Y, Z, T>,
    post1: Lattice<X, Y, Z, T>,
    post2: Lattice<X, Y, Z, T>,
)
    requires
        dims_ok::<X, Y, Z>(),
        post1.wf(),
        post2.wf(),
        spec_streamed(c1, post1),
        spec_streamed(c2, post2),
        forall|d: int, x: int, y: int, z: int|
            0 <= d < 19 && 0 <= x < X && 0 <= y < Y && 0 <= z < Z ==> #[trigger] c1.at(d, x, y, z)
                == c2.at(d, x, y, z),
    ensures
        post1@ == post2@,
{
    assert forall|d: int, x: int, y: int, z: int|
        0 <= d < 19 && 0 <= x < X && 0 <= y < Y && 0 <= z < Z implies #[trigger] post1.at(d, x, y, z)
        == post2.at(d, x, y, z) by {
        vstd::arithmetic::div_mod::lemma_mod_bound(x - spec_direction(d).x, X as int);
        vstd::arithmetic::div_mod::lemma_mod_bound(y - spec_direction(d).y, Y as int);
        vstd::arithmetic::div_mod::lemma_mod_bound(z - spec_direction(d).z, Z as int);
    }
    lemma_lattice_ext(post1, post2);
}

/// Two macroscopic recoveries over lattices with equal contents, under the
/// same recovery function that depends only on its argument's contents,
/// give identical density and velocity fields.
pub proof fn lemma_recovered_deterministic<
    const X: usize,
    const Y: usize,
    const Z: usize,
    T,
    V,
    FM: Fn(Vec<T>) -> (T, V),
>(
    l1: Lattice<X, Y, Z, T>,
    l2: Lattice<X, Y, Z, T>,
    recover: FM,
    den1: Field<X, Y, Z, T>,
    vel1: Field<X, Y, Z, V>,
    den2: Field<X, Y, Z, T>,
    vel2: Field<X, Y, Z, V>,
)
    requires
        dims_ok::<X, Y, Z>(),
        den1.wf(),
        vel1.wf(),
        den2.wf(),
        vel2.wf(),
        l1@ == l2@,
        spec_recovered(l1, recover, den1, vel1),
        spec_recovered(l2, recover, den2, vel2),
        forall|a1: (Vec<T>,), a2: (Vec<T>,), r1: (T, V), r2: (T, V)|
            a1.0@ == a2.0@ && #[trigger] call_ensures(recover, a1, r1) && #[trigger] call_ensures(
                recover,
                a2,
                r2,
            ) ==> r1 == r2,
    ensures
        den1@ == den2@,
        vel1@ == vel2@,
{
    assert forall|x: int, y: int, z: int|
        0 <= x < X && 0 <= y < Y && 0 <= z < Z implies #[trigger] den1.at(x, y, z) == den2.at(
        x,
        y,
        z,
    ) by {
        assert(spec_recovered_cell(recover, l1, x, y, z, den1.at(x, y, z), vel1.at(x, y, z)));
        assert(spec_recovered_cell(recover, l2, x, y, z, den2.at(x, y, z), vel2.at(x, y, z)));
        let (vals1, dv1) = choose|vals: Vec<T>, dv: (T, V)|
            vals@ == spec_packets_at(l1, x, y, z) && call_ensures(recover, (vals,), dv) && den1.at(
                x,
                y,
                z,
            ) == dv.0 && vel1.at(x, y, z) == dv.1;
        let (vals2, dv2) = choose|vals: Vec<T>, dv: (T, V)|
            vals@ == spec_packets_at(l2, x, y, z) && call_ensures(recover, (vals,), dv) && den2.at(
                x,
                y,
                z,
            ) == dv.0 && vel2.at(x, y, z) == dv.1;
        assert(spec_packets_at(l1, x, y, z) =~= spec_packets_at(l2, x, y, z));
        assert(dv1 == dv2);
    }
    assert forall|x: int, y: int, z: int|
        0 <= x < X && 0 <= y < Y && 0 <= z < Z implies #[trigger] vel1.at(x, y, z) == vel2.at(
        x,
        y,
        z,
    ) by {
        assert(spec_recovered_cell(recover, l1, x, y, z, den1.at(x, y, z), vel1.at(x, y, z)));
        assert(spec_recovered_cell(recover, l2, x, y, z, den2.at(x, y, z), vel2.at(x, y, z)));
        let (vals1, dv1) = choose|vals: Vec<T>, dv: (T, V)|
            vals@ == spec_packets_at(l1, x, y, z) && call_ensures(recover, (vals,), dv) && den1.at(
                x,
                y,
                z,
            ) == dv.0 && vel1.at(x, y, z) == dv.1;
        let (vals2, dv2) = choose|vals: Vec<T>, dv: (T, V)|
            vals@ == spec_packets_at(l2, x, y, z) && call_ensures(recover, (vals,), dv) && den2.at(
                x,
                y,
                z,
            ) == dv.0 && vel2.at(x, y, z) == dv.1;
        assert(spec_packets_at(l1, x, y, z) =~= spec_packets_at(l2, x, y, z));
        assert(dv1 == dv2);
    }
    lemma_field_ext(den1, den2);
    lemma_field_ext(vel1, vel2);
}

/// Sampling is deterministic: over velocity fields with equal contents, at
/// the same position, with a deterministic decomposition and a blend that
/// depends only on its arguments' contents, both samples are the same value.
pub proof fn lemma_sampled_deterministic<
    const X: usize,
    const Y: usize,
    const Z: usize,
    V,
    S,
    D: Fn(V) -> ((i32, S), (i32, S), (i32, S)),
    M: Fn((S, S, S), Vec<V>) -> V,
>(
    f1: Field<X, Y, Z, V>,
    f2: Field<X, Y, Z, V>,
    position: V,
    decompose: D,
    mix: M,
    r1: V,
    r2: V,
)
    requires
        f1@ == f2@,
        spec_sampled(f1, position, decompose, mix, r1),
        spec_sampled(f2, position, decompose, mix, r2),
        forall|a: (V,), r1: ((i32, S), (i32, S), (i32, S)), r2: ((i32, S), (i32, S), (i32, S))|
            #[trigger] call_ensures(decompose, a, r1) && #[trigger] call_ensures(decompose, a, r2)
                ==> r1 == r2,
        forall|a1: ((S, S, S), Vec<V>), a2: ((S, S, S), Vec<V>), r1: V, r2: V|
            a1.0 == a2.0 && a1.1@ == a2.1@ && #[trigger] call_ensures(mix, a1, r1)
                && #[trigger] call_ensures(mix, a2, r2) ==> r1 == r2,
    ensures
        r1 == r2,
{
    let (fl1, corners1) = choose|fl: ((i32, S), (i32, S), (i32, S)), corners: Vec<V>|
        {
            &&& call_ensures(decompose, (position,), fl)
            &&& corners@ == spec_corner_seq(f1, fl.0.0 as int, fl.1.0 as int, fl.2.0 as int)
            &&& call_ensures(mix, ((fl.0.1, fl.1.1, fl.2.1), corners), r1)
        };
    let (fl2, corners2) = choose|fl: ((i32, S), (i32, S), (i32, S)), corners: Vec<V>|
        {
            &&& call_ensures(decompose, (position,), fl)
            &&& corners@ == spec_corner_seq(f2, fl.0.0 as int, fl.1.0 as int, fl.2.0 as int)
            &&& call_ensures(mix, ((fl.0.1, fl.1.1, fl.2.1), corners), r2)
        };
    assert(fl1 == fl2);
    assert(spec_corner_seq(f1, fl1.0.0 as int, fl1.1.0 as int, fl1.2.0 as int)
        =~= spec_corner_seq(f2, fl2.0.0 as int, fl2.1.0 as int, fl2.2.0 as int));
    assert(corners1@ == corners2@);
}

/// Particle advection is deterministic under deterministic closures and
/// velocity fields with equal contents.
pub proof fn lemma_advected_deterministic<
    const X: usize,
    const Y: usize,
    const Z: usize,
    T,
    V,
    S,
    D: Fn(V) -> ((i32, S), (i32, S), (i32, S)),
    M: Fn((S, S, S), Vec<V>) -> V,
    A: Fn(Particle<V>, V, Constants<T>) -> Particle<V>,
>(
    vel1: Field<X, Y, Z, V>,
    vel2: Field<X, Y, Z, V>,
    cs: Constants<T>,
    p: Particle<V>,
    decompose: D,
    mix: M,
    advance: A,
    q1: Particle<V>,
    q2: Particle<V>,
)
    requires
        vel1@ == vel2@,
        spec_advected(vel1, cs, p, decompose, mix, advance, q1),
        spec_advected(vel2, cs, p, decompose, mix, advance, q2),
        forall|a: (V,), r1: ((i32, S), (i32, S), (i32, S)), r2: ((i32, S), (i32, S), (i32, S))|
            #[trigger] call_ensures(decompose, a, r1) && #[trigger] call_ensures(decompose, a, r2)
                ==> r1 == r2,
        forall|a1: ((S, S, S), Vec<V>), a2: ((S, S, S), Vec<V>), r1: V, r2: V|
            a1.0 == a2.0 && a1.1@ == a2.1@ && #[trigger] call_ensures(mix, a1, r1)
                && #[trigger] call_ensures(mix, a2, r2) ==> r1 == r2,
        forall|a: (Particle<V>, V, Constants<T>), r1: Particle<V>, r2: Particle<V>|
            #[trigger] call_ensures(advance, a, r1) && #[trigger] call_ensures(advance, a, r2)
                ==> r1 == r2,
    ensures
        q1 == q2,
{
    let flow1 = choose|flow: V|
        {
            &&& spec_sampled(vel1, p.position, decompose, mix, flow)
            &&& call_ensures(advance, (p, flow, cs), q1)
        };
    let flow2 = choose|flow: V|
        {
            &&& spec_sampled(vel2, p.position, decompose, mix, flow)
            &&& call_ensures(advance, (p, flow, cs), q2)
        };
    lemma_sampled_deterministic(vel1, vel2, p.position, decompose, mix, flow1, flow2);
    assert(call_ensures(advance, (p, flow1, cs), q1));
    assert(call_ensures(advance, (p, flow1, cs), q2));
}

/// Initialization is deterministic: two simulations initialized with the
/// same deterministic policy, the same defaults, and the same content-only
/// recovery function end with identical distributions and identical density
/// and velocity fields — there is no hidden randomness in the engine.
pub proof fn lemma_initialize_deterministic<
    const X: usize,
    const Y: usize,
    const Z: usize,
    T,
    V,
    F: Fn(InitArgs) -> Option<T>,
    FM: Fn(Vec<T>) -> (T, V),
>(
    s1: Simulation<X, Y, Z, T, V>,
    s2: Simulation<X, Y, Z, T, V>,
    value: F,
    rest: T,
    empty: T,
    recover: FM,
)
    requires
        dims_ok::<X, Y, Z>(),
        s1.wf(),
        s2.wf(),
        spec_filled(value, rest, empty, s1.distributions),
        spec_filled(value, rest, empty, s2.distributions),
        spec_recovered(s1.distributions, recover, s1.density, s1.velocity),
        spec_recovered(s2.distributions, recover, s2.density, s2.velocity),
        forall|a: (InitArgs,), r1: Option<T>, r2: Option<T>|
            #[trigger] call_ensures(value, a, r1) && #[trigger] call_ensures(value, a, r2)
                ==> r1 == r2,
        forall|a1: (Vec<T>,), a2: (Vec<T>,), r1: (T, V), r2: (T, V)|
            a1.0@ == a2.0@ && #[trigger] call_ensures(recover, a1, r1) && #[trigger] call_ensures(
                recover,
                a2,
                r2,
            ) ==> r1 == r2,
    ensures
        s1.distributions@ == s2.distributions@,
        s1.density@ == s2.density@,
        s1.velocity@ == s2.velocity@,
{
    lemma_filled_deterministic(value, rest, empty, s1.distributions, s2.distributions);
    lemma_recovered_deterministic(
        s1.distributions,
        s2.distributions,
        recover,
        s1.density,
        s1.velocity,
        s2.density,
        s2.velocity,
    );
}

/// One whole step is deterministic: from states with identical contents and
/// constants, stepping with deterministic arithmetic closures gives states
/// with identical contents again — repeated runs of the engine agree
/// value for value.
pub proof fn lemma_step_deterministic<
    const X: usize,
    const Y: usize,
    const Z: usize,
    T,
    V,
    S,
    FC: Fn(T, T, V, Int3, u32, Constants<T>) -> T,
    FM: Fn(Vec<T>) -> (T, V),
    D: Fn(V) -> ((i32, S), (i32, S), (i32, S)),
    M: Fn((S, S, S), Vec<V>) -> V,
    A: Fn(Particle<V>, V, Constants<T>) -> Particle<V>,
>(
    pre1: Simulation<X, Y, Z, T, V>,
    post1: Simulation<X, Y, Z, T, V>,
    c1: Lattice<X, Y, Z, T>,
    pre2: Simulation<X, Y, Z, T, V>,
    post2: Simulation<X, Y, Z, T, V>,
    c2: Lattice<X, Y, Z, T>,
    relax: FC,
    recover: FM,
    decompose: D,
    mix: M,
    advance: A,
)
    requires
        dims_ok::<X, Y, Z>(),
        post1.wf(),
        post2.wf(),
        pre1.distributions@ == pre2.distributions@,
        pre1.density@ == pre2.density@,
        pre1.velocity@ == pre2.velocity@,
        pre1.constants == pre2.constants,
        pre1.particles@ == pre2.particles@,
        spec_collided(pre1, relax, c1),
        spec_collided(pre2, relax, c2),
        spec_streamed(c1, post1.distributions),
        spec_streamed(c2, post2.distributions),
        spec_recovered(post1.distributions, recover, post1.density, post1.velocity),
        spec_recovered(post2.distributions, recover, post2.density, post2.velocity),
        post1.particles@.len() == pre1.particles@.len(),
        post2.particles@.len() == pre2.particles@.len(),
        forall|i: int|
            0 <= i < pre1.particles@.len() ==> spec_advected(
                post1.velocity,
                pre1.constants,
                pre1.particles@[i],
                decompose,
                mix,
                advance,
                #[trigger] post1.particles@[i],
            ),
        forall|i: int|
            0 <= i < pre2.particles@.len() ==> spec_advected(
                post2.velocity,
                pre2.constants,
                pre2.particles@[i],
                decompose,
                mix,
                advance,
                #[trigger] post2.particles@[i],
            ),
        forall|a: (T, T, V, Int3, u32, Constants<T>), r1: T, r2: T|
            #[trigger] call_ensures(relax, a, r1) && #[trigger] call_ensures(relax, a, r2)
                ==> r1 == r2,
        forall|a1: (Vec<T>,), a2: (Vec<T>,), r1: (T, V), r2: (T, V)|
            a1.0@ == a2.0@ && #[trigger] call_ensures(recover, a1, r1) && #[trigger] call_ensures(
                recover,
                a2,
                r2,
            ) ==> r1 == r2,
        forall|a: (V,), r1: ((i32, S), (i32, S), (i32, S)), r2: ((i32, S), (i32, S), (i32, S))|
            #[trigger] call_ensures(decompose, a, r1) && #[trigger] call_ensures(decompose, a, r2)
                ==> r1 == r2,
        forall|a1: ((S, S, S), Vec<V>), a2: ((S, S, S), Vec<V>), r1: V, r2: V|
            a1.0 == a2.0 && a1.1@ == a2.1@ && #[trigger] call_ensures(mix, a1, r1)
                && #[trigger] call_ensures(mix, a2, r2) ==> r1 == r2,
        forall|a: (Particle<V>, V, Constants<T>), r1: Particle<V>, r2: Particle<V>|
            #[trigger] call_ensures(advance, a, r1) && #[trigger] call_ensures(advance, a, r2)
                ==> r1 == r2,
    ensures
        post1.distributions@ == post2.distributions@,
        post1.density@ == post2.density@,
        post1.velocity@ == post2.velocity@,
        post1.particles@ == post2.particles@,
{
    lemma_collided_deterministic(pre1, pre2, relax, c1, c2);
    lemma_streamed_deterministic(c1, c2, post1.distributions, post2.distributions);
    lemma_recovered_deterministic(
        post1.distributions,
        post2.distributions,
        recover,
        post1.density,
        post1.velocity,
        post2.density,
        post2.velocity,
    );
    assert forall|i: int|
        0 <= i < post1.particles@.len() implies #[trigger] post1.particles@[i]
        == post2.particles@[i] by {
        lemma_advected_deterministic(
            post1.velocity,
            post2.velocity,
            pre1.constants,
            pre1.particles@[i],
            decompose,
            mix,
            advance,
            post1.particles@[i],
            post2.particles@[i],
        );
    }
    assert(post1.particles@ =~= post2.particles@);
}

} // verus!
