//! Conservation laws of the streaming step: streaming only relocates packet
//! values, so in every direction slot the multiset of values over the whole
//! grid — and with it any cumulative quantity such as total mass — is exactly
//! preserved, and every cell's source is the cell one direction step behind,
//! wrapping at the grid's edges.

use vstd::prelude::*;

use crate::lbm::dims_ok;
use crate::lbm::flat;
use crate::lbm::lemma_flat_bound;
use crate::lbm::lemma_flat_injective;
use crate::lbm::spec_streamed;
use crate::lbm::Lattice;
use crate::lbm::iteration::lemma_direction_classes;
use crate::lbm::iteration::spec_direction;

verus! {

/// A sequence that reads another through an injective, total index map holds
/// the same multiset of values.
pub proof fn lemma_permuted_multiset<A>(s: Seq<A>, t: Seq<A>, sigma: Seq<int>)
    requires
        t.len() == s.len(),
        sigma.len() == s.len(),
        forall|i: int| 0 <= i < s.len() ==> 0 <= #[trigger] sigma[i] < s.len(),
        forall|i: int, j: int| 0 <= i < j < s.len() ==> sigma[i] != sigma[j],
        forall|i: int| 0 <= i < s.len() ==> #[trigger] t[i] == s[sigma[i]],
    ensures
        t.to_multiset() == s.to_multiset(),
    decreases s.len(),
{
    broadcast use vstd::seq_lib::group_to_multiset_ensures;

    if s.len() == 0 {
        assert(t =~= s);
    } else {
        let n = s.len() as int;
        let p = sigma[n - 1];
        let s2 = s.remove(p);
        let t2 = t.drop_last();
        let sigma2 = Seq::new(
            (n - 1) as nat,
            |i: int|
                if sigma[i] < p {
                    sigma[i]
                } else {
                    sigma[i] - 1
                },
        );
        assert forall|i: int| 0 <= i < s2.len() implies 0 <= #[trigger] sigma2[i] < s2.len() by {
            assert(sigma[i] != sigma[n - 1]);
        }
        assert forall|i: int, j: int| 0 <= i < j < s2.len() implies sigma2[i] != sigma2[j] by {
            assert(sigma[i] != sigma[n - 1]);
            assert(sigma[j] != sigma[n - 1]);
            assert(sigma[i] != sigma[j]);
        }
        assert forall|i: int| 0 <= i < s2.len() implies #[trigger] t2[i] == s2[sigma2[i]] by {
            assert(sigma[i] != sigma[n - 1]);
            assert(t[i] == s[sigma[i]]);
            assert(s2[sigma2[i]] == s[sigma[i]]);
        }
        lemma_permuted_multiset(s2, t2, sigma2);
        assert(t =~= t2.push(t[n - 1]));
        assert(t.to_multiset() == t2.to_multiset().insert(t[n - 1]));
        assert(s2.to_multiset() == s.to_multiset().remove(s[p]));
        assert(t[n - 1] == s[p]);
        assert(s.contains(s[p]));
        assert(s.to_multiset().count(s[p]) > 0);
        assert(s.to_multiset().remove(s[p]).insert(s[p]) =~= s.to_multiset());
    }
}

/// The periodic wrap of a coordinate one direction step away, written out:
/// it leaves the coordinate in place when no edge is crossed, and jumps to
/// the opposite edge when one is.
pub proof fn lemma_wrap_small(a: int, dx: int, n: int)
    requires
        0 <= a < n,
        -1 <= dx <= 1,
        1 <= n,
    ensures
        (a - dx) % n == (if a - dx < 0 {
            a - dx + n
        } else if a - dx >= n {
            a - dx - n
        } else {
            a - dx
        }),
{
    let w = a - dx;
    if w < 0 {
        vstd::arithmetic::div_mod::lemma_mod_add_multiples_vanish(w, n);
        vstd::arithmetic::div_mod::lemma_small_mod((w + n) as nat, n as nat);
    } else if w >= n {
        vstd::arithmetic::div_mod::lemma_mod_add_multiples_vanish(w - n, n);
        vstd::arithmetic::div_mod::lemma_small_mod((w - n) as nat, n as nat);
    } else {
        vstd::arithmetic::div_mod::lemma_small_mod(w as nat, n as nat);
    }
}

/// Wrapping one step is injective on the coordinate range.
proof fn lemma_wrap_injective(a: int, b: int, dx: int, n: int)
    requires
        0 <= a < n,
        0 <= b < n,
        -1 <= dx <= 1,
        1 <= n,
        (a - dx) % n == (b - dx) % n,
    ensures
        a == b,
{
    lemma_wrap_small(a, dx, n);
    lemma_wrap_small(b, dx, n);
}

/// Every flat position decomposes into valid cell coordinates that flatten
/// back to it.
pub(crate) proof fn lemma_unflat<const X: usize, const Y: usize, const Z: usize>(i: int)
    requires
        dims_ok::<X, Y, Z>(),
        0 <= i < X * Y * Z,
    ensures
        0 <= i / ((Y * Z) as int) < X,
        0 <= (i % ((Y * Z) as int)) / (Z as int) < Y,
        0 <= (i % ((Y * Z) as int)) % (Z as int) < Z,
        flat::<Y, Z>(
            i / ((Y * Z) as int),
            (i % ((Y * Z) as int)) / (Z as int),
            (i % ((Y * Z) as int)) % (Z as int),
        ) == i,
{
    let yz = (Y * Z) as int;
    let zz = Z as int;
    assert(1 <= Y * Z) by (nonlinear_arith)
        requires
            1 <= Y && 1 <= Z,
    ;
    vstd::arithmetic::div_mod::lemma_fundamental_div_mod(i, yz);
    vstd::arithmetic::div_mod::lemma_mod_bound(i, yz);
    let q = i / yz;
    let r = i % yz;
    vstd::arithmetic::div_mod::lemma_fundamental_div_mod(r, zz);
    vstd::arithmetic::div_mod::lemma_mod_bound(r, zz);
    assert(0 <= q < X && 0 <= r / zz < Y && q * yz + (r / zz) * zz + r % zz == i)
        by (nonlinear_arith)
        requires
            0 <= i < X * Y * Z,
            yz == Y * Z,
            zz == Z as int,
            1 <= X,
            1 <= Y,
            1 <= Z,
            i == yz * q + r,
            0 <= r < yz,
            r == zz * (r / zz) + r % zz,
            0 <= r % zz < zz,
    ;
}

/// The index map of the streaming step for one direction slot: the flat
/// position of the wrapped source cell of each flat target position.
pub open spec fn spec_stream_source<const X: usize, const Y: usize, const Z: usize>(
    d: int,
    i: int,
) -> int {
    let yz = (Y * Z) as int;
    let zz = Z as int;
    flat::<Y, Z>(
        (i / yz - spec_direction(d).x) % (X as int),
        ((i % yz) / zz - spec_direction(d).y) % (Y as int),
        ((i % yz) % zz - spec_direction(d).z) % (Z as int),
    )
}

/// Mass is neither created nor destroyed by streaming alone: in every
/// direction slot, the multiset of packet values over the whole grid is the
/// same before and after one streaming step. Any commutative accumulation of
/// the values — their sum in particular — is therefore unchanged by `stream`
/// in isolation.
pub proof fn lemma_stream_preserves_mass<const X: usize, const Y: usize, const Z: usize, T>(
    pre: Lattice<X, Y, Z, T>,
    post: Lattice<X, Y, Z, T>,
    d: int,
)
    requires
        pre.wf(),
        post.wf(),
        dims_ok::<X, Y, Z>(),
        spec_streamed(pre, post),
        0 <= d < 19,
    ensures
        post@[d].to_multiset() == pre@[d].to_multiset(),
{
    let n = (X * Y * Z) as int;
    let yz = (Y * Z) as int;
    let zz = Z as int;
    let s = pre@[d];
    let t = post@[d];
    let dir = spec_direction(d);
    let sigma = Seq::new(n as nat, |i: int| spec_stream_source::<X, Y, Z>(d, i));
    lemma_direction_classes(d);
    assert forall|i: int| 0 <= i < n implies 0 <= #[trigger] sigma[i] < n by {
        lemma_unflat::<X, Y, Z>(i);
        vstd::arithmetic::div_mod::lemma_mod_bound(i / yz - dir.x, X as int);
        vstd::arithmetic::div_mod::lemma_mod_bound((i % yz) / zz - dir.y, Y as int);
        vstd::arithmetic::div_mod::lemma_mod_bound((i % yz) % zz - dir.z, Z as int);
        lemma_flat_bound::<X, Y, Z>(
            (i / yz - dir.x) % (X as int),
            ((i % yz) / zz - dir.y) % (Y as int),
            ((i % yz) % zz - dir.z) % (Z as int),
        );
    }
    assert forall|i: int, j: int| 0 <= i < j < n implies sigma[i] != sigma[j] by {
        lemma_unflat::<X, Y, Z>(i);
        lemma_unflat::<X, Y, Z>(j);
        vstd::arithmetic::div_mod::lemma_mod_bound(i / yz - dir.x, X as int);
        vstd::arithmetic::div_mod::lemma_mod_bound((i % yz) / zz - dir.y, Y as int);
        vstd::arithmetic::div_mod::lemma_mod_bound((i % yz) % zz - dir.z, Z as int);
        vstd::arithmetic::div_mod::lemma_mod_bound(j / yz - dir.x, X as int);
        vstd::arithmetic::div_mod::lemma_mod_bound((j % yz) / zz - dir.y, Y as int);
        vstd::arithmetic::div_mod::lemma_mod_bound((j % yz) % zz - dir.z, Z as int);
        if sigma[i] == sigma[j] {
            lemma_flat_injective::<Y, Z>(
                (i / yz - dir.x) % (X as int),
                ((i % yz) / zz - dir.y) % (Y as int),
                ((i % yz) % zz - dir.z) % (Z as int),
                (j / yz - dir.x) % (X as int),
                ((j % yz) / zz - dir.y) % (Y as int),
                ((j % yz) % zz - dir.z) % (Z as int),
            );
            lemma_wrap_injective(i / yz, j / yz, dir.x as int, X as int);
            lemma_wrap_injective((i % yz) / zz, (j % yz) / zz, dir.y as int, Y as int);
            lemma_wrap_injective((i % yz) % zz, (j % yz) % zz, dir.z as int, Z as int);
            lemma_flat_injective::<Y, Z>(
                i / yz,
                (i % yz) / zz,
                (i % yz) % zz,
                j / yz,
                (j % yz) / zz,
                (j % yz) % zz,
            );
        }
    }
    assert forall|i: int| 0 <= i < n implies #[trigger] t[i] == s[sigma[i]] by {
        lemma_unflat::<X, Y, Z>(i);
        let x = i / yz;
        let y = (i % yz) / zz;
        let z = (i % yz) % zz;
        assert(post.at(d, x, y, z) == pre.at(
            d,
            (x - dir.x) % (X as int),
            (y - dir.y) % (Y as int),
            (z - dir.z) % (Z as int),
        ));
        assert(t[i] == post.at(d, x, y, z));
    }
    lemma_permuted_multiset(s, t, sigma);
}

/// The streaming source of every cell, written out without modulus: each
/// population came from the cell one step behind along its own direction,
/// and where that step crosses the grid's edge it wraps to the opposite
/// edge. In particular, a population at the highest cell of an axis, moving
/// up that axis, lands at coordinate zero of that axis.
pub proof fn lemma_stream_sources<const X: usize, const Y: usize, const Z: usize, T>(
    pre: Lattice<X, Y, Z, T>,
    post: Lattice<X, Y, Z, T>,
    d: int,
    x: int,
    y: int,
    z: int,
)
    requires
        dims_ok::<X, Y, Z>(),
        spec_streamed(pre, post),
        0 <= d < 19,
        0 <= x < X,
        0 <= y < Y,
        0 <= z < Z,
    ensures
        post.at(d, x, y, z) == pre.at(
            d,
            ({
                let sx = x - spec_direction(d).x;
                if sx < 0 {
                    sx + X
                } else if sx >= X {
                    sx - X
                } else {
                    sx
                }
            }),
            ({
                let sy = y - spec_direction(d).y;
                if sy < 0 {
                    sy + Y
                } else if sy >= Y {
                    sy - Y
                } else {
                    sy
                }
            }),
            ({
                let sz = z - spec_direction(d).z;
                if sz < 0 {
                    sz + Z
                } else if sz >= Z {
                    sz - Z
                } else {
                    sz
                }
            }),
        ),
{
    lemma_direction_classes(d);
    lemma_wrap_small(x, spec_direction(d).x as int, X as int);
    lemma_wrap_small(y, spec_direction(d).y as int, Y as int);
    lemma_wrap_small(z, spec_direction(d).z as int, Z as int);
}

} // verus!
