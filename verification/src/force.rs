//! The force simulators: random, circular, Force-Atlas2 and
//! Fruchterman-Reingold layouts.
//!
//! The two iterative simulators share one pairwise repulsion loop,
//! one edge attraction loop, a gravity pass and one displacement
//! application phase; they differ only in the magnitudes they feed
//! in.  Each phase is pinned to a spec-level fold of the same
//! arithmetic, so both simulators' results are exact functions
//! (`atlas_run`, `fr_run`) of the starting positions, the edges and
//! the parameters.  Every contract keeps the canvas invariant
//! (positions in `[0, COORD_MAX]^2`) and leaves the edge list
//! untouched.

use vstd::prelude::*;
use crate::fixed::{
    COORD_MAX, DISP_LIMIT, FACTOR_LIMIT, PARAM_LIMIT, SCALE, abs_i64, abs_spec, clamp_canvas,
    clamped, disp_add, is_isqrt, isqrt_u128, mul3_div, sqrt_floor, vec_len,
};
use crate::graph::{Edge, Graph, Vertex, in_canvas, lemma_endpoints_in_range};
use crate::trig::cos_sin_turn;
use crate::rng::random_coord;

verus! {

/// Displacement accumulators stay within the saturation range.
pub open spec fn disp_ok(v: Seq<i64>) -> bool {
    forall|i: int| 0 <= i < v.len() ==> -DISP_LIMIT <= #[trigger] v[i] <= DISP_LIMIT
}

/// The rounded-down distance of two positions.
pub open spec fn pair_distance(a: Vertex, b: Vertex) -> nat {
    sqrt_floor((((a.x - b.x) * (a.x - b.x)) + ((a.y - b.y) * (a.y - b.y))) as nat)
}

/// A magnitude carrying the sign of `positive`.
pub open spec fn signed(mag: int, positive: bool) -> int {
    if positive {
        mag
    } else {
        -mag
    }
}

/// The displacement-range clamp.
pub open spec fn disp_clamped(v: int) -> int {
    clamped(v, -(DISP_LIMIT as int), DISP_LIMIT as int)
}

/// The canvas clamp.
pub open spec fn canvas_clamped(v: int) -> int {
    clamped(v, 0, COORD_MAX as int)
}

/// A fresh all-zero displacement buffer.
fn zero_disp(n: usize) -> (v: Vec<i64>)
    ensures
        v@.len() == n,
        forall|a: int| 0 <= a < n ==> #[trigger] v@[a] == 0,
        disp_ok(v@),
{
    let mut v: Vec<i64> = Vec::new();
    while v.len() < n
        invariant
            v@.len() <= n,
            forall|a: int| 0 <= a < v@.len() ==> #[trigger] v@[a] == 0,
        decreases n - v@.len(),
    {
        v.push(0);
    }
    v
}

/// The delta and rounded-down distance of two canvas positions.
pub(crate) fn deltas(a: Vertex, b: Vertex) -> (r: (i64, i64, u64))
    requires
        in_canvas(a),
        in_canvas(b),
    ensures
        r.0 == a.x - b.x,
        r.1 == a.y - b.y,
        r.2 == pair_distance(a, b),
        r.2 <= 141_421_356,
        abs_spec(r.0 as int) <= r.2,
        abs_spec(r.1 as int) <= r.2,
        r.2 == 0 ==> r.0 == 0 && r.1 == 0,
        r.2 > 0 ==> (r.2 as int) * (r.2 as int) > 0,
{
    let ddx = a.x - b.x;
    let ddy = a.y - b.y;
    let d = vec_len(ddx, ddy);
    proof {
        assert(d <= 141_421_356 && (d > 0 ==> (d as int) * (d as int) > 0)) by (nonlinear_arith)
            requires
                is_isqrt((ddx as int) * (ddx as int) + (ddy as int) * (ddy as int), d as int),
                -COORD_MAX <= ddx <= COORD_MAX,
                -COORD_MAX <= ddy <= COORD_MAX,
                COORD_MAX == 100_000_000,
        ;
    }
    (ddx, ddy, d)
}

/// Add `mag` into accumulator entry `i` with the sign of `positive`.
fn push_signed(acc: &mut Vec<i64>, i: usize, mag: u128, positive: bool)
    requires
        i < old(acc)@.len(),
        disp_ok(old(acc)@),
        mag <= 0x100_0000_0000_0000_0000_0000_0000_0000u128,
    ensures
        final(acc)@ == old(acc)@.update(
            i as int,
            disp_clamped(old(acc)@[i as int] + signed(mag as int, positive)) as i64,
        ),
        final(acc)@.len() == old(acc)@.len(),
        disp_ok(final(acc)@),
{
    let c: i128 = if positive {
        mag as i128
    } else {
        -(mag as i128)
    };
    let cur = acc[i];
    let next = disp_add(cur, c);
    acc.set(i, next);
}

/// One repulsion contribution folded into an accumulator pair: for a
/// distinct, non-coincident pair the displacement grows by
/// `delta * num_a * num_b / d^2` along each axis, saturating.
pub open spec fn repulse_step(
    vs: Seq<Vertex>,
    i: int,
    j: int,
    na: int,
    nb: int,
    acc: (i64, i64),
) -> (i64, i64) {
    if i == j {
        acc
    } else {
        let ddx = vs[i].x - vs[j].x;
        let ddy = vs[i].y - vs[j].y;
        let d = pair_distance(vs[i], vs[j]) as int;
        if d == 0 {
            acc
        } else {
            let mx = abs_spec(ddx) * na * nb / (d * d);
            let my = abs_spec(ddy) * na * nb / (d * d);
            (
                disp_clamped(acc.0 + signed(mx, ddx >= 0)) as i64,
                disp_clamped(acc.1 + signed(my, ddy >= 0)) as i64,
            )
        }
    }
}

/// The repulsion vertex `i` accumulates from the first `j` vertices.
pub open spec fn repulse_row(vs: Seq<Vertex>, i: int, j: nat, na: int, nb: int) -> (i64, i64)
    decreases j,
{
    if j == 0 {
        (0i64, 0i64)
    } else {
        repulse_step(vs, i, j - 1, na, nb, repulse_row(vs, i, (j - 1) as nat, na, nb))
    }
}

/// Accumulate the pairwise repulsion `delta * num_a * num_b / d^2`
/// for every ordered pair of distinct vertices, skipping coincident
/// pairs.
fn accumulate_repulsion(g: &Graph, dx: &mut Vec<i64>, dy: &mut Vec<i64>, num_a: u64, num_b: u64)
    requires
        g.wf(),
        old(dx)@.len() == g.vertices@.len(),
        old(dy)@.len() == g.vertices@.len(),
        forall|a: int| 0 <= a < old(dx)@.len() ==> #[trigger] old(dx)@[a] == 0,
        forall|a: int| 0 <= a < old(dy)@.len() ==> #[trigger] old(dy)@[a] == 0,
        num_a <= FACTOR_LIMIT,
        num_b <= FACTOR_LIMIT,
    ensures
        final(dx)@.len() == g.vertices@.len(),
        final(dy)@.len() == g.vertices@.len(),
        disp_ok(final(dx)@),
        disp_ok(final(dy)@),
        forall|a: int|
            0 <= a < g.vertices@.len() ==> #[trigger] final(dx)@[a] == repulse_row(
                g.vertices@,
                a,
                g.vertices@.len(),
                num_a as int,
                num_b as int,
            ).0,
        forall|a: int|
            0 <= a < g.vertices@.len() ==> #[trigger] final(dy)@[a] == repulse_row(
                g.vertices@,
                a,
                g.vertices@.len(),
                num_a as int,
                num_b as int,
            ).1,
{
    let n = g.vertices.len();
    let ghost vsq = g.vertices@;
    let ghost na = num_a as int;
    let ghost nb = num_b as int;
    let mut i: usize = 0;
    while i < n
        invariant
            i <= n,
            n == g.vertices@.len(),
            vsq == g.vertices@,
            na == num_a as int,
            nb == num_b as int,
            g.wf(),
            dx@.len() == n,
            dy@.len() == n,
            disp_ok(dx@),
            disp_ok(dy@),
            num_a <= FACTOR_LIMIT,
            num_b <= FACTOR_LIMIT,
            forall|a: int|
                0 <= a < i ==> #[trigger] dx@[a] == repulse_row(vsq, a, n as nat, na, nb).0,
            forall|a: int|
                0 <= a < i ==> #[trigger] dy@[a] == repulse_row(vsq, a, n as nat, na, nb).1,
            forall|a: int| i <= a < n ==> #[trigger] dx@[a] == 0,
            forall|a: int| i <= a < n ==> #[trigger] dy@[a] == 0,
        decreases n - i,
    {
        let mut j: usize = 0;
        proof {
            assert(dx@[i as int] == repulse_row(vsq, i as int, 0, na, nb).0);
        }
        while j < n
            invariant
                i < n,
                j <= n,
                n == g.vertices@.len(),
                vsq == g.vertices@,
                na == num_a as int,
                nb == num_b as int,
                g.wf(),
                dx@.len() == n,
                dy@.len() == n,
                disp_ok(dx@),
                disp_ok(dy@),
                num_a <= FACTOR_LIMIT,
                num_b <= FACTOR_LIMIT,
                forall|a: int|
                    0 <= a < i ==> #[trigger] dx@[a] == repulse_row(vsq, a, n as nat, na, nb).0,
                forall|a: int|
                    0 <= a < i ==> #[trigger] dy@[a] == repulse_row(vsq, a, n as nat, na, nb).1,
                forall|a: int| i < a < n ==> #[trigger] dx@[a] == 0,
                forall|a: int| i < a < n ==> #[trigger] dy@[a] == 0,
                dx@[i as int] == repulse_row(vsq, i as int, j as nat, na, nb).0,
                dy@[i as int] == repulse_row(vsq, i as int, j as nat, na, nb).1,
            decreases n - j,
        {
            let ghost acc = (dx@[i as int], dy@[i as int]);
            if i != j {
                let vi = g.vertices[i];
                let vj = g.vertices[j];
                let (ddx, ddy, d) = deltas(vi, vj);
                if d > 0 {
                    proof {
                        assert((d as int) * (d as int) <= 141_421_356 * 141_421_356)
                            by (nonlinear_arith)
                            requires
                                0 <= d <= 141_421_356,
                        ;
                    }
                    let e2 = (d as u128) * (d as u128);
                    let mx = mul3_div(abs_i64(ddx), num_a, num_b, e2);
                    let my = mul3_div(abs_i64(ddy), num_a, num_b, e2);
                    push_signed(dx, i, mx, ddx >= 0);
                    push_signed(dy, i, my, ddy >= 0);
                }
            }
            proof {
                assert(repulse_row(vsq, i as int, (j + 1) as nat, na, nb) == repulse_step(
                    vsq,
                    i as int,
                    j as int,
                    na,
                    nb,
                    acc,
                ));
                assert(dx@[i as int] == repulse_step(vsq, i as int, j as int, na, nb, acc).0);
                assert(dy@[i as int] == repulse_step(vsq, i as int, j as int, na, nb, acc).1);
            }
            j = j + 1;
        }
        i = i + 1;
    }
}

/// One edge's attraction folded into the accumulator state: the
/// source is pulled toward the target and the target back by
/// `delta * d / denom` along each axis, saturating; coincident
/// endpoints (self-loops included) contribute nothing.
pub open spec fn attract_step(
    vs: Seq<Vertex>,
    e: Edge,
    denom: int,
    st: (Seq<i64>, Seq<i64>),
) -> (Seq<i64>, Seq<i64>) {
    let src = e.source as int;
    let tgt = e.target as int;
    let ddx = vs[src].x - vs[tgt].x;
    let ddy = vs[src].y - vs[tgt].y;
    let d = pair_distance(vs[src], vs[tgt]) as int;
    if d == 0 {
        st
    } else {
        let mx = abs_spec(ddx) * d / denom;
        let my = abs_spec(ddy) * d / denom;
        let x1 = st.0.update(src, disp_clamped(st.0[src] + signed(mx, ddx < 0)) as i64);
        let y1 = st.1.update(src, disp_clamped(st.1[src] + signed(my, ddy < 0)) as i64);
        let x2 = x1.update(tgt, disp_clamped(x1[tgt] + signed(mx, ddx >= 0)) as i64);
        let y2 = y1.update(tgt, disp_clamped(y1[tgt] + signed(my, ddy >= 0)) as i64);
        (x2, y2)
    }
}

/// The attraction of the first `k` edges, folded over the state.
pub open spec fn attract_fold(
    vs: Seq<Vertex>,
    es: Seq<Edge>,
    k: nat,
    denom: int,
    st: (Seq<i64>, Seq<i64>),
) -> (Seq<i64>, Seq<i64>)
    decreases k,
{
    if k == 0 {
        st
    } else {
        attract_step(vs, es[k - 1], denom, attract_fold(vs, es, (k - 1) as nat, denom, st))
    }
}

/// Accumulate the edge attraction `delta * d / denom` along every
/// edge, pulling the source toward the target and the target toward
/// the source; coincident endpoints and self-loops contribute
/// nothing.
fn accumulate_attraction(g: &Graph, dx: &mut Vec<i64>, dy: &mut Vec<i64>, denom: u64)
    requires
        g.wf(),
        old(dx)@.len() == g.vertices@.len(),
        old(dy)@.len() == g.vertices@.len(),
        disp_ok(old(dx)@),
        disp_ok(old(dy)@),
        denom >= 1,
    ensures
        final(dx)@.len() == g.vertices@.len(),
        final(dy)@.len() == g.vertices@.len(),
        disp_ok(final(dx)@),
        disp_ok(final(dy)@),
        final(dx)@ == attract_fold(
            g.vertices@,
            g.edges@,
            g.edges@.len(),
            denom as int,
            (old(dx)@, old(dy)@),
        ).0,
        final(dy)@ == attract_fold(
            g.vertices@,
            g.edges@,
            g.edges@.len(),
            denom as int,
            (old(dx)@, old(dy)@),
        ).1,
{
    let n = g.vertices.len();
    let ghost vsq = g.vertices@;
    let ghost esq = g.edges@;
    let ghost dn = denom as int;
    let ghost st0 = (old(dx)@, old(dy)@);
    let mut k: usize = 0;
    while k < g.edges.len()
        invariant
            k <= g.edges@.len(),
            n == g.vertices@.len(),
            vsq == g.vertices@,
            esq == g.edges@,
            dn == denom as int,
            g.wf(),
            dx@.len() == n,
            dy@.len() == n,
            disp_ok(dx@),
            disp_ok(dy@),
            denom >= 1,
            dx@ == attract_fold(vsq, esq, k as nat, dn, st0).0,
            dy@ == attract_fold(vsq, esq, k as nat, dn, st0).1,
        decreases g.edges@.len() - k,
    {
        let ghost st_before = (dx@, dy@);
        let e = g.edges[k];
        proof {
            lemma_endpoints_in_range(g.edges@, k as int);
        }
        let vs = g.vertices[e.source];
        let vt = g.vertices[e.target];
        let (ddx, ddy, d) = deltas(vs, vt);
        if d > 0 {
            let mx = mul3_div(abs_i64(ddx), d, 1, denom as u128);
            let my = mul3_div(abs_i64(ddy), d, 1, denom as u128);
            push_signed(dx, e.source, mx, ddx < 0);
            push_signed(dy, e.source, my, ddy < 0);
            push_signed(dx, e.target, mx, ddx >= 0);
            push_signed(dy, e.target, my, ddy >= 0);
        }
        proof {
            assert(attract_fold(vsq, esq, (k + 1) as nat, dn, st0) == attract_step(
                vsq,
                esq[k as int],
                dn,
                st_before,
            ));
            assert(dx@ == attract_step(vsq, esq[k as int], dn, st_before).0);
            assert(dy@ == attract_step(vsq, esq[k as int], dn, st_before).1);
        }
        k = k + 1;
    }
}

/// The Force-Atlas2 gravity on one accumulator entry:
/// `pos * gravity / d_center` toward the origin — away from it when
/// the gravity is negative — skipped for a vertex at the origin
/// itself.
pub open spec fn gravity_atlas_entry(v: Vertex, gravity: int, dxa: i64, dya: i64) -> (i64, i64) {
    let dc = sqrt_floor((v.x * v.x + v.y * v.y) as nat) as int;
    if dc == 0 {
        (dxa, dya)
    } else {
        let mx = v.x * abs_spec(gravity) / dc;
        let my = v.y * abs_spec(gravity) / dc;
        (
            disp_clamped(dxa + signed(mx, gravity < 0)) as i64,
            disp_clamped(dya + signed(my, gravity < 0)) as i64,
        )
    }
}

/// Pull every vertex toward the origin by `pos * gravity / d_center`,
/// skipping a vertex that sits exactly at the origin.
fn apply_gravity_atlas(g: &Graph, dx: &mut Vec<i64>, dy: &mut Vec<i64>, gravity: i64)
    requires
        g.wf(),
        old(dx)@.len() == g.vertices@.len(),
        old(dy)@.len() == g.vertices@.len(),
        disp_ok(old(dx)@),
        disp_ok(old(dy)@),
        -PARAM_LIMIT <= gravity <= PARAM_LIMIT,
    ensures
        final(dx)@.len() == g.vertices@.len(),
        final(dy)@.len() == g.vertices@.len(),
        disp_ok(final(dx)@),
        disp_ok(final(dy)@),
        forall|a: int|
            0 <= a < g.vertices@.len() ==> #[trigger] final(dx)@[a] == gravity_atlas_entry(
                g.vertices@[a],
                gravity as int,
                old(dx)@[a],
                old(dy)@[a],
            ).0,
        forall|a: int|
            0 <= a < g.vertices@.len() ==> #[trigger] final(dy)@[a] == gravity_atlas_entry(
                g.vertices@[a],
                gravity as int,
                old(dx)@[a],
                old(dy)@[a],
            ).1,
{
    let n = g.vertices.len();
    let ghost vsq = g.vertices@;
    let ghost grav = gravity as int;
    let mut i: usize = 0;
    while i < n
        invariant
            i <= n,
            n == g.vertices@.len(),
            vsq == g.vertices@,
            grav == gravity as int,
            g.wf(),
            dx@.len() == n,
            dy@.len() == n,
            disp_ok(dx@),
            disp_ok(dy@),
            -PARAM_LIMIT <= gravity <= PARAM_LIMIT,
            forall|a: int|
                0 <= a < i ==> #[trigger] dx@[a] == gravity_atlas_entry(
                    vsq[a],
                    grav,
                    old(dx)@[a],
                    old(dy)@[a],
                ).0,
            forall|a: int|
                0 <= a < i ==> #[trigger] dy@[a] == gravity_atlas_entry(
                    vsq[a],
                    grav,
                    old(dx)@[a],
                    old(dy)@[a],
                ).1,
            forall|a: int| i <= a < n ==> #[trigger] dx@[a] == old(dx)@[a],
            forall|a: int| i <= a < n ==> #[trigger] dy@[a] == old(dy)@[a],
        decreases n - i,
    {
        let v = g.vertices[i];
        let dc = vec_len(v.x, v.y);
        if dc > 0 {
            let gmag = abs_i64(gravity);
            let mx = mul3_div(v.x as u64, gmag, 1, dc as u128);
            let my = mul3_div(v.y as u64, gmag, 1, dc as u128);
            push_signed(dx, i, mx, gravity < 0);
            push_signed(dy, i, my, gravity < 0);
        }
        i = i + 1;
    }
}

/// The Fruchterman-Reingold gravity on one accumulator entry:
/// `pos * gravity * d_center / k` toward the origin — away from it
/// when the gravity is negative.
pub open spec fn gravity_fr_entry(
    v: Vertex,
    gravity: int,
    k_len: int,
    dxa: i64,
    dya: i64,
) -> (i64, i64) {
    let dc = sqrt_floor((v.x * v.x + v.y * v.y) as nat) as int;
    if dc == 0 {
        (dxa, dya)
    } else {
        let mx = v.x * abs_spec(gravity) * dc / (k_len * (SCALE as int));
        let my = v.y * abs_spec(gravity) * dc / (k_len * (SCALE as int));
        (
            disp_clamped(dxa + signed(mx, gravity < 0)) as i64,
            disp_clamped(dya + signed(my, gravity < 0)) as i64,
        )
    }
}

/// Pull every vertex toward the origin by
/// `pos * gravity * d_center / k`, the Fruchterman-Reingold form.
fn apply_gravity_fr(g: &Graph, dx: &mut Vec<i64>, dy: &mut Vec<i64>, gravity: i64, k_len: u64)
    requires
        g.wf(),
        old(dx)@.len() == g.vertices@.len(),
        old(dy)@.len() == g.vertices@.len(),
        disp_ok(old(dx)@),
        disp_ok(old(dy)@),
        -PARAM_LIMIT <= gravity <= PARAM_LIMIT,
        1 <= k_len <= 100_000_000,
    ensures
        final(dx)@.len() == g.vertices@.len(),
        final(dy)@.len() == g.vertices@.len(),
        disp_ok(final(dx)@),
        disp_ok(final(dy)@),
        forall|a: int|
            0 <= a < g.vertices@.len() ==> #[trigger] final(dx)@[a] == gravity_fr_entry(
                g.vertices@[a],
                gravity as int,
                k_len as int,
                old(dx)@[a],
                old(dy)@[a],
            ).0,
        forall|a: int|
            0 <= a < g.vertices@.len() ==> #[trigger] final(dy)@[a] == gravity_fr_entry(
                g.vertices@[a],
                gravity as int,
                k_len as int,
                old(dx)@[a],
                old(dy)@[a],
            ).1,
{
    let n = g.vertices.len();
    let ghost vsq = g.vertices@;
    let ghost grav = gravity as int;
    let ghost kl = k_len as int;
    let mut i: usize = 0;
    while i < n
        invariant
            i <= n,
            n == g.vertices@.len(),
            vsq == g.vertices@,
            grav == gravity as int,
            kl == k_len as int,
            g.wf(),
            dx@.len() == n,
            dy@.len() == n,
            disp_ok(dx@),
            disp_ok(dy@),
            -PARAM_LIMIT <= gravity <= PARAM_LIMIT,
            1 <= k_len <= 100_000_000,
            forall|a: int|
                0 <= a < i ==> #[trigger] dx@[a] == gravity_fr_entry(
                    vsq[a],
                    grav,
                    kl,
                    old(dx)@[a],
                    old(dy)@[a],
                ).0,
            forall|a: int|
                0 <= a < i ==> #[trigger] dy@[a] == gravity_fr_entry(
                    vsq[a],
                    grav,
                    kl,
                    old(dx)@[a],
                    old(dy)@[a],
                ).1,
            forall|a: int| i <= a < n ==> #[trigger] dx@[a] == old(dx)@[a],
            forall|a: int| i <= a < n ==> #[trigger] dy@[a] == old(dy)@[a],
        decreases n - i,
    {
        let v = g.vertices[i];
        let dc = vec_len(v.x, v.y);
        if dc > 0 {
            proof {
                assert(dc <= 141_421_357) by (nonlinear_arith)
                    requires
                        is_isqrt((v.x as int) * (v.x as int) + (v.y as int) * (v.y as int), dc
                            as int),
                        0 <= v.x <= COORD_MAX,
                        0 <= v.y <= COORD_MAX,
                        COORD_MAX == 100_000_000,
                ;
            }
            proof {
                assert(1 <= (k_len as int) * (SCALE as int) <= 100_000_000 * 1_000_000)
                    by (nonlinear_arith)
                    requires
                        1 <= k_len <= 100_000_000,
                        SCALE == 1_000_000,
                ;
            }
            let e = (k_len as u128) * (SCALE as u128);
            let gmag = abs_i64(gravity);
            let mx = mul3_div(v.x as u64, gmag, dc, e);
            let my = mul3_div(v.y as u64, gmag, dc, e);
            push_signed(dx, i, mx, gravity < 0);
            push_signed(dy, i, my, gravity < 0);
        }
        i = i + 1;
    }
}

/// Where one vertex moves: by its displacement capped to `cap`
/// length, clamped into the canvas; a zero-length displacement
/// leaves it in place.
pub open spec fn moved_vertex(v: Vertex, dxa: i64, dya: i64, cap: int) -> Vertex {
    let l = sqrt_floor((dxa * dxa + dya * dya) as nat) as int;
    if l == 0 {
        v
    } else {
        let step = if l < cap {
            l
        } else {
            cap
        };
        let mx = abs_spec(dxa as int) * step / l;
        let my = abs_spec(dya as int) * step / l;
        (Vertex {
            x: canvas_clamped(v.x + signed(mx, dxa >= 0)) as i64,
            y: canvas_clamped(v.y + signed(my, dya >= 0)) as i64,
        })
    }
}

/// Move every vertex by its displacement, capped to `cap` length,
/// then clamp into the canvas.
fn apply_displacements(g: &mut Graph, dx: &Vec<i64>, dy: &Vec<i64>, cap: u64)
    requires
        old(g).wf(),
        dx@.len() == old(g).vertices@.len(),
        dy@.len() == old(g).vertices@.len(),
        disp_ok(dx@),
        disp_ok(dy@),
        1 <= cap,
        cap as int <= COORD_MAX,
    ensures
        final(g).wf(),
        final(g).edges@ == old(g).edges@,
        final(g).vertices@.len() == old(g).vertices@.len(),
        forall|a: int|
            0 <= a < final(g).vertices@.len() ==> #[trigger] final(g).vertices@[a]
                == moved_vertex(old(g).vertices@[a], dx@[a], dy@[a], cap as int),
{
    let n = g.vertices.len();
    let ghost cp = cap as int;
    let mut i: usize = 0;
    while i < n
        invariant
            i <= n,
            n == g.vertices@.len(),
            cp == cap as int,
            g.wf(),
            g.edges@ == old(g).edges@,
            dx@.len() == n,
            dy@.len() == n,
            disp_ok(dx@),
            disp_ok(dy@),
            1 <= cap,
            cap as int <= COORD_MAX,
            forall|a: int|
                0 <= a < i ==> #[trigger] g.vertices@[a] == moved_vertex(
                    old(g).vertices@[a],
                    dx@[a],
                    dy@[a],
                    cp,
                ),
            forall|a: int| i <= a < n ==> #[trigger] g.vertices@[a] == old(g).vertices@[a],
        decreases n - i,
    {
        let di = dx[i];
        let dj = dy[i];
        let l = vec_len(di, dj);
        if l > 0 {
            let step = if l < cap {
                l
            } else {
                cap
            };
            let mx = mul3_div(abs_i64(di), step, 1, l as u128);
            let my = mul3_div(abs_i64(dj), step, 1, l as u128);
            let v = g.vertices[i];
            let sx: i128 = if di >= 0 {
                mx as i128
            } else {
                -(mx as i128)
            };
            let sy: i128 = if dj >= 0 {
                my as i128
            } else {
                -(my as i128)
            };
            let nx = clamp_canvas((v.x as i128) + sx);
            let ny = clamp_canvas((v.y as i128) + sy);
            g.vertices.set(i, Vertex { x: nx, y: ny });
        }
        i = i + 1;
    }
}

/// Place every vertex at a fresh random position, discarding
/// whatever positions the caller supplied.  Every draw lies in the
/// half-open canvas `[0, COORD_MAX)^2`, strictly below the far
/// edges — which no body that keeps an old position (the circular
/// layout puts vertex 0 at the far edge) could promise.
pub fn random_layout(g: &mut Graph)
    requires
        old(g).wf(),
    ensures
        final(g).wf(),
        final(g).edges@ == old(g).edges@,
        final(g).vertices@.len() == old(g).vertices@.len(),
        forall|a: int|
            0 <= a < final(g).vertices@.len() ==> crate::graph::in_draw_range(
                #[trigger] final(g).vertices@[a],
            ),
{
    let n = g.vertices.len();
    let mut i: usize = 0;
    while i < n
        invariant
            i <= n,
            n == g.vertices@.len(),
            g.wf(),
            g.edges@ == old(g).edges@,
            forall|a: int|
                0 <= a < i ==> crate::graph::in_draw_range(#[trigger] g.vertices@[a]),
        decreases n - i,
    {
        let x = random_coord();
        let y = random_coord();
        g.vertices.set(i, Vertex { x, y });
        i = i + 1;
    }
}

/// The exact position the circular layout assigns to index `i` of
/// `n`: a function of the vertex count and index alone — the edge
/// content plays no part in it.
pub open spec fn circular_position(i: int, n: int) -> (int, int) {
    (
        50 * SCALE + 50 * crate::trig::cos_turn_spec(i, n),
        50 * SCALE + 50 * crate::trig::sin_turn_spec(i, n),
    )
}

/// At the four quarter-turn points the circular layout stands
/// exactly on the canvas edge midpoints.
pub open spec fn circular_quarter_pinned(i: int, n: int, v: Vertex) -> bool {
    &&& (i == 0 ==> v.x == COORD_MAX && v.y == 50 * SCALE)
    &&& (4 * i == n ==> v.x == 50 * SCALE && v.y == COORD_MAX)
    &&& (4 * i == 2 * n ==> v.x == 0 && v.y == 50 * SCALE)
    &&& (4 * i == 3 * n ==> v.x == 50 * SCALE && v.y == 0)
}

/// Place vertex `i` of `n` on the circle of radius 50 around the
/// canvas center, at the angle `(i / n)` of a full turn.  Depends on
/// the vertex count alone, never on the edges.
pub fn circular_layout(g: &mut Graph)
    requires
        old(g).wf(),
    ensures
        final(g).wf(),
        final(g).edges@ == old(g).edges@,
        final(g).vertices@.len() == old(g).vertices@.len(),
        forall|i: int|
            0 <= i < final(g).vertices@.len() ==> {
                let v = #[trigger] final(g).vertices@[i];
                v.x == circular_position(i, final(g).vertices@.len() as int).0 && v.y
                    == circular_position(i, final(g).vertices@.len() as int).1
            },
        forall|i: int|
            0 <= i < final(g).vertices@.len() ==> circular_quarter_pinned(
                i,
                final(g).vertices@.len() as int,
                #[trigger] final(g).vertices@[i],
            ),
{
    let n = g.vertices.len();
    let mut i: usize = 0;
    while i < n
        invariant
            i <= n,
            n == g.vertices@.len(),
            g.wf(),
            g.edges@ == old(g).edges@,
            forall|a: int|
                0 <= a < i ==> {
                    let v = #[trigger] g.vertices@[a];
                    v.x == circular_position(a, n as int).0 && v.y == circular_position(
                        a,
                        n as int,
                    ).1
                },
            forall|a: int|
                0 <= a < i ==> circular_quarter_pinned(
                    a,
                    n as int,
                    #[trigger] g.vertices@[a],
                ),
        decreases n - i,
    {
        let (c, s) = cos_sin_turn(i, n);
        let x = 50 * SCALE + 50 * c;
        let y = 50 * SCALE + 50 * s;
        g.vertices.set(i, Vertex { x, y });
        i = i + 1;
    }
}

/// The displacement state after the three Force-Atlas2 force phases:
/// repulsion, then edge attraction, then gravity.
pub open spec fn atlas_forces(
    vs: Seq<Vertex>,
    es: Seq<Edge>,
    gravity: int,
    scaling: int,
) -> (Seq<i64>, Seq<i64>) {
    let rx = Seq::new(vs.len(), |a: int| repulse_row(vs, a, vs.len(), scaling, SCALE as int).0);
    let ry = Seq::new(vs.len(), |a: int| repulse_row(vs, a, vs.len(), scaling, SCALE as int).1);
    let at = attract_fold(vs, es, es.len(), scaling, (rx, ry));
    let gx = Seq::new(
        vs.len(),
        |a: int| gravity_atlas_entry(vs[a], gravity, at.0[a], at.1[a]).0,
    );
    let gy = Seq::new(
        vs.len(),
        |a: int| gravity_atlas_entry(vs[a], gravity, at.0[a], at.1[a]).1,
    );
    (gx, gy)
}

/// One full Force-Atlas2 iteration: the three force phases, then the
/// unit-capped move and the canvas clamp.
pub open spec fn atlas_iteration(
    vs: Seq<Vertex>,
    es: Seq<Edge>,
    gravity: int,
    scaling: int,
) -> Seq<Vertex> {
    let f = atlas_forces(vs, es, gravity, scaling);
    Seq::new(vs.len(), |a: int| moved_vertex(vs[a], f.0[a], f.1[a], SCALE as int))
}

/// The positions after `it` Force-Atlas2 iterations.
pub open spec fn atlas_run(
    vs: Seq<Vertex>,
    es: Seq<Edge>,
    it: nat,
    gravity: int,
    scaling: int,
) -> Seq<Vertex>
    decreases it,
{
    if it == 0 {
        vs
    } else {
        atlas_iteration(atlas_run(vs, es, (it - 1) as nat, gravity, scaling), es, gravity, scaling)
    }
}

/// The Force-Atlas2 simulation: per iteration, pairwise repulsion
/// `scaling_ratio / d`, edge attraction `d^2 / scaling_ratio`,
/// gravity toward the origin, then a unit-capped move and the canvas
/// clamp.  The result is pinned exactly: it is `atlas_run` over the
/// starting positions, so zero iterations leave them untouched.
pub fn force_atlas2(g: &mut Graph, iterations: usize, gravity: i64, scaling_ratio: i64)
    requires
        old(g).wf(),
        -PARAM_LIMIT <= gravity <= PARAM_LIMIT,
        1 <= scaling_ratio <= PARAM_LIMIT,
    ensures
        final(g).wf(),
        final(g).edges@ == old(g).edges@,
        final(g).vertices@.len() == old(g).vertices@.len(),
        final(g).vertices@ == atlas_run(
            old(g).vertices@,
            old(g).edges@,
            iterations as nat,
            gravity as int,
            scaling_ratio as int,
        ),
        iterations == 0 ==> final(g).vertices@ == old(g).vertices@,
{
    let ghost vs0 = old(g).vertices@;
    let ghost esq = old(g).edges@;
    let ghost grav = gravity as int;
    let ghost scal = scaling_ratio as int;
    let mut it: usize = 0;
    while it < iterations
        invariant
            it <= iterations,
            g.wf(),
            g.edges@ == esq,
            esq == old(g).edges@,
            vs0 == old(g).vertices@,
            grav == gravity as int,
            scal == scaling_ratio as int,
            g.vertices@.len() == vs0.len(),
            g.vertices@ == atlas_run(vs0, esq, it as nat, grav, scal),
            -PARAM_LIMIT <= gravity <= PARAM_LIMIT,
            1 <= scaling_ratio <= PARAM_LIMIT,
        decreases iterations - it,
    {
        let ghost prev = g.vertices@;
        let n = g.vertices.len();
        let mut dx = zero_disp(n);
        let mut dy = zero_disp(n);
        accumulate_repulsion(g, &mut dx, &mut dy, scaling_ratio as u64, SCALE as u64);
        proof {
            assert(dx@ =~= Seq::new(
                prev.len(),
                |a: int| repulse_row(prev, a, prev.len(), scal, SCALE as int).0,
            ));
            assert(dy@ =~= Seq::new(
                prev.len(),
                |a: int| repulse_row(prev, a, prev.len(), scal, SCALE as int).1,
            ));
        }
        let ghost rx = dx@;
        let ghost ry = dy@;
        accumulate_attraction(g, &mut dx, &mut dy, scaling_ratio as u64);
        let ghost ax = dx@;
        let ghost ay = dy@;
        proof {
            assert(ax == attract_fold(prev, esq, esq.len(), scal, (rx, ry)).0);
            assert(ay == attract_fold(prev, esq, esq.len(), scal, (rx, ry)).1);
        }
        apply_gravity_atlas(g, &mut dx, &mut dy, gravity);
        proof {
            assert(dx@ =~= Seq::new(
                prev.len(),
                |a: int| gravity_atlas_entry(prev[a], grav, ax[a], ay[a]).0,
            ));
            assert(dy@ =~= Seq::new(
                prev.len(),
                |a: int| gravity_atlas_entry(prev[a], grav, ax[a], ay[a]).1,
            ));
            assert(dx@ == atlas_forces(prev, esq, grav, scal).0);
            assert(dy@ == atlas_forces(prev, esq, grav, scal).1);
        }
        apply_displacements(g, &dx, &dy, SCALE as u64);
        proof {
            assert(g.vertices@ =~= atlas_iteration(prev, esq, grav, scal));
            assert(atlas_run(vs0, esq, (it + 1) as nat, grav, scal) == atlas_iteration(
                atlas_run(vs0, esq, it as nat, grav, scal),
                esq,
                grav,
                scal,
            ));
        }
        it = it + 1;
    }
}

/// The Fruchterman-Reingold spring constant for `n` vertices:
/// `sqrt(area / n)` over the fixed area 10000, in micro-units, at
/// least one micro-unit.
pub open spec fn fr_k(n: nat) -> int {
    let k0 = sqrt_floor(10_000_000_000_000_000nat / n) as int;
    if k0 == 0 {
        1
    } else {
        k0
    }
}

/// One full Fruchterman-Reingold iteration: repulsion `k^2 / d`,
/// attraction `d^2 / k`, gravity over `k`, then a k-capped move and
/// the canvas clamp.
pub open spec fn fr_iteration(
    vs: Seq<Vertex>,
    es: Seq<Edge>,
    gravity: int,
    k: int,
) -> Seq<Vertex> {
    let rx = Seq::new(vs.len(), |a: int| repulse_row(vs, a, vs.len(), k, k).0);
    let ry = Seq::new(vs.len(), |a: int| repulse_row(vs, a, vs.len(), k, k).1);
    let at = attract_fold(vs, es, es.len(), k, (rx, ry));
    let gx = Seq::new(vs.len(), |a: int| gravity_fr_entry(vs[a], gravity, k, at.0[a], at.1[a]).0);
    let gy = Seq::new(vs.len(), |a: int| gravity_fr_entry(vs[a], gravity, k, at.0[a], at.1[a]).1);
    Seq::new(vs.len(), |a: int| moved_vertex(vs[a], gx[a], gy[a], k))
}

/// The positions after `it` Fruchterman-Reingold iterations.
pub open spec fn fr_run(
    vs: Seq<Vertex>,
    es: Seq<Edge>,
    it: nat,
    gravity: int,
    k: int,
) -> Seq<Vertex>
    decreases it,
{
    if it == 0 {
        vs
    } else {
        fr_iteration(fr_run(vs, es, (it - 1) as nat, gravity, k), es, gravity, k)
    }
}

/// The Fruchterman-Reingold simulation over the fixed area 10000:
/// per iteration, pairwise repulsion `k^2 / d`, edge attraction
/// `d^2 / k`, gravity scaled by the distance to the center over `k`,
/// then a k-capped move and the canvas clamp, with
/// `k = sqrt(area / n)`.  The result is pinned exactly: it is
/// `fr_run` over the starting positions, so zero iterations leave
/// them untouched.
pub fn fruchterman_reingold(g: &mut Graph, iterations: usize, gravity: i64)
    requires
        old(g).wf(),
        -PARAM_LIMIT <= gravity <= PARAM_LIMIT,
    ensures
        final(g).wf(),
        final(g).edges@ == old(g).edges@,
        final(g).vertices@.len() == old(g).vertices@.len(),
        old(g).vertices@.len() == 0 ==> final(g).vertices@ == old(g).vertices@,
        old(g).vertices@.len() > 0 ==> final(g).vertices@ == fr_run(
            old(g).vertices@,
            old(g).edges@,
            iterations as nat,
            gravity as int,
            fr_k(old(g).vertices@.len()),
        ),
        iterations == 0 ==> final(g).vertices@ == old(g).vertices@,
{
    let n = g.vertices.len();
    if n == 0 {
        return ;
    }
    // k = sqrt(area / n) canvas units, in micro-units
    let k0 = isqrt_u128(10_000_000_000_000_000u128 / (n as u128));
    proof {
        assert(k0 <= 100_000_000) by (nonlinear_arith)
            requires
                is_isqrt(10_000_000_000_000_000int / (n as int), k0 as int),
                n >= 1,
        ;
    }
    let k_len = if k0 == 0 {
        1
    } else {
        k0
    };
    let ghost vs0 = old(g).vertices@;
    let ghost esq = old(g).edges@;
    let ghost grav = gravity as int;
    let ghost kl = k_len as int;
    proof {
        assert(kl == fr_k(vs0.len()));
    }
    let mut it: usize = 0;
    while it < iterations
        invariant
            it <= iterations,
            g.wf(),
            g.edges@ == esq,
            esq == old(g).edges@,
            vs0 == old(g).vertices@,
            grav == gravity as int,
            kl == k_len as int,
            g.vertices@.len() == vs0.len(),
            g.vertices@ == fr_run(vs0, esq, it as nat, grav, kl),
            -PARAM_LIMIT <= gravity <= PARAM_LIMIT,
            1 <= k_len <= 100_000_000,
        decreases iterations - it,
    {
        let ghost prev = g.vertices@;
        let nv = g.vertices.len();
        let mut dx = zero_disp(nv);
        let mut dy = zero_disp(nv);
        accumulate_repulsion(g, &mut dx, &mut dy, k_len, k_len);
        proof {
            assert(dx@ =~= Seq::new(
                prev.len(),
                |a: int| repulse_row(prev, a, prev.len(), kl, kl).0,
            ));
            assert(dy@ =~= Seq::new(
                prev.len(),
                |a: int| repulse_row(prev, a, prev.len(), kl, kl).1,
            ));
        }
        let ghost rx = dx@;
        let ghost ry = dy@;
        accumulate_attraction(g, &mut dx, &mut dy, k_len);
        let ghost ax = dx@;
        let ghost ay = dy@;
        proof {
            assert(ax == attract_fold(prev, esq, esq.len(), kl, (rx, ry)).0);
            assert(ay == attract_fold(prev, esq, esq.len(), kl, (rx, ry)).1);
        }
        apply_gravity_fr(g, &mut dx, &mut dy, gravity, k_len);
        proof {
            assert(dx@ =~= Seq::new(
                prev.len(),
                |a: int| gravity_fr_entry(prev[a], grav, kl, ax[a], ay[a]).0,
            ));
            assert(dy@ =~= Seq::new(
                prev.len(),
                |a: int| gravity_fr_entry(prev[a], grav, kl, ax[a], ay[a]).1,
            ));
        }
        apply_displacements(g, &dx, &dy, k_len);
        proof {
            assert(g.vertices@ =~= fr_iteration(prev, esq, grav, kl));
            assert(fr_run(vs0, esq, (it + 1) as nat, grav, kl) == fr_iteration(
                fr_run(vs0, esq, it as nat, grav, kl),
                esq,
                grav,
                kl,
            ));
        }
        it = it + 1;
    }
}

} // verus!
