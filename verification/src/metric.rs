//! The distance-scaling layouts: stress majorization,
//! multidimensional scaling and Kamada-Kawai.
//!
//! Each randomizes the positions, builds the distance oracle, then
//! iterates, skipping every pair whose actual distance is zero or
//! whose ideal distance is unreachable; a vertex with no finite
//! neighbor keeps its position.  The per-vertex update of each
//! algorithm is pinned to a spec-level fold of the same arithmetic
//! (`stress_moved`, `mds_pos`, `kamada_moved`), and each top-level
//! result is the corresponding run over some random placement drawn
//! from the half-open canvas — the draw itself being the one part of
//! these layouts that no contract can pin.  Every step clamps into the canvas, so the canvas invariant
//! and the edge list are preserved exactly.

use vstd::prelude::*;
use crate::distances::{DistanceTable, build_distance_table};
use crate::fixed::{
    COORD_MAX, DISP_LIMIT, abs_i64, abs_spec, clamp_canvas, clamped, disp_add, mul3_div, wide_add,
    SCALE, WIDE_LIMIT,
};
use crate::force::{canvas_clamped, disp_clamped, pair_distance, random_layout, signed};
use crate::graph::{Edge, Graph, Vertex};

verus! {

/// Hop counts beyond this have a weight below the fixed-point
/// resolution and are treated like unreachable pairs.
pub const HOPS_LIMIT: u64 = 1_000_000;

/// Whether vertex `i` has no counterpart at a usable finite
/// distance: every other vertex is itself, unreachable, or beyond
/// the hop limit.
pub open spec fn no_finite_neighbor(t: DistanceTable, i: int, n: int) -> bool {
    forall|j: int| 0 <= j < n && j != i ==> !(1 <= #[trigger] t.at(i, j) <= HOPS_LIMIT)
}

/// Divide a wide sum by a positive weight and clamp into the canvas.
fn div_clamp(num: i128, den: u64) -> (r: i64)
    requires
        den >= 1,
    ensures
        r == clamped(num as int / den as int, 0, COORD_MAX as int),
        0 <= r <= COORD_MAX,
{
    if num <= 0 {
        proof {
            vstd::arithmetic::div_mod::lemma_div_is_ordered(num as int, 0, den as int);
        }
        0
    } else {
        let q = (num as u128) / (den as u128);
        if q > COORD_MAX as u128 {
            COORD_MAX
        } else {
            q as i64
        }
    }
}

/// One stress contribution folded into the accumulator state: the
/// weighted target a finite-distance counterpart proposes, its
/// weight added to the weight sum; the vertex itself, unusable ideal
/// distances and coincident pairs contribute nothing.
pub open spec fn stress_accum_step(
    vs: Seq<Vertex>,
    t: DistanceTable,
    i: int,
    j: int,
    st: (i128, i128, u64),
) -> (i128, i128, u64) {
    if j == i {
        st
    } else {
        let h = t.at(i, j) as int;
        if !(1 <= h <= HOPS_LIMIT) {
            st
        } else {
            let w = 1_000_000_000_000int / (h * h);
            let ddx = vs[i].x - vs[j].x;
            let ddy = vs[i].y - vs[j].y;
            let d = pair_distance(vs[i], vs[j]) as int;
            if d == 0 {
                st
            } else {
                let hmu = h * 1_000_000;
                let mx = abs_spec(ddx) * hmu / d;
                let my = abs_spec(ddy) * hmu / d;
                let tx = vs[j].x + signed(mx, ddx >= 0);
                let ty = vs[j].y + signed(my, ddy >= 0);
                let nx = clamped(st.0 + w * tx, -WIDE_LIMIT as int, WIDE_LIMIT as int);
                let ny = clamped(st.1 + w * ty, -WIDE_LIMIT as int, WIDE_LIMIT as int);
                let nw = if st.2 <= 1_000_000_000_000_000_000 {
                    (st.2 + w) as u64
                } else {
                    st.2
                };
                (nx as i128, ny as i128, nw)
            }
        }
    }
}

/// The stress accumulators of vertex `i` over the first `j`
/// counterparts.
pub open spec fn stress_accum(vs: Seq<Vertex>, t: DistanceTable, i: int, j: nat) -> (
    i128,
    i128,
    u64,
)
    decreases j,
{
    if j == 0 {
        (0i128, 0i128, 0u64)
    } else {
        stress_accum_step(vs, t, i, j - 1, stress_accum(vs, t, i, (j - 1) as nat))
    }
}

/// Where one stress update puts vertex `i`: the weighted average
/// target clamped into the canvas, or its old place when the weight
/// sum is zero.
pub open spec fn stress_moved(vs: Seq<Vertex>, t: DistanceTable, i: int) -> Vertex {
    let st = stress_accum(vs, t, i, vs.len());
    if st.2 == 0 {
        vs[i]
    } else {
        (Vertex {
            x: canvas_clamped(st.0 as int / st.2 as int) as i64,
            y: canvas_clamped(st.1 as int / st.2 as int) as i64,
        })
    }
}

/// Compute one stress-majorization update of vertex `i`: the weighted
/// average of the targets every finite-distance counterpart proposes.
/// The result is pinned to `stress_moved`; a vertex with no finite
/// counterpart keeps its position, and no other vertex moves.
fn stress_step(g: &mut Graph, table: &DistanceTable, i: usize)
    requires
        old(g).wf(),
        table.wf(),
        table.n == old(g).vertices@.len(),
        i < old(g).vertices@.len(),
    ensures
        final(g).wf(),
        final(g).edges@ == old(g).edges@,
        final(g).vertices@.len() == old(g).vertices@.len(),
        final(g).vertices@ == old(g).vertices@.update(
            i as int,
            stress_moved(old(g).vertices@, *table, i as int),
        ),
        forall|a: int|
            0 <= a < final(g).vertices@.len() && a != i
                ==> final(g).vertices@[a] == old(g).vertices@[a],
        no_finite_neighbor(*table, i as int, old(g).vertices@.len() as int)
            ==> final(g).vertices@ == old(g).vertices@,
{
    let n = g.vertices.len();
    let ghost vsq = old(g).vertices@;
    let mut num_x: i128 = 0;
    let mut num_y: i128 = 0;
    let mut wsum: u64 = 0;
    let mut j: usize = 0;
    while j < n
        invariant
            j <= n,
            n == g.vertices@.len(),
            i < n,
            g.wf(),
            g.vertices@ == old(g).vertices@,
            g.edges@ == old(g).edges@,
            vsq == old(g).vertices@,
            vsq.len() == n,
            table.wf(),
            table.n == n,
            -WIDE_LIMIT <= num_x <= WIDE_LIMIT,
            -WIDE_LIMIT <= num_y <= WIDE_LIMIT,
            wsum <= 2_000_000_000_000_000_000,
            (num_x, num_y, wsum) == stress_accum(vsq, *table, i as int, j as nat),
            no_finite_neighbor(*table, i as int, n as int) ==> wsum == 0,
        decreases n - j,
    {
        let ghost acc = (num_x, num_y, wsum);
        if j != i {
            let h = table.get(i, j);
            if 1 <= h && h <= HOPS_LIMIT {
                proof {
                    assert(1 <= h * h <= 1_000_000_000_000) by (nonlinear_arith)
                        requires
                            1 <= h <= 1_000_000,
                    ;
                }
                let w = 1_000_000_000_000u64 / (h * h);
                let vi = g.vertices[i];
                let vj = g.vertices[j];
                let (ddx, ddy, d) = crate::force::deltas(vi, vj);
                if d > 0 {
                    let hmu = h * 1_000_000;
                    let mx = mul3_div(abs_i64(ddx), hmu, 1, d as u128);
                    let my = mul3_div(abs_i64(ddy), hmu, 1, d as u128);
                    proof {
                        assert(crate::fixed::abs_spec(ddx as int) * (hmu as int) * 1
                            <= 200_000_000_000_000_000_000int && crate::fixed::abs_spec(
                            ddy as int,
                        ) * (hmu as int) * 1 <= 200_000_000_000_000_000_000int)
                            by (nonlinear_arith)
                            requires
                                crate::fixed::abs_spec(ddx as int) <= 141_421_356,
                                crate::fixed::abs_spec(ddy as int) <= 141_421_356,
                                0 <= hmu <= 1_000_000_000_000,
                        ;
                    }
                    let tx: i128 = (vj.x as i128) + (if ddx >= 0 {
                        mx as i128
                    } else {
                        -(mx as i128)
                    });
                    let ty: i128 = (vj.y as i128) + (if ddy >= 0 {
                        my as i128
                    } else {
                        -(my as i128)
                    });
                    proof {
                        assert((w as int) * tx <= 1_000_000_000_000_000_000_000_000_000_000_000int
                            && (w as int) * tx
                            >= -1_000_000_000_000_000_000_000_000_000_000_000int && (w as int) * ty
                            <= 1_000_000_000_000_000_000_000_000_000_000_000int && (w as int) * ty
                            >= -1_000_000_000_000_000_000_000_000_000_000_000int)
                            by (nonlinear_arith)
                            requires
                                0 <= w <= 1_000_000_000_000,
                                -300_000_000_000_000_000_000int <= tx
                                    <= 300_000_000_000_000_000_000int,
                                -300_000_000_000_000_000_000int <= ty
                                    <= 300_000_000_000_000_000_000int,
                        ;
                    }
                    num_x = wide_add(num_x, (w as i128) * tx);
                    num_y = wide_add(num_y, (w as i128) * ty);
                    if wsum <= 1_000_000_000_000_000_000 {
                        wsum = wsum + w;
                    }
                }
            }
        }
        proof {
            assert(stress_accum(vsq, *table, i as int, (j + 1) as nat) == stress_accum_step(
                vsq,
                *table,
                i as int,
                j as int,
                acc,
            ));
            assert((num_x, num_y, wsum) == stress_accum_step(
                vsq,
                *table,
                i as int,
                j as int,
                acc,
            ));
        }
        j = j + 1;
    }
    if wsum > 0 {
        let nx = div_clamp(num_x, wsum);
        let ny = div_clamp(num_y, wsum);
        g.vertices.set(i, Vertex { x: nx, y: ny });
        proof {
            assert(g.vertices@ == vsq.update(i as int, stress_moved(vsq, *table, i as int)));
        }
    } else {
        proof {
            assert(g.vertices@ =~= vsq.update(i as int, stress_moved(vsq, *table, i as int)));
        }
    }
}

/// One stress pass: update every vertex in index order, each against
/// the state its predecessors left.
pub open spec fn stress_pass(vs: Seq<Vertex>, t: DistanceTable, i: nat) -> Seq<Vertex>
    decreases i,
{
    if i == 0 {
        vs
    } else {
        let prev = stress_pass(vs, t, (i - 1) as nat);
        prev.update(i - 1, stress_moved(prev, t, i - 1))
    }
}

/// The positions after `it` full stress passes.
pub open spec fn stress_rounds(vs: Seq<Vertex>, t: DistanceTable, it: nat) -> Seq<Vertex>
    decreases it,
{
    if it == 0 {
        vs
    } else {
        stress_pass(stress_rounds(vs, t, (it - 1) as nat), t, vs.len())
    }
}

/// A distance table consistent with the graph's edge list: square of
/// the right side, zero diagonal, and exact shortest-walk entries.
pub open spec fn table_for(t: DistanceTable, es: Seq<Edge>, n: nat) -> bool {
    &&& t.wf()
    &&& t.n == n
    &&& crate::distances::diag_zero(t.dist@, n as int)
    &&& crate::distances::lb_holds(t.dist@, n as int, es, n as int)
    &&& crate::distances::ub_holds(t.dist@, n as int, es, n as int)
}

/// The stress-majorization layout: randomize, build the oracle, then
/// per iteration move every vertex to the weighted average target of
/// its finite-distance counterparts, keeping its place when it has
/// none.  The result is `stress_rounds` over some in-canvas random
/// placement and the (uniquely determined) distance table.
pub fn stress_majorization(g: &mut Graph, iterations: usize)
    requires
        old(g).wf(),
        old(g).vertices@.len() * old(g).vertices@.len() <= usize::MAX,
    ensures
        final(g).wf(),
        final(g).edges@ == old(g).edges@,
        final(g).vertices@.len() == old(g).vertices@.len(),
        exists|init: Seq<Vertex>, t: DistanceTable|
            {
                &&& init.len() == old(g).vertices@.len()
                &&& (forall|a: int| 0 <= a < init.len() ==> crate::graph::in_draw_range(#[trigger] init[a]))
                &&& table_for(t, old(g).edges@, old(g).vertices@.len())
                &&& final(g).vertices@ == #[trigger] stress_rounds(init, t, iterations as nat)
            },
{
    random_layout(g);
    let table = build_distance_table(g);
    let ghost init = g.vertices@;
    let ghost nn = g.vertices@.len();
    let mut it: usize = 0;
    while it < iterations
        invariant
            it <= iterations,
            g.wf(),
            g.edges@ == old(g).edges@,
            g.vertices@.len() == nn,
            nn == init.len(),
            forall|a: int| 0 <= a < init.len() ==> crate::graph::in_draw_range(#[trigger] init[a]),
            table_for(table, old(g).edges@, nn),
            table.wf(),
            table.n == nn,
            g.vertices@ == stress_rounds(init, table, it as nat),
        decreases iterations - it,
    {
        let ghost round_start = g.vertices@;
        let n = g.vertices.len();
        let mut i: usize = 0;
        while i < n
            invariant
                i <= n,
                n == g.vertices@.len(),
                n == nn,
                g.wf(),
                g.edges@ == old(g).edges@,
                table.wf(),
                table.n == n,
                round_start.len() == n,
                g.vertices@ == stress_pass(round_start, table, i as nat),
            decreases n - i,
        {
            let ghost prev = g.vertices@;
            stress_step(g, &table, i);
            proof {
                assert(stress_pass(round_start, table, (i + 1) as nat) == prev.update(
                    i as int,
                    stress_moved(prev, table, i as int),
                ));
            }
            i = i + 1;
        }
        proof {
            assert(stress_rounds(init, table, (it + 1) as nat) == stress_pass(
                stress_rounds(init, table, it as nat),
                table,
                init.len(),
            ));
        }
        it = it + 1;
    }
    proof {
        assert(g.vertices@ == stress_rounds(init, table, iterations as nat));
    }
}

/// One multidimensional-scaling nudge of the running position of
/// vertex `i` against counterpart `j`: toward or away from `j` by
/// the weighted distance error, clamped into the canvas; the vertex
/// itself, unusable ideal distances and coincident pairs leave it in
/// place.
pub open spec fn mds_pos_step(
    vs: Seq<Vertex>,
    t: DistanceTable,
    i: int,
    j: int,
    cur: Vertex,
) -> Vertex {
    if j == i {
        cur
    } else {
        let h = t.at(i, j) as int;
        if !(1 <= h <= HOPS_LIMIT) {
            cur
        } else {
            let ddx = vs[j].x - cur.x;
            let ddy = vs[j].y - cur.y;
            let d = pair_distance(vs[j], cur) as int;
            if d == 0 {
                cur
            } else {
                let hmu = h * 1_000_000;
                let diff = abs_spec(d - hmu);
                let mx = abs_spec(ddx) * diff / (d * h * h);
                let my = abs_spec(ddy) * diff / (d * h * h);
                (Vertex {
                    x: canvas_clamped(cur.x + signed(mx, (ddx >= 0) == (d >= hmu))) as i64,
                    y: canvas_clamped(cur.y + signed(my, (ddy >= 0) == (d >= hmu))) as i64,
                })
            }
        }
    }
}

/// The position of vertex `i` after its nudges against the first `j`
/// counterparts.
pub open spec fn mds_pos(vs: Seq<Vertex>, t: DistanceTable, i: int, j: nat) -> Vertex
    decreases j,
{
    if j == 0 {
        vs[i]
    } else {
        mds_pos_step(vs, t, i, j - 1, mds_pos(vs, t, i, (j - 1) as nat))
    }
}

/// One multidimensional-scaling pass of vertex `i` against every
/// counterpart, positions clamped into the canvas at every step.
/// The result is pinned to `mds_pos`; a vertex with no finite
/// counterpart keeps its position, and no other vertex moves.
fn mds_step(g: &mut Graph, table: &DistanceTable, i: usize)
    requires
        old(g).wf(),
        table.wf(),
        table.n == old(g).vertices@.len(),
        i < old(g).vertices@.len(),
    ensures
        final(g).wf(),
        final(g).edges@ == old(g).edges@,
        final(g).vertices@.len() == old(g).vertices@.len(),
        final(g).vertices@ == old(g).vertices@.update(
            i as int,
            mds_pos(old(g).vertices@, *table, i as int, old(g).vertices@.len() as nat),
        ),
        forall|a: int|
            0 <= a < final(g).vertices@.len() && a != i
                ==> final(g).vertices@[a] == old(g).vertices@[a],
        no_finite_neighbor(*table, i as int, old(g).vertices@.len() as int)
            ==> final(g).vertices@ == old(g).vertices@,
{
    let n = g.vertices.len();
    let ghost vsq = old(g).vertices@;
    proof {
        assert(vsq.update(i as int, mds_pos(vsq, *table, i as int, 0)) =~= vsq);
    }
    let mut j: usize = 0;
    while j < n
        invariant
            j <= n,
            n == g.vertices@.len(),
            i < n,
            g.wf(),
            g.edges@ == old(g).edges@,
            vsq == old(g).vertices@,
            vsq.len() == n,
            forall|a: int|
                0 <= a < n && a != i ==> g.vertices@[a] == old(g).vertices@[a],
            g.vertices@ == vsq.update(i as int, mds_pos(vsq, *table, i as int, j as nat)),
            no_finite_neighbor(*table, i as int, n as int) ==> g.vertices@ == old(g).vertices@,
            table.wf(),
            table.n == n,
        decreases n - j,
    {
        let ghost cur = g.vertices@[i as int];
        proof {
            assert(cur == mds_pos(vsq, *table, i as int, j as nat));
        }
        if j != i {
            let h = table.get(i, j);
            if 1 <= h && h <= HOPS_LIMIT {
                let vi = g.vertices[i];
                let vj = g.vertices[j];
                let (ddx, ddy, d) = crate::force::deltas(vj, vi);
                if d > 0 {
                    let hmu = h * 1_000_000;
                    let diff = if d >= hmu {
                        d - hmu
                    } else {
                        hmu - d
                    };
                    proof {
                        assert((d as int) * (h as int) >= 1 && (d as int) * (h as int)
                            <= 141_421_356_000_000int && (d as int) * (h as int) * (h as int) >= 1
                            && (d as int) * (h as int) * (h as int)
                            <= 141_421_356_000_000_000_000_000_000int) by (nonlinear_arith)
                            requires
                                1 <= d <= 141_421_356,
                                1 <= h <= 1_000_000,
                        ;
                    }
                    let e = (d as u128) * (h as u128) * (h as u128);
                    let mx = mul3_div(abs_i64(ddx), diff, 1, e);
                    let my = mul3_div(abs_i64(ddy), diff, 1, e);
                    let toward_x = (ddx >= 0) == (d >= hmu);
                    let toward_y = (ddy >= 0) == (d >= hmu);
                    let sx: i128 = if toward_x {
                        mx as i128
                    } else {
                        -(mx as i128)
                    };
                    let sy: i128 = if toward_y {
                        my as i128
                    } else {
                        -(my as i128)
                    };
                    let nx = clamp_canvas((vi.x as i128) + sx);
                    let ny = clamp_canvas((vi.y as i128) + sy);
                    g.vertices.set(i, Vertex { x: nx, y: ny });
                }
            }
        }
        proof {
            assert(mds_pos(vsq, *table, i as int, (j + 1) as nat) == mds_pos_step(
                vsq,
                *table,
                i as int,
                j as int,
                cur,
            ));
            assert(g.vertices@[i as int] == mds_pos_step(vsq, *table, i as int, j as int, cur));
            assert(g.vertices@ =~= vsq.update(
                i as int,
                mds_pos(vsq, *table, i as int, (j + 1) as nat),
            ));
        }
        j = j + 1;
    }
    proof {
        if no_finite_neighbor(*table, i as int, n as int) {
            assert(g.vertices@ =~= old(g).vertices@);
        }
    }
}

/// One multidimensional-scaling pass: update every vertex in index
/// order, each against the state its predecessors left.
pub open spec fn mds_pass(vs: Seq<Vertex>, t: DistanceTable, i: nat) -> Seq<Vertex>
    decreases i,
{
    if i == 0 {
        vs
    } else {
        let prev = mds_pass(vs, t, (i - 1) as nat);
        prev.update(i - 1, mds_pos(prev, t, i - 1, prev.len()))
    }
}

/// The positions after `it` full multidimensional-scaling passes.
pub open spec fn mds_rounds(vs: Seq<Vertex>, t: DistanceTable, it: nat) -> Seq<Vertex>
    decreases it,
{
    if it == 0 {
        vs
    } else {
        mds_pass(mds_rounds(vs, t, (it - 1) as nat), t, vs.len())
    }
}

/// The multidimensional-scaling layout: randomize, build the oracle,
/// then nudge every vertex toward or away from each finite-distance
/// counterpart by the weighted distance error.  The result is
/// `mds_rounds` over some in-canvas random placement and the
/// (uniquely determined) distance table.
pub fn multidimensional_scaling(g: &mut Graph, iterations: usize)
    requires
        old(g).wf(),
        old(g).vertices@.len() * old(g).vertices@.len() <= usize::MAX,
    ensures
        final(g).wf(),
        final(g).edges@ == old(g).edges@,
        final(g).vertices@.len() == old(g).vertices@.len(),
        exists|init: Seq<Vertex>, t: DistanceTable|
            {
                &&& init.len() == old(g).vertices@.len()
                &&& (forall|a: int| 0 <= a < init.len() ==> crate::graph::in_draw_range(#[trigger] init[a]))
                &&& table_for(t, old(g).edges@, old(g).vertices@.len())
                &&& final(g).vertices@ == #[trigger] mds_rounds(init, t, iterations as nat)
            },
{
    random_layout(g);
    let table = build_distance_table(g);
    let ghost init = g.vertices@;
    let ghost nn = g.vertices@.len();
    let mut it: usize = 0;
    while it < iterations
        invariant
            it <= iterations,
            g.wf(),
            g.edges@ == old(g).edges@,
            g.vertices@.len() == nn,
            nn == init.len(),
            forall|a: int| 0 <= a < init.len() ==> crate::graph::in_draw_range(#[trigger] init[a]),
            table_for(table, old(g).edges@, nn),
            table.wf(),
            table.n == nn,
            g.vertices@ == mds_rounds(init, table, it as nat),
        decreases iterations - it,
    {
        let ghost round_start = g.vertices@;
        let n = g.vertices.len();
        let mut i: usize = 0;
        while i < n
            invariant
                i <= n,
                n == g.vertices@.len(),
                n == nn,
                g.wf(),
                g.edges@ == old(g).edges@,
                table.wf(),
                table.n == n,
                round_start.len() == n,
                g.vertices@ == mds_pass(round_start, table, i as nat),
            decreases n - i,
        {
            let ghost prev = g.vertices@;
            mds_step(g, &table, i);
            proof {
                assert(mds_pass(round_start, table, (i + 1) as nat) == prev.update(
                    i as int,
                    mds_pos(prev, table, i as int, prev.len()),
                ));
            }
            i = i + 1;
        }
        proof {
            assert(mds_rounds(init, table, (it + 1) as nat) == mds_pass(
                mds_rounds(init, table, it as nat),
                table,
                init.len(),
            ));
        }
        it = it + 1;
    }
    proof {
        assert(g.vertices@ == mds_rounds(init, table, iterations as nat));
    }
}

/// One Kamada-Kawai force contribution folded into the accumulator
/// pair: the relative distance error `(d - ideal) / ideal` along the
/// unit vector toward counterpart `j`, saturating; the vertex
/// itself, unusable ideal distances and coincident pairs contribute
/// nothing.
pub open spec fn kamada_force_step(
    vs: Seq<Vertex>,
    t: DistanceTable,
    i: int,
    j: int,
    acc: (i64, i64),
) -> (i64, i64) {
    if j == i {
        acc
    } else {
        let h = t.at(i, j) as int;
        if !(1 <= h <= HOPS_LIMIT) {
            acc
        } else {
            let ddx = vs[j].x - vs[i].x;
            let ddy = vs[j].y - vs[i].y;
            let d = pair_distance(vs[j], vs[i]) as int;
            if d == 0 {
                acc
            } else {
                let hmu = h * 1_000_000;
                let diff = abs_spec(d - hmu);
                let mx = abs_spec(ddx) * diff * (SCALE as int) / (hmu * d);
                let my = abs_spec(ddy) * diff * (SCALE as int) / (hmu * d);
                (
                    disp_clamped(acc.0 + signed(mx, (ddx >= 0) == (d >= hmu))) as i64,
                    disp_clamped(acc.1 + signed(my, (ddy >= 0) == (d >= hmu))) as i64,
                )
            }
        }
    }
}

/// The Kamada-Kawai force on vertex `i` from the first `j` vertices.
pub open spec fn kamada_force(vs: Seq<Vertex>, t: DistanceTable, i: int, j: nat) -> (i64, i64)
    decreases j,
{
    if j == 0 {
        (0i64, 0i64)
    } else {
        kamada_force_step(vs, t, i, j - 1, kamada_force(vs, t, i, (j - 1) as nat))
    }
}

/// Where one Kamada-Kawai move puts vertex `i`: against its
/// accumulated force, clamped into the canvas.
pub open spec fn kamada_moved(vs: Seq<Vertex>, t: DistanceTable, i: int) -> Vertex {
    let f = kamada_force(vs, t, i, vs.len());
    (Vertex {
        x: canvas_clamped(vs[i].x - f.0) as i64,
        y: canvas_clamped(vs[i].y - f.1) as i64,
    })
}

/// One Kamada-Kawai move of vertex `i`: accumulate the relative
/// distance error along the unit vector toward every finite-distance
/// counterpart, then move against the accumulated force.  The result
/// is pinned to `kamada_moved`; a vertex with no finite counterpart
/// keeps its position, and no other vertex moves.
fn kamada_step(g: &mut Graph, table: &DistanceTable, i: usize)
    requires
        old(g).wf(),
        table.wf(),
        table.n == old(g).vertices@.len(),
        i < old(g).vertices@.len(),
    ensures
        final(g).wf(),
        final(g).edges@ == old(g).edges@,
        final(g).vertices@.len() == old(g).vertices@.len(),
        final(g).vertices@ == old(g).vertices@.update(
            i as int,
            kamada_moved(old(g).vertices@, *table, i as int),
        ),
        forall|a: int|
            0 <= a < final(g).vertices@.len() && a != i
                ==> final(g).vertices@[a] == old(g).vertices@[a],
        no_finite_neighbor(*table, i as int, old(g).vertices@.len() as int)
            ==> final(g).vertices@ == old(g).vertices@,
{
    let n = g.vertices.len();
    let ghost vsq = old(g).vertices@;
    let mut fx: i64 = 0;
    let mut fy: i64 = 0;
    let mut j: usize = 0;
    while j < n
        invariant
            j <= n,
            n == g.vertices@.len(),
            i < n,
            g.wf(),
            g.vertices@ == old(g).vertices@,
            g.edges@ == old(g).edges@,
            vsq == old(g).vertices@,
            table.wf(),
            table.n == n,
            -DISP_LIMIT <= fx <= DISP_LIMIT,
            -DISP_LIMIT <= fy <= DISP_LIMIT,
            (fx, fy) == kamada_force(vsq, *table, i as int, j as nat),
            no_finite_neighbor(*table, i as int, n as int) ==> fx == 0 && fy == 0,
        decreases n - j,
    {
        let ghost acc = (fx, fy);
        if j != i {
            let h = table.get(i, j);
            if 1 <= h && h <= HOPS_LIMIT {
                let vi = g.vertices[i];
                let vj = g.vertices[j];
                let (ddx, ddy, d) = crate::force::deltas(vj, vi);
                if d > 0 {
                    let hmu = h * 1_000_000;
                    let diff = if d >= hmu {
                        d - hmu
                    } else {
                        hmu - d
                    };
                    proof {
                        assert((hmu as int) * (d as int) >= 1 && (hmu as int) * (d as int)
                            <= 141_421_356_000_000_000_000int) by (nonlinear_arith)
                            requires
                                1 <= d <= 141_421_356,
                                1_000_000 <= hmu <= 1_000_000_000_000,
                        ;
                    }
                    let e = (hmu as u128) * (d as u128);
                    let mx = mul3_div(abs_i64(ddx), diff, SCALE as u64, e);
                    let my = mul3_div(abs_i64(ddy), diff, SCALE as u64, e);
                    let toward_x = (ddx >= 0) == (d >= hmu);
                    let toward_y = (ddy >= 0) == (d >= hmu);
                    fx = disp_add(fx, if toward_x {
                        mx as i128
                    } else {
                        -(mx as i128)
                    });
                    fy = disp_add(fy, if toward_y {
                        my as i128
                    } else {
                        -(my as i128)
                    });
                }
            }
        }
        proof {
            assert(kamada_force(vsq, *table, i as int, (j + 1) as nat) == kamada_force_step(
                vsq,
                *table,
                i as int,
                j as int,
                acc,
            ));
            assert((fx, fy) == kamada_force_step(vsq, *table, i as int, j as int, acc));
        }
        j = j + 1;
    }
    let v = g.vertices[i];
    let nx = clamp_canvas((v.x as i128) - (fx as i128));
    let ny = clamp_canvas((v.y as i128) - (fy as i128));
    g.vertices.set(i, Vertex { x: nx, y: ny });
    proof {
        assert(g.vertices@ == vsq.update(i as int, kamada_moved(vsq, *table, i as int)));
        if no_finite_neighbor(*table, i as int, n as int) {
            assert(g.vertices@ =~= old(g).vertices@);
        }
    }
}

/// One Kamada-Kawai pass: update every vertex in index order, each
/// against the state its predecessors left.
pub open spec fn kamada_pass(vs: Seq<Vertex>, t: DistanceTable, i: nat) -> Seq<Vertex>
    decreases i,
{
    if i == 0 {
        vs
    } else {
        let prev = kamada_pass(vs, t, (i - 1) as nat);
        prev.update(i - 1, kamada_moved(prev, t, i - 1))
    }
}

/// The positions after `it` full Kamada-Kawai passes.
pub open spec fn kamada_rounds(vs: Seq<Vertex>, t: DistanceTable, it: nat) -> Seq<Vertex>
    decreases it,
{
    if it == 0 {
        vs
    } else {
        kamada_pass(kamada_rounds(vs, t, (it - 1) as nat), t, vs.len())
    }
}

/// The Kamada-Kawai layout: randomize, build the oracle, then per
/// iteration move every vertex against its accumulated relative
/// distance error.  The result is `kamada_rounds` over some
/// in-canvas random placement and the (uniquely determined) distance
/// table.
pub fn kamada_kawai(g: &mut Graph, iterations: usize)
    requires
        old(g).wf(),
        old(g).vertices@.len() * old(g).vertices@.len() <= usize::MAX,
    ensures
        final(g).wf(),
        final(g).edges@ == old(g).edges@,
        final(g).vertices@.len() == old(g).vertices@.len(),
        exists|init: Seq<Vertex>, t: DistanceTable|
            {
                &&& init.len() == old(g).vertices@.len()
                &&& (forall|a: int| 0 <= a < init.len() ==> crate::graph::in_draw_range(#[trigger] init[a]))
                &&& table_for(t, old(g).edges@, old(g).vertices@.len())
                &&& final(g).vertices@ == #[trigger] kamada_rounds(init, t, iterations as nat)
            },
{
    random_layout(g);
    let table = build_distance_table(g);
    let ghost init = g.vertices@;
    let ghost nn = g.vertices@.len();
    let mut it: usize = 0;
    while it < iterations
        invariant
            it <= iterations,
            g.wf(),
            g.edges@ == old(g).edges@,
            g.vertices@.len() == nn,
            nn == init.len(),
            forall|a: int| 0 <= a < init.len() ==> crate::graph::in_draw_range(#[trigger] init[a]),
            table_for(table, old(g).edges@, nn),
            table.wf(),
            table.n == nn,
            g.vertices@ == kamada_rounds(init, table, it as nat),
        decreases iterations - it,
    {
        let ghost round_start = g.vertices@;
        let n = g.vertices.len();
        let mut i: usize = 0;
        while i < n
            invariant
                i <= n,
                n == g.vertices@.len(),
                n == nn,
                g.wf(),
                g.edges@ == old(g).edges@,
                table.wf(),
                table.n == n,
                round_start.len() == n,
                g.vertices@ == kamada_pass(round_start, table, i as nat),
            decreases n - i,
        {
            let ghost prev = g.vertices@;
            kamada_step(g, &table, i);
            proof {
                assert(kamada_pass(round_start, table, (i + 1) as nat) == prev.update(
                    i as int,
                    kamada_moved(prev, table, i as int),
                ));
            }
            i = i + 1;
        }
        proof {
            assert(kamada_rounds(init, table, (it + 1) as nat) == kamada_pass(
                kamada_rounds(init, table, it as nat),
                table,
                init.len(),
            ));
        }
        it = it + 1;
    }
    proof {
        assert(g.vertices@ == kamada_rounds(init, table, iterations as nat));
    }
}

} // verus!
