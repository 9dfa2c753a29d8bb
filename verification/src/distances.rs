//! The distance oracle: the all-pairs shortest-hop-count matrix,
//! computed by Floyd-Warshall over the undirected reading of the
//! edge list.
//!
//! The contract is exact: entry `(i, j)` is a lower bound on the hop
//! count of every walk from `i` to `j` (`lb_holds`), and every finite
//! entry is witnessed by such a walk (`ub_holds`).  Together the two
//! clauses pin each entry to the shortest-walk distance, with
//! `INFINITE_HOPS` for unreachable pairs.

use vstd::prelude::*;
use crate::graph::{Edge, Graph, lemma_endpoints_in_range};

verus! {

/// The value an unreachable pair holds.
pub const INFINITE_HOPS: u64 = 0xffff_ffff_ffff_ffff;

/// Whether some edge of the list joins `a` and `b`, in either
/// direction.
pub open spec fn edge_between(edges: Seq<Edge>, a: int, b: int) -> bool {
    exists|x: int|
        0 <= x < edges.len() && (((#[trigger] edges[x]).source == a && edges[x].target == b) || (
        edges[x].source == b && edges[x].target == a))
}

/// A walk of at most `m` hops from `i` to `j` whose intermediate
/// vertices all lie below `k`.
pub open spec fn linked(edges: Seq<Edge>, i: int, j: int, m: nat, k: int) -> bool
    decreases m,
{
    i == j || (m > 0 && exists|t: int|
        #[trigger] edge_between(edges, i, t) && (t == j || (0 <= t < k && linked(
            edges,
            t,
            j,
            (m - 1) as nat,
            k,
        ))))
}

/// Every endpoint of the edge list lies below `n`.
pub open spec fn edges_below(edges: Seq<Edge>, n: int) -> bool {
    forall|x: int|
        0 <= x < edges.len() ==> (#[trigger] edges[x]).source < n && edges[x].target < n
}

/// The entry of a flat row-major `n` by `n` matrix.
pub open spec fn mat_at(d: Seq<u64>, n: int, i: int, j: int) -> u64 {
    d[i * n + j]
}

/// Every entry is a lower bound on the hop count of every walk with
/// intermediates below `k`.
pub open spec fn lb_holds(d: Seq<u64>, n: int, edges: Seq<Edge>, k: int) -> bool {
    forall|i: int, j: int, m: nat|
        0 <= i < n && 0 <= j < n && #[trigger] linked(edges, i, j, m, k) ==> mat_at(d, n, i, j)
            <= m
}

/// Every finite entry is witnessed by a walk of exactly that many
/// hops with intermediates below `k`.
pub open spec fn ub_holds(d: Seq<u64>, n: int, edges: Seq<Edge>, k: int) -> bool {
    forall|i: int, j: int|
        0 <= i < n && 0 <= j < n && #[trigger] mat_at(d, n, i, j) < INFINITE_HOPS ==> linked(
            edges,
            i,
            j,
            mat_at(d, n, i, j) as nat,
            k,
        )
}

/// The diagonal is zero.
pub open spec fn diag_zero(d: Seq<u64>, n: int) -> bool {
    forall|i: int| 0 <= i < n ==> #[trigger] mat_at(d, n, i, i) == 0
}

/// One Floyd-Warshall relaxation of entry `dij` through vertex `k`.
pub open spec fn relax(dij: u64, dik: u64, dkj: u64) -> u64 {
    if dik == INFINITE_HOPS || dkj == INFINITE_HOPS {
        dij
    } else if dik + dkj < dij {
        (dik + dkj) as u64
    } else {
        dij
    }
}

/// The all-pairs shortest-hop matrix of one graph.
pub struct DistanceTable {
    /// The vertex count.
    pub n: usize,
    /// The matrix, flat in row-major order.
    pub dist: Vec<u64>,
}

impl DistanceTable {
    /// The matrix is square with side `n`.
    pub open spec fn wf(self) -> bool {
        self.dist@.len() == self.n * self.n
    }

    /// The entry for the pair `(i, j)`.
    pub open spec fn at(self, i: int, j: int) -> u64 {
        mat_at(self.dist@, self.n as int, i, j)
    }

    /// Read the entry for the pair `(i, j)`.
    pub fn get(&self, i: usize, j: usize) -> (r: u64)
        requires
            self.wf(),
            i < self.n,
            j < self.n,
        ensures
            r == self.at(i as int, j as int),
    {
        mat_get(&self.dist, self.n, i, j)
    }
}

/// Distinct in-range pairs name distinct flat indices.
proof fn lemma_mat_index_unique(n: int, i: int, j: int, a: int, b: int)
    requires
        0 <= i < n,
        0 <= j < n,
        0 <= a < n,
        0 <= b < n,
        i * n + j == a * n + b,
    ensures
        i == a && j == b,
{
    assert(i == a && j == b) by (nonlinear_arith)
        requires
            0 <= i < n,
            0 <= j < n,
            0 <= a < n,
            0 <= b < n,
            i * n + j == a * n + b,
    ;
}

/// Read one entry of a flat matrix.
fn mat_get(d: &Vec<u64>, n: usize, i: usize, j: usize) -> (r: u64)
    requires
        d@.len() == n * n,
        i < n,
        j < n,
    ensures
        r == mat_at(d@, n as int, i as int, j as int),
{
    proof {
        assert(i * n + j < n * n) by (nonlinear_arith)
            requires
                i < n,
                j < n,
        ;
    }
    let total = d.len();
    d[i * n + j]
}

/// Write one entry of a flat matrix, leaving every other entry alone.
fn mat_set(d: &mut Vec<u64>, n: usize, i: usize, j: usize, v: u64)
    requires
        old(d)@.len() == n * n,
        i < n,
        j < n,
    ensures
        final(d)@.len() == n * n,
        mat_at(final(d)@, n as int, i as int, j as int) == v,
        forall|a: int, b: int|
            0 <= a < n && 0 <= b < n && !(a == i && b == j) ==> mat_at(
                final(d)@,
                n as int,
                a,
                b,
            ) == mat_at(old(d)@, n as int, a, b),
{
    proof {
        assert(i * n + j < n * n) by (nonlinear_arith)
            requires
                i < n,
                j < n,
        ;
    }
    let total = d.len();
    d.set(i * n + j, v);
    proof {
        assert forall|a: int, b: int|
            0 <= a < n && 0 <= b < n && !(a == i && b == j) implies mat_at(
            d@,
            n as int,
            a,
            b,
        ) == mat_at(old(d)@, n as int, a, b) by {
            assert(0 <= a * (n as int) + b < n * n) by (nonlinear_arith)
                requires
                    0 <= a < n,
                    0 <= b < n,
            ;
            if a * (n as int) + b == i * (n as int) + j {
                lemma_mat_index_unique(n as int, i as int, j as int, a, b);
            }
        }
    }
}

// ---------------------------------------------------------------------------
// Walk lemmas
// ---------------------------------------------------------------------------

/// A walk bound can always be loosened.
proof fn lemma_linked_mono_m(edges: Seq<Edge>, i: int, j: int, m: nat, m2: nat, k: int)
    requires
        linked(edges, i, j, m, k),
        m <= m2,
    ensures
        linked(edges, i, j, m2, k),
    decreases m,
{
    if i != j {
        let t = choose|t: int|
            #[trigger] edge_between(edges, i, t) && (t == j || (0 <= t < k && linked(
                edges,
                t,
                j,
                (m - 1) as nat,
                k,
            )));
        if t != j {
            lemma_linked_mono_m(edges, t, j, (m - 1) as nat, (m2 - 1) as nat, k);
        }
    }
}

/// The intermediate bound can always be loosened.
proof fn lemma_linked_mono_k(edges: Seq<Edge>, i: int, j: int, m: nat, k: int, k2: int)
    requires
        linked(edges, i, j, m, k),
        k <= k2,
    ensures
        linked(edges, i, j, m, k2),
    decreases m,
{
    if i != j {
        let t = choose|t: int|
            #[trigger] edge_between(edges, i, t) && (t == j || (0 <= t < k && linked(
                edges,
                t,
                j,
                (m - 1) as nat,
                k,
            )));
        if t != j {
            lemma_linked_mono_k(edges, t, j, (m - 1) as nat, k, k2);
        }
    }
}

/// Two walks that meet at a vertex below `k2` join into one.
proof fn lemma_linked_concat(
    edges: Seq<Edge>,
    i: int,
    v: int,
    j: int,
    a: nat,
    b: nat,
    k: int,
    k2: int,
)
    requires
        linked(edges, i, v, a, k),
        linked(edges, v, j, b, k),
        0 <= v < k2,
        k <= k2,
    ensures
        linked(edges, i, j, (a + b) as nat, k2),
    decreases a,
{
    if i == v {
        lemma_linked_mono_k(edges, v, j, b, k, k2);
        lemma_linked_mono_m(edges, i, j, b, (a + b) as nat, k2);
    } else {
        let t = choose|t: int|
            #[trigger] edge_between(edges, i, t) && (t == v || (0 <= t < k && linked(
                edges,
                t,
                v,
                (a - 1) as nat,
                k,
            )));
        if t == v {
            lemma_linked_mono_k(edges, v, j, b, k, k2);
            assert(linked(edges, i, j, (b + 1) as nat, k2));
            lemma_linked_mono_m(edges, i, j, (b + 1) as nat, (a + b) as nat, k2);
        } else {
            lemma_linked_concat(edges, t, v, j, (a - 1) as nat, b, k, k2);
            assert(linked(edges, i, j, (a + b) as nat, k2));
        }
    }
}

/// A walk extends by one edge at its far end.
proof fn lemma_linked_append(edges: Seq<Edge>, x: int, t: int, y: int, m: nat, k: int)
    requires
        linked(edges, x, t, m, k),
        edge_between(edges, t, y),
        0 <= t < k,
    ensures
        linked(edges, x, y, (m + 1) as nat, k),
    decreases m,
{
    if x == t {
        assert(linked(edges, x, y, 1, k));
        lemma_linked_mono_m(edges, x, y, 1, (m + 1) as nat, k);
    } else {
        let u = choose|u: int|
            #[trigger] edge_between(edges, x, u) && (u == t || (0 <= u < k && linked(
                edges,
                u,
                t,
                (m - 1) as nat,
                k,
            )));
        if u == t {
            assert(linked(edges, t, y, 1, k));
            lemma_linked_mono_m(edges, t, y, 1, m, k);
        } else {
            lemma_linked_append(edges, u, t, y, (m - 1) as nat, k);
        }
        assert(linked(edges, x, y, (m + 1) as nat, k));
    }
}

/// Edges are undirected, so every walk reverses.
proof fn lemma_linked_reverse(edges: Seq<Edge>, i: int, j: int, m: nat, k: int)
    requires
        linked(edges, i, j, m, k),
    ensures
        linked(edges, j, i, m, k),
    decreases m,
{
    if i != j {
        let t = choose|t: int|
            #[trigger] edge_between(edges, i, t) && (t == j || (0 <= t < k && linked(
                edges,
                t,
                j,
                (m - 1) as nat,
                k,
            )));
        if t == j {
            assert(edge_between(edges, j, i));
            assert(linked(edges, j, i, 1, k));
            lemma_linked_mono_m(edges, j, i, 1, m, k);
        } else {
            lemma_linked_reverse(edges, t, j, (m - 1) as nat, k);
            assert(edge_between(edges, t, i));
            lemma_linked_append(edges, j, t, i, (m - 1) as nat, k);
        }
    }
}

// ---------------------------------------------------------------------------
// The Floyd-Warshall pass
// ---------------------------------------------------------------------------

/// One pass keeps every entry a lower bound: a walk through
/// intermediates below `k + 1` costs at least the relaxed entry.
proof fn lemma_lb_step(
    edges: Seq<Edge>,
    m0: Seq<u64>,
    n: int,
    k: int,
    i: int,
    j: int,
    m: nat,
)
    requires
        0 <= k < n,
        0 <= i < n,
        0 <= j < n,
        edges_below(edges, n),
        diag_zero(m0, n),
        lb_holds(m0, n, edges, k),
        ub_holds(m0, n, edges, k),
        linked(edges, i, j, m, k + 1),
    ensures
        relax(mat_at(m0, n, i, j), mat_at(m0, n, i, k), mat_at(m0, n, k, j)) <= m,
    decreases m,
{
    let dij = mat_at(m0, n, i, j);
    let dik = mat_at(m0, n, i, k);
    let dkj = mat_at(m0, n, k, j);
    if m >= INFINITE_HOPS {
        // every entry fits in a machine word
    } else if i == j {
        assert(dij == 0);
    } else {
        let t = choose|t: int|
            #[trigger] edge_between(edges, i, t) && (t == j || (0 <= t < k + 1 && linked(
                edges,
                t,
                j,
                (m - 1) as nat,
                k + 1,
            )));
        assert(0 <= t < n) by {
            let x = choose|x: int|
                0 <= x < edges.len() && (((#[trigger] edges[x]).source == i && edges[x].target
                    == t) || (edges[x].source == t && edges[x].target == i));
            assert(edges[x].source < n && edges[x].target < n);
        }
        if t == j {
            assert(linked(edges, i, j, 1, k));
            assert(dij <= 1);
        } else if t == k {
            lemma_lb_step(edges, m0, n, k, k, j, (m - 1) as nat);
            assert(mat_at(m0, n, k, k) == 0);
            assert(relax(dkj, 0, dkj) == dkj);
            assert(dkj <= m - 1);
            assert(linked(edges, i, k, 1, k));
            assert(dik <= 1);
            assert(relax(dij, dik, dkj) <= dik + dkj);
        } else {
            lemma_lb_step(edges, m0, n, k, t, j, (m - 1) as nat);
            let dtj = mat_at(m0, n, t, j);
            let dtk = mat_at(m0, n, t, k);
            if relax(dtj, dtk, dkj) == dtj && dtj <= m - 1 {
                assert(linked(edges, t, j, dtj as nat, k));
                lemma_linked_reverse(edges, t, j, dtj as nat, k);
                lemma_linked_append(edges, j, t, i, dtj as nat, k);
                lemma_linked_reverse(edges, j, i, (dtj + 1) as nat, k);
                assert(dij <= dtj + 1);
            } else {
                assert(dtk != INFINITE_HOPS && dkj != INFINITE_HOPS);
                assert(dtk + dkj <= m - 1);
                assert(linked(edges, t, k, dtk as nat, k));
                lemma_linked_reverse(edges, t, k, dtk as nat, k);
                lemma_linked_append(edges, k, t, i, dtk as nat, k);
                lemma_linked_reverse(edges, k, i, (dtk + 1) as nat, k);
                assert(dik <= dtk + 1);
                assert(relax(dij, dik, dkj) <= dik + dkj);
            }
        }
    }
}

/// One pass keeps every finite entry witnessed by a walk through
/// intermediates below `k + 1`.
proof fn lemma_ub_step(edges: Seq<Edge>, m0: Seq<u64>, n: int, k: int, i: int, j: int)
    requires
        0 <= k < n,
        0 <= i < n,
        0 <= j < n,
        lb_holds(m0, n, edges, k),
        ub_holds(m0, n, edges, k),
        relax(mat_at(m0, n, i, j), mat_at(m0, n, i, k), mat_at(m0, n, k, j)) < INFINITE_HOPS,
    ensures
        linked(
            edges,
            i,
            j,
            relax(mat_at(m0, n, i, j), mat_at(m0, n, i, k), mat_at(m0, n, k, j)) as nat,
            k + 1,
        ),
{
    let dij = mat_at(m0, n, i, j);
    let dik = mat_at(m0, n, i, k);
    let dkj = mat_at(m0, n, k, j);
    let r = relax(dij, dik, dkj);
    if dik != INFINITE_HOPS && dkj != INFINITE_HOPS && dik + dkj < dij {
        assert(linked(edges, i, k, dik as nat, k));
        assert(linked(edges, k, j, dkj as nat, k));
        lemma_linked_concat(edges, i, k, j, dik as nat, dkj as nat, k, k + 1);
    } else {
        assert(r == dij);
        assert(linked(edges, i, j, dij as nat, k));
        lemma_linked_mono_k(edges, i, j, dij as nat, k, k + 1);
    }
}

// ---------------------------------------------------------------------------
// Seeding
// ---------------------------------------------------------------------------

/// What seeding gives a pair: zero on the diagonal, one across an
/// edge, unreachable otherwise.
pub open spec fn seed_val(edges: Seq<Edge>, i: int, j: int) -> u64 {
    if i == j {
        0
    } else if edge_between(edges, i, j) {
        1
    } else {
        INFINITE_HOPS
    }
}

/// Appending one edge to the list adds exactly its pair to the
/// relation.
proof fn lemma_edge_between_take(edges: Seq<Edge>, c: int, i: int, j: int)
    requires
        0 <= c < edges.len(),
    ensures
        edge_between(edges.take(c + 1), i, j) <==> (edge_between(edges.take(c), i, j) || (
        edges[c].source == i && edges[c].target == j) || (edges[c].source == j && edges[c].target
            == i)),
{
    let pre = edges.take(c);
    let ext = edges.take(c + 1);
    if edge_between(ext, i, j) {
        let x = choose|x: int|
            0 <= x < ext.len() && (((#[trigger] ext[x]).source == i && ext[x].target == j) || (
            ext[x].source == j && ext[x].target == i));
        if x < c {
            assert(pre[x] == ext[x]);
            assert(edge_between(pre, i, j));
        } else {
            assert(ext[x] == edges[c]);
        }
    }
    if edge_between(pre, i, j) {
        let x = choose|x: int|
            0 <= x < pre.len() && (((#[trigger] pre[x]).source == i && pre[x].target == j) || (
            pre[x].source == j && pre[x].target == i));
        assert(ext[x] == pre[x]);
        assert(edge_between(ext, i, j));
    }
    if (edges[c].source == i && edges[c].target == j) || (edges[c].source == j && edges[c].target
        == i) {
        assert(ext[c] == edges[c]);
        assert(edge_between(ext, i, j));
    }
}

/// The seeded matrix is exact for walks with no intermediates.
proof fn lemma_seed_level0(d: Seq<u64>, n: int, edges: Seq<Edge>)
    requires
        forall|i: int, j: int|
            0 <= i < n && 0 <= j < n ==> #[trigger] mat_at(d, n, i, j) == seed_val(edges, i, j),
    ensures
        diag_zero(d, n),
        lb_holds(d, n, edges, 0),
        ub_holds(d, n, edges, 0),
{
    assert forall|i: int, j: int, m: nat|
        0 <= i < n && 0 <= j < n && #[trigger] linked(edges, i, j, m, 0) implies mat_at(
        d,
        n,
        i,
        j,
    ) <= m by {
        if i != j {
            let t = choose|t: int|
                #[trigger] edge_between(edges, i, t) && (t == j || (0 <= t < 0 && linked(
                    edges,
                    t,
                    j,
                    (m - 1) as nat,
                    0,
                )));
            assert(t == j);
            assert(mat_at(d, n, i, j) == 1);
        }
    }
    assert forall|i: int, j: int|
        0 <= i < n && 0 <= j < n && #[trigger] mat_at(d, n, i, j) < INFINITE_HOPS implies linked(
        edges,
        i,
        j,
        mat_at(d, n, i, j) as nat,
        0,
    ) by {
        if i != j {
            assert(edge_between(edges, i, j));
            assert(linked(edges, i, j, 1, 0));
        }
    }
}

// ---------------------------------------------------------------------------
// Building the table
// ---------------------------------------------------------------------------

/// Build the all-pairs shortest-hop matrix of a graph.
pub fn build_distance_table(g: &Graph) -> (t: DistanceTable)
    requires
        g.wf(),
        g.vertices@.len() * g.vertices@.len() <= usize::MAX,
    ensures
        t.wf(),
        t.n == g.vertices@.len(),
        diag_zero(t.dist@, t.n as int),
        lb_holds(t.dist@, t.n as int, g.edges@, t.n as int),
        ub_holds(t.dist@, t.n as int, g.edges@, t.n as int),
{
    let n = g.vertices.len();
    let nn = n * n;
    let ghost edges = g.edges@;
    proof {
        assert forall|x: int| 0 <= x < edges.len() implies (#[trigger] edges[x]).source < n
            && edges[x].target < n by {
            lemma_endpoints_in_range(edges, x);
        }
    }
    let mut dist: Vec<u64> = Vec::new();
    while dist.len() < nn
        invariant
            dist@.len() <= nn,
            forall|idx: int| 0 <= idx < dist@.len() ==> dist@[idx] == INFINITE_HOPS,
        decreases nn - dist@.len(),
    {
        dist.push(INFINITE_HOPS);
    }
    proof {
        assert forall|a: int, b: int| 0 <= a < n && 0 <= b < n implies #[trigger] mat_at(
            dist@,
            n as int,
            a,
            b,
        ) == INFINITE_HOPS by {
            assert(0 <= a * (n as int) + b < n * n) by (nonlinear_arith)
                requires
                    0 <= a < n,
                    0 <= b < n,
            ;
        }
    }
    // the diagonal
    let mut i: usize = 0;
    while i < n
        invariant
            i <= n,
            dist@.len() == n * n,
            forall|a: int, b: int|
                0 <= a < n && 0 <= b < n && a != b ==> #[trigger] mat_at(
                    dist@,
                    n as int,
                    a,
                    b,
                ) == INFINITE_HOPS,
            forall|a: int|
                0 <= a < i ==> #[trigger] mat_at(dist@, n as int, a, a) == 0,
            forall|a: int|
                i <= a < n ==> #[trigger] mat_at(dist@, n as int, a, a) == INFINITE_HOPS,
        decreases n - i,
    {
        mat_set(&mut dist, n, i, i, 0);
        i = i + 1;
    }
    // the edges, both directions at once
    let mut c: usize = 0;
    while c < g.edges.len()
        invariant
            c <= g.edges@.len(),
            edges == g.edges@,
            dist@.len() == n * n,
            edges_below(edges, n as int),
            forall|a: int, b: int|
                0 <= a < n && 0 <= b < n ==> #[trigger] mat_at(dist@, n as int, a, b) == seed_val(
                    edges.take(c as int),
                    a,
                    b,
                ),
        decreases g.edges@.len() - c,
    {
        let e = g.edges[c];
        let ghost pre = dist@;
        if e.source != e.target {
            mat_set(&mut dist, n, e.source, e.target, 1);
            mat_set(&mut dist, n, e.target, e.source, 1);
        }
        proof {
            assert forall|a: int, b: int|
                0 <= a < n && 0 <= b < n implies #[trigger] mat_at(dist@, n as int, a, b)
                == seed_val(edges.take(c + 1), a, b) by {
                lemma_edge_between_take(edges, c as int, a, b);
                if a == b {
                    assert(mat_at(dist@, n as int, a, b) == mat_at(pre, n as int, a, b));
                } else if (edges[c as int].source == a && edges[c as int].target == b) || (
                edges[c as int].source == b && edges[c as int].target == a) {
                } else {
                    assert(mat_at(dist@, n as int, a, b) == mat_at(pre, n as int, a, b));
                }
            }
        }
        c = c + 1;
    }
    proof {
        assert(edges.take(edges.len() as int) == edges);
        lemma_seed_level0(dist@, n as int, edges);
    }
    // the Floyd-Warshall passes
    let mut k: usize = 0;
    while k < n
        invariant
            k <= n,
            dist@.len() == n * n,
            edges == g.edges@,
            edges_below(edges, n as int),
            diag_zero(dist@, n as int),
            lb_holds(dist@, n as int, edges, k as int),
            ub_holds(dist@, n as int, edges, k as int),
        decreases n - k,
    {
        let ghost m0 = dist@;
        let mut i: usize = 0;
        while i < n
            invariant
                i <= n,
                k < n,
                dist@.len() == n * n,
                edges == g.edges@,
                edges_below(edges, n as int),
                diag_zero(m0, n as int),
                lb_holds(m0, n as int, edges, k as int),
                ub_holds(m0, n as int, edges, k as int),
                forall|a: int, b: int|
                    0 <= a < n && 0 <= b < n && a < i ==> #[trigger] mat_at(
                        dist@,
                        n as int,
                        a,
                        b,
                    ) == relax(
                        mat_at(m0, n as int, a, b),
                        mat_at(m0, n as int, a, k as int),
                        mat_at(m0, n as int, k as int, b),
                    ),
                forall|a: int, b: int|
                    0 <= a < n && 0 <= b < n && a >= i ==> #[trigger] mat_at(
                        dist@,
                        n as int,
                        a,
                        b,
                    ) == mat_at(m0, n as int, a, b),
            decreases n - i,
        {
            let mut j: usize = 0;
            while j < n
                invariant
                    j <= n,
                    i < n,
                    k < n,
                    dist@.len() == n * n,
                    edges == g.edges@,
                    edges_below(edges, n as int),
                    diag_zero(m0, n as int),
                    lb_holds(m0, n as int, edges, k as int),
                    ub_holds(m0, n as int, edges, k as int),
                    forall|a: int, b: int|
                        0 <= a < n && 0 <= b < n && (a < i || (a == i && b < j)) ==> #[trigger] mat_at(
                            dist@,
                            n as int,
                            a,
                            b,
                        ) == relax(
                            mat_at(m0, n as int, a, b),
                            mat_at(m0, n as int, a, k as int),
                            mat_at(m0, n as int, k as int, b),
                        ),
                    forall|a: int, b: int|
                        0 <= a < n && 0 <= b < n && (a > i || (a == i && b >= j)) ==> #[trigger] mat_at(
                            dist@,
                            n as int,
                            a,
                            b,
                        ) == mat_at(m0, n as int, a, b),
                decreases n - j,
            {
                let dik = mat_get(&dist, n, i, k);
                let dkj = mat_get(&dist, n, k, j);
                let dij = mat_get(&dist, n, i, j);
                proof {
                    // row and column k never change during pass k: relaxing
                    // them through k itself is the identity, since the
                    // diagonal holds zero
                    assert(mat_at(m0, n as int, k as int, k as int) == 0);
                    if k < j {
                        assert(dik == relax(
                            mat_at(m0, n as int, i as int, k as int),
                            mat_at(m0, n as int, i as int, k as int),
                            0,
                        ));
                    }
                    assert(dik == mat_at(m0, n as int, i as int, k as int));
                    if k < i {
                        assert(dkj == relax(
                            mat_at(m0, n as int, k as int, j as int),
                            0,
                            mat_at(m0, n as int, k as int, j as int),
                        ));
                    }
                    assert(dkj == mat_at(m0, n as int, k as int, j as int));
                    assert(dij == mat_at(m0, n as int, i as int, j as int));
                }
                if dik != INFINITE_HOPS && dkj != INFINITE_HOPS {
                    match dik.checked_add(dkj) {
                        Some(s) => {
                            if s < dij {
                                mat_set(&mut dist, n, i, j, s);
                            }
                        },
                        None => {},
                    }
                }
                proof {
                    assert(mat_at(dist@, n as int, i as int, j as int) == relax(
                        mat_at(m0, n as int, i as int, j as int),
                        mat_at(m0, n as int, i as int, k as int),
                        mat_at(m0, n as int, k as int, j as int),
                    ));
                }
                j = j + 1;
            }
            i = i + 1;
        }
        proof {
            assert forall|a: int, b: int, m: nat|
                0 <= a < n && 0 <= b < n && #[trigger] linked(edges, a, b, m, k + 1) implies mat_at(
                dist@,
                n as int,
                a,
                b,
            ) <= m by {
                lemma_lb_step(edges, m0, n as int, k as int, a, b, m);
            }
            assert forall|a: int, b: int|
                0 <= a < n && 0 <= b < n && #[trigger] mat_at(dist@, n as int, a, b)
                < INFINITE_HOPS implies linked(
                edges,
                a,
                b,
                mat_at(dist@, n as int, a, b) as nat,
                k + 1,
            ) by {
                lemma_ub_step(edges, m0, n as int, k as int, a, b);
            }
            assert forall|a: int| 0 <= a < n implies #[trigger] mat_at(
                dist@,
                n as int,
                a,
                a,
            ) == 0 by {
                assert(mat_at(m0, n as int, a, a) == 0);
            }
        }
        k = k + 1;
    }
    DistanceTable { n, dist }
}

// ---------------------------------------------------------------------------
// Laws of the finished table
// ---------------------------------------------------------------------------

/// The matrix is symmetric: edges are read as undirected, so every
/// walk reverses, and both entries bound each other.
pub proof fn lemma_distance_symmetric(d: Seq<u64>, n: int, edges: Seq<Edge>, i: int, j: int)
    requires
        0 <= i < n,
        0 <= j < n,
        lb_holds(d, n, edges, n),
        ub_holds(d, n, edges, n),
    ensures
        mat_at(d, n, i, j) == mat_at(d, n, j, i),
{
    if mat_at(d, n, i, j) < INFINITE_HOPS {
        lemma_linked_reverse(edges, i, j, mat_at(d, n, i, j) as nat, n);
        assert(mat_at(d, n, j, i) <= mat_at(d, n, i, j));
    }
    if mat_at(d, n, j, i) < INFINITE_HOPS {
        lemma_linked_reverse(edges, j, i, mat_at(d, n, j, i) as nat, n);
        assert(mat_at(d, n, i, j) <= mat_at(d, n, j, i));
    }
}

/// The matrix obeys the triangle inequality wherever both legs are
/// finite.
pub proof fn lemma_distance_triangle(
    d: Seq<u64>,
    n: int,
    edges: Seq<Edge>,
    i: int,
    v: int,
    j: int,
)
    requires
        0 <= i < n,
        0 <= v < n,
        0 <= j < n,
        lb_holds(d, n, edges, n),
        ub_holds(d, n, edges, n),
        mat_at(d, n, i, v) < INFINITE_HOPS,
        mat_at(d, n, v, j) < INFINITE_HOPS,
    ensures
        mat_at(d, n, i, j) <= mat_at(d, n, i, v) + mat_at(d, n, v, j),
{
    lemma_linked_concat(
        edges,
        i,
        v,
        j,
        mat_at(d, n, i, v) as nat,
        mat_at(d, n, v, j) as nat,
        n,
        n,
    );
}

} // verus!
