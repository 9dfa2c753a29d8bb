//! The graph model: vertices with fixed-point positions, directed
//! edges read as undirected, and the derived vertex count.

use vstd::prelude::*;
use crate::fixed::COORD_MAX;
use crate::error::LayoutError;
use crate::codec::{parse_edges, parse_edge_list, parse_graph_text, parse_token, find_char};

verus! {

/// An edge of the wire format: an ordered pair of vertex indices,
/// interpreted as undirected by every algorithm.
#[derive(Clone, Copy, PartialEq, Eq, Structural, Debug)]
pub struct Edge {
    pub source: usize,
    pub target: usize,
}

/// A vertex: a position on the canvas, in micro-units.
#[derive(Clone, Copy, PartialEq, Eq, Structural, Debug)]
pub struct Vertex {
    pub x: i64,
    pub y: i64,
}

/// A graph: an ordered edge list plus one vertex per index up to the
/// greatest endpoint.
pub struct Graph {
    pub vertices: Vec<Vertex>,
    pub edges: Vec<Edge>,
}

/// The vertex count an edge list demands: one more than the greatest
/// endpoint, or zero when there are no edges.
pub open spec fn required_count(edges: Seq<Edge>) -> nat
    decreases edges.len(),
{
    if edges.len() == 0 {
        0
    } else {
        let rest = required_count(edges.drop_last());
        let e = edges.last();
        let m: nat = 1 + (if e.source >= e.target {
            e.source as nat
        } else {
            e.target as nat
        });
        if m > rest {
            m
        } else {
            rest
        }
    }
}

/// Whether a vertex sits inside the canvas `[0, COORD_MAX]^2`.
pub open spec fn in_canvas(v: Vertex) -> bool {
    0 <= v.x <= COORD_MAX && 0 <= v.y <= COORD_MAX
}

/// Whether a vertex sits in the half-open range `[0, COORD_MAX)^2`
/// that every fresh random draw comes from.
pub open spec fn in_draw_range(v: Vertex) -> bool {
    0 <= v.x < COORD_MAX && 0 <= v.y < COORD_MAX
}

impl Graph {
    /// Well-formedness: the vertex count is the one the edge list
    /// demands, and every position lies inside the canvas.
    pub open spec fn wf(self) -> bool {
        &&& self.vertices@.len() == required_count(self.edges@)
        &&& forall|i: int|
            0 <= i < self.vertices@.len() ==> in_canvas(#[trigger] self.vertices@[i])
    }

}

/// Every endpoint of a well-formed edge list is a valid vertex index.
pub proof fn lemma_endpoints_in_range(edges: Seq<Edge>, k: int)
    requires
        0 <= k < edges.len(),
    ensures
        edges[k].source < required_count(edges),
        edges[k].target < required_count(edges),
    decreases edges.len(),
{
    if k == edges.len() - 1 {
        assert(edges.last() == edges[k]);
    } else {
        lemma_endpoints_in_range(edges.drop_last(), k);
        assert(edges.drop_last()[k] == edges[k]);
    }
}

/// The derived count never shrinks when edges are appended.
pub proof fn lemma_required_count_prefix(edges: Seq<Edge>, n: int)
    requires
        0 <= n <= edges.len(),
    ensures
        required_count(edges.take(n)) <= required_count(edges),
    decreases edges.len() - n,
{
    if n == edges.len() {
        assert(edges.take(n) == edges);
    } else {
        lemma_required_count_prefix(edges, n + 1);
        assert(edges.take(n + 1).drop_last() == edges.take(n));
        assert(required_count(edges.take(n)) <= required_count(edges.take(n + 1)));
    }
}

/// Compute the vertex count an edge list demands.
pub fn required_vertex_count(edges: &Vec<Edge>) -> (n: usize)
    requires
        required_count(edges@) <= usize::MAX,
    ensures
        n == required_count(edges@),
{
    let mut n: usize = 0;
    let mut k: usize = 0;
    while k < edges.len()
        invariant
            k <= edges@.len(),
            n == required_count(edges@.take(k as int)),
            required_count(edges@) <= usize::MAX,
        decreases edges@.len() - k,
    {
        proof {
            lemma_required_count_prefix(edges@, k + 1);
            assert(edges@.take(k + 1).drop_last() == edges@.take(k as int));
            assert(edges@.take(k + 1).last() == edges@[k as int]);
        }
        let e = edges[k];
        let hi = if e.source >= e.target {
            e.source
        } else {
            e.target
        };
        if hi >= n {
            n = hi + 1;
        }
        k = k + 1;
    }
    proof {
        assert(edges@.take(edges@.len() as int) == edges@);
    }
    n
}

/// When every endpoint fits below `usize::MAX`, so does the derived
/// vertex count.
proof fn lemma_required_count_le(edges: Seq<Edge>)
    requires
        forall|k: int|
            0 <= k < edges.len() ==> (#[trigger] edges[k]).source < usize::MAX
                && edges[k].target < usize::MAX,
    ensures
        required_count(edges) <= usize::MAX,
    decreases edges.len(),
{
    if edges.len() > 0 {
        lemma_required_count_le(edges.drop_last());
        assert(edges.drop_last().len() == edges.len() - 1);
        assert(forall|k: int|
            0 <= k < edges.len() - 1 ==> #[trigger] edges.drop_last()[k] == edges[k]);
        assert(edges.last() == edges[edges.len() - 1]);
    }
}

/// Whatever the parser accepts has every endpoint below `usize::MAX`.
proof fn lemma_parse_endpoints(s: Seq<char>, es: Seq<Edge>)
    requires
        parse_edge_list(s) == Some(es),
    ensures
        forall|k: int|
            0 <= k < es.len() ==> (#[trigger] es[k]).source < usize::MAX && es[k].target
                < usize::MAX,
    decreases s.len(),
{
    let p = find_char(s, ',');
    crate::codec::lemma_find_char_bounds(s, ',');
    if p >= 0 {
        let e = parse_token(s.subrange(0, p))->Some_0;
        let rest = parse_edge_list(s.subrange(p + 1, s.len() as int))->Some_0;
        lemma_parse_endpoints(s.subrange(p + 1, s.len() as int), rest);
        assert(es == seq![e] + rest);
        assert forall|k: int|
            0 <= k < es.len() implies (#[trigger] es[k]).source < usize::MAX && es[k].target
            < usize::MAX by {
            if k == 0 {
                assert(es[0] == e);
            } else {
                assert(es[k] == rest[k - 1]);
            }
        }
    } else {
        let e = parse_token(s)->Some_0;
        assert(es == seq![e]);
        assert(forall|k: int| 0 <= k < es.len() ==> es[k] == e);
    }
}

/// Build a graph over `num_nodes` vertices, every position a fresh
/// random draw from the half-open canvas.
pub fn new_graph(num_nodes: usize, edges: Vec<Edge>) -> (g: Graph)
    requires
        num_nodes == required_count(edges@),
    ensures
        g.wf(),
        g.edges@ == edges@,
        g.vertices@.len() == num_nodes,
        forall|j: int| 0 <= j < g.vertices@.len() ==> in_draw_range(#[trigger] g.vertices@[j]),
{
    let mut vertices: Vec<Vertex> = Vec::new();
    let mut i: usize = 0;
    while i < num_nodes
        invariant
            i <= num_nodes,
            vertices@.len() == i,
            forall|j: int| 0 <= j < i ==> in_draw_range(#[trigger] vertices@[j]),
        decreases num_nodes - i,
    {
        let x = crate::rng::random_coord();
        let y = crate::rng::random_coord();
        vertices.push(Vertex { x, y });
        i = i + 1;
    }
    Graph { vertices, edges }
}

/// Build a graph from the wire text: parse the edges, derive the
/// vertex count, place every vertex at a fresh random position in
/// the half-open canvas.
pub fn from_string(text: &str) -> (r: Result<Graph, LayoutError>)
    ensures
        match r {
            Ok(g) => {
                &&& parse_graph_text(text@) == Some(g.edges@)
                &&& g.wf()
                &&& forall|j: int|
                    0 <= j < g.vertices@.len() ==> in_draw_range(#[trigger] g.vertices@[j])
            },
            Err(e) => {
                &&& parse_graph_text(text@) is None
                &&& e == LayoutError::MalformedGraphDescription
            },
        },
{
    let edges = match parse_edges(text) {
        Ok(v) => v,
        Err(e) => {
            return Err(e);
        },
    };
    proof {
        if text@.len() > 0 {
            lemma_parse_endpoints(text@, edges@);
        } else {
            assert(edges@.len() == 0);
        }
        lemma_required_count_le(edges@);
    }
    let n = required_vertex_count(&edges);
    Ok(new_graph(n, edges))
}

} // verus!
