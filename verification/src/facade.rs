//! The layout facade: one entry point per algorithm.
//!
//! Each entry point parses the wire text, validates the parameters,
//! runs the algorithm and renders the result in the rich form.  The
//! contracts pin what every caller relies on: the output renders the
//! parsed edge list verbatim and in order, every rendered position
//! lies inside the canvas, and the placement is the one the named
//! algorithm computes — exactly for the circular layout, and as the
//! algorithm's run over a fresh random placement for the others.

use vstd::prelude::*;
use crate::codec::{graph_to_string, parse_graph_text, rich_chars_of};
use crate::distances::DistanceTable;
use crate::error::LayoutError;
use crate::fixed::PARAM_LIMIT;
use crate::force::{
    atlas_run, circular_layout, force_atlas2, fr_k, fr_run, fruchterman_reingold, random_layout,
};
use crate::graph::{
    Graph, Vertex, from_string, in_canvas, in_draw_range, lemma_endpoints_in_range, required_count,
};
use crate::metric::{
    kamada_kawai, kamada_rounds, mds_rounds, multidimensional_scaling, stress_majorization,
    stress_rounds, table_for,
};

verus! {

/// The output renders some in-canvas placement of exactly the parsed
/// vertex set, followed by the parsed edge list verbatim.
pub open spec fn rich_output_for(text: Seq<char>, out: Seq<char>) -> bool {
    exists|vs: Seq<Vertex>|
        {
            &&& vs.len() == required_count(parse_graph_text(text)->Some_0)
            &&& (forall|i: int| 0 <= i < vs.len() ==> in_canvas(#[trigger] vs[i]))
            &&& out == #[trigger] rich_chars_of(vs, parse_graph_text(text)->Some_0)
        }
}

/// A fresh random placement: one vertex per parsed index, each drawn
/// from the half-open canvas `[0, COORD_MAX)^2`.
pub open spec fn fresh_placement(vs: Seq<Vertex>, n: nat) -> bool {
    &&& vs.len() == n
    &&& forall|a: int| 0 <= a < vs.len() ==> in_draw_range(#[trigger] vs[a])
}

/// The exact placement the circular layout renders: vertex `i` of
/// `n` on the radius-50 circle around the canvas center, at the
/// angle `i / n` of a full turn.
pub open spec fn circular_vertices(n: nat) -> Seq<Vertex> {
    Seq::new(
        n,
        |i: int|
            (Vertex {
                x: crate::force::circular_position(i, n as int).0 as i64,
                y: crate::force::circular_position(i, n as int).1 as i64,
            }),
    )
}

/// Whether the graph is small enough for a distance matrix.
pub open spec fn fits_distance_matrix(text: Seq<char>) -> bool {
    required_count(parse_graph_text(text)->Some_0) * required_count(
        parse_graph_text(text)->Some_0,
    ) <= usize::MAX
}

/// Render a laid-out graph in the rich form.
fn render_rich(g: &Graph) -> (out: String)
    requires
        g.wf(),
    ensures
        out@ == rich_chars_of(g.vertices@, g.edges@),
{
    let n = g.vertices.len();
    proof {
        assert forall|k: int|
            0 <= k < g.edges@.len() implies (#[trigger] g.edges@[k]).source < usize::MAX
            && g.edges@[k].target < usize::MAX by {
            lemma_endpoints_in_range(g.edges@, k);
        }
    }
    graph_to_string(g)
}

/// Parse, lay out and render with the random placement.  The output
/// renders a fresh draw from the half-open canvas — every rendered
/// coordinate lies strictly below the far edges.
pub fn process_random(graph_str: &str) -> (r: Result<String, LayoutError>)
    ensures
        match r {
            Ok(out) => {
                &&& parse_graph_text(graph_str@) is Some
                &&& rich_output_for(graph_str@, out@)
                &&& exists|vs: Seq<Vertex>|
                    fresh_placement(vs, required_count(parse_graph_text(graph_str@)->Some_0))
                        && out@ == #[trigger] rich_chars_of(
                        vs,
                        parse_graph_text(graph_str@)->Some_0,
                    )
            },
            Err(e) => {
                &&& parse_graph_text(graph_str@) is None
                &&& e == LayoutError::MalformedGraphDescription
            },
        },
{
    let mut g = match from_string(graph_str) {
        Ok(g) => g,
        Err(e) => {
            return Err(e);
        },
    };
    random_layout(&mut g);
    let out = render_rich(&g);
    proof {
        assert(rich_output_for(graph_str@, out@)) by {
            assert(out@ == rich_chars_of(g.vertices@, parse_graph_text(graph_str@)->Some_0));
        }
        assert(fresh_placement(
            g.vertices@,
            required_count(parse_graph_text(graph_str@)->Some_0),
        ));
    }
    Ok(out)
}

/// Parse, lay out and render with the circular placement.  The
/// output is pinned exactly: it renders `circular_vertices`, which
/// depends on the derived vertex count alone, never on the edge
/// content.
pub fn process_circular(graph_str: &str) -> (r: Result<String, LayoutError>)
    ensures
        match r {
            Ok(out) => {
                &&& parse_graph_text(graph_str@) is Some
                &&& rich_output_for(graph_str@, out@)
                &&& out@ == rich_chars_of(
                    circular_vertices(required_count(parse_graph_text(graph_str@)->Some_0)),
                    parse_graph_text(graph_str@)->Some_0,
                )
            },
            Err(e) => {
                &&& parse_graph_text(graph_str@) is None
                &&& e == LayoutError::MalformedGraphDescription
            },
        },
{
    let mut g = match from_string(graph_str) {
        Ok(g) => g,
        Err(e) => {
            return Err(e);
        },
    };
    circular_layout(&mut g);
    let out = render_rich(&g);
    proof {
        assert(rich_output_for(graph_str@, out@)) by {
            assert(out@ == rich_chars_of(g.vertices@, parse_graph_text(graph_str@)->Some_0));
        }
        assert(g.vertices@ =~= circular_vertices(g.vertices@.len()));
    }
    Ok(out)
}

/// Parse, validate, run Force-Atlas2 and render.  The output renders
/// `atlas_run` of the given parameters over a fresh random placement
/// — so with zero iterations it renders that placement itself,
/// unchanged by any force step.
pub fn process_force_atlas2(
    graph_str: &str,
    iterations: usize,
    gravity: i64,
    scaling_ratio: i64,
) -> (r: Result<String, LayoutError>)
    ensures
        ({
            let parsed = parse_graph_text(graph_str@);
            let valid = -PARAM_LIMIT <= gravity <= PARAM_LIMIT && 1 <= scaling_ratio
                <= PARAM_LIMIT;
            match r {
                Ok(out) => {
                    &&& parsed is Some
                    &&& valid
                    &&& rich_output_for(graph_str@, out@)
                    &&& exists|init: Seq<Vertex>|
                        fresh_placement(init, required_count(parsed->Some_0)) && out@
                            == #[trigger] rich_chars_of(
                            atlas_run(
                                init,
                                parsed->Some_0,
                                iterations as nat,
                                gravity as int,
                                scaling_ratio as int,
                            ),
                            parsed->Some_0,
                        )
                },
                Err(e) => {
                    &&& (parsed is None || !valid)
                    &&& (parsed is None ==> e == LayoutError::MalformedGraphDescription)
                    &&& (parsed is Some && !valid ==> e == LayoutError::InvalidParameter)
                },
            }
        }),
{
    let mut g = match from_string(graph_str) {
        Ok(g) => g,
        Err(e) => {
            return Err(e);
        },
    };
    if !(-PARAM_LIMIT <= gravity && gravity <= PARAM_LIMIT && 1 <= scaling_ratio && scaling_ratio
        <= PARAM_LIMIT) {
        return Err(LayoutError::InvalidParameter);
    }
    let ghost init = g.vertices@;
    force_atlas2(&mut g, iterations, gravity, scaling_ratio);
    let out = render_rich(&g);
    proof {
        assert(rich_output_for(graph_str@, out@)) by {
            assert(out@ == rich_chars_of(g.vertices@, parse_graph_text(graph_str@)->Some_0));
        }
        assert(fresh_placement(
            init,
            required_count(parse_graph_text(graph_str@)->Some_0),
        ));
        assert(out@ == rich_chars_of(
            atlas_run(
                init,
                parse_graph_text(graph_str@)->Some_0,
                iterations as nat,
                gravity as int,
                scaling_ratio as int,
            ),
            parse_graph_text(graph_str@)->Some_0,
        ));
    }
    Ok(out)
}

/// Parse, validate, run Fruchterman-Reingold over the fixed area and
/// render.  The output renders `fr_run` of the given parameters over
/// a fresh random placement.
pub fn process_fruchterman_reingold(graph_str: &str, iterations: usize, gravity: i64) -> (r:
    Result<String, LayoutError>)
    ensures
        ({
            let parsed = parse_graph_text(graph_str@);
            let valid = -PARAM_LIMIT <= gravity <= PARAM_LIMIT;
            match r {
                Ok(out) => {
                    &&& parsed is Some
                    &&& valid
                    &&& rich_output_for(graph_str@, out@)
                    &&& (required_count(parsed->Some_0) == 0 ==> exists|init: Seq<Vertex>|
                        fresh_placement(init, 0) && out@ == #[trigger] rich_chars_of(
                            init,
                            parsed->Some_0,
                        ))
                    &&& (required_count(parsed->Some_0) > 0 ==> exists|init: Seq<Vertex>|
                        fresh_placement(init, required_count(parsed->Some_0)) && out@
                            == #[trigger] rich_chars_of(
                            fr_run(
                                init,
                                parsed->Some_0,
                                iterations as nat,
                                gravity as int,
                                fr_k(required_count(parsed->Some_0)),
                            ),
                            parsed->Some_0,
                        ))
                },
                Err(e) => {
                    &&& (parsed is None || !valid)
                    &&& (parsed is None ==> e == LayoutError::MalformedGraphDescription)
                    &&& (parsed is Some && !valid ==> e == LayoutError::InvalidParameter)
                },
            }
        }),
{
    let mut g = match from_string(graph_str) {
        Ok(g) => g,
        Err(e) => {
            return Err(e);
        },
    };
    if !(-PARAM_LIMIT <= gravity && gravity <= PARAM_LIMIT) {
        return Err(LayoutError::InvalidParameter);
    }
    let ghost init = g.vertices@;
    fruchterman_reingold(&mut g, iterations, gravity);
    let out = render_rich(&g);
    proof {
        let ghost parsed_edges = parse_graph_text(graph_str@)->Some_0;
        assert(rich_output_for(graph_str@, out@)) by {
            assert(out@ == rich_chars_of(g.vertices@, parsed_edges));
        }
        assert(fresh_placement(init, required_count(parsed_edges)));
        if required_count(parsed_edges) == 0 {
            assert(out@ == rich_chars_of(init, parsed_edges));
        } else {
            assert(out@ == rich_chars_of(
                fr_run(
                    init,
                    parsed_edges,
                    iterations as nat,
                    gravity as int,
                    fr_k(required_count(parsed_edges)),
                ),
                parsed_edges,
            ));
        }
    }
    Ok(out)
}

/// Parse, check the matrix size, run stress majorization and render.
/// The output renders `stress_rounds` over a fresh random placement
/// and the graph's (uniquely determined) distance table.
pub fn process_stress_majorization(graph_str: &str, iterations: usize) -> (r: Result<
    String,
    LayoutError,
>)
    ensures
        ({
            let parsed = parse_graph_text(graph_str@);
            match r {
                Ok(out) => {
                    &&& parsed is Some
                    &&& fits_distance_matrix(graph_str@)
                    &&& rich_output_for(graph_str@, out@)
                    &&& exists|init: Seq<Vertex>, t: DistanceTable|
                        fresh_placement(init, required_count(parsed->Some_0)) && table_for(
                            t,
                            parsed->Some_0,
                            required_count(parsed->Some_0),
                        ) && out@ == #[trigger] rich_chars_of(
                            stress_rounds(init, t, iterations as nat),
                            parsed->Some_0,
                        )
                },
                Err(e) => {
                    &&& (parsed is None || !fits_distance_matrix(graph_str@))
                    &&& (parsed is None ==> e == LayoutError::MalformedGraphDescription)
                    &&& (parsed is Some && !fits_distance_matrix(graph_str@) ==> e
                        == LayoutError::GraphTooLarge)
                },
            }
        }),
{
    let mut g = match from_string(graph_str) {
        Ok(g) => g,
        Err(e) => {
            return Err(e);
        },
    };
    let n = g.vertices.len();
    match n.checked_mul(n) {
        Some(_) => {},
        None => {
            return Err(LayoutError::GraphTooLarge);
        },
    }
    let ghost pre_len = g.vertices@.len();
    stress_majorization(&mut g, iterations);
    let out = render_rich(&g);
    proof {
        let ghost parsed_edges = parse_graph_text(graph_str@)->Some_0;
        assert(rich_output_for(graph_str@, out@)) by {
            assert(out@ == rich_chars_of(g.vertices@, parsed_edges));
        }
        let (init, t) = choose|init: Seq<Vertex>, t: DistanceTable|
            {
                &&& init.len() == pre_len
                &&& (forall|a: int| 0 <= a < init.len() ==> in_draw_range(#[trigger] init[a]))
                &&& table_for(t, g.edges@, pre_len)
                &&& g.vertices@ == stress_rounds(init, t, iterations as nat)
            };
        assert(fresh_placement(init, required_count(parsed_edges)));
        assert(out@ == rich_chars_of(stress_rounds(init, t, iterations as nat), parsed_edges));
    }
    Ok(out)
}

/// Parse, check the matrix size, run multidimensional scaling and
/// render.  The output renders `mds_rounds` over a fresh random
/// placement and the graph's (uniquely determined) distance table.
pub fn process_multidimensional_scaling(graph_str: &str, iterations: usize) -> (r: Result<
    String,
    LayoutError,
>)
    ensures
        ({
            let parsed = parse_graph_text(graph_str@);
            match r {
                Ok(out) => {
                    &&& parsed is Some
                    &&& fits_distance_matrix(graph_str@)
                    &&& rich_output_for(graph_str@, out@)
                    &&& exists|init: Seq<Vertex>, t: DistanceTable|
                        fresh_placement(init, required_count(parsed->Some_0)) && table_for(
                            t,
                            parsed->Some_0,
                            required_count(parsed->Some_0),
                        ) && out@ == #[trigger] rich_chars_of(
                            mds_rounds(init, t, iterations as nat),
                            parsed->Some_0,
                        )
                },
                Err(e) => {
                    &&& (parsed is None || !fits_distance_matrix(graph_str@))
                    &&& (parsed is None ==> e == LayoutError::MalformedGraphDescription)
                    &&& (parsed is Some && !fits_distance_matrix(graph_str@) ==> e
                        == LayoutError::GraphTooLarge)
                },
            }
        }),
{
    let mut g = match from_string(graph_str) {
        Ok(g) => g,
        Err(e) => {
            return Err(e);
        },
    };
    let n = g.vertices.len();
    match n.checked_mul(n) {
        Some(_) => {},
        None => {
            return Err(LayoutError::GraphTooLarge);
        },
    }
    let ghost pre_len = g.vertices@.len();
    multidimensional_scaling(&mut g, iterations);
    let out = render_rich(&g);
    proof {
        let ghost parsed_edges = parse_graph_text(graph_str@)->Some_0;
        assert(rich_output_for(graph_str@, out@)) by {
            assert(out@ == rich_chars_of(g.vertices@, parsed_edges));
        }
        let (init, t) = choose|init: Seq<Vertex>, t: DistanceTable|
            {
                &&& init.len() == pre_len
                &&& (forall|a: int| 0 <= a < init.len() ==> in_draw_range(#[trigger] init[a]))
                &&& table_for(t, g.edges@, pre_len)
                &&& g.vertices@ == mds_rounds(init, t, iterations as nat)
            };
        assert(fresh_placement(init, required_count(parsed_edges)));
        assert(out@ == rich_chars_of(mds_rounds(init, t, iterations as nat), parsed_edges));
    }
    Ok(out)
}

/// Parse, check the matrix size, run Kamada-Kawai and render.  The
/// output renders `kamada_rounds` over a fresh random placement and
/// the graph's (uniquely determined) distance table.
pub fn process_kamada_kawai(graph_str: &str, iterations: usize) -> (r: Result<
    String,
    LayoutError,
>)
    ensures
        ({
            let parsed = parse_graph_text(graph_str@);
            match r {
                Ok(out) => {
                    &&& parsed is Some
                    &&& fits_distance_matrix(graph_str@)
                    &&& rich_output_for(graph_str@, out@)
                    &&& exists|init: Seq<Vertex>, t: DistanceTable|
                        fresh_placement(init, required_count(parsed->Some_0)) && table_for(
                            t,
                            parsed->Some_0,
                            required_count(parsed->Some_0),
                        ) && out@ == #[trigger] rich_chars_of(
                            kamada_rounds(init, t, iterations as nat),
                            parsed->Some_0,
                        )
                },
                Err(e) => {
                    &&& (parsed is None || !fits_distance_matrix(graph_str@))
                    &&& (parsed is None ==> e == LayoutError::MalformedGraphDescription)
                    &&& (parsed is Some && !fits_distance_matrix(graph_str@) ==> e
                        == LayoutError::GraphTooLarge)
                },
            }
        }),
{
    let mut g = match from_string(graph_str) {
        Ok(g) => g,
        Err(e) => {
            return Err(e);
        },
    };
    let n = g.vertices.len();
    match n.checked_mul(n) {
        Some(_) => {},
        None => {
            return Err(LayoutError::GraphTooLarge);
        },
    }
    let ghost pre_len = g.vertices@.len();
    kamada_kawai(&mut g, iterations);
    let out = render_rich(&g);
    proof {
        let ghost parsed_edges = parse_graph_text(graph_str@)->Some_0;
        assert(rich_output_for(graph_str@, out@)) by {
            assert(out@ == rich_chars_of(g.vertices@, parsed_edges));
        }
        let (init, t) = choose|init: Seq<Vertex>, t: DistanceTable|
            {
                &&& init.len() == pre_len
                &&& (forall|a: int| 0 <= a < init.len() ==> in_draw_range(#[trigger] init[a]))
                &&& table_for(t, g.edges@, pre_len)
                &&& g.vertices@ == kamada_rounds(init, t, iterations as nat)
            };
        assert(fresh_placement(init, required_count(parsed_edges)));
        assert(out@ == rich_chars_of(kamada_rounds(init, t, iterations as nat), parsed_edges));
    }
    Ok(out)
}

} // verus!
