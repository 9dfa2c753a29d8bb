use graph_layout::fixed::{COORD_MAX, SCALE};
use graph_layout::force::{circular_layout, force_atlas2, fruchterman_reingold, random_layout};
use graph_layout::graph::{Graph, Vertex, from_string};
use graph_layout::metric::{kamada_kawai, multidimensional_scaling, stress_majorization};

fn in_canvas(g: &Graph) -> bool {
    g.vertices.iter().all(|v| 0 <= v.x && v.x <= COORD_MAX && 0 <= v.y && v.y <= COORD_MAX)
}

fn close_to(v: i64, units: f64) -> bool {
    let got = v as f64 / SCALE as f64;
    (got - units).abs() < 1e-6
}

#[test]
fn test_circular_layout() {
    let nodes = vec![
        Vertex { x: 0, y: 0 },
        Vertex { x: 0, y: 0 },
        Vertex { x: 0, y: 0 },
        Vertex { x: 0, y: 0 },
    ];
    let edges = vec![];
    let mut graph = Graph { vertices: nodes, edges };

    circular_layout(&mut graph);

    let expected = [(100.0, 50.0), (50.0, 100.0), (0.0, 50.0), (50.0, 0.0)];
    for (v, (ex, ey)) in graph.vertices.iter().zip(expected.iter()) {
        assert!(close_to(v.x, *ex));
        assert!(close_to(v.y, *ey));
    }
}

#[test]
fn circular_layout_on_four_vertices_hits_the_axis_points() {
    let mut g = from_string("0-1,1-2,2-3,3-0").unwrap();
    circular_layout(&mut g);
    let expected = [(100.0, 50.0), (50.0, 100.0), (0.0, 50.0), (50.0, 0.0)];
    for (v, (ex, ey)) in g.vertices.iter().zip(expected.iter()) {
        assert!(close_to(v.x, *ex));
        assert!(close_to(v.y, *ey));
    }
}

#[test]
fn circular_layout_ignores_edge_content() {
    let mut a = from_string("0-3").unwrap();
    let mut b = from_string("0-1,1-2,2-3,3-0").unwrap();
    circular_layout(&mut a);
    circular_layout(&mut b);
    assert_eq!(a.vertices.len(), b.vertices.len());
    for (va, vb) in a.vertices.iter().zip(b.vertices.iter()) {
        assert_eq!(va.x, vb.x);
        assert_eq!(va.y, vb.y);
    }
}

#[test]
fn random_layout_stays_on_the_canvas() {
    let mut g = from_string("0-1,1-2,3-4,2-3,2-4,5-9,1-5,2-6").unwrap();
    random_layout(&mut g);
    assert!(in_canvas(&g));
    assert_eq!(g.vertices.len(), 10);
    assert_eq!(g.edges.len(), 8);
}

#[test]
fn force_atlas2_keeps_bounds_and_edges() {
    let mut g = from_string("0-1,1-2,2-3,3-4,4-0").unwrap();
    let edges_before = g.edges.clone();
    force_atlas2(&mut g, 10, SCALE, SCALE);
    assert!(in_canvas(&g));
    assert_eq!(g.edges, edges_before);
}

#[test]
fn force_atlas2_with_zero_iterations_moves_nothing() {
    let mut g = from_string("0-1,1-2").unwrap();
    let before: Vec<(i64, i64)> = g.vertices.iter().map(|v| (v.x, v.y)).collect();
    force_atlas2(&mut g, 0, SCALE, SCALE);
    let after: Vec<(i64, i64)> = g.vertices.iter().map(|v| (v.x, v.y)).collect();
    assert_eq!(before, after);
}

#[test]
fn fruchterman_reingold_keeps_bounds_and_edges() {
    let mut g = from_string("0-1,1-2,3-4,2-3,2-4,5-9,1-5,2-6").unwrap();
    let edges_before = g.edges.clone();
    fruchterman_reingold(&mut g, 10, SCALE);
    assert!(in_canvas(&g));
    assert_eq!(g.edges, edges_before);
}

#[test]
fn stress_majorization_survives_disconnected_input() {
    let mut g = from_string("0-1,3-4").unwrap();
    stress_majorization(&mut g, 20);
    assert!(in_canvas(&g));
    assert_eq!(g.vertices.len(), 5);
}

#[test]
fn multidimensional_scaling_survives_disconnected_input() {
    let mut g = from_string("0-1,3-4").unwrap();
    multidimensional_scaling(&mut g, 20);
    assert!(in_canvas(&g));
    assert_eq!(g.vertices.len(), 5);
}

#[test]
fn kamada_kawai_survives_disconnected_input() {
    let mut g = from_string("0-1,3-4").unwrap();
    kamada_kawai(&mut g, 20);
    assert!(in_canvas(&g));
    assert_eq!(g.vertices.len(), 5);
}

#[test]
fn self_loops_contribute_no_force() {
    let mut g = from_string("0-0,0-1").unwrap();
    force_atlas2(&mut g, 5, SCALE, SCALE);
    assert!(in_canvas(&g));
    let mut h = from_string("0-0,0-1").unwrap();
    stress_majorization(&mut h, 5);
    assert!(in_canvas(&h));
}
