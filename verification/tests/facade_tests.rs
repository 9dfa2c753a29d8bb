use graph_layout::error::LayoutError;
use graph_layout::facade::{
    process_circular, process_force_atlas2, process_fruchterman_reingold, process_kamada_kawai,
    process_multidimensional_scaling, process_random, process_stress_majorization,
};
use graph_layout::fixed::{PARAM_LIMIT, SCALE};

/// The node coordinates of a rich output, as canvas-unit floats.
fn node_coords(out: &str) -> Vec<(f64, f64)> {
    let body = out.strip_prefix("nodes: ").unwrap();
    let end = body.find("edges: ").unwrap();
    body[..end]
        .split(';')
        .filter(|s| !s.is_empty())
        .map(|pair| {
            let mut it = pair.split(',');
            let x: f64 = it.next().unwrap().parse().unwrap();
            let y: f64 = it.next().unwrap().parse().unwrap();
            (x, y)
        })
        .collect()
}

fn edges_section(out: &str) -> &str {
    let start = out.find("edges: ").unwrap();
    &out[start..]
}

fn all_bounded(out: &str) -> bool {
    node_coords(out).iter().all(|(x, y)| {
        x.is_finite() && y.is_finite() && 0.0 <= *x && *x <= 100.0 && 0.0 <= *y && *y <= 100.0
    })
}

#[test]
fn every_algorithm_echoes_the_edge_list() {
    let graph_str = "0-1,1-2,3-4,2-3,2-4,5-9,1-5,2-6";
    let expected = format!("edges: {},", graph_str);
    let outputs = vec![
        process_random(graph_str).unwrap(),
        process_circular(graph_str).unwrap(),
        process_force_atlas2(graph_str, 10, SCALE, SCALE).unwrap(),
        process_fruchterman_reingold(graph_str, 10, SCALE).unwrap(),
        process_stress_majorization(graph_str, 10).unwrap(),
        process_multidimensional_scaling(graph_str, 10).unwrap(),
        process_kamada_kawai(graph_str, 10).unwrap(),
    ];
    for out in outputs {
        assert_eq!(edges_section(&out), expected);
        assert!(all_bounded(&out));
    }
}

#[test]
fn circular_facade_places_four_vertices_on_the_axes() {
    let out = process_circular("0-1,1-2,2-3,3-0").unwrap();
    let coords = node_coords(&out);
    let expected = [(100.0, 50.0), (50.0, 100.0), (0.0, 50.0), (50.0, 0.0)];
    assert_eq!(coords.len(), 4);
    for ((x, y), (ex, ey)) in coords.iter().zip(expected.iter()) {
        assert!((x - ex).abs() < 1e-6);
        assert!((y - ey).abs() < 1e-6);
    }
}

#[test]
fn distance_scaling_facades_handle_disconnected_graphs() {
    let graph_str = "0-1,3-4";
    let outputs = vec![
        process_stress_majorization(graph_str, 15).unwrap(),
        process_multidimensional_scaling(graph_str, 15).unwrap(),
        process_kamada_kawai(graph_str, 15).unwrap(),
    ];
    for out in outputs {
        assert!(all_bounded(&out));
        assert_eq!(node_coords(&out).len(), 5);
        assert_eq!(edges_section(&out), "edges: 0-1,3-4,");
    }
}

#[test]
fn malformed_text_is_reported_not_aborted() {
    assert_eq!(
        process_random("0-1,oops").unwrap_err(),
        LayoutError::MalformedGraphDescription
    );
    assert_eq!(
        process_kamada_kawai("5", 3).unwrap_err(),
        LayoutError::MalformedGraphDescription
    );
}

#[test]
fn out_of_range_parameters_are_rejected() {
    assert_eq!(
        process_force_atlas2("0-1", 5, -PARAM_LIMIT - 1, SCALE).unwrap_err(),
        LayoutError::InvalidParameter
    );
    assert_eq!(
        process_force_atlas2("0-1", 5, PARAM_LIMIT + 1, SCALE).unwrap_err(),
        LayoutError::InvalidParameter
    );
    assert_eq!(
        process_force_atlas2("0-1", 5, SCALE, 0).unwrap_err(),
        LayoutError::InvalidParameter
    );
    assert_eq!(
        process_fruchterman_reingold("0-1", 5, -PARAM_LIMIT - 1).unwrap_err(),
        LayoutError::InvalidParameter
    );
}

#[test]
fn negative_gravity_is_a_valid_parameter() {
    let out = process_force_atlas2("0-1,1-2", 5, -SCALE, SCALE).unwrap();
    assert!(all_bounded(&out));
    let out = process_fruchterman_reingold("0-1,1-2", 5, -SCALE).unwrap();
    assert!(all_bounded(&out));
}

#[test]
fn random_placement_stays_strictly_below_the_far_edges() {
    let out = process_random("0-1,1-2,3-4,2-3,2-4,5-9,1-5,2-6,7-8,8-1,10-11,9-11").unwrap();
    let coords = node_coords(&out);
    assert_eq!(coords.len(), 12);
    for (x, y) in coords {
        assert!(0.0 <= x && x < 100.0);
        assert!(0.0 <= y && y < 100.0);
    }
}

#[test]
fn empty_input_yields_the_empty_graph() {
    assert_eq!(process_random("").unwrap(), "nodes: edges: ");
    assert_eq!(process_circular("").unwrap(), "nodes: edges: ");
    assert_eq!(process_stress_majorization("", 3).unwrap(), "nodes: edges: ");
}
