use graph_layout::codec::{graph_to_string, edges_to_string, render, OutputMode, parse_edges};
use graph_layout::error::LayoutError;
use graph_layout::graph::{Edge, Graph, Vertex, from_string};

fn vertex(x: i64, y: i64) -> Vertex {
    Vertex { x, y }
}

#[test]
fn test_graph_to_string() {
    let nodes = vec![
        vertex(1_000_000, 2_000_000),
        vertex(3_000_000, 4_000_000),
        vertex(5_000_000, 6_000_000),
        vertex(7_000_000, 8_000_000),
    ];
    let edges = vec![Edge { source: 0, target: 1 }, Edge { source: 2, target: 3 }];
    let graph = Graph { vertices: nodes, edges };

    let graph_str = graph_to_string(&graph);

    assert_eq!(graph_str, "nodes: 1,2;3,4;5,6;7,8;edges: 0-1,2-3,");
}

#[test]
fn fractional_coordinates_render_like_decimals() {
    let nodes = vec![vertex(1_500_000, 500), vertex(0, 100_000_000)];
    let edges = vec![Edge { source: 0, target: 1 }];
    let graph = Graph { vertices: nodes, edges };

    let graph_str = graph_to_string(&graph);

    assert_eq!(graph_str, "nodes: 1.5,0.0005;0,100;edges: 0-1,");
}

#[test]
fn minimal_mode_renders_edges_without_trailing_comma() {
    let nodes = vec![vertex(0, 0), vertex(0, 0), vertex(0, 0), vertex(0, 0)];
    let edges = vec![Edge { source: 0, target: 1 }, Edge { source: 2, target: 3 }];
    let graph = Graph { vertices: nodes, edges };

    assert_eq!(edges_to_string(&graph), "0-1,2-3");
    assert_eq!(render(&graph, OutputMode::Minimal), "0-1,2-3");
    assert_eq!(render(&graph, OutputMode::Rich), "nodes: 0,0;0,0;0,0;0,0;edges: 0-1,2-3,");
}

#[test]
fn parse_accepts_the_wire_form() {
    let edges = parse_edges("2-5,0-1").unwrap();
    assert_eq!(edges.len(), 2);
    assert_eq!(edges[0], Edge { source: 2, target: 5 });
    assert_eq!(edges[1], Edge { source: 0, target: 1 });
}

#[test]
fn parse_of_empty_text_gives_the_empty_graph() {
    let edges = parse_edges("").unwrap();
    assert_eq!(edges.len(), 0);
    let g = from_string("").unwrap();
    assert_eq!(g.vertices.len(), 0);
    assert_eq!(g.edges.len(), 0);
    assert_eq!(graph_to_string(&g), "nodes: edges: ");
}

#[test]
fn vertex_count_is_one_past_the_greatest_endpoint() {
    let g = from_string("2-5,0-1").unwrap();
    assert_eq!(g.vertices.len(), 6);
    assert_eq!(g.edges.len(), 2);
}

#[test]
fn malformed_descriptions_are_recoverable_errors() {
    assert_eq!(parse_edges("abc").unwrap_err(), LayoutError::MalformedGraphDescription);
    assert_eq!(parse_edges("1-").unwrap_err(), LayoutError::MalformedGraphDescription);
    assert_eq!(parse_edges("-1").unwrap_err(), LayoutError::MalformedGraphDescription);
    assert_eq!(parse_edges("1").unwrap_err(), LayoutError::MalformedGraphDescription);
    assert_eq!(parse_edges("0-1,").unwrap_err(), LayoutError::MalformedGraphDescription);
    assert_eq!(parse_edges("0-1,,2-3").unwrap_err(), LayoutError::MalformedGraphDescription);
    assert_eq!(parse_edges("1-2-3").unwrap_err(), LayoutError::MalformedGraphDescription);
    assert_eq!(parse_edges("0 - 1").unwrap_err(), LayoutError::MalformedGraphDescription);
    assert_eq!(
        parse_edges("99999999999999999999-0").unwrap_err(),
        LayoutError::MalformedGraphDescription
    );
}

#[test]
fn self_loops_and_duplicates_parse() {
    let edges = parse_edges("1-1,0-2,0-2").unwrap();
    assert_eq!(edges.len(), 3);
    assert_eq!(edges[0], Edge { source: 1, target: 1 });
    let g = from_string("1-1,0-2,0-2").unwrap();
    assert_eq!(g.vertices.len(), 3);
}

#[test]
fn multi_digit_endpoints_parse_and_render() {
    let g = from_string("12-3,0-12").unwrap();
    assert_eq!(g.vertices.len(), 13);
    assert_eq!(edges_to_string(&g), "12-3,0-12");
}

#[test]
fn leading_zeros_read_as_the_same_number() {
    let edges = parse_edges("007-01").unwrap();
    assert_eq!(edges[0], Edge { source: 7, target: 1 });
}

#[test]
fn error_messages_name_the_failure() {
    assert_eq!(LayoutError::MalformedGraphDescription.message(), "malformed graph description");
    assert_eq!(LayoutError::InvalidParameter.message(), "invalid parameter");
    assert_eq!(LayoutError::GraphTooLarge.message(), "graph too large");
}
