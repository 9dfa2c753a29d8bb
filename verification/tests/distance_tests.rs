use graph_layout::distances::{build_distance_table, INFINITE_HOPS};
use graph_layout::graph::from_string;

#[test]
fn chain_distances_count_hops() {
    let g = from_string("0-1,1-2,2-3,3-4").unwrap();
    let t = build_distance_table(&g);
    assert_eq!(t.get(0, 4), 4);
    assert_eq!(t.get(0, 2), 2);
}

#[test]
fn the_diagonal_is_zero_and_the_matrix_symmetric() {
    let g = from_string("0-1,1-2,2-3,3-0,1-4").unwrap();
    let t = build_distance_table(&g);
    for i in 0..5 {
        assert_eq!(t.get(i, i), 0);
        for j in 0..5 {
            assert_eq!(t.get(i, j), t.get(j, i));
        }
    }
}

#[test]
fn edges_are_read_as_undirected() {
    let g = from_string("3-0").unwrap();
    let t = build_distance_table(&g);
    assert_eq!(t.get(0, 3), 1);
    assert_eq!(t.get(3, 0), 1);
}

#[test]
fn disconnected_pairs_stay_unreachable() {
    let g = from_string("0-1,3-4").unwrap();
    let t = build_distance_table(&g);
    assert_eq!(t.get(0, 3), INFINITE_HOPS);
    assert_eq!(t.get(1, 4), INFINITE_HOPS);
    assert_eq!(t.get(2, 0), INFINITE_HOPS);
    assert_eq!(t.get(0, 1), 1);
    assert_eq!(t.get(3, 4), 1);
}

#[test]
fn a_self_loop_leaves_the_diagonal_at_zero() {
    let g = from_string("0-0").unwrap();
    let t = build_distance_table(&g);
    assert_eq!(t.get(0, 0), 0);
}

#[test]
fn a_shortcut_wins_over_the_long_way() {
    let g = from_string("0-1,1-2,2-3,3-4,4-5,0-5").unwrap();
    let t = build_distance_table(&g);
    assert_eq!(t.get(0, 4), 2);
    assert_eq!(t.get(0, 3), 3);
}
