use ige_core::rings::HostPolygon;

fn square() -> Vec<[i64; 2]> {
    vec![[0, 0], [10, 0], [10, 10], [0, 10], [0, 0]]
}

fn hole() -> Vec<[i64; 2]> {
    vec![[2, 2], [4, 2], [4, 4], [2, 2]]
}

#[test]
fn layout_places_rings_back_to_back() {
    let host = HostPolygon::from_rings(&square(), &vec![hole()], "poly", "orig");
    assert_eq!(host.ring_count(), 2);
    assert_eq!(host.coords.len(), 9);
    assert_eq!(host.rings[0].start, 0);
    assert_eq!(host.rings[0].end, 5);
    assert!(!host.rings[0].is_hole);
    assert_eq!(host.rings[1].start, 5);
    assert_eq!(host.rings[1].end, 9);
    assert!(host.rings[1].is_hole);
    assert_eq!(host.outer_ring(), &square()[..]);
    assert_eq!(host.ring_coords(1), &hole()[..]);
    assert_eq!(host.polygon, "poly");
    assert_eq!(host.original_polygon, "orig");
}

#[test]
fn holes_detected() {
    let with = HostPolygon::from_rings(&square(), &vec![hole()], (), ());
    let without = HostPolygon::from_rings(&square(), &vec![], (), ());
    assert!(with.has_holes());
    assert!(!without.has_holes());
}

#[test]
fn unique_vertices_drop_closing_points() {
    let host = HostPolygon::from_rings(&square(), &vec![hole()], (), ());
    assert_eq!(
        host.unique_vertices(),
        vec![[0, 0], [10, 0], [10, 10], [0, 10], [2, 2], [4, 2], [4, 4]]
    );
}

#[test]
fn degenerate_rings_contribute_nothing() {
    let host = HostPolygon::from_rings(&square(), &vec![vec![[1, 1]], vec![]], (), ());
    assert_eq!(host.ring_count(), 3);
    assert_eq!(host.unique_vertices().len(), 4);
    assert_eq!(host.ring_edges().len(), 4);
}

#[test]
fn edges_follow_rings() {
    let host = HostPolygon::from_rings(&square(), &vec![hole()], (), ());
    let edges = host.ring_edges();
    assert_eq!(edges.len(), 7);
    assert_eq!((edges[0].ring_id, edges[0].edge_id, edges[0].is_hole), (0, 0, false));
    assert_eq!((edges[0].a, edges[0].b), ([0, 0], [10, 0]));
    assert_eq!((edges[4].ring_id, edges[4].edge_id, edges[4].is_hole), (1, 0, true));
    assert_eq!((edges[6].a, edges[6].b), ([4, 4], [2, 2]));
}
