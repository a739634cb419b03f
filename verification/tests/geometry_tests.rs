use openhousepopulator::geometry::{centroid, contains, Coordinate, Polygon};

fn c(lat: i64, lon: i64) -> Coordinate {
    Coordinate { lat, lon }
}

fn square() -> Polygon {
    Polygon { points: vec![c(0, 0), c(0, 100), c(100, 100), c(100, 0)] }
}

#[test]
fn point_inside_square_is_contained() {
    let p = square();
    assert!(contains(&p, &c(50, 50)));
}

#[test]
fn point_outside_square_is_not_contained() {
    let p = square();
    assert!(!contains(&p, &c(150, 50)));
    assert!(!contains(&p, &c(-10, 50)));
    assert!(!contains(&p, &c(50, 200)));
}

#[test]
fn point_on_edge_is_not_contained() {
    let p = square();
    // On the bottom edge, on a vertical edge, and exactly on a corner.
    assert!(!contains(&p, &c(0, 50)));
    assert!(!contains(&p, &c(50, 0)));
    assert!(!contains(&p, &c(0, 0)));
    assert!(!contains(&p, &c(100, 100)));
}

#[test]
fn centroid_of_square_is_its_middle() {
    let p = square();
    let m = centroid(&p);
    assert_eq!(m.lat, 50);
    assert_eq!(m.lon, 50);
}

#[test]
fn centroid_of_l_shape_weights_by_area() {
    // An L-shaped (non-convex) ring; the centroid is pulled towards the
    // larger arm, away from the plain vertex average.
    let p = Polygon {
        points: vec![c(0, 0), c(0, 200), c(100, 200), c(100, 100), c(200, 100), c(200, 0)],
    };
    let m = centroid(&p);
    // Area 30000: a 100x200 rectangle (centroid lat 50, lon 100) plus a
    // 100x100 square (centroid lat 150, lon 50).
    // lat = (20000*50 + 10000*150)/30000 = 83 (floored), lon likewise.
    assert_eq!(m.lat, 83);
    assert_eq!(m.lon, 83);
}

#[test]
fn centroid_of_degenerate_ring_falls_back_to_vertex_average() {
    // Three collinear vertices: zero area, so the unweighted average is used.
    let p = Polygon { points: vec![c(0, 0), c(0, 60), c(0, 120)] };
    let m = centroid(&p);
    assert_eq!(m.lat, 0);
    assert_eq!(m.lon, 60);
}

#[test]
fn containment_in_concave_polygon() {
    // The notch of the L-shape is outside, both arms are inside.
    let p = Polygon {
        points: vec![c(0, 0), c(0, 200), c(100, 200), c(100, 100), c(200, 100), c(200, 0)],
    };
    assert!(contains(&p, &c(50, 150)));
    assert!(contains(&p, &c(150, 50)));
    assert!(!contains(&p, &c(150, 150)));
}
