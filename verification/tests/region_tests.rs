use gc9a01a::bounding_region;

#[test]
fn bounding_region_of_triangle_with_padding() {
    let points: Vec<(u16, u16)> = vec![(10, 10), (50, 10), (30, 40)];
    let r = bounding_region(&points, 5, 240, 240).unwrap();
    assert_eq!(r.x, 5); // min_x - 5
    assert_eq!(r.y, 5); // min_y - 5
    assert_eq!(r.width, 50); // max_x - min_x + 10
    assert_eq!(r.height, 40); // max_y - min_y + 10
}

#[test]
fn bounding_region_clamps_at_zero() {
    let points: Vec<(u16, u16)> = vec![(3, 2), (10, 12)];
    let r = bounding_region(&points, 5, 240, 240).unwrap();
    assert_eq!(r.x, 0);
    assert_eq!(r.y, 0);
    assert_eq!(r.width, 15); // min(10 + 5, 240) - 0
    assert_eq!(r.height, 17); // min(12 + 5, 240) - 0
}

#[test]
fn bounding_region_clamps_to_buffer_extent() {
    let points: Vec<(u16, u16)> = vec![(230, 235), (238, 238)];
    let r = bounding_region(&points, 10, 240, 240).unwrap();
    assert_eq!(r.x, 220);
    assert_eq!(r.y, 225);
    assert_eq!(r.width, 20); // clamped right edge: 240 - 220
    assert_eq!(r.height, 15); // clamped bottom edge: 240 - 225
}

#[test]
fn bounding_region_of_single_point() {
    let points: Vec<(u16, u16)> = vec![(100, 100)];
    let r = bounding_region(&points, 5, 240, 240).unwrap();
    assert_eq!(r.x, 95);
    assert_eq!(r.y, 95);
    assert_eq!(r.width, 10);
    assert_eq!(r.height, 10);
}

#[test]
fn bounding_region_of_no_points_is_none() {
    let points: Vec<(u16, u16)> = Vec::new();
    assert!(bounding_region(&points, 5, 240, 240).is_none());
}
