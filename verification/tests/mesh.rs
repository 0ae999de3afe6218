use terp::points::{Point, Points, PointsMesh};

fn pt(x: f32, y: f32) -> Point {
    Point { x: x.to_bits(), y: y.to_bits(), z: 0.0f32.to_bits() }
}

#[test]
fn test_points_append() {
    let mut mesh = PointsMesh::build(None);
    mesh.append(pt(1.0, 2.0));
    let p = pt(1.0, 2.0);
    assert_eq!(mesh.positions, vec![p, p, p]);
}

#[test]
fn test_points_conversion() {
    let points = Points(vec![pt(1.0, 2.0), pt(3.0, 4.0)]);
    let vertices = points.to_vertices();
    assert_eq!(vertices.len(), 6);
    assert_eq!(vertices[0], pt(1.0, 2.0));
    assert_eq!(vertices[3], pt(3.0, 4.0));

    let points_back = Points::from_vertices(&vertices);
    assert_eq!(points_back.0.len(), 2);
    assert_eq!(points_back.0[0], pt(1.0, 2.0));
    assert_eq!(points_back.0[1], pt(3.0, 4.0));
}

#[test]
fn test_mesh_builder() {
    let points = Points(vec![pt(1.0, 2.0), pt(3.0, 4.0)]);
    let mesh = PointsMesh::build(Some(&points));
    let result = mesh.to_points();
    assert!(result.is_err());
}

#[test]
fn test_mesh_builder_interpolated() {
    let source_points = Points(vec![pt(1.0, 2.0), pt(3.0, 4.0)]);
    let target_points = Points(vec![pt(5.0, 6.0), pt(7.0, 8.0)]);

    let mesh = PointsMesh::build_interpolated(&source_points, &target_points).unwrap();
    let (source, target) = mesh.to_points().unwrap();

    assert_eq!(source.0, vec![pt(1.0, 2.0), pt(3.0, 4.0)]);
    assert_eq!(target.0, vec![pt(5.0, 6.0), pt(7.0, 8.0)]);
}

#[test]
fn build_interpolated_rejects_length_mismatch() {
    let source_points = Points(vec![pt(1.0, 2.0), pt(3.0, 4.0)]);
    let target_points = Points(vec![pt(5.0, 6.0)]);
    let result = PointsMesh::build_interpolated(&source_points, &target_points);
    assert!(result.is_err());
}

#[test]
fn merge_pads_shorter_source() {
    let mut source = PointsMesh::build(Some(&Points(vec![pt(0.0, 0.0)])));
    let target = PointsMesh::build(Some(&Points(vec![pt(1.0, 1.0), pt(2.0, 2.0)])));
    source.interpolate(&target);
    // Source had 3 vertices, target 6: the source is padded up to 6 and the
    // target passes through unchanged as the paired buffer.
    assert_eq!(source.positions.len(), 6);
    let paired = source.target_positions.as_ref().unwrap();
    assert_eq!(paired, &target.positions);
    let p = pt(0.0, 0.0);
    assert_eq!(source.positions, vec![p, p, p, p, p, p]);
}

#[test]
fn merge_pads_shorter_target() {
    let mut source = PointsMesh::build(Some(&Points(vec![pt(1.0, 1.0), pt(2.0, 2.0)])));
    let source_positions_before = source.positions.clone();
    let target = PointsMesh::build(Some(&Points(vec![pt(9.0, 9.0)])));
    source.interpolate(&target);
    // The longer own buffer passes through unchanged; the shorter
    // counterpart is padded up to match it.
    assert_eq!(source.positions, source_positions_before);
    let paired = source.target_positions.as_ref().unwrap();
    assert_eq!(paired.len(), 6);
    let q = pt(9.0, 9.0);
    assert_eq!(paired, &vec![q, q, q, q, q, q]);
}

#[test]
fn merge_equal_lengths_passes_both_through() {
    let mut source = PointsMesh::build(Some(&Points(vec![pt(1.0, 1.0), pt(2.0, 2.0)])));
    let source_positions_before = source.positions.clone();
    let target = PointsMesh::build(Some(&Points(vec![pt(3.0, 3.0), pt(4.0, 4.0)])));
    source.interpolate(&target);
    assert_eq!(source.positions, source_positions_before);
    assert_eq!(source.target_positions.as_ref().unwrap(), &target.positions);
}
