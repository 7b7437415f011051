use voxel_sim::voxel_grid::{SystemGet, SystemSet, VoxelDims, VoxelVertices};

fn cuboid() -> VoxelVertices<f32> {
    VoxelVertices::centre_at_origin([100.0, 50.0, 25.0], [-100.0, -50.0, -25.0], 0.0)
}

fn world(vertices: &VoxelVertices<f32>, point: usize) -> [f32; 3] {
    match vertices.get_point(point, SystemGet::WORLD) {
        SystemSet::WORLD(p) => p,
        _ => panic!("asked for a world-space corner"),
    }
}

#[test]
fn corners_are_laid_out_face_by_face() {
    let vertices = cuboid();
    assert_eq!(world(&vertices, 0), [-100.0, -50.0, -25.0]);
    assert_eq!(world(&vertices, 1), [-100.0, 50.0, -25.0]);
    assert_eq!(world(&vertices, 2), [100.0, 50.0, -25.0]);
    assert_eq!(world(&vertices, 3), [100.0, -50.0, -25.0]);
    assert_eq!(world(&vertices, 4), [-100.0, -50.0, 25.0]);
    assert_eq!(world(&vertices, 5), [-100.0, 50.0, 25.0]);
    assert_eq!(world(&vertices, 6), [100.0, 50.0, 25.0]);
    assert_eq!(world(&vertices, 7), [100.0, -50.0, 25.0]);
}

#[test]
fn other_systems_start_at_zero() {
    let vertices = cuboid();
    assert_eq!(vertices.ruf_vertices, [0.0; 24]);
    assert_eq!(vertices.onto_plane, [0.0; 16]);
    for point in 0..8 {
        assert!(matches!(
            vertices.get_point(point, SystemGet::RUF),
            SystemSet::RUF(p) if p == [0.0, 0.0, 0.0]
        ));
        assert!(matches!(
            vertices.get_point(point, SystemGet::PLANE),
            SystemSet::PLANE(p) if p == [0.0, 0.0]
        ));
    }
}

#[test]
fn set_point_writes_one_corner_of_one_system() {
    let mut vertices = cuboid();
    vertices.set_point(5, SystemSet::RUF([1.5, -2.5, 3.5]));
    assert!(matches!(
        vertices.get_point(5, SystemGet::RUF),
        SystemSet::RUF(p) if p == [1.5, -2.5, 3.5]
    ));
    assert_eq!(vertices.ruf_vertices[15..18], [1.5, -2.5, 3.5]);
    assert_eq!(vertices.ruf_vertices[..15], [0.0; 15]);
    assert_eq!(vertices.ruf_vertices[18..], [0.0; 6]);
    assert_eq!(vertices.onto_plane, [0.0; 16]);
    assert_eq!(world(&vertices, 5), [-100.0, 50.0, 25.0]);
}

#[test]
fn set_point_on_the_plane_uses_two_slots() {
    let mut vertices = cuboid();
    vertices.set_point(7, SystemSet::PLANE([320.0, -240.0]));
    vertices.set_point(0, SystemSet::PLANE([-1.0, 1.0]));
    assert_eq!(vertices.onto_plane[14..], [320.0, -240.0]);
    assert_eq!(vertices.onto_plane[..2], [-1.0, 1.0]);
    assert_eq!(vertices.onto_plane[2..14], [0.0; 12]);
    assert!(matches!(
        vertices.get_point(7, SystemGet::PLANE),
        SystemSet::PLANE(p) if p == [320.0, -240.0]
    ));
}

#[test]
fn set_point_in_world_space_replaces_the_corner() {
    let mut vertices = cuboid();
    vertices.set_point(2, SystemSet::WORLD([9.0, 8.0, 7.0]));
    assert_eq!(world(&vertices, 2), [9.0, 8.0, 7.0]);
    assert_eq!(world(&vertices, 1), [-100.0, 50.0, -25.0]);
    assert_eq!(world(&vertices, 3), [100.0, -50.0, -25.0]);
    assert_eq!(vertices.ruf_vertices, [0.0; 24]);
}

#[test]
fn vertices_hold_any_scalar() {
    let mut vertices: VoxelVertices<i64> =
        VoxelVertices::centre_at_origin([4, 5, 6], [-4, -5, -6], 0);
    vertices.set_point(0, SystemSet::PLANE([-7, 7]));
    assert!(matches!(
        vertices.get_point(6, SystemGet::WORLD),
        SystemSet::WORLD(p) if p == [4, 5, 6]
    ));
    assert!(matches!(
        vertices.get_point(0, SystemGet::PLANE),
        SystemSet::PLANE(p) if p == [-7, 7]
    ));
}

#[test]
fn flat_index_runs_x_then_y_then_z() {
    let dims = VoxelDims { i: 200, j: 100, k: 50 };
    assert_eq!(dims.flat_index(0, 0, 0), Some(0));
    assert_eq!(dims.flat_index(1, 0, 0), Some(1));
    assert_eq!(dims.flat_index(0, 1, 0), Some(200));
    assert_eq!(dims.flat_index(0, 0, 1), Some(20_000));
    assert_eq!(dims.flat_index(3, 4, 5), Some(3 + 200 * (4 + 100 * 5)));
    assert_eq!(dims.flat_index(199, 99, 49), Some(200 * 100 * 50 - 1));
}

#[test]
fn flat_index_outside_the_grid_is_absent() {
    let dims = VoxelDims { i: 200, j: 100, k: 50 };
    assert_eq!(dims.flat_index(200, 0, 0), None);
    assert_eq!(dims.flat_index(0, 100, 0), None);
    assert_eq!(dims.flat_index(0, 0, 50), None);
    assert_eq!(dims.flat_index(u32::MAX, u32::MAX, u32::MAX), None);
    let empty = VoxelDims { i: 0, j: 1, k: 1 };
    assert_eq!(empty.flat_index(0, 0, 0), None);
}

#[test]
fn positive_dims_have_no_zero_extent() {
    assert!(VoxelDims { i: 1, j: 1, k: 1 }.is_positive());
    assert!(!VoxelDims { i: 0, j: 1, k: 1 }.is_positive());
    assert!(!VoxelDims { i: 1, j: 0, k: 1 }.is_positive());
    assert!(!VoxelDims { i: 1, j: 1, k: 0 }.is_positive());
}

#[test]
fn a_corner_can_be_copied() {
    let corner = SystemSet::RUF([1.0f32, 2.0, 3.0]);
    let copy = corner;
    let clone = corner.clone();
    assert!(matches!(copy, SystemSet::RUF(p) if p == [1.0, 2.0, 3.0]));
    assert!(matches!(clone, SystemSet::RUF(p) if p == [1.0, 2.0, 3.0]));
    let system = SystemGet::PLANE;
    assert!(matches!(system.clone(), SystemGet::PLANE));
}
