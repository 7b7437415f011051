use voxel_sim::bridge::{div_ceil, Bridge};
use voxel_sim::traits::Update;
use voxel_sim::voxel_grid::VoxelDims;

#[test]
fn div_ceil_rounds_up() {
    assert_eq!(div_ceil(0, 16), 0);
    assert_eq!(div_ceil(1, 16), 1);
    assert_eq!(div_ceil(16, 16), 1);
    assert_eq!(div_ceil(17, 16), 2);
    assert_eq!(div_ceil(200, 8), 25);
    assert_eq!(div_ceil(200, 4), 50);
    assert_eq!(div_ceil(600, 16), 38);
}

#[test]
fn div_ceil_does_not_overflow_at_the_top() {
    assert_eq!(div_ceil(u32::MAX, 1), u32::MAX);
    assert_eq!(div_ceil(u32::MAX, 16), 0x1000_0000);
    assert_eq!(div_ceil(u32::MAX, u32::MAX), 1);
    assert_eq!(div_ceil(u32::MAX - 1, u32::MAX), 1);
}

#[test]
fn plan_with_seed_covers_surface_and_grid() {
    let dims = VoxelDims { i: 200, j: 200, k: 200 };
    let bridge = Bridge::with_seed(&dims, 800, 600, 0xDEAD_BEEF);
    assert_eq!(bridge.raymarch_dispatch, [50, 38, 1]);
    assert_eq!(bridge.laplacian_dispatch, [25, 50, 25]);
    assert_eq!(bridge.rand_seed, 0xDEAD_BEEF);
}

#[test]
fn plan_rounds_partial_groups_up() {
    let dims = VoxelDims { i: 9, j: 5, k: 1 };
    let bridge = Bridge::with_seed(&dims, 17, 1, 1);
    assert_eq!(bridge.raymarch_dispatch, [2, 1, 1]);
    assert_eq!(bridge.laplacian_dispatch, [2, 2, 1]);
}

#[test]
fn new_plan_has_the_same_shape_whatever_the_seed() {
    let dims = VoxelDims { i: 64, j: 32, k: 16 };
    let first = Bridge::new(&dims, 1920, 1080);
    let second = Bridge::new(&dims, 1920, 1080);
    assert_eq!(first.raymarch_dispatch, [120, 68, 1]);
    assert_eq!(first.laplacian_dispatch, [8, 8, 2]);
    assert_eq!(second.raymarch_dispatch, first.raymarch_dispatch);
    assert_eq!(second.laplacian_dispatch, first.laplacian_dispatch);
}

#[test]
fn raygroups_follow_the_box() {
    let dims = VoxelDims { i: 200, j: 200, k: 200 };
    let mut bridge = Bridge::with_seed(&dims, 800, 600, 3);
    let groups = bridge.update_raygroup_ceil([-10, -10, 23, 6]);
    assert_eq!(groups, (3, 1));
    assert_eq!(bridge.raymarch_dispatch, [3, 1, 1]);
    assert_eq!(bridge.laplacian_dispatch, [25, 50, 25]);
    assert_eq!(bridge.rand_seed, 3);
    assert!(!bridge.raymarch_skipped());
}

#[test]
fn raygroups_of_an_exact_multiple() {
    let dims = VoxelDims { i: 8, j: 8, k: 8 };
    let mut bridge = Bridge::with_seed(&dims, 800, 600, 3);
    assert_eq!(bridge.update_raygroup_ceil([-400, -300, 400, 300]), (50, 38));
    assert_eq!(bridge.update_raygroup_ceil([0, 0, 32, 16]), (2, 1));
    assert_eq!(bridge.update_raygroup_ceil([0, 0, 33, 17]), (3, 2));
}

#[test]
fn raygroups_of_a_box_without_area_are_skipped() {
    let dims = VoxelDims { i: 8, j: 8, k: 8 };
    let mut bridge = Bridge::with_seed(&dims, 800, 600, 3);
    assert_eq!(bridge.update_raygroup_ceil([0, 0, 0, 0]), (0, 0));
    assert!(bridge.raymarch_skipped());
    assert_eq!(bridge.raymarch_dispatch, [0, 0, 1]);
    assert_eq!(bridge.update_raygroup_ceil([5, 5, 5, 90]), (0, 0));
    assert_eq!(bridge.update_raygroup_ceil([5, 5, 90, 5]), (0, 0));
    assert!(bridge.raymarch_skipped());
}

#[test]
fn raygroups_of_an_inverted_box_are_skipped() {
    let dims = VoxelDims { i: 8, j: 8, k: 8 };
    let mut bridge = Bridge::with_seed(&dims, 800, 600, 3);
    assert_eq!(bridge.update_raygroup_ceil([10, 10, -10, 20]), (0, 0));
    assert_eq!(bridge.update_raygroup_ceil([i32::MAX, 0, i32::MIN, 10]), (0, 0));
}

#[test]
fn raygroups_of_the_widest_box_fit() {
    let dims = VoxelDims { i: 8, j: 8, k: 8 };
    let mut bridge = Bridge::with_seed(&dims, 800, 600, 3);
    let groups = bridge.update_raygroup_ceil([i32::MIN, i32::MIN, i32::MAX, i32::MAX]);
    assert_eq!(groups, (0x1000_0000, 0x1000_0000));
}

#[test]
fn on_resize_plans_afresh_and_keeps_the_seed() {
    let dims = VoxelDims { i: 200, j: 200, k: 200 };
    let mut bridge = Bridge::with_seed(&dims, 800, 600, 77);
    bridge.update_raygroup_ceil([0, 0, 16, 16]);
    let smaller = VoxelDims { i: 16, j: 16, k: 16 };
    bridge.on_resize(&smaller, &1024, &768);
    assert_eq!(bridge.raymarch_dispatch, [64, 48, 1]);
    assert_eq!(bridge.laplacian_dispatch, [2, 4, 2]);
    assert_eq!(bridge.rand_seed, 77);
}
