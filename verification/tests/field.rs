use voxel_sim::diffusion::{DiffusionField, FieldError, VoxelTag};
use voxel_sim::stencil::MAX_COEFFICIENT;
use voxel_sim::voxel_grid::VoxelDims;

const TENTH_OF_A_SECOND: u64 = 100_000_000;

fn line_of_three() -> DiffusionField {
    let mut field =
        DiffusionField::new(VoxelDims { i: 3, j: 1, k: 1 }, 1, MAX_COEFFICIENT).unwrap();
    field.initialize(&vec![1000, 0, 0]).unwrap();
    field
}

fn row(field: &DiffusionField, species: u32, len: u32) -> Vec<u32> {
    (0..len).map(|x| field.get(species, x, 0, 0).unwrap()).collect()
}

fn error_of(made: Result<DiffusionField, FieldError>) -> FieldError {
    match made {
        Ok(_) => panic!("the field was made"),
        Err(e) => e,
    }
}

#[test]
fn new_field_is_zero_and_unseeded() {
    let field = DiffusionField::new(VoxelDims { i: 4, j: 3, k: 2 }, 2, 250_000).unwrap();
    assert_eq!(field.len(), 48);
    assert_eq!(field.grid(), VoxelDims { i: 4, j: 3, k: 2 });
    assert_eq!(field.species_count(), 2);
    assert!(field.reads_ping());
    assert!(!field.is_initialized());
    assert_eq!(field.total(), 0);
    for z in 0..2 {
        for y in 0..3 {
            for x in 0..4 {
                assert_eq!(field.get(0, x, y, z), Some(0));
                assert_eq!(field.get(1, x, y, z), Some(0));
                assert_eq!(field.coefficient(x, y, z), Some(250_000));
                assert_eq!(field.tag(x, y, z), Some(VoxelTag::Outside));
            }
        }
    }
}

#[test]
fn new_rejects_an_empty_grid() {
    for dims in [
        VoxelDims { i: 0, j: 1, k: 1 },
        VoxelDims { i: 1, j: 0, k: 1 },
        VoxelDims { i: 1, j: 1, k: 0 },
    ] {
        assert_eq!(error_of(DiffusionField::new(dims, 1, 1)), FieldError::EmptyGrid);
    }
    let dims = VoxelDims { i: 1, j: 1, k: 1 };
    assert_eq!(error_of(DiffusionField::new(dims, 0, 1)), FieldError::EmptyGrid);
    assert_eq!(
        error_of(DiffusionField::new(VoxelDims { i: 0, j: 1, k: 1 }, 1, u32::MAX)),
        FieldError::EmptyGrid
    );
}

#[test]
fn new_rejects_a_coefficient_above_the_maximum() {
    let dims = VoxelDims { i: 2, j: 2, k: 2 };
    assert_eq!(
        error_of(DiffusionField::new(dims, 1, MAX_COEFFICIENT + 1)),
        FieldError::CoefficientTooLarge
    );
    assert!(DiffusionField::new(dims, 1, MAX_COEFFICIENT).is_ok());
    assert!(DiffusionField::new(dims, 1, 0).is_ok());
}

#[test]
fn new_rejects_a_grid_that_cannot_be_held() {
    let dims = VoxelDims { i: u32::MAX, j: u32::MAX, k: u32::MAX };
    assert_eq!(error_of(DiffusionField::new(dims, 1, 1)), FieldError::TooLarge);
    assert_eq!(error_of(DiffusionField::new(dims, u32::MAX, 1)), FieldError::TooLarge);
}

#[test]
fn initialize_stores_samples_and_raises_negative_ones_to_zero() {
    let mut field = DiffusionField::new(VoxelDims { i: 2, j: 2, k: 1 }, 1, 1).unwrap();
    assert_eq!(field.initialize(&vec![500_000, -3, 0, i32::MAX]), Ok(()));
    assert!(field.is_initialized());
    assert!(field.reads_ping());
    assert_eq!(field.get(0, 0, 0, 0), Some(500_000));
    assert_eq!(field.get(0, 1, 0, 0), Some(0));
    assert_eq!(field.get(0, 0, 1, 0), Some(0));
    assert_eq!(field.get(0, 1, 1, 0), Some(i32::MAX as u32));
    assert_eq!(field.total(), 500_000 + i32::MAX as u128);
}

#[test]
fn initialize_resets_tags() {
    let mut field = DiffusionField::new(VoxelDims { i: 2, j: 1, k: 1 }, 1, 1).unwrap();
    assert_eq!(field.set_tag(1, 0, 0, VoxelTag::Inside), Ok(()));
    assert_eq!(field.tag(1, 0, 0), Some(VoxelTag::Inside));
    assert_eq!(field.tag(0, 0, 0), Some(VoxelTag::Outside));
    field.initialize(&vec![1, 2]).unwrap();
    assert_eq!(field.tag(1, 0, 0), Some(VoxelTag::Outside));
}

#[test]
fn initialize_runs_once() {
    let mut field = line_of_three();
    assert_eq!(field.initialize(&vec![7, 7, 7]), Err(FieldError::AlreadyInitialized));
    assert_eq!(row(&field, 0, 3), vec![1000, 0, 0]);
}

#[test]
fn initialize_wants_one_sample_per_cell() {
    let mut field = DiffusionField::new(VoxelDims { i: 3, j: 1, k: 1 }, 2, 1).unwrap();
    assert_eq!(field.initialize(&vec![1, 2, 3]), Err(FieldError::SampleCount));
    assert_eq!(field.initialize(&vec![]), Err(FieldError::SampleCount));
    assert!(!field.is_initialized());
    assert_eq!(field.total(), 0);
    assert_eq!(field.initialize(&vec![1, 2, 3, 4, 5, 6]), Ok(()));
    assert_eq!(row(&field, 0, 3), vec![1, 2, 3]);
    assert_eq!(row(&field, 1, 3), vec![4, 5, 6]);
}

#[test]
fn get_out_of_range_is_absent() {
    let field = line_of_three();
    assert_eq!(field.get(0, 3, 0, 0), None);
    assert_eq!(field.get(0, 0, 1, 0), None);
    assert_eq!(field.get(0, 0, 0, 1), None);
    assert_eq!(field.get(1, 0, 0, 0), None);
    assert_eq!(field.get(u32::MAX, u32::MAX, u32::MAX, u32::MAX), None);
    assert_eq!(field.get(0, 1, 0, 0), Some(0));
    assert_eq!(field.coefficient(3, 0, 0), None);
    assert_eq!(field.tag(0, 0, 1), None);
}

#[test]
fn cells_are_laid_out_x_then_y_then_z_then_species() {
    let dims = VoxelDims { i: 2, j: 3, k: 2 };
    let mut field = DiffusionField::new(dims, 2, 1).unwrap();
    let samples: Vec<i32> = (0..24).collect();
    field.initialize(&samples).unwrap();
    for s in 0..2u32 {
        for z in 0..2u32 {
            for y in 0..3u32 {
                for x in 0..2u32 {
                    assert_eq!(field.get(s, x, y, z), Some(s * 12 + x + 2 * (y + 3 * z)));
                }
            }
        }
    }
}

#[test]
fn step_before_seeding_is_refused() {
    let mut field = DiffusionField::new(VoxelDims { i: 3, j: 1, k: 1 }, 1, 1).unwrap();
    assert_eq!(field.step(TENTH_OF_A_SECOND), Err(FieldError::NotInitialized));
    assert!(field.reads_ping());
    assert!(!field.is_initialized());
}

#[test]
fn step_applies_the_update_rule() {
    // rate = 1/s * 0.1 s = 0.1;  laplacians: -6000, 1000, 0
    let mut field = line_of_three();
    assert_eq!(field.step(TENTH_OF_A_SECOND), Ok(()));
    assert_eq!(row(&field, 0, 3), vec![400, 100, 0]);
    // laplacians: 100 - 2400, 400 + 0 - 600, 100 - 0
    assert_eq!(field.step(TENTH_OF_A_SECOND), Ok(()));
    assert_eq!(row(&field, 0, 3), vec![170, 80, 10]);
}

#[test]
fn step_rounds_down() {
    // rate 1e-3/s * 1e-3 s = 1e-6; laplacian of the middle cell is +1000,
    // of the ends -6 * 1000 + 0 = -6000; one millionth of either rounds down.
    let mut field = DiffusionField::new(VoxelDims { i: 3, j: 1, k: 1 }, 1, 1000).unwrap();
    field.initialize(&vec![1000, 0, 1000]).unwrap();
    field.step(1_000_000).unwrap();
    assert_eq!(row(&field, 0, 3), vec![999, 0, 999]);
}

#[test]
fn step_reads_all_six_neighbours() {
    let dims = VoxelDims { i: 3, j: 3, k: 3 };
    let mut field = DiffusionField::new(dims, 1, MAX_COEFFICIENT).unwrap();
    let mut samples = vec![0i32; 27];
    samples[13] = 6000;
    field.initialize(&samples).unwrap();
    field.step(TENTH_OF_A_SECOND).unwrap();
    assert_eq!(field.get(0, 1, 1, 1), Some(6000 - 3600));
    for (x, y, z) in [(0, 1, 1), (2, 1, 1), (1, 0, 1), (1, 2, 1), (1, 1, 0), (1, 1, 2)] {
        assert_eq!(field.get(0, x, y, z), Some(600));
    }
    for (x, y, z) in [(0, 0, 0), (2, 2, 2), (0, 1, 0), (2, 1, 2), (1, 0, 0), (0, 0, 1)] {
        assert_eq!(field.get(0, x, y, z), Some(0));
    }
    assert_eq!(field.total(), 6000);
}

#[test]
fn step_does_not_wrap_rows() {
    // The last cell of a row and the first of the next are adjacent in
    // memory but are no neighbours.
    let dims = VoxelDims { i: 2, j: 2, k: 1 };
    let mut field = DiffusionField::new(dims, 1, MAX_COEFFICIENT).unwrap();
    field.initialize(&vec![0, 1000, 0, 0]).unwrap();
    field.step(TENTH_OF_A_SECOND).unwrap();
    assert_eq!(field.get(0, 0, 0, 0), Some(100));
    assert_eq!(field.get(0, 1, 0, 0), Some(400));
    assert_eq!(field.get(0, 0, 1, 0), Some(0));
    assert_eq!(field.get(0, 1, 1, 0), Some(100));
}

#[test]
fn species_do_not_mix() {
    let dims = VoxelDims { i: 2, j: 1, k: 1 };
    let mut field = DiffusionField::new(dims, 2, MAX_COEFFICIENT).unwrap();
    field.initialize(&vec![0, 1000, 0, 0]).unwrap();
    field.step(TENTH_OF_A_SECOND).unwrap();
    assert_eq!(row(&field, 0, 2), vec![100, 400]);
    assert_eq!(row(&field, 1, 2), vec![0, 0]);
}

#[test]
fn step_flips_the_read_flag_once() {
    let mut field = line_of_three();
    assert!(field.reads_ping());
    let mut expected = true;
    for _ in 0..9 {
        field.step(1_000_000).unwrap();
        expected = !expected;
        assert_eq!(field.reads_ping(), expected);
    }
}

#[test]
fn step_with_an_oversized_timestep_uses_the_cap() {
    let mut at_cap = line_of_three();
    let mut over_cap = line_of_three();
    let mut far_over = line_of_three();
    at_cap.step(166_666_600).unwrap();
    over_cap.step(1_000_000_000).unwrap();
    far_over.step(u64::MAX).unwrap();
    // rate 0.1666666: 1000 - ceil(999.9996) = 0, floor(166.6666) = 166
    assert_eq!(row(&at_cap, 0, 3), vec![0, 166, 0]);
    assert_eq!(row(&over_cap, 0, 3), vec![0, 166, 0]);
    assert_eq!(row(&far_over, 0, 3), vec![0, 166, 0]);
    let mut below = line_of_three();
    below.step(166_000_000).unwrap();
    assert_eq!(row(&below, 0, 3), vec![4, 166, 0]);
}

#[test]
fn total_never_grows_under_one_coefficient() {
    let dims = VoxelDims { i: 5, j: 4, k: 3 };
    let mut field = DiffusionField::new(dims, 2, 700_000).unwrap();
    let samples: Vec<i32> =
        (0..120).map(|n: i32| 500_000 + ((n * 7919) % 200_001) - 100_000).collect();
    field.initialize(&samples).unwrap();
    let mut before = field.total();
    assert_eq!(before, samples.iter().map(|s| *s as u128).sum::<u128>());
    for frame in 0..200u64 {
        field.step(1_000_000 + frame * 5_000_000).unwrap();
        let after = field.total();
        assert!(after <= before);
        before = after;
    }
    assert!(before < samples.iter().map(|s| *s as u128).sum::<u128>());
}

#[test]
fn values_stay_bounded_by_the_largest_sample() {
    let dims = VoxelDims { i: 3, j: 3, k: 3 };
    let mut field = DiffusionField::new(dims, 1, MAX_COEFFICIENT).unwrap();
    let mut samples = vec![i32::MAX; 27];
    samples[13] = 0;
    field.initialize(&samples).unwrap();
    for _ in 0..50 {
        field.step(u64::MAX).unwrap();
        for z in 0..3 {
            for y in 0..3 {
                for x in 0..3 {
                    assert!(field.get(0, x, y, z).unwrap() <= i32::MAX as u32);
                }
            }
        }
    }
}

#[test]
fn zero_coefficient_freezes_the_field() {
    let mut field = DiffusionField::new(VoxelDims { i: 3, j: 1, k: 1 }, 1, 0).unwrap();
    field.initialize(&vec![5, 6, 7]).unwrap();
    field.step(TENTH_OF_A_SECOND).unwrap();
    assert_eq!(row(&field, 0, 3), vec![5, 6, 7]);
    assert!(!field.reads_ping());
}

#[test]
fn coefficients_are_per_voxel() {
    let mut field = line_of_three();
    assert_eq!(field.set_coefficient(0, 0, 0, 0), Ok(()));
    assert_eq!(field.coefficient(0, 0, 0), Some(0));
    assert_eq!(field.coefficient(1, 0, 0), Some(MAX_COEFFICIENT));
    field.step(TENTH_OF_A_SECOND).unwrap();
    // The first cell is frozen; the second still gains from it.
    assert_eq!(row(&field, 0, 3), vec![1000, 100, 0]);
}

#[test]
fn total_can_grow_where_coefficients_differ() {
    let mut field = line_of_three();
    field.set_coefficient(0, 0, 0, 0).unwrap();
    assert_eq!(field.total(), 1000);
    field.step(TENTH_OF_A_SECOND).unwrap();
    assert_eq!(field.total(), 1100);
}

#[test]
fn set_coefficient_checks_position_and_value() {
    let mut field = line_of_three();
    assert_eq!(field.set_coefficient(3, 0, 0, 1), Err(FieldError::OutOfRange));
    assert_eq!(field.set_coefficient(3, 0, 0, u32::MAX), Err(FieldError::OutOfRange));
    assert_eq!(
        field.set_coefficient(2, 0, 0, MAX_COEFFICIENT + 1),
        Err(FieldError::CoefficientTooLarge)
    );
    assert_eq!(field.coefficient(2, 0, 0), Some(MAX_COEFFICIENT));
    assert_eq!(field.set_coefficient(2, 0, 0, 5), Ok(()));
    assert_eq!(field.coefficient(2, 0, 0), Some(5));
    assert_eq!(field.coefficient(1, 0, 0), Some(MAX_COEFFICIENT));
}

#[test]
fn set_tag_checks_position() {
    let mut field = line_of_three();
    assert_eq!(field.set_tag(0, 1, 0, VoxelTag::Inside), Err(FieldError::OutOfRange));
    assert_eq!(field.set_tag(2, 0, 0, VoxelTag::Inside), Ok(()));
    assert_eq!(field.tag(2, 0, 0), Some(VoxelTag::Inside));
    assert_eq!(field.tag(1, 0, 0), Some(VoxelTag::Outside));
    field.step(1).unwrap();
    assert_eq!(field.tag(2, 0, 0), Some(VoxelTag::Inside));
}
