use artyst::{
    check_points, diffusion_target, PointsError, grid_offsets, InterpolatingKernelDitherer, KernelKind, Matrix,
    OnOffKernelDitherer,
};

fn fs_grid() -> Matrix<f32> {
    Matrix::from(vec![0.0, 0.0, 7.0 / 16.0, 3.0 / 16.0, 5.0 / 16.0, 1.0 / 16.0], 3, 2)
}

fn levels_of(m: &Matrix<i64>) -> Vec<i64> {
    let mut v = Vec::new();
    for i in 0..m.get_height() {
        for j in 0..m.get_width() {
            v.push(m.get(i, j).unwrap());
        }
    }
    v
}

#[test]
fn single_cell_none_kernel_turns_on() {
    let none: Matrix<f32> = Matrix::from(vec![], 0, 0);
    let d = OnOffKernelDitherer::from(0.5f32, (0, 0), none);
    let input = Matrix::from(vec![0.6f32], 1, 1);
    assert_eq!(levels_of(&d.dither_levels(&input)), vec![1]);
}

#[test]
fn floyd_steinberg_row_carries_error_right() {
    // (0,0) turns on; its error is 0.6 - 1.0 = -0.4, and 7/16 of it
    // (-0.175) brings (0,1) down to 0.425, which stays off
    let d = OnOffKernelDitherer::from(0.5f32, (1, 0), fs_grid());
    let input = Matrix::from(vec![0.6f32, 0.6], 2, 1);
    assert_eq!(levels_of(&d.dither_levels(&input)), vec![1, 0]);
}

#[test]
fn floyd_steinberg_error_can_flip_the_next_cell() {
    // 0.45 stays off and leaves +0.45; 7/16 of it lifts 0.4 above 0.5
    let d = OnOffKernelDitherer::from(0.5f32, (1, 0), fs_grid());
    let input = Matrix::from(vec![0.45f32, 0.4], 2, 1);
    assert_eq!(levels_of(&d.dither_levels(&input)), vec![0, 1]);
}

#[test]
fn floyd_steinberg_diffuses_down_and_left() {
    // off at (0,1) with error 0.4: 3/16 goes to (1,0), 5/16 to (1,1), 1/16 to (1,2)
    let d = OnOffKernelDitherer::from(0.5f32, (1, 0), fs_grid());
    let input = Matrix::from(vec![0.0f32, 0.4, 0.0, 0.45, 0.4, 0.47], 3, 2);
    // (0,0): off, error 0. (0,1): off, error 0.4, 7/16 * 0.4 = 0.175 to (0,2).
    // (0,2): 0.175 off, error 0.175. (1,0): 0.45 + 0.075 = 0.525 on.
    assert_eq!(levels_of(&d.dither_levels(&input))[..4], [0, 0, 0, 1]);
}

#[test]
fn threshold_is_exclusive() {
    let none: Matrix<f32> = Matrix::from(vec![], 0, 0);
    let d = OnOffKernelDitherer::from(0.5f32, (0, 0), none);
    let input = Matrix::from(vec![0.5f32, 0.50001, 0.0, 1.0], 2, 2);
    assert_eq!(levels_of(&d.dither_levels(&input)), vec![0, 1, 0, 1]);
}

#[test]
fn none_kernel_is_plain_thresholding() {
    let d = OnOffKernelDitherer::new(0.3f32, vec![]);
    let samples = vec![0.1f32, 0.9, 0.3, 0.31, 0.29, 0.6, 0.0, 1.0, 0.2];
    let expected: Vec<i64> = samples.iter().map(|&v| if v > 0.3 { 1 } else { 0 }).collect();
    let input = Matrix::from(samples, 3, 3);
    assert_eq!(levels_of(&d.dither_levels(&input)), expected);
}

#[test]
fn on_off_levels_are_binary_for_every_kernel() {
    for kind in [KernelKind::NONE, KernelKind::FS, KernelKind::STUCKI, KernelKind::ATKINSON] {
        let k = kind.kernel();
        let grid: Vec<f32> = (0..k.matrix.get_height())
            .flat_map(|i| (0..k.matrix.get_width()).map(move |j| (i, j)))
            .map(|(i, j)| {
                let w = k.matrix.get(i, j).unwrap();
                w.num as f32 / w.den as f32
            })
            .collect();
        let grid = Matrix::from(grid, k.matrix.get_width(), k.matrix.get_height());
        let d = OnOffKernelDitherer::from(0.5f32, k.origin, grid);
        let samples: Vec<f32> = (0..35).map(|x| ((x * 37) % 101) as f32 / 100.0).collect();
        let input = Matrix::from(samples, 7, 5);
        for level in levels_of(&d.dither_levels(&input)) {
            assert!(level == 0 || level == 1);
        }
    }
}

#[test]
fn input_is_left_unchanged() {
    let d = OnOffKernelDitherer::from(0.5f32, (1, 0), fs_grid());
    let input = Matrix::from(vec![0.6f32, 0.2, 0.9, 0.4], 2, 2);
    let _ = d.dither_levels(&input);
    assert_eq!(input.get(0, 1), Ok(0.2));
    assert_eq!(input.get(1, 1), Ok(0.4));
}

#[test]
fn from_grid_matches_new_with_same_offsets() {
    let from_grid = OnOffKernelDitherer::from(0.5f32, (1, 0), fs_grid());
    let offsets = grid_offsets((1, 0), &fs_grid());
    let direct = OnOffKernelDitherer::new(0.5f32, offsets);
    let samples: Vec<f32> = (0..24).map(|x| ((x * 13) % 17) as f32 / 17.0).collect();
    let input = Matrix::from(samples, 6, 4);
    assert_eq!(levels_of(&from_grid.dither_levels(&input)), levels_of(&direct.dither_levels(&input)));

    let inter_grid = InterpolatingKernelDitherer::from(vec![0.25f32, 0.5, 0.75], (1, 0), fs_grid()).unwrap();
    let inter_direct =
        InterpolatingKernelDitherer::new(vec![0.25f32, 0.5, 0.75], grid_offsets((1, 0), &fs_grid())).unwrap();
    assert_eq!(
        levels_of(&inter_grid.dither_levels(&input)),
        levels_of(&inter_direct.dither_levels(&input))
    );
}

#[test]
fn interpolating_single_breakpoint_buckets() {
    let d = InterpolatingKernelDitherer::new(vec![0.5f32], vec![]).unwrap();
    let input = Matrix::from(vec![0.3f32, 0.7], 2, 1);
    assert_eq!(levels_of(&d.dither_levels(&input)), vec![-1, 0]);
}

#[test]
fn interpolating_breakpoint_itself_is_reached() {
    let d = InterpolatingKernelDitherer::new(vec![0.25f32, 0.5, 0.75], vec![]).unwrap();
    let input = Matrix::from(vec![0.0f32, 0.25, 0.5, 0.74, 0.75, 1.0], 6, 1);
    assert_eq!(levels_of(&d.dither_levels(&input)), vec![-1, 0, 1, 1, 2, 2]);
}

#[test]
fn interpolating_error_uses_bucket_midpoint() {
    // breakpoints [0.5]: midpoints 0.25 and 0.75. 0.3 is in the lowest bucket,
    // error 0.3 - 0.25 = 0.05, and all of it moves right: 0.46 + 0.05 >= 0.5.
    let d = InterpolatingKernelDitherer::new(vec![0.5f32], vec![(1, 0, 1.0)]).unwrap();
    let input = Matrix::from(vec![0.3f32, 0.46], 2, 1);
    assert_eq!(levels_of(&d.dither_levels(&input)), vec![-1, 0]);
    // without the error the second cell stays low
    let plain = InterpolatingKernelDitherer::new(vec![0.5f32], vec![]).unwrap();
    assert_eq!(levels_of(&plain.dither_levels(&input)), vec![-1, -1]);
}

#[test]
fn interpolating_top_bucket_midpoint_is_halfway_to_one() {
    // breakpoints [0.2, 0.6]: midpoints 0.1, 0.4, 0.8. 0.7 falls in the top
    // bucket with error -0.1, pulling 0.65 down to 0.55, below 0.6.
    let d = InterpolatingKernelDitherer::new(vec![0.2f32, 0.6], vec![(1, 0, 1.0)]).unwrap();
    let input = Matrix::from(vec![0.7f32, 0.65], 2, 1);
    assert_eq!(levels_of(&d.dither_levels(&input)), vec![1, 0]);
}

#[test]
fn interpolating_levels_stay_in_range() {
    let points = vec![0.1f32, 0.3, 0.5, 0.7, 0.9];
    let d = InterpolatingKernelDitherer::from(points, (2, 0), {
        let k = KernelKind::STUCKI.kernel();
        let mut g = Vec::new();
        for i in 0..k.matrix.get_height() {
            for j in 0..k.matrix.get_width() {
                let w = k.matrix.get(i, j).unwrap();
                g.push(w.num as f32 / w.den as f32);
            }
        }
        Matrix::from(g, 5, 3)
    }).unwrap();
    let samples: Vec<f32> = (0..48).map(|x| ((x * 29) % 53) as f32 / 52.0).collect();
    let input = Matrix::from(samples, 8, 6);
    for level in levels_of(&d.dither_levels(&input)) {
        assert!((-1..=4).contains(&level));
    }
}

#[test]
fn interpolating_without_breakpoints_is_all_low() {
    let d = InterpolatingKernelDitherer::new(Vec::<f32>::new(), vec![(1, 0, 0.5)]).unwrap();
    let input = Matrix::from(vec![0.0f32, 1.0, 0.5], 3, 1);
    assert_eq!(levels_of(&d.dither_levels(&input)), vec![-1, -1, -1]);
}

#[test]
fn targets_never_negative() {
    assert_eq!(diffusion_target(0, 0, -1, 0, 5, 5), None);
    assert_eq!(diffusion_target(0, 0, 0, -1, 5, 5), None);
    assert_eq!(diffusion_target(3, 0, -1, 1, 5, 5), None);
    assert_eq!(diffusion_target(3, 2, -2, 1, 5, 5), Some((4, 0)));
}

#[test]
fn targets_past_the_bounds_are_skipped() {
    assert_eq!(diffusion_target(4, 1, 0, 1, 5, 5), None);
    assert_eq!(diffusion_target(1, 4, 1, 0, 5, 5), None);
    assert_eq!(diffusion_target(1, 3, 1, 0, 5, 5), Some((1, 4)));
    assert_eq!(diffusion_target(u32::MAX, 0, 0, 1, u32::MAX, 1), None);
}

#[test]
fn breakpoints_in_order_pass() {
    assert_eq!(check_points(&vec![0.0f32, 0.25, 0.5, 1.0]), Ok(()));
    assert_eq!(check_points(&vec![0.5f32]), Ok(()));
    assert_eq!(check_points(&Vec::<f32>::new()), Ok(()));
}

#[test]
fn breakpoints_out_of_order_or_range_fail() {
    assert_eq!(check_points(&vec![0.2f32, 0.5, 0.4]), Err(PointsError::NotIncreasing(2)));
    assert_eq!(check_points(&vec![0.0f32, 0.25, 0.25, 1.0]), Err(PointsError::NotIncreasing(2)));
    assert_eq!(check_points(&vec![0.3f32, f32::NAN]), Err(PointsError::NotIncreasing(1)));
    assert_eq!(check_points(&vec![0.2f32, 1.5]), Err(PointsError::OutOfUnitRange(1)));
    assert_eq!(check_points(&vec![-0.1f32, 0.5]), Err(PointsError::OutOfUnitRange(0)));
    assert_eq!(check_points(&vec![0.9f32, 1.2, 0.5]), Err(PointsError::OutOfUnitRange(1)));
}

#[test]
fn interpolating_ditherer_refuses_bad_breakpoints() {
    assert_eq!(
        InterpolatingKernelDitherer::new(vec![0.5f32, 0.5], vec![]).err(),
        Some(PointsError::NotIncreasing(1))
    );
    assert_eq!(
        InterpolatingKernelDitherer::new(vec![0.6f32, 0.2], vec![]).err(),
        Some(PointsError::NotIncreasing(1))
    );
    assert_eq!(
        InterpolatingKernelDitherer::from(vec![1.5f32], (1, 0), fs_grid()).err(),
        Some(PointsError::OutOfUnitRange(0))
    );
}

#[test]
fn backward_offsets_leave_plain_thresholding() {
    // every share goes to a cell already visited or off the buffer
    let d = OnOffKernelDitherer::new(0.5f32, vec![(-1, 0, 0.5), (0, -1, 0.5), (3, -1, 1.0), (0, 0, 1.0)]);
    let samples = vec![0.6f32, 0.4, 0.51, 0.49, 0.9, 0.1, 0.5, 0.7, 0.3, 0.55, 0.45, 0.0];
    let expected: Vec<i64> = samples.iter().map(|&v| if v > 0.5 { 1 } else { 0 }).collect();
    let input = Matrix::from(samples, 4, 3);
    assert_eq!(levels_of(&d.dither_levels(&input)), expected);
}
