use jacobi::advect::advect;
use jacobi::project::{apply_pressure, divergence};
use jacobi::{quantize, SimError, FIELD_MAX, FX_SCALE};

fn idx(x: usize, y: usize, w: usize) -> usize {
    x + w * y
}

#[test]
fn advect_with_zero_velocity_is_identity() {
    let w = 4usize;
    let h = 4usize;
    let color: Vec<i64> = (0..16).map(|i| (i as i64 - 5) * 1000).collect();
    let vel_x = vec![0i64; 16];
    let vel_y = vec![0i64; 16];
    let mut nc = vec![0i64; 16];
    let mut nvx = vec![99i64; 16];
    let mut nvy = vec![-99i64; 16];
    assert_eq!(advect(&color, &vel_x, &vel_y, w, h, &mut nc, &mut nvx, &mut nvy), Ok(()));
    assert_eq!(nc, color);
    assert_eq!(nvx, vel_x);
    assert_eq!(nvy, vel_y);
}

#[test]
fn advect_unit_velocity_shifts_by_one_cell() {
    // Velocity (1.0, 0) everywhere: each cell resamples the cell one
    // column to its left, clamped at the wall.
    let w = 4usize;
    let h = 2usize;
    let color: Vec<i64> = vec![10, 20, 30, 40, 50, 60, 70, 80];
    let vel_x = vec![FX_SCALE; 8];
    let vel_y = vec![0i64; 8];
    let mut nc = vec![0i64; 8];
    let mut nvx = vec![0i64; 8];
    let mut nvy = vec![0i64; 8];
    assert_eq!(advect(&color, &vel_x, &vel_y, w, h, &mut nc, &mut nvx, &mut nvy), Ok(()));
    assert_eq!(nc, vec![10, 10, 20, 30, 50, 50, 60, 70]);
    assert_eq!(nvx, vec![FX_SCALE; 8]);
    assert_eq!(nvy, vec![0i64; 8]);
}

#[test]
fn advect_rejects_unequal_lengths() {
    let w = 4usize;
    let h = 2usize;
    let color = vec![0i64; 7];
    let vel_x = vec![0i64; 8];
    let vel_y = vec![0i64; 8];
    let mut nc = vec![5i64; 8];
    let mut nvx = vec![5i64; 8];
    let mut nvy = vec![5i64; 8];
    let r = advect(&color, &vel_x, &vel_y, w, h, &mut nc, &mut nvx, &mut nvy);
    assert_eq!(r, Err(SimError::ShapeMismatch));
    assert_eq!(nc, vec![5i64; 8]);
}

#[test]
fn divergence_of_uniform_field_is_zero_inside() {
    let w = 5usize;
    let h = 5usize;
    let vel_x = vec![3 * FX_SCALE; 25];
    let vel_y = vec![-2 * FX_SCALE; 25];
    let mut out = vec![0i64; 25];
    assert_eq!(divergence(&vel_x, &vel_y, w, h, &mut out), Ok(()));
    for y in 1..h - 1 {
        for x in 1..w - 1 {
            assert_eq!(out[idx(x, y, w)], 0, "interior cell ({}, {})", x, y);
        }
    }
    // The walls use the one-sided rule: the adjacent component as-is at
    // the low wall, negated at the high wall.
    assert_eq!(out[idx(0, 2, w)], 3 * FX_SCALE);
    assert_eq!(out[idx(4, 2, w)], -3 * FX_SCALE);
    assert_eq!(out[idx(2, 0, w)], -2 * FX_SCALE);
    assert_eq!(out[idx(2, 4, w)], 2 * FX_SCALE);
}

#[test]
fn divergence_central_difference_inside() {
    let w = 3usize;
    let h = 3usize;
    let mut vel_x = vec![0i64; 9];
    let vel_y = vec![0i64; 9];
    vel_x[idx(0, 1, w)] = 2 * FX_SCALE;
    vel_x[idx(2, 1, w)] = 8 * FX_SCALE;
    let mut out = vec![0i64; 9];
    assert_eq!(divergence(&vel_x, &vel_y, w, h, &mut out), Ok(()));
    assert_eq!(out[idx(1, 1, w)], 3 * FX_SCALE); // (8 - 2) / 2
}

#[test]
fn divergence_rejects_unequal_lengths() {
    let vel_x = vec![0i64; 9];
    let vel_y = vec![0i64; 8];
    let mut out = vec![4i64; 9];
    assert_eq!(divergence(&vel_x, &vel_y, 3, 3, &mut out), Err(SimError::ShapeMismatch));
    assert_eq!(out, vec![4i64; 9]);
}

#[test]
fn apply_pressure_subtracts_central_gradient() {
    // Pressure grows linearly along x: interior cells lose the slope,
    // wall cells receive a zero correction.
    let w = 4usize;
    let h = 3usize;
    let mut pressure = vec![0i64; 12];
    for y in 0..h {
        for x in 0..w {
            pressure[idx(x, y, w)] = x as i64 * 2 * FX_SCALE;
        }
    }
    let mut vel_x = vec![10 * FX_SCALE; 12];
    let mut vel_y = vec![7 * FX_SCALE; 12];
    assert_eq!(apply_pressure(&pressure, w, h, &mut vel_x, &mut vel_y), Ok(()));
    for y in 0..h {
        for x in 0..w {
            let expect_x = if x == 0 || x == w - 1 {
                10 * FX_SCALE
            } else {
                8 * FX_SCALE // 10 - (2x+2 - (2x-2))/2
            };
            let expect_y = if y == 0 || y == h - 1 {
                7 * FX_SCALE
            } else {
                7 * FX_SCALE // pressure is constant along y
            };
            assert_eq!(vel_x[idx(x, y, w)], expect_x, "x plane at ({}, {})", x, y);
            assert_eq!(vel_y[idx(x, y, w)], expect_y, "y plane at ({}, {})", x, y);
        }
    }
}

#[test]
fn apply_pressure_rejects_unequal_lengths() {
    let pressure = vec![0i64; 11];
    let mut vel_x = vec![1i64; 12];
    let mut vel_y = vec![2i64; 12];
    assert_eq!(apply_pressure(&pressure, 4, 3, &mut vel_x, &mut vel_y), Err(SimError::ShapeMismatch));
    assert_eq!(vel_x, vec![1i64; 12]);
    assert_eq!(vel_y, vec![2i64; 12]);
}

#[test]
fn quantize_saturates_and_scales() {
    assert_eq!(quantize(0), 0);
    assert_eq!(quantize(FX_SCALE), 255);
    assert_eq!(quantize(FX_SCALE / 2), 127); // 0.5 * 255 truncates
    assert_eq!(quantize(FX_SCALE / 5), 50); // 13107 * 255 / 65536 truncates
    assert_eq!(quantize(-123456), 0);
    assert_eq!(quantize(FIELD_MAX), 255);
    assert_eq!(quantize(-FIELD_MAX), 0);
}
