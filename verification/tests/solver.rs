use jacobi::{jacobi_iter, SimError, StencilElement, FX_SCALE};

fn laplacian_1d() -> Vec<StencilElement> {
    vec![
        StencilElement { offset: 1, value: FX_SCALE },
        StencilElement { offset: -1, value: FX_SCALE },
    ]
}

#[test]
fn jacobi_rejects_unequal_lengths() {
    let stencil = laplacian_1d();
    let id_inverse: i64 = -FX_SCALE / 2;
    let combos: Vec<(usize, usize, usize)> = vec![
        (4, 5, 5),
        (5, 4, 5),
        (5, 5, 4),
        (3, 4, 5),
        (0, 5, 5),
        (5, 0, 0),
    ];
    for (lx, lb, ln) in combos {
        let x = vec![0i64; lx];
        let b = vec![0i64; lb];
        let mut x_n = vec![7i64; ln];
        let r = jacobi_iter(id_inverse, &stencil, &x, &mut x_n, &b);
        assert_eq!(r, Err(SimError::ShapeMismatch));
        assert_eq!(x_n, vec![7i64; ln], "destination must be untouched");
    }
}

#[test]
fn jacobi_accepts_equal_lengths() {
    let stencil = laplacian_1d();
    let x = vec![0i64; 5];
    let b = vec![0i64; 5];
    let mut x_n = vec![0i64; 5];
    assert_eq!(jacobi_iter(-FX_SCALE / 2, &stencil, &x, &mut x_n, &b), Ok(()));
}

#[test]
fn jacobi_empty_stencil_scales_rhs() {
    // With no off-diagonal terms one sweep is just b * id_inverse.
    let stencil: Vec<StencilElement> = Vec::new();
    let b = vec![2 * FX_SCALE, -4 * FX_SCALE, 0, FX_SCALE];
    let x = vec![123i64; 4];
    let mut x_n = vec![0i64; 4];
    assert_eq!(jacobi_iter(FX_SCALE, &stencil, &x, &mut x_n, &b), Ok(()));
    assert_eq!(x_n, b);
    assert_eq!(jacobi_iter(-FX_SCALE / 4, &stencil, &x, &mut x_n, &b), Ok(()));
    assert_eq!(x_n, vec![-FX_SCALE / 2, FX_SCALE, 0, -FX_SCALE / 4]);
}

#[test]
fn jacobi_boundary_cells_get_no_stencil_term() {
    // One element with offset 2 on a field of length 5: cells 3 and 4
    // reach outside the field, so they keep only the scaled right-hand
    // side.  Checked against a manual computation.
    let stencil = vec![StencilElement { offset: 2, value: FX_SCALE }];
    let id_inverse: i64 = -FX_SCALE / 4;
    let b = vec![4 * FX_SCALE; 5];
    let x = vec![FX_SCALE; 5];
    let mut x_n = vec![0i64; 5];
    assert_eq!(jacobi_iter(id_inverse, &stencil, &x, &mut x_n, &b), Ok(()));
    let init = -FX_SCALE; // 4.0 * -0.25
    let term = -FX_SCALE / 4; // 1.0 * 1.0 * -0.25
    assert_eq!(x_n, vec![init - term, init - term, init - term, init, init]);
}

#[test]
fn jacobi_negative_offset_skips_low_cells() {
    let stencil = vec![StencilElement { offset: -2, value: FX_SCALE }];
    let id_inverse: i64 = -FX_SCALE / 4;
    let b = vec![4 * FX_SCALE; 5];
    let x = vec![FX_SCALE; 5];
    let mut x_n = vec![0i64; 5];
    assert_eq!(jacobi_iter(id_inverse, &stencil, &x, &mut x_n, &b), Ok(()));
    let init = -FX_SCALE;
    let term = -FX_SCALE / 4;
    assert_eq!(x_n, vec![init, init, init - term, init - term, init - term]);
}

fn sweep_times(
    n: usize,
    stencil: &Vec<StencilElement>,
    id_inverse: i64,
    prev: &mut Vec<i64>,
    next: &mut Vec<i64>,
    b: &Vec<i64>,
) {
    for _ in 0..n {
        jacobi_iter(id_inverse, stencil, prev, next, b).unwrap();
        std::mem::swap(prev, next);
    }
}

#[test]
fn jacobi_converges_on_1d_laplacian() {
    // A solvable tridiagonal system: iterates move at first, then
    // stabilize; far iterates agree within a tiny tolerance.
    let stencil = laplacian_1d();
    let id_inverse: i64 = -FX_SCALE / 2;
    let len = 16usize;
    let mut b = vec![0i64; len];
    b[7] = FX_SCALE;
    b[3] = -2 * FX_SCALE;
    let mut prev = vec![0i64; len];
    let mut next = vec![0i64; len];
    sweep_times(1, &stencil, id_inverse, &mut prev, &mut next, &b);
    let after_1 = prev.clone();
    sweep_times(1010, &stencil, id_inverse, &mut prev, &mut next, &b);
    let after_1011 = prev.clone();
    sweep_times(1000, &stencil, id_inverse, &mut prev, &mut next, &b);
    let after_2011 = prev.clone();

    assert_ne!(after_1, after_1011, "early iterates must still be moving");
    for i in 0..len {
        let d = (after_1011[i] - after_2011[i]).abs();
        assert!(d <= 2, "cell {} moved by {} after convergence", i, d);
    }
}
