use relaxation_solver::operators::{
    is_square, multiply_by_diagonal, prepare_l_matrix, prepare_m_matrix, prepare_n_vector, prepare_u_matrix,
};

fn sample() -> Vec<Vec<i64>> {
    vec![vec![1, 2, 3], vec![4, 5, 6], vec![7, 8, 9]]
}

#[test]
fn lower_part_keeps_entries_below_diagonal() {
    assert_eq!(prepare_l_matrix(&sample(), 0), vec![vec![0, 0, 0], vec![4, 0, 0], vec![7, 8, 0]]);
}

#[test]
fn upper_part_keeps_entries_above_diagonal() {
    assert_eq!(prepare_u_matrix(&sample(), 0), vec![vec![0, 2, 3], vec![0, 0, 6], vec![0, 0, 0]]);
}

#[test]
fn square_check() {
    assert!(is_square(&sample()));
    assert!(is_square::<i64>(&vec![]));
    assert!(!is_square(&vec![vec![1i64, 2], vec![3]]));
    assert!(!is_square(&vec![vec![1i64, 2]]));
}

#[test]
fn inverse_diagonal_and_relaxation_matrix() {
    let a: Vec<Vec<f32>> = vec![vec![4.0, 1.0], vec![2.0, 3.0]];
    let n = prepare_n_vector(&a, |x: f32| 1.0 / x);
    assert_eq!(n, vec![0.25, 1.0 / 3.0]);
    let m = prepare_m_matrix(&a, &n, 0.0, |x: f32, d: f32| -x * d);
    assert_eq!(m, vec![vec![0.0, -0.25], vec![-2.0 / 3.0, 0.0]]);
}

#[test]
fn products_with_inverse_diagonal() {
    let a: Vec<Vec<f32>> = vec![vec![4.0, 1.0], vec![2.0, 3.0]];
    let n = prepare_n_vector(&a, |x: f32| 1.0 / x);
    let l = prepare_l_matrix(&a, 0.0);
    let u = prepare_u_matrix(&a, 0.0);
    let nl = multiply_by_diagonal(&n, &l, |d: f32, x: f32| d * x);
    let nu = multiply_by_diagonal(&n, &u, |d: f32, x: f32| d * x);
    assert_eq!(nl, vec![vec![0.0, 0.0], vec![2.0 / 3.0, 0.0]]);
    assert_eq!(nu, vec![vec![0.0, 0.25], vec![0.0, 0.0]]);
}

#[test]
fn decomposition_twice_is_identical() {
    let a: Vec<Vec<f32>> = vec![vec![5.0, 1.0, 2.0], vec![1.0, 7.0, 3.0], vec![2.0, 1.0, 9.0]];
    let run = || {
        let n = prepare_n_vector(&a, |x: f32| 1.0 / x);
        let m = prepare_m_matrix(&a, &n, 0.0, |x: f32, d: f32| -x * d);
        let l = prepare_l_matrix(&a, 0.0);
        let u = prepare_u_matrix(&a, 0.0);
        let nl = multiply_by_diagonal(&n, &l, |d: f32, x: f32| d * x);
        let nu = multiply_by_diagonal(&n, &u, |d: f32, x: f32| d * x);
        (n, m, l, u, nl, nu)
    };
    assert_eq!(run(), run());
}
