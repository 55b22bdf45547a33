use relaxation_solver::history::History;
use relaxation_solver::operators::{
    multiply_by_diagonal, prepare_l_matrix, prepare_m_matrix, prepare_n_vector, prepare_u_matrix,
};
use relaxation_solver::worker::{Action, Method, Worker};

const TOLERANCE: f32 = 1e-5;

struct Outcome {
    x: Vec<f32>,
    last_iteration: usize,
}

fn residual(a: &Vec<Vec<f32>>, x: &Vec<f32>, b: &Vec<f32>) -> f32 {
    let mut error = 0.0f32;
    for i in 0..a.len() {
        let mut row = 0.0f32;
        for j in 0..a[i].len() {
            row += a[i][j] * x[j];
        }
        error += (row - b[i]) * (row - b[i]);
    }
    error
}

// Runs the workers one step at a time in turn; a worker passes its
// rendezvous once the iteration it waits on is fully resolved.
fn solve(a: &Vec<Vec<f32>>, b: &Vec<f32>, iterations: usize, threads: usize, method: Method) -> Outcome {
    let n = a.len();
    let nv = prepare_n_vector(a, |x: f32| 1.0 / x);
    let m = prepare_m_matrix(a, &nv, 0.0, |x: f32, d: f32| -x * d);
    let nl = multiply_by_diagonal(&nv, &prepare_l_matrix(a, 0.0), |d: f32, x: f32| d * x);
    let nu = multiply_by_diagonal(&nv, &prepare_u_matrix(a, 0.0), |d: f32, x: f32| d * x);
    let mut h = History::new(&vec![0.0f32; n], iterations);
    let mut workers: Vec<Worker> = (0..threads).map(|t| Worker::new(method, t, threads, n, iterations)).collect();
    let mut last_iteration = 0;
    loop {
        let mut running = false;
        let mut progressed = false;
        for w in workers.iter_mut() {
            match w.next_action(&h) {
                Action::Compute { iteration: k, row: i } => {
                    let value = match method {
                        Method::Jacobi => {
                            let x = h.row_values(k - 1);
                            let mut v = nv[i] * b[i];
                            for j in 0..n {
                                v += m[i][j] * x[j];
                            }
                            v
                        }
                        Method::GaussSeidel => {
                            let (current, previous) = h.gauss_seidel_operands(k, i);
                            let mut v = nv[i] * b[i];
                            for j in 0..i {
                                v -= nl[i][j] * current[j];
                            }
                            for j in i + 1..n {
                                v -= nu[i][j] * previous[j - i - 1];
                            }
                            v
                        }
                    };
                    assert!(w.record(&mut h, value));
                    running = true;
                    progressed = true;
                }
                Action::Wait => running = true,
                Action::Synchronize { iteration: k } => {
                    running = true;
                    if h.is_resolved(k) {
                        let converged = residual(a, &h.row_values(k), b) < TOLERANCE;
                        w.complete_iteration(converged);
                        last_iteration = last_iteration.max(k);
                        progressed = true;
                    }
                }
                Action::Finish => {}
            }
        }
        if !running {
            break;
        }
        assert!(progressed, "no worker can move");
    }
    Outcome { x: h.select_result(), last_iteration }
}

fn close(x: &Vec<f32>, y: &Vec<f32>, eps: f32) -> bool {
    x.len() == y.len() && x.iter().zip(y.iter()).all(|(p, q)| (p - q).abs() < eps)
}

fn two_by_two() -> (Vec<Vec<f32>>, Vec<f32>) {
    (vec![vec![4.0, 1.0], vec![2.0, 3.0]], vec![1.0, 2.0])
}

fn dominant_four() -> (Vec<Vec<f32>>, Vec<f32>) {
    (
        vec![
            vec![10.0, -1.0, 2.0, 0.0],
            vec![-1.0, 11.0, -1.0, 3.0],
            vec![2.0, -1.0, 10.0, -1.0],
            vec![0.0, 3.0, -1.0, 8.0],
        ],
        vec![6.0, 25.0, -11.0, 15.0],
    )
}

#[test]
fn jacobi_single_thread_two_by_two() {
    let (a, b) = two_by_two();
    let out = solve(&a, &b, 50, 1, Method::Jacobi);
    assert!(out.last_iteration < 49);
    assert!(residual(&a, &out.x, &b) < TOLERANCE);
    assert!(close(&out.x, &vec![0.1, 0.6], 1e-3));
}

#[test]
fn gauss_seidel_two_threads_two_by_two() {
    let (a, b) = two_by_two();
    let jacobi = solve(&a, &b, 50, 1, Method::Jacobi);
    let gauss = solve(&a, &b, 50, 2, Method::GaussSeidel);
    assert!(residual(&a, &gauss.x, &b) < TOLERANCE);
    assert!(close(&gauss.x, &vec![0.1, 0.6], 1e-3));
    assert!(close(&gauss.x, &jacobi.x, 1e-3));
    assert!(gauss.last_iteration < jacobi.last_iteration);
    assert_eq!(jacobi.last_iteration, 8);
    assert_eq!(gauss.last_iteration, 4);
}

#[test]
fn methods_and_thread_counts_agree() {
    let (a, b) = dominant_four();
    let j1 = solve(&a, &b, 100, 1, Method::Jacobi);
    let j4 = solve(&a, &b, 100, 4, Method::Jacobi);
    let g1 = solve(&a, &b, 100, 1, Method::GaussSeidel);
    let g4 = solve(&a, &b, 100, 4, Method::GaussSeidel);
    assert_eq!(j1.x, j4.x);
    assert_eq!(g1.x, g4.x);
    assert!(close(&j1.x, &g1.x, 1e-3));
    assert!(close(&g1.x, &vec![1.0, 2.0, -1.0, 1.0], 1e-3));
}

#[test]
fn more_workers_than_rows() {
    let (a, b) = two_by_two();
    for method in [Method::Jacobi, Method::GaussSeidel] {
        let one = solve(&a, &b, 50, 1, method);
        let four = solve(&a, &b, 50, 4, method);
        assert_eq!(one.x, four.x);
        assert_eq!(one.last_iteration, four.last_iteration);
    }
}

#[test]
fn no_iteration_budget_returns_initial_guess() {
    let (a, b) = two_by_two();
    let out = solve(&a, &b, 1, 2, Method::GaussSeidel);
    assert_eq!(out.x, vec![0.0, 0.0]);
    assert_eq!(out.last_iteration, 0);
}

#[test]
fn divergent_system_runs_to_the_budget() {
    let a: Vec<Vec<f32>> = vec![vec![1.0, 3.0], vec![3.0, 1.0]];
    let b = vec![1.0, 1.0];
    let out = solve(&a, &b, 6, 2, Method::Jacobi);
    assert_eq!(out.last_iteration, 5);
    assert!(residual(&a, &out.x, &b) >= TOLERANCE);
}
