use relaxation_solver::partition::row_assignment;

#[test]
fn strided_rows_of_each_worker() {
    assert_eq!(row_assignment(0, 2, 5), vec![0, 2, 4]);
    assert_eq!(row_assignment(1, 2, 5), vec![1, 3]);
    assert_eq!(row_assignment(2, 3, 8), vec![2, 5]);
}

#[test]
fn single_worker_owns_every_row() {
    assert_eq!(row_assignment(0, 1, 4), vec![0, 1, 2, 3]);
}

#[test]
fn surplus_worker_owns_no_row() {
    assert!(row_assignment(3, 4, 2).is_empty());
    assert!(row_assignment(2, 4, 2).is_empty());
    assert!(row_assignment(0, 1, 0).is_empty());
}

#[test]
fn every_row_owned_exactly_once() {
    for threads in 1..=4usize {
        for n in 0..10usize {
            let mut owners = vec![0usize; n];
            for t in 0..threads {
                for row in row_assignment(t, threads, n) {
                    assert_eq!(row % threads, t);
                    owners[row] += 1;
                }
            }
            assert!(owners.iter().all(|&c| c == 1));
        }
    }
}
