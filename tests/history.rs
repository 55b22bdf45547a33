use relaxation_solver::history::History;

fn zeros(n: usize) -> Vec<i64> {
    vec![0; n]
}

#[test]
fn new_history_has_initial_row_and_unknown_cells() {
    let h = History::new(&vec![1i64, 2, 3], 4);
    assert_eq!(h.iterations(), 4);
    assert_eq!(h.width(), 3);
    assert_eq!(h.get(0, 2), Some(3));
    for k in 1..4 {
        for i in 0..3 {
            assert_eq!(h.get(k, i), None);
        }
    }
    assert!(h.is_resolved(0));
    assert!(!h.is_resolved(1));
}

#[test]
fn cells_are_written_once() {
    let mut h = History::new(&zeros(2), 3);
    assert!(h.set(1, 0, 5));
    assert_eq!(h.get(1, 0), Some(5));
    assert!(!h.set(1, 0, 9));
    assert_eq!(h.get(1, 0), Some(5));
    assert!(!h.set(0, 1, 9));
    assert_eq!(h.get(0, 1), Some(0));
}

#[test]
fn resolution_never_reverts() {
    let mut h = History::new(&zeros(3), 3);
    let mut seen: Vec<(usize, usize, i64)> = Vec::new();
    for (step, (k, i)) in [(1, 2), (1, 0), (2, 1), (1, 2), (1, 1), (2, 1)].iter().enumerate() {
        h.set(*k, *i, step as i64 + 10);
        if let Some(v) = h.get(*k, *i) {
            if !seen.iter().any(|&(a, b, _)| a == *k && b == *i) {
                seen.push((*k, *i, v));
            }
        }
        for &(a, b, v) in &seen {
            assert_eq!(h.get(a, b), Some(v));
        }
    }
}

#[test]
fn no_resolved_iteration_selects_initial_guess() {
    let mut h = History::new(&zeros(2), 4);
    h.set(1, 0, 7);
    h.set(3, 1, 8);
    assert_eq!(h.find_results(), 0);
    assert_eq!(h.select_result(), vec![0, 0]);
}

#[test]
fn highest_resolved_iteration_is_selected() {
    let mut h = History::new(&zeros(2), 5);
    h.set(1, 0, 1);
    h.set(1, 1, 2);
    h.set(2, 0, 3);
    h.set(2, 1, 4);
    h.set(3, 0, 5);
    assert_eq!(h.find_results(), 2);
    assert_eq!(h.select_result(), vec![3, 4]);
}

#[test]
fn single_row_history_selects_initial_guess() {
    let h = History::new(&vec![4i64, 5], 1);
    assert_eq!(h.find_results(), 0);
    assert_eq!(h.select_result(), vec![4, 5]);
}

#[test]
fn gauss_seidel_dependencies() {
    let mut h = History::new(&zeros(3), 3);
    // Row 0 of iteration 1 reads rows 1 and 2 of iteration 0 only.
    assert!(h.are_all_needed_results_available(1, 0));
    // Row 1 of iteration 1 needs row 0 of iteration 1.
    assert!(!h.are_all_needed_results_available(1, 1));
    h.set(1, 0, 1);
    assert!(h.are_all_needed_results_available(1, 1));
    assert!(!h.are_all_needed_results_available(1, 2));
    h.set(1, 1, 2);
    assert!(h.are_all_needed_results_available(1, 2));
    // Row 0 of iteration 2 needs rows 1 and 2 of iteration 1.
    assert!(!h.are_all_needed_results_available(2, 0));
    h.set(1, 2, 3);
    assert!(h.are_all_needed_results_available(2, 0));
}

#[test]
fn gauss_seidel_operands_mix_iterations() {
    let mut h = History::new(&vec![10i64, 20, 30, 40], 3);
    h.set(1, 0, 11);
    h.set(1, 1, 21);
    let (current, previous) = h.gauss_seidel_operands(1, 2);
    assert_eq!(current, vec![11, 21]);
    assert_eq!(previous, vec![40]);
    let (current, previous) = h.gauss_seidel_operands(1, 0);
    assert!(current.is_empty());
    assert_eq!(previous, vec![20, 30, 40]);
}

#[test]
fn row_values_of_resolved_iteration() {
    let mut h = History::new(&zeros(2), 2);
    h.set(1, 1, 6);
    h.set(1, 0, 5);
    assert_eq!(h.row_values(1), vec![5, 6]);
}
