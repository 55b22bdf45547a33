use relaxation_solver::loader::{
    is_valid_thread_count, parse_method, read_fields, validate_coefficients_matrix, validate_input,
    validate_results_vector, ArgumentCount, ReadError,
};
use relaxation_solver::worker::Method;

fn text_fields(f: &Vec<Vec<Vec<u8>>>) -> Vec<Vec<String>> {
    f.iter().map(|row| row.iter().map(|x| String::from_utf8(x.clone()).unwrap()).collect()).collect()
}

#[test]
fn fields_of_matrix_file() {
    let f = read_fields(b"4 1\n2 3").unwrap();
    assert_eq!(text_fields(&f), vec![vec!["4", "1"], vec!["2", "3"]]);
}

#[test]
fn fields_of_column_file() {
    let f = read_fields(b"1\n2.5").unwrap();
    assert_eq!(text_fields(&f), vec![vec!["1"], vec!["2.5"]]);
}

#[test]
fn empty_file_is_refused() {
    assert_eq!(read_fields(b""), Err(ReadError::Empty));
}

#[test]
fn empty_field_is_refused() {
    assert_eq!(read_fields(b"1  2\n3 4"), Err(ReadError::EmptyField { line: 0 }));
    assert_eq!(read_fields(b"1 2\n3 4 "), Err(ReadError::EmptyField { line: 1 }));
    assert_eq!(read_fields(b"1 2\n\n3 4"), Err(ReadError::EmptyField { line: 1 }));
}

#[test]
fn trailing_newline_is_an_empty_line() {
    assert_eq!(read_fields(b"1 2\n3 4\n"), Err(ReadError::EmptyField { line: 2 }));
}

#[test]
fn right_hand_side_shape() {
    assert!(validate_results_vector(2, &vec![vec![1i64], vec![2]]));
    assert!(!validate_results_vector(3, &vec![vec![1i64], vec![2]]));
    assert!(!validate_results_vector(2, &vec![vec![1i64], vec![2, 3]]));
    assert!(!validate_results_vector(2, &vec![vec![1i64], vec![]]));
}

#[test]
fn argument_count() {
    assert_eq!(validate_input(6), ArgumentCount::TooFew);
    assert_eq!(validate_input(7), ArgumentCount::Expected);
    assert_eq!(validate_input(8), ArgumentCount::TooMany);
}

#[test]
fn thread_count_range() {
    assert!(!is_valid_thread_count(0));
    assert!(is_valid_thread_count(1));
    assert!(is_valid_thread_count(4));
    assert!(!is_valid_thread_count(5));
}

#[test]
fn method_names() {
    assert_eq!(parse_method(b"jacobi"), Some(Method::Jacobi));
    assert_eq!(parse_method(b"gauss"), Some(Method::GaussSeidel));
    assert_eq!(parse_method(b"Jacobi"), None);
    assert_eq!(parse_method(b"gauss-seidel"), None);
    assert_eq!(parse_method(b""), None);
}

#[test]
fn zero_on_diagonal_is_refused() {
    let zero = |x: f32| x == 0.0;
    assert!(validate_coefficients_matrix(&vec![vec![4.0f32, 1.0], vec![2.0, 3.0]], zero));
    assert!(!validate_coefficients_matrix(&vec![vec![4.0f32, 1.0], vec![2.0, 0.0]], zero));
    assert!(!validate_coefficients_matrix(&vec![vec![0.0f32]], zero));
    assert!(!validate_coefficients_matrix(&vec![vec![4.0f32, 1.0], vec![2.0]], zero));
}
