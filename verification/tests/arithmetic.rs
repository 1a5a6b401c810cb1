use ndmatrix::error::ErrorKind;
use ndmatrix::matrix::Matrix;

#[test]
fn add_sums_element_by_element() {
    let a = Matrix::fill(&[2, 3], 1.5);
    let b = Matrix::fill(&[2, 3], 2.25);
    let sum = a.add(&b).unwrap();
    assert_eq!(vec![2, 3], sum.dims());
    assert_eq!(vec![3.75; 6], sum.data());
}

#[test]
fn add_has_the_canonical_shape() {
    let a = Matrix::fill(&[2, 2, 1, 1], 10.0);
    let b = Matrix::fill(&[2, 2, 1, 1], 0.5);
    let sum = a.add(&b).unwrap();
    assert_eq!(vec![2, 2], sum.dims());
    assert_eq!(vec![10.5; 4], sum.data());
}

#[test]
fn add_accepts_shapes_that_differ_by_trailing_ones_only() {
    let a = Matrix::fill(&[2, 2], 1.0);
    let b = Matrix::fill(&[2, 2, 1], 2.0);
    let sum = a.add(&b).unwrap();
    assert_eq!(vec![2, 2], sum.dims());
    assert_eq!(vec![3.0; 4], sum.data());
}

#[test]
fn add_refuses_different_shapes() {
    let a = Matrix::fill(&[2, 2], 1.0);
    let b = Matrix::fill(&[2, 3], 1.0);
    match a.add(&b) {
        Ok(_) => panic!("matrices of different shapes were added"),
        Err(e) => assert_eq!(ErrorKind::ShapeMismatch, e),
    }
    match b.add(&a) {
        Ok(_) => panic!("matrices of different shapes were added"),
        Err(e) => assert_eq!(ErrorKind::ShapeMismatch, e),
    }
}

#[test]
fn add_refuses_shapes_of_equal_size_and_different_rank() {
    let a = Matrix::fill(&[4], 1.0);
    let b = Matrix::fill(&[2, 2], 1.0);
    assert!(matches!(a.add(&b), Err(ErrorKind::ShapeMismatch)));
    let empty = Matrix::fill(&[], 1.0);
    assert!(matches!(a.add(&empty), Err(ErrorKind::ShapeMismatch)));
}

#[test]
fn add_of_empty_matrices_is_empty() {
    let a = Matrix::fill(&[], 1.0);
    let b = Matrix::fill(&[3, 0], 2.0);
    let sum = a.add(&b).unwrap();
    assert!(sum.dims().is_empty());
    assert!(sum.data().is_empty());
}

#[test]
fn add_leaves_its_operands_as_they_were() {
    let a = Matrix::fill(&[3], 1.0);
    let b = Matrix::fill(&[3], 2.0);
    let _ = a.add(&b).unwrap();
    assert_eq!(vec![3], a.dims());
    assert_eq!(vec![1.0; 3], a.data());
    assert_eq!(vec![3], b.dims());
    assert_eq!(vec![2.0; 3], b.data());
}

#[test]
fn add_works_on_integers() {
    let a = Matrix::fill(&[2, 2], 40i32);
    let b = Matrix::fill(&[2, 2], 2i32);
    let sum = a.add(&b).unwrap();
    assert_eq!(vec![42; 4], sum.data());
}

#[test]
fn zeros_is_filled_with_zero() {
    let mat: Matrix<f64> = Matrix::zeros(&[2, 3, 1]);
    assert_eq!(vec![2, 3], mat.dims());
    assert_eq!(6, mat.data().len());
    for x in mat.data() {
        assert_eq!(0.0f64.to_bits(), x.to_bits());
    }
}

#[test]
fn ones_is_filled_with_one() {
    let mat: Matrix<f64> = Matrix::ones(&[1, 1, 4]);
    assert_eq!(vec![1, 1, 4], mat.dims());
    assert_eq!(4, mat.data().len());
    for x in mat.data() {
        assert_eq!(1.0f64.to_bits(), x.to_bits());
    }
}

#[test]
fn zeros_and_ones_with_a_zero_dimension_are_empty() {
    let mat: Matrix<f64> = Matrix::zeros(&[4, 0]);
    assert!(mat.dims().is_empty());
    assert!(mat.data().is_empty());
    let mat: Matrix<f64> = Matrix::ones(&[]);
    assert!(mat.dims().is_empty());
    assert!(mat.data().is_empty());
}

#[test]
fn zeros_plus_ones_is_ones() {
    let zeros: Matrix<f64> = Matrix::zeros(&[2, 2]);
    let ones: Matrix<f64> = Matrix::ones(&[2, 2]);
    let sum = zeros.add(&ones).unwrap();
    assert_eq!(ones.dims(), sum.dims());
    assert_eq!(ones.data(), sum.data());
}

#[test]
fn shape_mismatch_describes_itself() {
    assert_eq!(
        "cannot add two matrices with different shapes",
        ErrorKind::ShapeMismatch.message()
    );
}
