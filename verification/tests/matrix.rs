use evalexpr::matrix::Matrix;

#[test]
fn new_matrix_is_filled_with_the_initial_value() {
    let m = Matrix::new(7, 3, 2);
    assert_eq!(m.w, 3);
    assert_eq!(m.h, 2);
    assert_eq!(m.data, vec![7; 6]);
}

#[test]
fn addition_is_element_wise() {
    let mut a = Matrix::new(0, 2, 2);
    let mut b = Matrix::new(0, 2, 2);
    a.data = vec![1, 2, 3, 4];
    b.data = vec![10, 20, 30, 40];
    let c = a.add(&b);
    assert_eq!(c.w, 2);
    assert_eq!(c.h, 2);
    assert_eq!(c.data, vec![11, 22, 33, 44]);
}
