use rusty_svd::error::MatrixError;
use rusty_svd::matrix::Matrix;
use rusty_svd::order::descending_order;
use rusty_svd::svd::Svd;

fn at_least(x: i32, y: i32) -> bool {
    x >= y
}

#[test]
fn descending_order_of_distinct_values() {
    assert_eq!(descending_order(&vec![3, 1, 2], &at_least), vec![0, 2, 1]);
    assert_eq!(descending_order(&vec![1, 2, 3, 4], &at_least), vec![3, 2, 1, 0]);
    assert_eq!(descending_order(&vec![4, 3, 2, 1], &at_least), vec![0, 1, 2, 3]);
    assert_eq!(descending_order(&vec![-5, 7, 0, 6, -1], &at_least), vec![1, 3, 2, 4, 0]);
}

#[test]
fn descending_order_of_few_values() {
    assert_eq!(descending_order(&Vec::<i32>::new(), &at_least), Vec::<usize>::new());
    assert_eq!(descending_order(&vec![9], &at_least), vec![0]);
}

#[test]
fn descending_order_keeps_equal_values_in_place() {
    assert_eq!(descending_order(&vec![2, 2, 1, 2], &at_least), vec![0, 1, 3, 2]);
    assert_eq!(descending_order(&vec![0, 0, 0], &at_least), vec![0, 1, 2]);
}

#[test]
fn descending_order_of_doubles() {
    let order = descending_order(&vec![0.5, 2.5, -1.0, 2.0], &|x: f64, y: f64| x >= y);
    assert_eq!(order, vec![1, 3, 0, 2]);
}

fn tag(x: i32, n: i32) -> i32 {
    x * 100 + n
}

#[test]
fn from_rotated_arranges_a_wide_matrix() {
    let w = Matrix::construct(2, 3, vec![1, 2, 3, 4, 5, 6]).unwrap();
    let v = Matrix::construct(3, 3, vec![11, 12, 13, 21, 22, 23, 31, 32, 33]).unwrap();
    let d = Svd::from_rotated(&w, &v, &vec![1, 3, 2], &at_least, &tag).unwrap();
    assert_eq!(d.singular_values(), &vec![3, 2]);
    assert_eq!(d.u(), &Matrix::construct(2, 2, vec![203, 302, 503, 602]).unwrap());
    assert_eq!(d.vt(), &Matrix::construct(2, 3, vec![12, 22, 32, 13, 23, 33]).unwrap());
}

#[test]
fn from_rotated_arranges_a_tall_matrix() {
    let w = Matrix::construct(3, 2, vec![1, 2, 3, 4, 5, 6]).unwrap();
    let v = Matrix::construct(2, 2, vec![11, 12, 21, 22]).unwrap();
    let d = Svd::from_rotated(&w, &v, &vec![7, 9], &at_least, &tag).unwrap();
    assert_eq!(d.singular_values(), &vec![9, 7]);
    assert_eq!(d.u(), &Matrix::construct(3, 2, vec![209, 107, 409, 307, 609, 507]).unwrap());
    assert_eq!(d.vt(), &Matrix::construct(2, 2, vec![12, 22, 11, 21]).unwrap());
    assert!(d.is_descending(&at_least));
}

#[test]
fn from_rotated_rejects_unfitting_shapes() {
    let w = Matrix::construct(2, 3, vec![1, 2, 3, 4, 5, 6]).unwrap();
    let v = Matrix::construct(3, 3, vec![0; 9]).unwrap();
    let small = Matrix::construct(2, 2, vec![0; 4]).unwrap();
    let slim = Matrix::construct(3, 2, vec![0; 6]).unwrap();
    let none = Matrix::construct(0, 3, Vec::<i32>::new()).unwrap();
    let mismatch = Err(MatrixError::DimensionMismatch);
    assert!(Svd::from_rotated(&w, &v, &vec![1, 2, 3], &at_least, &tag).is_ok());
    assert_eq!(Svd::from_rotated(&w, &v, &vec![1, 2], &at_least, &tag), mismatch);
    assert_eq!(Svd::from_rotated(&w, &small, &vec![1, 2, 3], &at_least, &tag), mismatch);
    assert_eq!(Svd::from_rotated(&w, &slim, &vec![1, 2, 3], &at_least, &tag), mismatch);
    assert_eq!(Svd::from_rotated(&none, &v, &vec![1, 2, 3], &at_least, &tag), mismatch);
}
