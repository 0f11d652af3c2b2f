use rusty_svd::algebra::column_product;
use rusty_svd::algebra::multiply;
use rusty_svd::algebra::rotate_columns;
use rusty_svd::algebra::transpose;
use rusty_svd::error::MatrixError;
use rusty_svd::matrix::Matrix;

fn plus(x: f64, y: f64) -> f64 {
    x + y
}

fn times(x: f64, y: f64) -> f64 {
    x * y
}

fn left() -> Matrix<f64> {
    Matrix::construct(3, 2, vec![1.0, 2.0, 3.0, 4.0, 5.0, 6.0]).unwrap()
}

fn right() -> Matrix<f64> {
    Matrix::construct(2, 3, vec![7.0, 8.0, 9.0, 10.0, 11.0, 12.0]).unwrap()
}

#[test]
fn multiply_three_by_two_with_two_by_three() {
    let c = multiply(&left(), &right(), 0.0, &plus, &times).unwrap();
    assert_eq!(c.rows(), 3);
    assert_eq!(c.columns(), 3);
    assert_eq!(
        c.values(),
        vec![27.0, 30.0, 33.0, 61.0, 68.0, 75.0, 95.0, 106.0, 117.0]
    );
}

#[test]
fn transpose_of_the_product() {
    let c = multiply(&left(), &right(), 0.0, &plus, &times).unwrap();
    let t = transpose(&c);
    assert_eq!(t.rows(), 3);
    assert_eq!(t.columns(), 3);
    assert_eq!(
        t.values(),
        vec![27.0, 61.0, 95.0, 30.0, 68.0, 106.0, 33.0, 75.0, 117.0]
    );
}

#[test]
fn multiply_rejects_unfitting_shapes() {
    let r = multiply(&left(), &left(), 0.0, &plus, &times);
    assert_eq!(r, Err(MatrixError::DimensionMismatch));
    let r = multiply(&right(), &right(), 0.0, &plus, &times);
    assert_eq!(r, Err(MatrixError::DimensionMismatch));
}

#[test]
fn multiply_two_by_three_with_three_by_two() {
    let c = multiply(&right(), &left(), 0.0, &plus, &times).unwrap();
    assert_eq!(c.rows(), 2);
    assert_eq!(c.columns(), 2);
    assert_eq!(c.values(), vec![76.0, 100.0, 103.0, 136.0]);
}

#[test]
fn multiply_adds_in_the_order_of_the_inner_index() {
    let join = |x: String, y: String| format!("({}+{})", x, y);
    let pair = |x: String, y: String| format!("{}{}", x, y);
    let a = Matrix::construct(1, 2, vec!["a", "b"]).unwrap();
    let b = Matrix::construct(2, 1, vec!["c", "d"]).unwrap();
    let plus_text = |x: &'static str, y: &'static str| -> &'static str {
        Box::leak(join(x.to_string(), y.to_string()).into_boxed_str())
    };
    let times_text = |x: &'static str, y: &'static str| -> &'static str {
        Box::leak(pair(x.to_string(), y.to_string()).into_boxed_str())
    };
    let c = multiply(&a, &b, "0", &plus_text, &times_text).unwrap();
    assert_eq!(c.values(), vec!["((0+ac)+bd)"]);
}

#[test]
fn multiply_with_empty_inner_dimension_gives_zeros() {
    let none: Vec<i64> = Vec::new();
    let a = Matrix::construct(2, 0, none).unwrap();
    let none: Vec<i64> = Vec::new();
    let b = Matrix::construct(0, 3, none).unwrap();
    let c = multiply(&a, &b, 0, &|x: i64, y: i64| x + y, &|x: i64, y: i64| x * y).unwrap();
    assert_eq!(c.values(), vec![0, 0, 0, 0, 0, 0]);
    assert_eq!(c.rows(), 2);
    assert_eq!(c.columns(), 3);
}

#[test]
fn transpose_exchanges_indices() {
    let a = left();
    let t = transpose(&a);
    assert_eq!(t.rows(), 2);
    assert_eq!(t.columns(), 3);
    assert_eq!(t.values(), vec![1.0, 3.0, 5.0, 2.0, 4.0, 6.0]);
    for i in 0..3 {
        for j in 0..2 {
            assert_eq!(t.element(j, i), a.element(i, j));
        }
    }
}

#[test]
fn transpose_twice_is_the_identity() {
    let a = left();
    assert_eq!(transpose(&transpose(&a)), a);
    let none: Vec<f64> = Vec::new();
    let empty = Matrix::construct(0, 5, none).unwrap();
    assert_eq!(transpose(&transpose(&empty)), empty);
    assert_eq!(transpose(&empty).rows(), 5);
    assert_eq!(transpose(&empty).columns(), 0);
}

#[test]
fn transpose_of_product_is_product_of_transposes() {
    let a = left();
    let b = right();
    let ab_t = transpose(&multiply(&a, &b, 0.0, &plus, &times).unwrap());
    let bt_at = multiply(&transpose(&b), &transpose(&a), 0.0, &plus, &times).unwrap();
    assert_eq!(ab_t.rows(), b.columns());
    assert_eq!(ab_t.columns(), a.rows());
    assert_eq!(ab_t, bt_at);
}

fn whole() -> Matrix<i32> {
    Matrix::construct(2, 3, vec![1, 2, 3, 4, 5, 6]).unwrap()
}

fn sum(x: i32, y: i32) -> i32 {
    x + y
}

fn difference(x: i32, y: i32) -> i32 {
    x - y
}

fn product(x: i32, y: i32) -> i32 {
    x * y
}

#[test]
fn column_product_sums_down_the_columns() {
    let m = whole();
    assert_eq!(column_product(&m, 0, 1, 0, &sum, &product), Ok(22));
    assert_eq!(column_product(&m, 1, 0, 0, &sum, &product), Ok(22));
    assert_eq!(column_product(&m, 2, 2, 0, &sum, &product), Ok(45));
    assert_eq!(column_product(&m, 2, 2, 100, &sum, &product), Ok(145));
}

#[test]
fn column_product_rejects_missing_columns() {
    let m = whole();
    let outside = Err(MatrixError::IndexOutOfBounds);
    assert_eq!(column_product(&m, 3, 0, 0, &sum, &product), outside);
    assert_eq!(column_product(&m, 0, 3, 0, &sum, &product), outside);
}

#[test]
fn rotate_columns_turns_two_columns() {
    let m = whole();
    let r = rotate_columns(&m, 0, 2, 2, 3, &sum, &difference, &product).unwrap();
    assert_eq!(r.rows(), 2);
    assert_eq!(r.columns(), 3);
    assert_eq!(r.values(), vec![-7, 2, 9, -10, 5, 24]);
    let r = rotate_columns(&m, 2, 0, 2, 3, &sum, &difference, &product).unwrap();
    assert_eq!(r.values(), vec![11, 2, 3, 26, 5, 0]);
}

#[test]
fn rotate_columns_by_nothing_keeps_the_matrix() {
    let m = whole();
    let r = rotate_columns(&m, 0, 1, 1, 0, &sum, &difference, &product).unwrap();
    assert_eq!(r, m);
}

#[test]
fn rotate_columns_rejects_bad_pairs() {
    let m = whole();
    let outside = Err(MatrixError::IndexOutOfBounds);
    assert_eq!(rotate_columns(&m, 1, 1, 2, 3, &sum, &difference, &product), outside);
    assert_eq!(rotate_columns(&m, 0, 3, 2, 3, &sum, &difference, &product), outside);
    assert_eq!(rotate_columns(&m, 3, 0, 2, 3, &sum, &difference, &product), outside);
}
