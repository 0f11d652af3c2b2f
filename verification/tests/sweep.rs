use rusty_svd::algebra::column_product;
use rusty_svd::error::MatrixError;
use rusty_svd::matrix::Matrix;
use rusty_svd::svd::decompose;
use rusty_svd::svd::rotate_pair;
use rusty_svd::svd::Svd;
use rusty_svd::sweep::run;
use rusty_svd::sweep::Sweeps;

fn pair(s: &Sweeps) -> (usize, usize, usize) {
    (s.sweep(), s.left(), s.right())
}

#[test]
fn begin_without_pairs_is_settled() {
    assert_eq!(Sweeps::begin(0, 5), Ok(None));
    assert_eq!(Sweeps::begin(1, 5), Ok(None));
    assert_eq!(Sweeps::begin(1, 0), Ok(None));
}

#[test]
fn begin_without_sweeps_fails() {
    assert_eq!(Sweeps::begin(2, 0), Err(MatrixError::ConvergenceFailure));
    assert_eq!(Sweeps::begin(7, 0), Err(MatrixError::ConvergenceFailure));
}

#[test]
fn begin_starts_at_the_first_pair() {
    let s = Sweeps::begin(4, 3).unwrap().unwrap();
    assert_eq!(pair(&s), (0, 0, 1));
}

#[test]
fn advance_visits_the_pairs_in_order() {
    let mut at = Sweeps::begin(4, 1).unwrap().unwrap();
    let mut seen = vec![pair(&at)];
    while let Some(then) = at.advance(false).unwrap() {
        seen.push(pair(&then));
        at = then;
    }
    assert_eq!(
        seen,
        vec![(0, 0, 1), (0, 0, 2), (0, 0, 3), (0, 1, 2), (0, 1, 3), (0, 2, 3)]
    );
}

#[test]
fn advance_starts_another_sweep_after_a_rotation() {
    let at = Sweeps::begin(3, 2).unwrap().unwrap();
    let at = at.advance(true).unwrap().unwrap();
    assert_eq!(pair(&at), (0, 0, 2));
    let at = at.advance(false).unwrap().unwrap();
    assert_eq!(pair(&at), (0, 1, 2));
    let at = at.advance(false).unwrap().unwrap();
    assert_eq!(pair(&at), (1, 0, 1));
    let at = at.advance(false).unwrap().unwrap();
    let at = at.advance(false).unwrap().unwrap();
    assert_eq!(pair(&at), (1, 1, 2));
    assert_eq!(at.advance(false), Ok(None));
    assert_eq!(at.advance(true), Err(MatrixError::ConvergenceFailure));
}

#[test]
fn advance_with_two_columns() {
    let at = Sweeps::begin(2, 2).unwrap().unwrap();
    assert_eq!(at.advance(false), Ok(None));
    let second = at.advance(true).unwrap().unwrap();
    assert_eq!(pair(&second), (1, 0, 1));
    assert_eq!(second.advance(true), Err(MatrixError::ConvergenceFailure));
    assert_eq!(second.advance(false), Ok(None));
}

#[test]
fn run_without_pairs_returns_the_start() {
    let treat = |s: u32, _p: usize, _q: usize| (s + 1, true);
    assert_eq!(run(1, 0, 7u32, &treat), Ok(7));
    assert_eq!(run(0, 3, 7u32, &treat), Ok(7));
}

#[test]
fn run_stops_after_a_quiet_sweep() {
    let treat = |mut seen: Vec<(usize, usize)>, p: usize, q: usize| {
        seen.push((p, q));
        let rotated = seen.len() <= 2;
        (seen, rotated)
    };
    let seen = run(3, 10, Vec::new(), &treat).unwrap();
    assert_eq!(seen, vec![(0, 1), (0, 2), (1, 2), (0, 1), (0, 2), (1, 2)]);
}

#[test]
fn run_gives_up_after_the_last_sweep() {
    let calls = std::cell::Cell::new(0usize);
    let treat = |s: u8, _p: usize, _q: usize| {
        calls.set(calls.get() + 1);
        (s, true)
    };
    assert_eq!(run(3, 4, 0u8, &treat), Err(MatrixError::ConvergenceFailure));
    assert_eq!(calls.get(), 12);
    assert_eq!(run(3, 0, 0u8, &treat), Err(MatrixError::ConvergenceFailure));
    assert_eq!(calls.get(), 12);
}

fn minus(x: f64, y: f64) -> f64 {
    x - y
}

fn inner(m: &Matrix<f64>, p: usize, q: usize) -> f64 {
    column_product(m, p, q, 0.0, &plus, &times).unwrap()
}

fn by_rotations(a: &Matrix<f64>, max_sweeps: usize) -> Result<Svd<f64>, MatrixError> {
    let scale: f64 = a.values().iter().map(|x| x * x).sum();
    let angle = |alpha: f64, beta: f64, gamma: f64| {
        if gamma.abs() <= 1e-12 * scale {
            return None;
        }
        let zeta = (beta - alpha) / (2.0 * gamma);
        let t = zeta.signum() / (zeta.abs() + (1.0 + zeta * zeta).sqrt());
        let c = 1.0 / (1.0 + t * t).sqrt();
        Some((c, c * t))
    };
    let treat = |state: (Matrix<f64>, Matrix<f64>), p: usize, q: usize| {
        rotate_pair(state, p, q, 0.0, &plus, &minus, &times, &angle)
    };
    let column_norm = |w: &Matrix<f64>, j: usize| inner(w, j, j).sqrt();
    let normalise = |x: f64, n: f64| if n > 0.0 { x / n } else { 0.0 };
    decompose(a, 0.0, 1.0, max_sweeps, &treat, &column_norm, &at_least, &normalise)
}

fn plus(x: f64, y: f64) -> f64 {
    x + y
}

fn times(x: f64, y: f64) -> f64 {
    x * y
}

fn at_least(x: f64, y: f64) -> bool {
    x >= y
}

fn sample() -> Matrix<f64> {
    Matrix::construct(3, 3, vec![27.0, 61.0, 95.0, 30.0, 68.0, 106.0, 33.0, 75.0, 117.0]).unwrap()
}

fn assert_rebuilt(a: &Matrix<f64>, d: &Svd<f64>) {
    let back = d.reconstruct(0.0, &plus, &times).unwrap();
    let scale = a.values().iter().fold(1.0, |m: f64, x| m.max(x.abs()));
    assert_eq!((back.rows(), back.columns()), (a.rows(), a.columns()));
    for (x, y) in back.values().iter().zip(a.values().iter()) {
        assert!((x - y).abs() <= 1e-9 * scale, "{} against {}", x, y);
    }
}

#[test]
fn rotations_decompose_the_sample() {
    let a = sample();
    let d = by_rotations(&a, 60).unwrap();
    assert_eq!(d.singular_values().len(), 3);
    assert!(d.is_non_negative(0.0, &at_least));
    assert!(d.is_descending(&at_least));
    let squares: f64 = d.singular_values().iter().map(|s| s * s).sum();
    let frobenius: f64 = a.values().iter().map(|x| x * x).sum();
    assert!((squares - frobenius).abs() <= 1e-9 * frobenius);
    assert_rebuilt(&a, &d);
}

#[test]
fn rotations_agree_with_the_full_decomposition() {
    let a = sample();
    let d = by_rotations(&a, 60).unwrap();
    let full = la::SVD::new(&la::Matrix::new(3, 3, a.values()));
    let s = full.get_s();
    let top = s.get(0, 0);
    for i in 0..3 {
        assert!((d.singular_values()[i] - s.get(i, i)).abs() <= 1e-9 * top);
    }
}

#[test]
fn rotations_decompose_other_shapes() {
    let tall = Matrix::construct(3, 2, vec![1.0, 2.0, 3.0, 4.0, 5.0, 6.0]).unwrap();
    let d = by_rotations(&tall, 60).unwrap();
    assert_eq!(d.singular_values().len(), 2);
    assert_rebuilt(&tall, &d);
    let wide = Matrix::construct(2, 3, vec![1.0, 2.0, 3.0, 4.0, 5.0, 6.0]).unwrap();
    let d = by_rotations(&wide, 60).unwrap();
    assert_eq!(d.singular_values().len(), 2);
    assert!(d.is_descending(&at_least));
    assert_rebuilt(&wide, &d);
    let one = Matrix::construct(1, 1, vec![-3.0]).unwrap();
    let d = by_rotations(&one, 0).unwrap();
    assert_eq!(d.singular_values(), &vec![3.0]);
    assert_rebuilt(&one, &d);
}

#[test]
fn rotations_of_a_zero_matrix() {
    let zero = Matrix::construct(2, 2, vec![0.0; 4]).unwrap();
    let d = by_rotations(&zero, 1).unwrap();
    assert_eq!(d.singular_values(), &vec![0.0, 0.0]);
}

#[test]
fn rotations_run_out_of_sweeps() {
    assert_eq!(by_rotations(&sample(), 1), Err(MatrixError::ConvergenceFailure));
    assert_eq!(by_rotations(&sample(), 0), Err(MatrixError::ConvergenceFailure));
}

#[test]
fn rotations_refuse_an_empty_matrix() {
    let none = Matrix::construct(0, 2, Vec::<f64>::new()).unwrap();
    assert_eq!(by_rotations(&none, 10), Err(MatrixError::DimensionMismatch));
}

#[test]
fn from_thin_checks_the_shapes() {
    let u = Matrix::construct(3, 2, vec![1, 2, 3, 4, 5, 6]).unwrap();
    let vt = Matrix::construct(2, 4, vec![0; 8]).unwrap();
    let d = Svd::from_thin(vec![9, 8], u, vt).unwrap();
    assert_eq!(d.singular_values(), &vec![9, 8]);
    assert_eq!(d.u().values(), vec![1, 2, 3, 4, 5, 6]);
    assert_eq!((d.vt().rows(), d.vt().columns()), (2, 4));
    let u = Matrix::construct(3, 2, vec![1, 2, 3, 4, 5, 6]).unwrap();
    let vt = Matrix::construct(2, 4, vec![0; 8]).unwrap();
    assert_eq!(Svd::from_thin(vec![9, 8, 7], u, vt), Err(MatrixError::DimensionMismatch));
    let u = Matrix::construct(3, 2, vec![1, 2, 3, 4, 5, 6]).unwrap();
    let vt = Matrix::construct(3, 2, vec![0; 6]).unwrap();
    assert_eq!(Svd::from_thin(vec![9, 8], u, vt), Err(MatrixError::DimensionMismatch));
}

fn whole_sum(x: i32, y: i32) -> i32 {
    x + y
}

fn whole_difference(x: i32, y: i32) -> i32 {
    x - y
}

fn whole_product(x: i32, y: i32) -> i32 {
    x * y
}

fn fixed_angle(alpha: i32, beta: i32, gamma: i32) -> Option<(i32, i32)> {
    if (alpha, beta, gamma) == (10, 20, 14) {
        Some((2, 3))
    } else {
        None
    }
}

fn whole_state() -> (Matrix<i32>, Matrix<i32>) {
    (
        Matrix::construct(2, 2, vec![1, 2, 3, 4]).unwrap(),
        Matrix::scaling(&vec![1, 1], 0),
    )
}

#[test]
fn rotate_pair_turns_both_matrices() {
    let ((w, v), rotated) = rotate_pair(
        whole_state(),
        0,
        1,
        0,
        &whole_sum,
        &whole_difference,
        &whole_product,
        &fixed_angle,
    );
    assert!(rotated);
    assert_eq!(w.values(), vec![-4, 7, -6, 17]);
    assert_eq!(v.values(), vec![2, 3, -3, 2]);
}

#[test]
fn rotate_pair_without_an_angle_changes_nothing() {
    let never = |_a: i32, _b: i32, _g: i32| -> Option<(i32, i32)> { None };
    let (state, rotated) = rotate_pair(
        whole_state(),
        0,
        1,
        0,
        &whole_sum,
        &whole_difference,
        &whole_product,
        &never,
    );
    assert!(!rotated);
    assert_eq!(state, whole_state());
}

#[test]
fn rotate_pair_leaves_an_unfitting_pair_alone() {
    let always = |_a: i32, _b: i32, _g: i32| Some((2, 3));
    for (p, q) in vec![(0, 0), (0, 2), (2, 1), (5, 7)] {
        let (state, rotated) = rotate_pair(
            whole_state(),
            p,
            q,
            0,
            &whole_sum,
            &whole_difference,
            &whole_product,
            &always,
        );
        assert!(!rotated);
        assert_eq!(state, whole_state());
    }
}
