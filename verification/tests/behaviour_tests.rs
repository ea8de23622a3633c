use clustvarsel::backup::{
    biggest_elements, dot_product as plain_dot_product, eucleadian_distance as vec_distance,
    find_max, find_min, slow_inverse, slow_transpose,
};
use clustvarsel::calculations::linear_algebra::{
    determinant, dot_product, matrix_dot_product, recursive_step, slow_inverse_matrix,
};
use clustvarsel::calculations::matrix::Matrix;
use clustvarsel::calculations::stats::means_zs;
use clustvarsel::helpers::mean_squared_error;
use clustvarsel::models::distances::eucleadian_distance;
use clustvarsel::scalar::Scalar;
use clustvarsel::training_setup::TrainingSetup;

#[derive(Clone, Copy, Debug, PartialEq)]
struct R64(f64);

impl Scalar for R64 {
    fn zero() -> R64 {
        R64(0.0)
    }
    fn one() -> R64 {
        R64(1.0)
    }
    fn pi() -> R64 {
        R64(std::f64::consts::PI)
    }
    fn from_count(n: usize) -> R64 {
        R64(n as f64)
    }
    fn euler() -> R64 {
        R64(std::f64::consts::E)
    }
    fn half() -> R64 {
        R64(0.5)
    }
    fn neg(self) -> R64 {
        R64(-self.0)
    }
    fn plus(self, o: R64) -> R64 {
        R64(self.0 + o.0)
    }
    fn minus(self, o: R64) -> R64 {
        R64(self.0 - o.0)
    }
    fn times(self, o: R64) -> R64 {
        R64(self.0 * o.0)
    }
    fn divided_by(self, o: R64) -> R64 {
        R64(self.0 / o.0)
    }
    fn lt(self, o: R64) -> bool {
        self.0 < o.0
    }
    fn eq_val(self, o: R64) -> bool {
        self.0 == o.0
    }
    fn cmp_ok(self, o: R64) -> bool {
        self.0.partial_cmp(&o.0).is_some()
    }
    fn exp(self) -> R64 {
        R64(self.0.exp())
    }
    fn ln(self) -> R64 {
        R64(self.0.ln())
    }
    fn sqrt(self) -> R64 {
        R64(self.0.sqrt())
    }
    fn powf(self, e: R64) -> R64 {
        R64(self.0.powf(e.0))
    }
}

fn m64(rows: Vec<Vec<f64>>) -> Matrix<R64> {
    Matrix::from_2d_vector(rows.into_iter().map(|r| r.into_iter().map(R64).collect()).collect())
}

fn v64(v: Vec<f64>) -> Vec<R64> {
    v.into_iter().map(R64).collect()
}

#[test]
fn test_inverse_times_original_is_identity() {
    // For a square matrix with no zero pivot, inverse(A) * A is the identity
    // up to a small elementwise error.
    let a: Matrix<R64> = m64(vec![
        vec![4.0, 7.0, 2.0],
        vec![3.0, 6.0, 1.0],
        vec![2.0, 5.0, 3.0],
    ]);
    let inv = slow_inverse_matrix(&a);
    let product = matrix_dot_product(&inv, &a).unwrap();

    for i in 0..3usize {
        for j in 0..3usize {
            let expected = if i == j { 1.0 } else { 0.0 };
            let got = product.content[i * 3 + j].0;
            assert!((got - expected).abs() < 1e-5, "entry ({i}, {j}) is {got}");
        }
    }
}

#[test]
fn test_append_then_remove_restores_row() {
    let original: Matrix<R64> = m64(vec![vec![1.0, 2.0], vec![3.0, 4.0]]);
    let mut m = m64(vec![vec![1.0, 2.0], vec![3.0, 4.0]]);

    m.append_vector(&v64(vec![9.0, 8.0]), 0).unwrap();
    assert_eq!(m.rows, 3);
    let out = m.remove(2, 0).unwrap();

    assert_eq!(m, original);
    assert_eq!(out.content, v64(vec![9.0, 8.0]));
    assert_eq!(out.rows, 1);
    assert_eq!(out.columns, 2);
}

#[test]
fn test_append_then_remove_restores_column() {
    let original: Matrix<R64> = m64(vec![vec![1.0, 2.0], vec![3.0, 4.0]]);
    let mut m = m64(vec![vec![1.0, 2.0], vec![3.0, 4.0]]);

    m.append_vector(&v64(vec![9.0, 8.0]), 1).unwrap();
    assert_eq!(m.columns, 3);
    let out = m.remove(2, 1).unwrap();

    assert_eq!(m, original);
    assert_eq!(out.content, v64(vec![9.0, 8.0]));
    assert_eq!(out.rows, 2);
    assert_eq!(out.columns, 1);
}

#[test]
fn test_shape_errors_are_reported() {
    let mut m: Matrix<R64> = m64(vec![vec![1.0, 2.0], vec![3.0, 4.0]]);

    assert!(m.append_vector(&v64(vec![1.0]), 0).is_err());
    assert!(m.append_vector(&v64(vec![1.0]), 1).is_err());
    assert!(m.append_vector(&v64(vec![1.0, 2.0]), 3).is_err());
    assert!(m.remove(0, 2).is_err());
    assert!(m.remove(2, 0).is_err());
    assert!(m.remove(2, 1).is_err());
    assert!(m.sum(2).is_err());
    assert!(m.mean(5).is_err());

    let b: Matrix<R64> = m64(vec![vec![1.0], vec![2.0]]);
    assert!(m.multiply_matrix(&b).is_ok());
    let c: Matrix<R64> = m64(vec![vec![1.0, 2.0], vec![3.0, 4.0]]);
    assert!(m.multiply_matrix(&c).is_err());

    assert!(Matrix::<R64>::identity(0).is_err());
    assert!(Matrix::<R64>::identity(3).is_ok());

    assert_eq!(
        dot_product(&v64(vec![1.0]), &v64(vec![1.0, 2.0])),
        Err("The vector size do not match")
    );
    assert_eq!(
        mean_squared_error(&v64(vec![1.0]), &v64(vec![1.0, 2.0])),
        Err("Sizes do not match")
    );

    let tall: Matrix<R64> = m64(vec![vec![1.0], vec![2.0]]);
    assert_eq!(determinant(&tall), Err("Matrix is not squared"));
}

#[test]
fn test_dot_products_and_distances() {
    assert_eq!(
        dot_product(&v64(vec![1.0, 2.0, 3.0]), &v64(vec![4.0, 5.0, 6.0])),
        Ok(R64(32.0))
    );
    assert_eq!(
        plain_dot_product(v64(vec![1.0, 2.0, 3.0]), v64(vec![4.0, 5.0, 6.0])),
        Ok(R64(32.0))
    );
    assert_eq!(
        eucleadian_distance(&v64(vec![0.0, 0.0]), &v64(vec![3.0, 4.0])),
        Ok(R64(25.0))
    );
    assert_eq!(
        vec_distance(&v64(vec![0.0, 0.0]), &v64(vec![3.0, 4.0])),
        Ok(R64(25.0))
    );
}

#[test]
fn test_find_min_and_max() {
    let table = vec![v64(vec![3.0, 1.0]), v64(vec![4.0, 1.5])];
    assert_eq!(find_min(&table), Ok(R64(1.0)));
    assert_eq!(find_max(&table), R64(4.0));

    let with_nan = vec![v64(vec![3.0, f64::NAN]), v64(vec![4.0, 1.5])];
    assert_eq!(find_min(&with_nan), Err("Encountered NaN"));
}

#[test]
fn test_biggest_elements_records_positions() {
    // The scan starts from the first value and records the position of any
    // entry smaller than the running value.
    assert_eq!(biggest_elements(vec![5, 9, 2, 7]), 2);
    assert_eq!(biggest_elements(vec![1, 9, 2]), 1);
    assert_eq!(biggest_elements(vec![0, 9, 2]), 0);
}

#[test]
fn test_transposes() {
    let table = vec![v64(vec![1.0, 2.0, 3.0]), v64(vec![4.0, 5.0, 6.0])];
    let t = slow_transpose(&table);
    assert_eq!(
        t,
        vec![v64(vec![1.0, 4.0]), v64(vec![2.0, 5.0]), v64(vec![3.0, 6.0])]
    );

    let gathered = recursive_step(&table, vec![2, 0], 0, 4);
    assert_eq!(gathered, vec![v64(vec![3.0, 6.0]), v64(vec![1.0, 4.0])]);

    let nothing: Vec<Vec<R64>> = slow_inverse();
    assert!(nothing.is_empty());
}

#[test]
fn test_means_with_mask() {
    let m: Matrix<R64> = m64(vec![vec![2.0, 4.0], vec![6.0, 8.0], vec![10.0, 0.0]]);
    let masked = means_zs(&m, &vec![1u8, 1u8, 0u8]).unwrap();
    assert_eq!(masked, v64(vec![4.0, 6.0]));
}

#[test]
fn test_entrywise_power() {
    let mut m: Matrix<R64> = m64(vec![vec![2.0, 3.0]]);
    m.exp();
    assert!((m.content[0].0 - 2.0f64.powf(std::f64::consts::E)).abs() < 1e-12);
    assert!((m.content[1].0 - 3.0f64.powf(std::f64::consts::E)).abs() < 1e-12);
}

#[test]
fn test_row_iteration_and_extraction() {
    let m: Matrix<R64> = m64(vec![vec![1.0, 2.0], vec![3.0, 4.0]]);

    let mut it = m.into_iter();
    assert_eq!(it.next(), Some(v64(vec![1.0, 2.0])));
    assert_eq!(it.next(), Some(v64(vec![3.0, 4.0])));
    assert_eq!(it.next(), None);

    assert_eq!(m.get_row(1), v64(vec![3.0, 4.0]));
    let col = m.get_col(0);
    assert_eq!(col.content, v64(vec![1.0, 3.0]));
    assert_eq!(m.len(), 2);
    assert!(!m.is_empty());
    assert!(Matrix::<R64>::empty().is_empty());

    let mut div = m64(vec![vec![2.0, 4.0]]);
    div.divide_by_scalar(R64(2.0));
    assert_eq!(div.content, v64(vec![1.0, 2.0]));

    let mut s = m64(vec![vec![2.0, 4.0], vec![1.0, 1.0]]);
    s.split();
    assert_eq!(s, m64(vec![vec![2.0, 4.0], vec![1.0, 1.0]]));
}

#[test]
fn test_unsigned_scalar_instance() {
    // The crate's own saturating unsigned instance drives the same matrix
    // code.
    let m: Matrix<u64> = Matrix::from_2d_vector(vec![vec![1u64, 2u64], vec![3u64, 4u64]]);
    let sums = m.sum(0).unwrap();
    assert_eq!(sums.content, vec![4u64, 6u64]);
    let id: Matrix<u64> = Matrix::identity(2).unwrap();
    assert_eq!(id.content, vec![1u64, 0u64, 0u64, 1u64]);
}

#[test]
fn test_training_setup_clone() {
    let setup: TrainingSetup<R64> = TrainingSetup {
        number_clusters: 2,
        seed: 7,
        tolerance: R64(1e-6),
        max_steps: 10,
        initial_mixtures: v64(vec![0.5, 0.5]),
        verbose: false,
        cores: 1,
    };
    let copy = setup.clone();
    assert_eq!(copy.number_clusters, 2);
    assert_eq!(copy.seed, 7);
    assert_eq!(copy.initial_mixtures, setup.initial_mixtures);
}
