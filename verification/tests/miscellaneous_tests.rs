use clustvarsel::backup::slow_covariance as feature_covariance;
use clustvarsel::calculations::matrix::Matrix;
use clustvarsel::calculations::stats::covariance;
use clustvarsel::helpers::mean_squared_error;
use clustvarsel::scalar::Scalar;

#[derive(Clone, Copy, Debug, PartialEq)]
struct R32(f32);

impl Scalar for R32 {
    fn zero() -> R32 {
        R32(0.0)
    }
    fn one() -> R32 {
        R32(1.0)
    }
    fn pi() -> R32 {
        R32(std::f32::consts::PI)
    }
    fn from_count(n: usize) -> R32 {
        R32(n as f32)
    }
    fn euler() -> R32 {
        R32(std::f32::consts::E)
    }
    fn half() -> R32 {
        R32(0.5)
    }
    fn neg(self) -> R32 {
        R32(-self.0)
    }
    fn plus(self, o: R32) -> R32 {
        R32(self.0 + o.0)
    }
    fn minus(self, o: R32) -> R32 {
        R32(self.0 - o.0)
    }
    fn times(self, o: R32) -> R32 {
        R32(self.0 * o.0)
    }
    fn divided_by(self, o: R32) -> R32 {
        R32(self.0 / o.0)
    }
    fn lt(self, o: R32) -> bool {
        self.0 < o.0
    }
    fn eq_val(self, o: R32) -> bool {
        self.0 == o.0
    }
    fn cmp_ok(self, o: R32) -> bool {
        self.0.partial_cmp(&o.0).is_some()
    }
    fn exp(self) -> R32 {
        R32(self.0.exp())
    }
    fn ln(self) -> R32 {
        R32(self.0.ln())
    }
    fn sqrt(self) -> R32 {
        R32(self.0.sqrt())
    }
    fn powf(self, e: R32) -> R32 {
        R32(self.0.powf(e.0))
    }
}

fn m32(rows: Vec<Vec<f32>>) -> Matrix<R32> {
    Matrix::from_2d_vector(rows.into_iter().map(|r| r.into_iter().map(R32).collect()).collect())
}

fn v32(v: Vec<f32>) -> Vec<R32> {
    v.into_iter().map(R32).collect()
}

#[test]
fn test_slow_covariance() {
    let v: Matrix<R32> =
        Matrix::from_1d_vector(v32(vec![1.0, 2.0, 3.0, 4.0, 5.0, 6.0, 7.0, 8.0, 9.0]), 3, 3);

    let zs = vec![1u8, 1u8, 1u8];

    let x = covariance(&v, &zs);

    // Shape expected: columns are the attributes
    assert_eq!(
        x,
        Matrix::from_1d_vector(v32(vec![9.0, 9.0, 9.0, 9.0, 9.0, 9.0, 9.0, 9.0, 9.0]), 3, 3)
    );

    let v: Matrix<R32> = m32(vec![
        vec![2.0, 4.0],
        vec![5.0, 3.0],
        vec![6.0, 7.0],
        vec![8.0, 5.0],
        vec![9.0, 6.0],
    ]);
    let zs = vec![1u8, 1u8, 1u8, 1u8, 1u8];

    let x = covariance(&v, &zs);

    assert_eq!(x, m32(vec![vec![7.5, 2.25], vec![2.25, 2.5]]));

    let zs = vec![0u8, 0u8, 0u8, 1u8, 1u8];

    let x = covariance(&v, &zs);

    assert_eq!(x, m32(vec![vec![0.5, 0.5], vec![0.5, 0.5]]));

    let zs = vec![1u8, 1u8, 1u8, 0u8, 0u8];

    let x = covariance(&v, &zs);
    let res: Matrix<R32> =
        Matrix::from_1d_vector(v32(vec![4.33333, 2.16667, 2.16667, 4.33333]), 2, 2);

    let err = mean_squared_error(&x.content, &res.content).unwrap();
    assert!(err.0 < 1e-5, "Error: {}", err.0);
}

#[test]
fn test_feature_major_covariance() {
    // The same all-nines covariance, computed from the feature-major table
    // (one inner vector per attribute).
    let a: Vec<Vec<R32>> = vec![
        v32(vec![1.0, 4.0, 7.0]),
        v32(vec![2.0, 5.0, 8.0]),
        v32(vec![3.0, 6.0, 9.0]),
    ];
    let zs = vec![1u8, 1u8, 1u8];

    let x = feature_covariance(&a, &zs);

    assert_eq!(
        x,
        vec![
            v32(vec![9.0, 9.0, 9.0]),
            v32(vec![9.0, 9.0, 9.0]),
            v32(vec![9.0, 9.0, 9.0]),
        ]
    );
}
