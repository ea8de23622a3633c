use clustvarsel::calculations::matrix::Matrix;
use clustvarsel::calculations::stats::{covariance, slow_multivariate_gaussian};
use clustvarsel::helpers::mean_squared_error;
use clustvarsel::models::clustvarsel::CLUSTVARSEL;
use clustvarsel::models::gmm::GaussianMixtureModel;
use clustvarsel::models::kmeans::Kmeans;
use clustvarsel::scalar::Scalar;

#[derive(Clone, Copy, Debug, PartialEq)]
struct R32(f32);

impl Scalar for R32 {
    fn zero() -> R32 {
        R32(0.0)
    }
    fn one() -> R32 {
        R32(1.0)
    }
    fn pi() -> R32 {
        R32(std::f32::consts::PI)
    }
    fn from_count(n: usize) -> R32 {
        R32(n as f32)
    }
    fn euler() -> R32 {
        R32(std::f32::consts::E)
    }
    fn half() -> R32 {
        R32(0.5)
    }
    fn neg(self) -> R32 {
        R32(-self.0)
    }
    fn plus(self, o: R32) -> R32 {
        R32(self.0 + o.0)
    }
    fn minus(self, o: R32) -> R32 {
        R32(self.0 - o.0)
    }
    fn times(self, o: R32) -> R32 {
        R32(self.0 * o.0)
    }
    fn divided_by(self, o: R32) -> R32 {
        R32(self.0 / o.0)
    }
    fn lt(self, o: R32) -> bool {
        self.0 < o.0
    }
    fn eq_val(self, o: R32) -> bool {
        self.0 == o.0
    }
    fn cmp_ok(self, o: R32) -> bool {
        self.0.partial_cmp(&o.0).is_some()
    }
    fn exp(self) -> R32 {
        R32(self.0.exp())
    }
    fn ln(self) -> R32 {
        R32(self.0.ln())
    }
    fn sqrt(self) -> R32 {
        R32(self.0.sqrt())
    }
    fn powf(self, e: R32) -> R32 {
        R32(self.0.powf(e.0))
    }
}

#[derive(Clone, Copy, Debug, PartialEq)]
struct R64(f64);

impl Scalar for R64 {
    fn zero() -> R64 {
        R64(0.0)
    }
    fn one() -> R64 {
        R64(1.0)
    }
    fn pi() -> R64 {
        R64(std::f64::consts::PI)
    }
    fn from_count(n: usize) -> R64 {
        R64(n as f64)
    }
    fn euler() -> R64 {
        R64(std::f64::consts::E)
    }
    fn half() -> R64 {
        R64(0.5)
    }
    fn neg(self) -> R64 {
        R64(-self.0)
    }
    fn plus(self, o: R64) -> R64 {
        R64(self.0 + o.0)
    }
    fn minus(self, o: R64) -> R64 {
        R64(self.0 - o.0)
    }
    fn times(self, o: R64) -> R64 {
        R64(self.0 * o.0)
    }
    fn divided_by(self, o: R64) -> R64 {
        R64(self.0 / o.0)
    }
    fn lt(self, o: R64) -> bool {
        self.0 < o.0
    }
    fn eq_val(self, o: R64) -> bool {
        self.0 == o.0
    }
    fn cmp_ok(self, o: R64) -> bool {
        self.0.partial_cmp(&o.0).is_some()
    }
    fn exp(self) -> R64 {
        R64(self.0.exp())
    }
    fn ln(self) -> R64 {
        R64(self.0.ln())
    }
    fn sqrt(self) -> R64 {
        R64(self.0.sqrt())
    }
    fn powf(self, e: R64) -> R64 {
        R64(self.0.powf(e.0))
    }
}

fn m64(rows: Vec<Vec<f64>>) -> Matrix<R64> {
    Matrix::from_2d_vector(rows.into_iter().map(|r| r.into_iter().map(R64).collect()).collect())
}

fn m32(rows: Vec<Vec<f32>>) -> Matrix<R32> {
    Matrix::from_2d_vector(rows.into_iter().map(|r| r.into_iter().map(R32).collect()).collect())
}

fn two_cluster_data() -> Vec<Vec<f64>> {
    vec![
        vec![1.0754941903392263, -0.23128656563065886],
        vec![0.4574473936178802, 0.9360309725246923],
        vec![0.32934947297877976, 1.38548750306268],
        vec![0.5282807898527796, -1.2790598727596125],
        vec![0.7229444360398654, 0.051849483195611334],
        vec![-0.9711088688749532, 0.5972057096698321],
        vec![0.059956970208871474, -0.7683195725500758],
        vec![0.06507523188571362, 0.5100866099687131],
        vec![2.621390670414035, 1.1260363315127664],
        vec![-0.8716491907937076, 0.024930994116899585],
        vec![0.16012622229024365, -0.5051931551551303],
        vec![-0.14341732338231827, 1.2396922302991598],
        vec![0.4608632513583871, -0.2355004832808132],
        vec![0.8396452500894849, -0.25630691287117346],
        vec![0.8002203851111599, 2.163947737335655],
        vec![1.3294368435849129, 0.8596105028558736],
        vec![1.8505390645568442, -0.1667868269013153],
        vec![1.0665709281054623, -0.276013437371877],
        vec![1.1246308563933862, 0.7426135129709652],
        vec![0.12585120896214103, 0.4982598386969306],
        vec![2.329942004958563, 3.645549413834696],
        vec![2.9552284431469484, 2.394856391293376],
        vec![4.188921565261378, 2.9422653443714863],
        vec![3.880344690692337, 1.228392170139145],
        vec![2.4887039201402814, 4.659172805066865],
        vec![2.111935788965111, 3.4608191188214916],
        vec![3.170814852951174, 2.9878325954472973],
        vec![2.5262548875177777, 1.2021936440575964],
        vec![0.4320207439021613, 1.786987791429834],
        vec![3.3682528645305965, 4.626355282338605],
        vec![4.761362496567665, 3.9651351147534957],
        vec![3.0308191293920927, 3.1865353624620534],
        vec![4.174158406325235, 3.1611480416571074],
        vec![2.8527683134876978, 3.830187147596906],
        vec![4.5023949748381655, 3.677470024796094],
        vec![3.1927073299205353, 1.9551330147104427],
        vec![3.0922466979663485, 2.0855491835997255],
        vec![2.707032712786994, 3.9455880382897823],
        vec![2.2527686286505206, 1.8939225421290395],
        vec![1.3136316769676093, 1.7154019350664793],
    ]
}

#[test]
fn test_kmeans() {
    let data_vec = vec![
        vec![0.0, 0.0],
        vec![0.0, 0.5],
        vec![0.5, 0.0],
        vec![0.5, 0.5],
        vec![1.0, 0.0],
        vec![1.0, 0.5],
    ];

    let data: Matrix<R64> = m64(data_vec);

    let mut ini = Kmeans::init(2, &data, 5);

    ini.fit(&data);

    assert_eq!(
        vec![
            vec![R64(0.16666666666666666), R64(0.3333333333333333)],
            vec![R64(0.8333333333333334), R64(0.16666666666666666)]
        ],
        ini.centroids
    );
}

#[test]
fn test_gmm() {
    let data_matrix_form = m64(two_cluster_data());

    let mut gmm = GaussianMixtureModel::new(2, 4, vec![R64(0.5), R64(0.5)], 100, R64(1e-5));

    match gmm.fit(&data_matrix_form) {
        Ok(_) => {
            // Converged within the step cap; every sample's responsibilities
            // sum to one after the final normalization.
            let gammas = &gmm.gammas;
            assert_eq!(gammas.rows, 2);
            assert_eq!(gammas.columns, 40);
            for i in 0..gammas.columns {
                let mut s = 0.0f64;
                for c in 0..gammas.rows {
                    s += gammas.content[c * gammas.columns + i].0;
                }
                assert!((s - 1.0).abs() < 1e-6, "column {} sums to {}", i, s);
            }
        },
        Err(msg) => {
            let message: String =
                msg.to_owned() + "\n Steps: " + &gmm.steps.to_string();
            panic!("{}", message)
        },
    }
}

#[test]
fn test_multivariate_gaussian() {
    let v: Matrix<R32> = m32(vec![
        vec![2.0, 4.0],
        vec![5.0, 3.0],
        vec![6.0, 7.0],
        vec![8.0, 5.0],
        vec![9.0, 6.0],
    ]);

    let res: Vec<R32> = vec![
        R32(0.01464371),
        R32(0.0182322),
        R32(0.01437868),
        R32(0.02985463),
        R32(0.02354461),
    ];

    let zs = vec![1u8, 1u8, 1u8, 1u8, 1u8];

    let cov = covariance(&v, &zs);

    let means = v.mean(0).unwrap();

    match slow_multivariate_gaussian(&v, &cov, &means.content) {
        Ok(matrix) => {
            let mse = mean_squared_error(&matrix, &res).unwrap();
            assert!(mse.0 < 1e-5, "Error: {}", mse.0);
        },
        Err(e) => panic!("{}", e),
    }
}

#[test]
fn test_1d_gmm() {
    let v: Matrix<R64> = Matrix::from_1d_vector(
        vec![
            R64(2.0),
            R64(4.0),
            R64(5.0),
            R64(3.0),
            R64(6.0),
            R64(7.0),
            R64(8.0),
            R64(5.0),
        ],
        8,
        1,
    );

    let mut gmm = GaussianMixtureModel::new(2, 4, vec![R64(0.5), R64(0.5)], 100, R64(1e-5));

    match gmm.fit(&v) {
        Ok(_) => (),
        Err(msg) => {
            let message: String =
                msg.to_owned() + "\n Steps: " + &gmm.steps.to_string();
            panic!("{}", message)
        },
    }
}

#[test]
fn test_clustvarsel() {
    let data_matrix_form = m64(two_cluster_data());

    let mut cvs = CLUSTVARSEL::new(2, 2, R64(1e-5), 100, vec![R64(0.5), R64(0.5)], true, 2);

    match cvs.fit(data_matrix_form) {
        Ok(_) => assert_eq!(cvs.final_selection, vec![0]),
        Err(msg) => panic!("{msg:?}"),
    }

    // The objective of the accepted result undercuts the starting value.
    assert!(cvs.best_bic.0 < 0.0, "Final: {:?}", cvs.best_bic);
}

#[test]
fn test_gmm_non_convergence_reports_residual() {
    // With a single allowed iteration on spread data the fit cannot reach
    // the tolerance: it reports non-convergence, leaves the
    // responsibilities untouched, and carries the movement of its last
    // iteration instead of the initial placeholder.
    let data_matrix_form = m64(two_cluster_data());

    let mut gmm = GaussianMixtureModel::new(2, 4, vec![R64(0.5), R64(0.5)], 1, R64(1e-300));

    match gmm.fit(&data_matrix_form) {
        Ok(_) => panic!("a single step cannot reach the tolerance"),
        Err(msg) => {
            assert_eq!(msg, "Did not converge");
            assert_eq!(gmm.steps, 0);
            assert!(gmm.final_difference.0 != 1000.0);
            assert!(gmm.final_difference.0.is_finite());
            assert_eq!(gmm.gammas.rows, 0);
        },
    }
}
