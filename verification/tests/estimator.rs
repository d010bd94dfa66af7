use covariance::count::PairedCount;

/// A single-pass estimator in `f64` that keeps its counts in a `PairedCount`
/// and asks it for the divisor of each estimate.
struct Estimator {
    count: PairedCount,
    mean_x: f64,
    mean_y: f64,
    co_moment: f64,
    sq_dev_x: f64,
    sq_dev_y: f64,
}

impl Estimator {
    fn new() -> Estimator {
        Estimator {
            count: PairedCount::new(),
            mean_x: 0.0,
            mean_y: 0.0,
            co_moment: 0.0,
            sq_dev_x: 0.0,
            sq_dev_y: 0.0,
        }
    }

    fn of(samples: &[(f64, f64)]) -> Estimator {
        let mut e = Estimator::new();
        for &(x, y) in samples {
            e.add(x, y);
        }
        e
    }

    fn add(&mut self, x: f64, y: f64) {
        assert!(self.count.len() < u64::MAX);
        self.count.increment();
        let n = self.count.len() as f64;
        let delta_x = (x - self.mean_x) / n;
        let delta_y = (y - self.mean_y) / n;
        self.mean_x += delta_x;
        self.mean_y += delta_y;
        let n1 = n * (n - 1.0);
        self.co_moment += delta_x * delta_y * n1;
        self.sq_dev_x += delta_x * delta_x * n1;
        self.sq_dev_y += delta_y * delta_y * n1;
    }

    fn unbiased(&self, sum: f64) -> f64 {
        match self.count.degrees_of_freedom() {
            None => 0.0,
            Some(d) => sum / d as f64,
        }
    }

    fn sample_covariance(&self) -> f64 {
        self.unbiased(self.co_moment)
    }

    fn sample_variance_x(&self) -> f64 {
        self.unbiased(self.sq_dev_x)
    }

    fn sample_variance_y(&self) -> f64 {
        self.unbiased(self.sq_dev_y)
    }
}

fn close(a: f64, b: f64, tolerance: f64) -> bool {
    (a - b).abs() <= tolerance * a.abs().max(b.abs()).max(1.0)
}

/// Sums of products of deviations from the arithmetic means, over `n - 1`.
fn direct(samples: &[(f64, f64)]) -> (f64, f64, f64) {
    let n = samples.len() as f64;
    let mean_x = samples.iter().map(|s| s.0).sum::<f64>() / n;
    let mean_y = samples.iter().map(|s| s.1).sum::<f64>() / n;
    let cov = samples.iter().map(|s| (s.0 - mean_x) * (s.1 - mean_y)).sum::<f64>() / (n - 1.0);
    let var_x = samples.iter().map(|s| (s.0 - mean_x) * (s.0 - mean_x)).sum::<f64>() / (n - 1.0);
    let var_y = samples.iter().map(|s| (s.1 - mean_y) * (s.1 - mean_y)).sum::<f64>() / (n - 1.0);
    (cov, var_x, var_y)
}

fn small_dataset() -> Vec<(f64, f64)> {
    vec![
        (1.0, 2.0),
        (2.0, 1.5),
        (3.5, 4.0),
        (-1.0, 0.25),
        (4.0, 8.0),
        (0.5, -3.0),
        (7.25, 6.0),
        (2.0, 2.0),
    ]
}

#[test]
fn empty_estimator_reports_zero() {
    let e = Estimator::new();
    assert_eq!(e.count.len(), 0);
    assert!(e.count.is_empty());
    assert_eq!(e.mean_x, 0.0);
    assert_eq!(e.mean_y, 0.0);
    assert_eq!(e.sample_covariance(), 0.0);
    assert_eq!(e.sample_variance_x(), 0.0);
    assert_eq!(e.sample_variance_y(), 0.0);
}

#[test]
fn single_sample_is_its_own_mean() {
    let e = Estimator::of(&[(3.25, -7.5)]);
    assert_eq!(e.count.len(), 1);
    assert!(!e.count.is_empty());
    assert_eq!(e.mean_x, 3.25);
    assert_eq!(e.mean_y, -7.5);
    assert_eq!(e.sample_covariance(), 0.0);
    assert_eq!(e.sample_variance_x(), 0.0);
    assert_eq!(e.sample_variance_y(), 0.0);
}

#[test]
fn two_samples_exact_values() {
    let e = Estimator::of(&[(1.0, 2.0), (3.0, 6.0)]);
    assert_eq!(e.count.len(), 2);
    assert_eq!(e.mean_x, 2.0);
    assert_eq!(e.mean_y, 4.0);
    assert_eq!(e.sample_variance_x(), 2.0);
    assert_eq!(e.sample_variance_y(), 8.0);
    assert_eq!(e.sample_covariance(), 4.0);
}

#[test]
fn order_of_samples_does_not_matter() {
    let forward = small_dataset();
    let mut backward = forward.clone();
    backward.reverse();
    let mut rotated = forward.clone();
    rotated.rotate_left(3);
    let a = Estimator::of(&forward);
    for other in [Estimator::of(&backward), Estimator::of(&rotated)] {
        assert_eq!(a.count.len(), other.count.len());
        assert!(close(a.mean_x, other.mean_x, 1e-10));
        assert!(close(a.mean_y, other.mean_y, 1e-10));
        assert!(close(a.sample_covariance(), other.sample_covariance(), 1e-10));
        assert!(close(a.sample_variance_x(), other.sample_variance_x(), 1e-10));
        assert!(close(a.sample_variance_y(), other.sample_variance_y(), 1e-10));
    }
}

#[test]
fn estimates_agree_with_direct_sums() {
    let samples = small_dataset();
    let e = Estimator::of(&samples);
    let (cov, var_x, var_y) = direct(&samples);
    assert!(close(e.sample_covariance(), cov, 1e-9));
    assert!(close(e.sample_variance_x(), var_x, 1e-9));
    assert!(close(e.sample_variance_y(), var_y, 1e-9));
}

#[test]
fn equal_variables_give_equal_estimates() {
    let samples: Vec<(f64, f64)> = small_dataset().iter().map(|s| (s.0, s.0)).collect();
    let e = Estimator::of(&samples);
    assert_eq!(e.mean_x, e.mean_y);
    assert_eq!(e.sample_covariance(), e.sample_variance_x());
    assert_eq!(e.sample_covariance(), e.sample_variance_y());
}

#[test]
fn large_offset_leaves_estimates_unchanged() {
    let samples = small_dataset();
    let moved: Vec<(f64, f64)> = samples.iter().map(|s| (s.0 + 1e8, s.1)).collect();
    let a = Estimator::of(&samples);
    let b = Estimator::of(&moved);
    assert!(close(b.mean_x, a.mean_x + 1e8, 1e-12));
    assert!(close(a.sample_variance_x(), b.sample_variance_x(), 1e-6));
    assert!(close(a.sample_covariance(), b.sample_covariance(), 1e-6));
    assert_eq!(a.sample_variance_y(), b.sample_variance_y());
}

#[test]
fn a_million_samples_of_a_known_distribution() {
    // Two equally likely values, -1 and 5: mean 2, standard deviation 3.
    let mut e = Estimator::new();
    let mut i: u64 = 0;
    while i < 1_000_000 {
        let x = if i % 2 == 0 { -1.0 } else { 5.0 };
        e.add(x, -x);
        i += 1;
    }
    assert_eq!(e.count.len(), 1_000_000);
    assert_eq!(e.count.degrees_of_freedom(), Some(999_999));
    assert!((e.mean_x - 2.0).abs() < 1e-3);
    assert!((e.sample_variance_x() - 9.0).abs() < 1e-1);
    assert!((e.mean_y + 2.0).abs() < 1e-3);
    assert!((e.sample_covariance() + 9.0).abs() < 1e-1);
}

#[test]
fn non_finite_input_poisons_the_estimates_without_a_fault() {
    let e = Estimator::of(&[(1.0, 2.0), (f64::NAN, 3.0), (4.0, 5.0)]);
    assert_eq!(e.count.len(), 3);
    assert_eq!(e.count.degrees_of_freedom(), Some(2));
    assert!(e.mean_x.is_nan());
    assert!(e.sample_variance_x().is_nan());
    assert!(e.sample_covariance().is_nan());
}
