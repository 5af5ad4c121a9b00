use scicompt::float::{hadamard, Float};
use scicompt::kernel::Kernel;
use scicompt::model::Partition;
use scicompt::smo::SMO;

#[derive(Clone, Copy, Debug, PartialEq)]
struct F(f64);

impl Float for F {
    fn zero_spec() -> Self {
        F(0.0)
    }
    fn zero() -> Self {
        F(0.0)
    }
    fn one_spec() -> Self {
        F(1.0)
    }
    fn one() -> Self {
        F(1.0)
    }
    fn infinity_spec() -> Self {
        F(f64::INFINITY)
    }
    fn infinity() -> Self {
        F(f64::INFINITY)
    }
    fn neg_infinity_spec() -> Self {
        F(f64::NEG_INFINITY)
    }
    fn neg_infinity() -> Self {
        F(f64::NEG_INFINITY)
    }
    fn from_i32_spec(n: i32) -> Self {
        F(n as f64)
    }
    fn from_i32(n: i32) -> Self {
        F(n as f64)
    }
    fn from_usize_spec(n: usize) -> Self {
        F(n as f64)
    }
    fn from_usize(n: usize) -> Self {
        F(n as f64)
    }
    fn add_spec(self, rhs: Self) -> Self {
        F(self.0 + rhs.0)
    }
    fn add(self, rhs: Self) -> Self {
        F(self.0 + rhs.0)
    }
    fn sub_spec(self, rhs: Self) -> Self {
        F(self.0 - rhs.0)
    }
    fn sub(self, rhs: Self) -> Self {
        F(self.0 - rhs.0)
    }
    fn mul_spec(self, rhs: Self) -> Self {
        F(self.0 * rhs.0)
    }
    fn mul(self, rhs: Self) -> Self {
        F(self.0 * rhs.0)
    }
    fn div_spec(self, rhs: Self) -> Self {
        F(self.0 / rhs.0)
    }
    fn div(self, rhs: Self) -> Self {
        F(self.0 / rhs.0)
    }
    fn neg_spec(self) -> Self {
        F(-self.0)
    }
    fn neg(self) -> Self {
        F(-self.0)
    }
    fn abs_spec(self) -> Self {
        F(self.0.abs())
    }
    fn abs(self) -> Self {
        F(self.0.abs())
    }
    fn sqrt_spec(self) -> Self {
        F(self.0.sqrt())
    }
    fn sqrt(self) -> Self {
        F(self.0.sqrt())
    }
    fn exp_spec(self) -> Self {
        F(self.0.exp())
    }
    fn exp(self) -> Self {
        F(self.0.exp())
    }
    fn tanh_spec(self) -> Self {
        F(self.0.tanh())
    }
    fn tanh(self) -> Self {
        F(self.0.tanh())
    }
    fn powi_spec(self, n: i32) -> Self {
        F(self.0.powi(n))
    }
    fn powi(self, n: i32) -> Self {
        F(self.0.powi(n))
    }
    fn lt_spec(self, rhs: Self) -> bool {
        self.0 < rhs.0
    }
    fn lt(self, rhs: Self) -> bool {
        self.0 < rhs.0
    }
    fn le_spec(self, rhs: Self) -> bool {
        self.0 <= rhs.0
    }
    fn le(self, rhs: Self) -> bool {
        self.0 <= rhs.0
    }
}

fn v(items: &[f64]) -> Vec<F> {
    items.iter().map(|&e| F(e)).collect()
}

const TOLERANCE: f64 = 1e-7;

fn clusters() -> (Vec<Vec<F>>, Vec<i8>) {
    (
        vec![v(&[0.0, 0.0]), v(&[1.0, 1.0]), v(&[0.1, 0.1]), v(&[1.1, 1.1])],
        vec![-1, 1, -1, 1],
    )
}

fn weighted_sum(smo: &SMO<F>) -> f64 {
    smo.a.iter().zip(smo.t.iter()).map(|(a, t)| a.0 * t.0).sum()
}

fn assert_partition_is_exact(smo: &SMO<F>) {
    let mut seen = vec![0usize; smo.a.len()];
    for tag in [Partition::Zero, Partition::Free, Partition::Bound] {
        let list = smo.indices(tag);
        for w in list.windows(2) {
            assert!(w[0] < w[1]);
        }
        for i in list {
            assert_eq!(smo.part[i], tag);
            seen[i] += 1;
        }
    }
    assert!(seen.iter().all(|&count| count == 1));
}

fn assert_coefficients_are_feasible(smo: &SMO<F>) {
    for a in smo.a.iter() {
        assert!(0.0 <= a.0 && a.0 <= smo.c.0);
    }
}

#[test]
fn new_optimizer_starts_at_zero() {
    let (x, t) = clusters();
    let smo = SMO::new(&x, &t, F(1.0), Kernel::Linear, F(TOLERANCE));
    assert_eq!(smo.a, v(&[0.0, 0.0, 0.0, 0.0]));
    assert_eq!(smo.part, vec![Partition::Zero; 4]);
    assert_eq!(smo.t, v(&[-1.0, 1.0, -1.0, 1.0]));
    assert_eq!(smo.b, F(0.0));
    assert_eq!(smo.c, F(1.0));
    assert_eq!(smo.tolerance, F(TOLERANCE));
    assert_eq!(smo.indices(Partition::Zero), vec![0, 1, 2, 3]);
    assert_eq!(smo.indices(Partition::Free), Vec::<usize>::new());
    assert_eq!(smo.indices(Partition::Bound), Vec::<usize>::new());
    assert_eq!(smo.support(), Vec::<usize>::new());
}

#[test]
fn step_on_one_sample_is_rejected() {
    let (x, t) = clusters();
    let mut smo = SMO::new(&x, &t, F(1.0), Kernel::Linear, F(TOLERANCE));
    let at = hadamard(&smo.a, &smo.t);
    assert!(!smo.step(2, 2, F(0.0), &at, &vec![]));
    assert_eq!(smo.a, v(&[0.0, 0.0, 0.0, 0.0]));
    assert_eq!(smo.b, F(0.0));
}

#[test]
fn step_moves_both_coefficients_and_the_bias() {
    let (x, t) = clusters();
    let mut smo = SMO::new(&x, &t, F(1.0), Kernel::Linear, F(TOLERANCE));
    let at = hadamard(&smo.a, &smo.t);
    // L = 0, H = 1, eta = 2, e1 = -1, e2 = 1: the optimum 0 - (-2) / 2 = 1.
    assert!(smo.step(1, 0, F(0.0), &at, &vec![]));
    assert_eq!(smo.a, v(&[1.0, 1.0, 0.0, 0.0]));
    assert_eq!(
        smo.part,
        vec![Partition::Bound, Partition::Bound, Partition::Zero, Partition::Zero]
    );
    // The mean of -1 - 0 and 1 - 2 over the two bound samples.
    assert_eq!(smo.b, F(-1.0));
}

#[test]
fn step_that_would_not_move_is_rejected() {
    // With decision value -2 the errors of the two samples are both -1: the
    // optimum is the old coefficient, and the change is below the tolerance.
    let (x, t) = clusters();
    let mut smo = SMO::new(&x, &t, F(1.0), Kernel::Linear, F(TOLERANCE));
    let at = hadamard(&smo.a, &smo.t);
    assert!(!smo.step(1, 0, F(-2.0), &at, &vec![]));
    assert_eq!(smo.a, v(&[0.0, 0.0, 0.0, 0.0]));
    assert_eq!(smo.part, vec![Partition::Zero; 4]);
    assert_eq!(smo.b, F(0.0));
}

#[test]
fn step_stops_inside_the_box_at_the_optimum() {
    // Errors -1 and -0.5, eta = 2: the optimum 0 - (-0.5) / 2 = 0.25 lies in
    // the box [0, 1]. The first coefficient follows to 0 + 0.25.
    let (x, t) = clusters();
    let mut smo = SMO::new(&x, &t, F(1.0), Kernel::Linear, F(TOLERANCE));
    let at = hadamard(&smo.a, &smo.t);
    assert!(smo.step(1, 0, F(-1.5), &at, &vec![]));
    assert_eq!(smo.a, v(&[0.25, 0.25, 0.0, 0.0]));
    assert_eq!(
        smo.part,
        vec![Partition::Free, Partition::Free, Partition::Zero, Partition::Zero]
    );
    // The residuals -1 - 0 and 1 - 0.5 have the mean -0.25.
    assert_eq!(smo.b, F(-0.25));
}

#[test]
fn step_keeps_the_weighted_sum_when_nothing_is_clipped() {
    let (x, t) = clusters();
    let mut smo = SMO::new(&x, &t, F(1.0), Kernel::Linear, F(TOLERANCE));
    let before = weighted_sum(&smo);
    let at = hadamard(&smo.a, &smo.t);
    assert!(smo.step(1, 0, F(0.0), &at, &vec![]));
    assert_eq!(weighted_sum(&smo), before);
}

#[test]
fn step_with_an_empty_box_is_rejected() {
    // Same labels, both coefficients zero: L = max(0, -C) = 0 = H.
    let (x, t) = clusters();
    let mut smo = SMO::new(&x, &t, F(1.0), Kernel::Linear, F(TOLERANCE));
    let at = hadamard(&smo.a, &smo.t);
    assert!(!smo.step(0, 2, F(0.0), &at, &vec![]));
    assert_eq!(smo.a, v(&[0.0, 0.0, 0.0, 0.0]));
    assert_eq!(smo.part, vec![Partition::Zero; 4]);
}

#[test]
fn step_without_curvature_compares_the_objectives() {
    // Two equal points with opposite labels: eta = 0. Over an empty support
    // both ends of the box have objective 0, so the coefficient stays and the
    // step is rejected as negligible.
    let x = vec![v(&[1.0]), v(&[1.0])];
    let t = vec![-1, 1];
    let mut smo = SMO::new(&x, &t, F(1.0), Kernel::Linear, F(TOLERANCE));
    let at = hadamard(&smo.a, &smo.t);
    assert!(!smo.step(1, 0, F(0.0), &at, &vec![]));
    assert_eq!(smo.a, v(&[0.0, 0.0]));
}

#[test]
fn step_without_curvature_takes_the_end_with_the_higher_objective() {
    // Two equal points with equal labels: eta = 0. With coefficients 0.5 and
    // 0.25 the box of the second is [0, 0.75]. Over both samples the
    // objective is s - s^2 / 2 in the sum s of the coefficients: 0.375 at the
    // lower end and 0.46875 at the upper end, so the upper end is taken.
    let x = vec![v(&[1.0]), v(&[1.0])];
    let t = vec![1, 1];
    let mut smo = SMO::new(&x, &t, F(1.0), Kernel::Linear, F(TOLERANCE));
    smo.a = v(&[0.5, 0.25]);
    smo.part = vec![Partition::Free, Partition::Free];
    let at = hadamard(&smo.a, &smo.t);
    let index = smo.support();
    assert_eq!(index, vec![0, 1]);
    assert!(smo.step(0, 1, F(0.5), &at, &index));
    assert_eq!(smo.a, v(&[0.0, 0.75]));
    assert_eq!(smo.part, vec![Partition::Zero, Partition::Free]);
    // The residual of the one sample left in the support: 1 - 0.75.
    assert_eq!(smo.b, F(0.25));
}

#[test]
fn step_with_opposite_labels_has_the_box_of_the_difference() {
    // Opposite labels, coefficients 0 and 0.5: L = max(0, 0.5 - 0) and
    // H = min(1, 1 - 0.5 + 0) meet at 0.5, which leaves no room.
    let x = vec![v(&[1.0]), v(&[2.0])];
    let t = vec![-1, 1];
    let mut smo = SMO::new(&x, &t, F(1.0), Kernel::Linear, F(TOLERANCE));
    smo.a = v(&[0.0, 0.5]);
    smo.part = vec![Partition::Zero, Partition::Free];
    let at = hadamard(&smo.a, &smo.t);
    let index = smo.support();
    assert!(!smo.step(0, 1, F(0.5), &at, &index));
    assert_eq!(smo.a, v(&[0.0, 0.5]));
}

#[test]
fn update_b_over_an_empty_support_keeps_the_bias() {
    let (x, t) = clusters();
    let mut smo = SMO::new(&x, &t, F(1.0), Kernel::Linear, F(TOLERANCE));
    smo.b = F(0.25);
    smo.update_b();
    assert_eq!(smo.b, F(0.25));
}

#[test]
fn update_b_is_the_mean_residual_without_the_old_bias() {
    let (x, t) = clusters();
    let mut smo = SMO::new(&x, &t, F(1.0), Kernel::Linear, F(TOLERANCE));
    smo.a = v(&[1.0, 1.0, 0.0, 0.0]);
    smo.part = vec![Partition::Bound, Partition::Bound, Partition::Zero, Partition::Zero];
    smo.b = F(123.0);
    smo.update_b();
    assert_eq!(smo.b, F(-1.0));
}

#[test]
fn example_prefers_the_partner_with_the_most_extreme_error() {
    let (x, t) = clusters();
    let mut smo = SMO::new(&x, &t, F(1.0), Kernel::Linear, F(TOLERANCE));
    let at = hadamard(&smo.a, &smo.t);
    // Sample 0 has error 1; the least error, -1, is first met at sample 1.
    assert!(smo.example(0, F(0.0), F(-1.0), &at, &vec![]));
    assert_eq!(smo.a, v(&[1.0, 1.0, 0.0, 0.0]));
}

#[test]
fn example_fails_when_no_partner_moves() {
    let x = vec![v(&[1.0]), v(&[1.0])];
    let t = vec![-1, 1];
    let mut smo = SMO::new(&x, &t, F(1.0), Kernel::Linear, F(TOLERANCE));
    let at = hadamard(&smo.a, &smo.t);
    assert!(!smo.example(0, F(0.0), F(-1.0), &at, &vec![]));
    assert_eq!(smo.a, v(&[0.0, 0.0]));
    assert_eq!(smo.b, F(0.0));
}

#[test]
fn examine_makes_one_step_per_scan() {
    let (x, t) = clusters();
    let mut smo = SMO::new(&x, &t, F(1.0), Kernel::Linear, F(TOLERANCE));
    assert!(smo.examine());
    assert_eq!(smo.a, v(&[1.0, 1.0, 0.0, 0.0]));
    assert_eq!(smo.b, F(-1.0));
    assert!(smo.examine());
    assert_eq!(smo.a, v(&[0.0, 1.0, 1.0, 0.0]));
    assert_eq!(
        smo.part,
        vec![Partition::Zero, Partition::Bound, Partition::Bound, Partition::Zero]
    );
    assert_eq!(smo.b, F(-0.99));
}

#[test]
fn scans_reach_a_fixpoint() {
    let (x, t) = clusters();
    let mut smo = SMO::new(&x, &t, F(1.0), Kernel::Linear, F(TOLERANCE));
    assert!(smo.fit(usize::MAX));
    assert_eq!(smo.a, v(&[0.9082644628099171, 1.0, 1.0, 0.008264462809917272]));
    assert_eq!(
        smo.part,
        vec![Partition::Free, Partition::Bound, Partition::Bound, Partition::Free]
    );
    assert_eq!(smo.b, F(-1.0));
    // At the fixpoint a further scan finds nothing to do and changes nothing.
    assert!(!smo.examine());
    assert_eq!(smo.a, v(&[0.9082644628099171, 1.0, 1.0, 0.008264462809917272]));
    assert_eq!(smo.b, F(-1.0));
}

#[test]
fn fixpoint_meets_the_margin_conditions() {
    let (x, t) = clusters();
    let mut smo = SMO::new(&x, &t, F(1.0), Kernel::Linear, F(TOLERANCE));
    assert!(smo.fit(usize::MAX));
    let at = hadamard(&smo.a, &smo.t);
    let index = smo.support();
    for i in 0..4 {
        let y = scicompt::decision::def_func_indexed(&at, &x[i], &x, smo.b, smo.kernel, &index);
        let margin = smo.t[i].0 * y.0;
        match smo.part[i] {
            Partition::Zero => assert!(margin >= 1.0 - TOLERANCE),
            Partition::Free => assert!((margin - 1.0).abs() <= TOLERANCE),
            Partition::Bound => assert!(margin <= 1.0 + TOLERANCE),
        }
    }
}

#[test]
fn fit_stops_when_the_budget_is_spent() {
    let (x, t) = clusters();
    let mut smo = SMO::new(&x, &t, F(1.0), Kernel::Linear, F(TOLERANCE));
    assert!(!smo.fit(1));
    assert_eq!(smo.a, v(&[1.0, 1.0, 0.0, 0.0]));
    // Fourteen scans make the fourteen steps; the fifteenth finds the fixpoint.
    let mut smo = SMO::new(&x, &t, F(1.0), Kernel::Linear, F(TOLERANCE));
    assert!(!smo.fit(14));
    assert_eq!(smo.a, v(&[0.9082644628099171, 1.0, 1.0, 0.008264462809917272]));
    let mut smo = SMO::new(&x, &t, F(1.0), Kernel::Linear, F(TOLERANCE));
    assert!(smo.fit(15));
}

#[test]
fn fit_with_no_budget_does_nothing() {
    let (x, t) = clusters();
    let mut smo = SMO::new(&x, &t, F(1.0), Kernel::Linear, F(TOLERANCE));
    assert!(!smo.fit(0));
    assert_eq!(smo.a, v(&[0.0, 0.0, 0.0, 0.0]));
}

#[test]
fn coefficients_stay_in_the_box_and_sets_stay_exact() {
    let (x, t) = clusters();
    let mut smo = SMO::new(&x, &t, F(1.0), Kernel::Linear, F(TOLERANCE));
    assert_partition_is_exact(&smo);
    assert_coefficients_are_feasible(&smo);
    let mut scans = 0;
    while smo.examine() {
        assert_partition_is_exact(&smo);
        assert_coefficients_are_feasible(&smo);
        scans += 1;
        assert!(scans <= 14);
    }
    assert_eq!(scans, 14);
}

#[test]
fn sets_follow_the_coefficients() {
    let (x, t) = clusters();
    let mut smo = SMO::new(&x, &t, F(1.0), Kernel::Linear, F(TOLERANCE));
    while smo.examine() {
        for i in 0..4 {
            let a = smo.a[i].0;
            let expected = if a < TOLERANCE {
                Partition::Zero
            } else if a + TOLERANCE <= 1.0 {
                Partition::Free
            } else {
                Partition::Bound
            };
            assert_eq!(smo.part[i], expected);
        }
    }
}

#[test]
fn params_lists_free_then_bound() {
    let (x, t) = clusters();
    let mut smo = SMO::new(&x, &t, F(1.0), Kernel::Linear, F(TOLERANCE));
    assert!(smo.fit(usize::MAX));
    let mut at = Vec::new();
    let mut b = F(0.0);
    let mut support_vector = Vec::new();
    smo.params(&mut at, &mut b, &mut support_vector);
    assert_eq!(at, v(&[-0.9082644628099171, 0.008264462809917272, 1.0, -1.0]));
    assert_eq!(b, F(-1.0));
    assert_eq!(
        support_vector,
        vec![v(&[0.0, 0.0]), v(&[1.1, 1.1]), v(&[1.0, 1.0]), v(&[0.1, 0.1])]
    );
}

#[test]
fn params_of_a_fresh_optimizer_are_empty() {
    let (x, t) = clusters();
    let smo = SMO::new(&x, &t, F(1.0), Kernel::Linear, F(TOLERANCE));
    let mut at = v(&[9.0]);
    let mut b = F(9.0);
    let mut support_vector = vec![v(&[9.0])];
    smo.params(&mut at, &mut b, &mut support_vector);
    assert_eq!(at, v(&[]));
    assert_eq!(b, F(0.0));
    assert_eq!(support_vector, Vec::<Vec<F>>::new());
}

#[test]
fn equal_points_with_opposite_labels_are_a_fixpoint_at_once() {
    let x = vec![v(&[0.0]), v(&[0.0])];
    let t = vec![-1, 1];
    let mut smo = SMO::new(&x, &t, F(1.0), Kernel::Linear, F(TOLERANCE));
    assert!(smo.fit(usize::MAX));
    assert_eq!(smo.a, v(&[0.0, 0.0]));
    assert_eq!(smo.part, vec![Partition::Zero; 2]);
    assert_eq!(smo.b, F(0.0));
}

#[test]
fn a_single_sample_has_no_partner() {
    let x = vec![v(&[1.0])];
    let t = vec![1];
    let mut smo = SMO::new(&x, &t, F(1.0), Kernel::Linear, F(TOLERANCE));
    assert!(!smo.examine());
    assert!(smo.fit(usize::MAX));
    assert_eq!(smo.a, v(&[0.0]));
}

#[test]
fn no_samples_are_a_fixpoint() {
    let x: Vec<Vec<F>> = Vec::new();
    let t: Vec<i8> = Vec::new();
    let mut smo = SMO::new(&x, &t, F(1.0), Kernel::Linear, F(TOLERANCE));
    assert!(!smo.examine());
    assert!(smo.fit(3));
    assert_eq!(smo.b, F(0.0));
}
