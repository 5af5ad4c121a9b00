use scicompt::consts::FloatConst;
use scicompt::distribution::{Bernoulli, Beta, Distribution, Gaussian};
use scicompt::float::Float;
use scicompt::generator::Consts;
use scicompt::integer::Integer;

#[derive(Clone, Copy, Debug, PartialEq)]
struct F(f64);

impl Float for F {
    fn zero_spec() -> Self {
        F(0.0)
    }
    fn zero() -> Self {
        F(0.0)
    }
    fn one_spec() -> Self {
        F(1.0)
    }
    fn one() -> Self {
        F(1.0)
    }
    fn infinity_spec() -> Self {
        F(f64::INFINITY)
    }
    fn infinity() -> Self {
        F(f64::INFINITY)
    }
    fn neg_infinity_spec() -> Self {
        F(f64::NEG_INFINITY)
    }
    fn neg_infinity() -> Self {
        F(f64::NEG_INFINITY)
    }
    fn from_i32_spec(n: i32) -> Self {
        F(n as f64)
    }
    fn from_i32(n: i32) -> Self {
        F(n as f64)
    }
    fn from_usize_spec(n: usize) -> Self {
        F(n as f64)
    }
    fn from_usize(n: usize) -> Self {
        F(n as f64)
    }
    fn add_spec(self, rhs: Self) -> Self {
        F(self.0 + rhs.0)
    }
    fn add(self, rhs: Self) -> Self {
        F(self.0 + rhs.0)
    }
    fn sub_spec(self, rhs: Self) -> Self {
        F(self.0 - rhs.0)
    }
    fn sub(self, rhs: Self) -> Self {
        F(self.0 - rhs.0)
    }
    fn mul_spec(self, rhs: Self) -> Self {
        F(self.0 * rhs.0)
    }
    fn mul(self, rhs: Self) -> Self {
        F(self.0 * rhs.0)
    }
    fn div_spec(self, rhs: Self) -> Self {
        F(self.0 / rhs.0)
    }
    fn div(self, rhs: Self) -> Self {
        F(self.0 / rhs.0)
    }
    fn neg_spec(self) -> Self {
        F(-self.0)
    }
    fn neg(self) -> Self {
        F(-self.0)
    }
    fn abs_spec(self) -> Self {
        F(self.0.abs())
    }
    fn abs(self) -> Self {
        F(self.0.abs())
    }
    fn sqrt_spec(self) -> Self {
        F(self.0.sqrt())
    }
    fn sqrt(self) -> Self {
        F(self.0.sqrt())
    }
    fn exp_spec(self) -> Self {
        F(self.0.exp())
    }
    fn exp(self) -> Self {
        F(self.0.exp())
    }
    fn tanh_spec(self) -> Self {
        F(self.0.tanh())
    }
    fn tanh(self) -> Self {
        F(self.0.tanh())
    }
    fn powi_spec(self, n: i32) -> Self {
        F(self.0.powi(n))
    }
    fn powi(self, n: i32) -> Self {
        F(self.0.powi(n))
    }
    fn lt_spec(self, rhs: Self) -> bool {
        self.0 < rhs.0
    }
    fn lt(self, rhs: Self) -> bool {
        self.0 < rhs.0
    }
    fn le_spec(self, rhs: Self) -> bool {
        self.0 <= rhs.0
    }
    fn le(self, rhs: Self) -> bool {
        self.0 <= rhs.0
    }
}

impl FloatConst for F {
    fn two_pi_sqrt() -> Self {
        F(2.5066282746310002)
    }

    fn two_pi_sqrt_inv() -> Self {
        F(0.3989422804014327)
    }
}

fn gaussian_peak<T: FloatConst>(sigma: T) -> T {
    T::two_pi_sqrt_inv().div(sigma)
}

#[test]
fn constants_serve_generic_code() {
    assert_eq!(F::two_pi_sqrt(), F((std::f64::consts::PI * 2.0).sqrt()));
    assert_eq!(gaussian_peak(F(2.0)), F(0.3989422804014327 / 2.0));
}

#[test]
fn bernoulli_statistics() {
    let d = Bernoulli { mu: F(0.25) };
    assert_eq!(d.mean(), F(0.25));
    assert_eq!(d.var(), F(0.1875));
    assert_eq!(d.std_dev(), F(0.1875f64.sqrt()));
    assert_eq!(d.mode(), F(0.0));
    assert_eq!(Bernoulli { mu: F(0.5) }.mode(), F(1.0));
    assert_eq!(Bernoulli { mu: F(0.75) }.mode(), F(1.0));
}

#[test]
fn beta_statistics() {
    let d = Beta { a: F(2.0), b: F(6.0) };
    assert_eq!(d.mean(), F(0.25));
    // 12 / (64 * 9)
    assert_eq!(d.var(), F(12.0 / 576.0));
    assert_eq!(d.std_dev(), F((12.0f64 / 576.0).sqrt()));
    // 1 / 6
    assert_eq!(d.mode(), F(1.0 / 6.0));
}

#[test]
fn gaussian_statistics() {
    let d = Gaussian { mu: F(-1.5), sigma2: F(4.0) };
    assert_eq!(d.mean(), F(-1.5));
    assert_eq!(d.var(), F(4.0));
    assert_eq!(d.std_dev(), F(2.0));
    assert_eq!(d.mode(), F(-1.5));
}

#[test]
fn integer_labels_know_zero_and_one() {
    assert!(0i8.is_zero() && !0i8.is_one());
    assert!(1i8.is_one() && !1i8.is_zero());
    assert!(!(-1i8).is_zero() && !(-1i8).is_one());
    assert!(0u8.is_zero() && 1u8.is_one() && !2u8.is_one());
    assert!(0i16.is_zero() && 1i16.is_one());
    assert!(0u16.is_zero() && 1u16.is_one());
    assert!(0i32.is_zero() && 1i32.is_one() && !i32::MIN.is_zero());
    assert!(0u32.is_zero() && 1u32.is_one());
    assert!(0i64.is_zero() && 1i64.is_one());
    assert!(0u64.is_zero() && 1u64.is_one() && !u64::MAX.is_one());
    assert!(0i128.is_zero() && 1i128.is_one());
    assert!(0u128.is_zero() && 1u128.is_one());
    assert!(0isize.is_zero() && 1isize.is_one());
    assert!(0usize.is_zero() && 1usize.is_one());
}

#[test]
fn new_collection_is_empty() {
    let c = Consts::new();
    assert!(c.name.is_empty() && c.value.is_empty());
    assert!(c.vec_name.is_empty() && c.vec_value.is_empty());
}

#[test]
fn empty_collection_renders_the_frame() {
    let c = Consts::new();
    assert_eq!(
        c.save(),
        "use crate::float::Float;\n\npub trait FloatConst: Float {\n}\n\nmacro_rules! impl_float_const {\n\t($type:ty) => {\n\t\timpl FloatConst for $type {\n\t\t}\n\t};\n}\n\nimpl_float_const!(f64);\nimpl_float_const!(f32);"
    );
}

#[test]
fn constants_render_in_the_order_they_were_added() {
    let mut c = Consts::new();
    c.add_val("TWO_PI_SQRT", "2.5066282746310002");
    c.add_val("TWO_PI_SQRT_INV", "0.3989422804014327");
    c.add_vec("DUMMY", "[1.0, 2.0, 3.0]");
    assert_eq!(c.name, vec!["TWO_PI_SQRT".to_string(), "TWO_PI_SQRT_INV".to_string()]);
    assert_eq!(c.value, vec!["2.5066282746310002".to_string(), "0.3989422804014327".to_string()]);
    assert_eq!(c.vec_name, vec!["DUMMY".to_string()]);
    assert_eq!(c.vec_value, vec!["[1.0, 2.0, 3.0]".to_string()]);
    assert_eq!(
        c.save(),
        "use crate::float::Float;\n\npub trait FloatConst: Float {\n\tconst TWO_PI_SQRT: Self;\n\tconst TWO_PI_SQRT_INV: Self;\n\tconst DUMMY: &'static [Self];\n}\n\nmacro_rules! impl_float_const {\n\t($type:ty) => {\n\t\timpl FloatConst for $type {\n\t\t\tconst TWO_PI_SQRT: Self = 2.5066282746310002;\n\t\t\tconst TWO_PI_SQRT_INV: Self = 0.3989422804014327;\n\t\t\tconst DUMMY: &'static[Self] = &[1.0, 2.0, 3.0];\n\t\t}\n\t};\n}\n\nimpl_float_const!(f64);\nimpl_float_const!(f32);"
    );
}

#[test]
fn a_name_without_a_value_is_left_out() {
    let mut c = Consts::new();
    c.add_val("A", "1");
    c.name.push("B".to_string());
    c.vec_value.push("[0]".to_string());
    assert_eq!(
        c.save(),
        "use crate::float::Float;\n\npub trait FloatConst: Float {\n\tconst A: Self;\n}\n\nmacro_rules! impl_float_const {\n\t($type:ty) => {\n\t\timpl FloatConst for $type {\n\t\t\tconst A: Self = 1;\n\t\t}\n\t};\n}\n\nimpl_float_const!(f64);\nimpl_float_const!(f32);"
    );
}
