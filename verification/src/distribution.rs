//! Mean, variance and mode of a few parametric distributions.
use vstd::prelude::*;
use crate::float::Float;

verus! {

/// A distribution over scalars, by its summary statistics.
pub trait Distribution<T: Float> {
    /// The value of [`Distribution::mean`].
    spec fn mean_spec(&self) -> T;

    /// The expected value.
    fn mean(&self) -> (r: T)
        ensures
            r == self.mean_spec(),
    ;

    /// The value of [`Distribution::var`].
    spec fn var_spec(&self) -> T;

    /// The variance.
    fn var(&self) -> (r: T)
        ensures
            r == self.var_spec(),
    ;

    /// The standard deviation: the square root of the variance.
    fn std_dev(&self) -> (r: T)
        ensures
            r == self.var_spec().sqrt_spec(),
    {
        self.var().sqrt()
    }

    /// The value of [`Distribution::mode`].
    spec fn mode_spec(&self) -> T;

    /// The most likely value.
    fn mode(&self) -> (r: T)
        ensures
            r == self.mode_spec(),
    ;
}

/// One half, as one over two.
pub open spec fn half_spec<T: Float>() -> T {
    T::one_spec().div_spec(T::from_i32_spec(2))
}

/// The Bernoulli distribution with success probability `mu`.
pub struct Bernoulli<T: Float> {
    pub mu: T,
}

impl<T: Float> Distribution<T> for Bernoulli<T> {
    /// `mu`.
    open spec fn mean_spec(&self) -> T {
        self.mu
    }

    fn mean(&self) -> (r: T) {
        self.mu
    }

    /// `mu * (1 - mu)`.
    open spec fn var_spec(&self) -> T {
        self.mu.mul_spec(T::one_spec().sub_spec(self.mu))
    }

    fn var(&self) -> (r: T) {
        self.mu.mul(T::one().sub(self.mu))
    }

    /// One when `mu` is at least one half, else zero.
    open spec fn mode_spec(&self) -> T {
        if half_spec::<T>().le_spec(self.mu) {
            T::one_spec()
        } else {
            T::zero_spec()
        }
    }

    fn mode(&self) -> (r: T) {
        if T::one().div(T::from_i32(2)).le(self.mu) {
            T::one()
        } else {
            T::zero()
        }
    }
}

/// The beta distribution with shape parameters `a` and `b`.
pub struct Beta<T: Float> {
    pub a: T,
    pub b: T,
}

impl<T: Float> Distribution<T> for Beta<T> {
    /// `a / (a + b)`.
    open spec fn mean_spec(&self) -> T {
        self.a.div_spec(self.a.add_spec(self.b))
    }

    fn mean(&self) -> (r: T) {
        self.a.div(self.a.add(self.b))
    }

    /// `a * b / ((a + b) * (a + b) * (a + b + 1))`.
    open spec fn var_spec(&self) -> T {
        let s = self.a.add_spec(self.b);
        self.a.mul_spec(self.b).div_spec(s.mul_spec(s).mul_spec(s.add_spec(T::one_spec())))
    }

    fn var(&self) -> (r: T) {
        let s = self.a.add(self.b);
        self.a.mul(self.b).div(s.mul(s).mul(s.add(T::one())))
    }

    /// `(a - 1) / (a + b - 2)`.
    open spec fn mode_spec(&self) -> T {
        self.a.sub_spec(T::one_spec()).div_spec(
            self.a.add_spec(self.b).sub_spec(T::from_i32_spec(2)),
        )
    }

    fn mode(&self) -> (r: T) {
        self.a.sub(T::one()).div(self.a.add(self.b).sub(T::from_i32(2)))
    }
}

/// The normal distribution with mean `mu` and variance `sigma2`.
pub struct Gaussian<T: Float> {
    pub mu: T,
    pub sigma2: T,
}

impl<T: Float> Distribution<T> for Gaussian<T> {
    /// `mu`.
    open spec fn mean_spec(&self) -> T {
        self.mu
    }

    fn mean(&self) -> (r: T) {
        self.mu
    }

    /// `sigma2`.
    open spec fn var_spec(&self) -> T {
        self.sigma2
    }

    fn var(&self) -> (r: T) {
        self.sigma2
    }

    /// `mu`.
    open spec fn mode_spec(&self) -> T {
        self.mu
    }

    fn mode(&self) -> (r: T) {
        self.mu
    }
}

} // verus!
