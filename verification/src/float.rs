//! The scalar interface that every numerical routine of this crate is generic over.
use vstd::prelude::*;

verus! {

/// A scalar with the arithmetic of a floating-point number.
///
/// Each operation comes as a pair: the executable method and a specification
/// function that names its result. The contracts of this crate are stated over
/// the specification functions, so they say which operations are applied to
/// which operands and in which order, and nothing about rounding.
///
/// Implementations live outside this crate and are not verified. What the
/// crate's proofs rely on is exactly what the `ensures` clauses below say: each
/// method returns a value that is determined by its arguments. No algebraic law
/// (associativity, a total order, the absence of a not-a-number value) is
/// assumed; where a theorem needs one, it takes it as a hypothesis.
///
/// In compiled code the naming functions are ordinary methods that nothing
/// calls; an implementation gives each the body of its operation.
pub trait Float: Sized + Copy {
    /// The value of [`Float::zero`].
    spec fn zero_spec() -> Self;

    /// The additive identity.
    fn zero() -> (r: Self)
        ensures
            r == Self::zero_spec(),
    ;

    /// The value of [`Float::one`].
    spec fn one_spec() -> Self;

    /// The multiplicative identity.
    fn one() -> (r: Self)
        ensures
            r == Self::one_spec(),
    ;

    /// The value of [`Float::infinity`].
    spec fn infinity_spec() -> Self;

    /// A value above every finite scalar.
    fn infinity() -> (r: Self)
        ensures
            r == Self::infinity_spec(),
    ;

    /// The value of [`Float::neg_infinity`].
    spec fn neg_infinity_spec() -> Self;

    /// A value below every finite scalar.
    fn neg_infinity() -> (r: Self)
        ensures
            r == Self::neg_infinity_spec(),
    ;

    /// The value of [`Float::from_i32`].
    spec fn from_i32_spec(n: i32) -> Self;

    /// The scalar nearest to the integer `n`.
    fn from_i32(n: i32) -> (r: Self)
        ensures
            r == Self::from_i32_spec(n),
    ;

    /// The value of [`Float::from_usize`].
    spec fn from_usize_spec(n: usize) -> Self;

    /// The scalar nearest to the count `n`.
    fn from_usize(n: usize) -> (r: Self)
        ensures
            r == Self::from_usize_spec(n),
    ;

    /// The value of [`Float::add`].
    spec fn add_spec(self, rhs: Self) -> Self;

    /// `self + rhs`.
    fn add(self, rhs: Self) -> (r: Self)
        ensures
            r == self.add_spec(rhs),
    ;

    /// The value of [`Float::sub`].
    spec fn sub_spec(self, rhs: Self) -> Self;

    /// `self - rhs`.
    fn sub(self, rhs: Self) -> (r: Self)
        ensures
            r == self.sub_spec(rhs),
    ;

    /// The value of [`Float::mul`].
    spec fn mul_spec(self, rhs: Self) -> Self;

    /// `self * rhs`.
    fn mul(self, rhs: Self) -> (r: Self)
        ensures
            r == self.mul_spec(rhs),
    ;

    /// The value of [`Float::div`].
    spec fn div_spec(self, rhs: Self) -> Self;

    /// `self / rhs`. Division by zero is not an error of this interface: it
    /// yields whatever the scalar type yields.
    fn div(self, rhs: Self) -> (r: Self)
        ensures
            r == self.div_spec(rhs),
    ;

    /// The value of [`Float::neg`].
    spec fn neg_spec(self) -> Self;

    /// `-self`.
    fn neg(self) -> (r: Self)
        ensures
            r == self.neg_spec(),
    ;

    /// The value of [`Float::abs`].
    spec fn abs_spec(self) -> Self;

    /// The absolute value.
    fn abs(self) -> (r: Self)
        ensures
            r == self.abs_spec(),
    ;

    /// The value of [`Float::sqrt`].
    spec fn sqrt_spec(self) -> Self;

    /// The square root.
    fn sqrt(self) -> (r: Self)
        ensures
            r == self.sqrt_spec(),
    ;

    /// The value of [`Float::exp`].
    spec fn exp_spec(self) -> Self;

    /// `e` raised to `self`.
    fn exp(self) -> (r: Self)
        ensures
            r == self.exp_spec(),
    ;

    /// The value of [`Float::tanh`].
    spec fn tanh_spec(self) -> Self;

    /// The hyperbolic tangent.
    fn tanh(self) -> (r: Self)
        ensures
            r == self.tanh_spec(),
    ;

    /// The value of [`Float::powi`].
    spec fn powi_spec(self, n: i32) -> Self;

    /// `self` raised to the integer power `n`.
    fn powi(self, n: i32) -> (r: Self)
        ensures
            r == self.powi_spec(n),
    ;

    /// The value of [`Float::lt`].
    spec fn lt_spec(self, rhs: Self) -> bool;

    /// `self < rhs`.
    fn lt(self, rhs: Self) -> (r: bool)
        ensures
            r == self.lt_spec(rhs),
    ;

    /// The value of [`Float::le`].
    spec fn le_spec(self, rhs: Self) -> bool;

    /// `self <= rhs`.
    fn le(self, rhs: Self) -> (r: bool)
        ensures
            r == self.le_spec(rhs),
    ;
}

/// The sum of the items of `s`, accumulated from the left, starting at zero.
pub open spec fn sum_spec<T: Float>(s: Seq<T>) -> T
    decreases s.len(),
{
    if s.len() == 0 {
        T::zero_spec()
    } else {
        sum_spec(s.drop_last()).add_spec(s.last())
    }
}

/// The inner product of `a` and `b`: the products of the items at equal
/// positions, accumulated from the left, starting at zero.
pub open spec fn dot_spec<T: Float>(a: Seq<T>, b: Seq<T>) -> T
    recommends
        a.len() == b.len(),
    decreases a.len(),
{
    if a.len() == 0 {
        T::zero_spec()
    } else {
        dot_spec(a.drop_last(), b.drop_last()).add_spec(a.last().mul_spec(b.last()))
    }
}

/// The itemwise difference `a - b`.
pub open spec fn diff_spec<T: Float>(a: Seq<T>, b: Seq<T>) -> Seq<T>
    recommends
        a.len() == b.len(),
{
    Seq::new(a.len(), |i: int| a[i].sub_spec(b[i]))
}

/// The itemwise product `a * b`.
pub open spec fn hadamard_spec<T: Float>(a: Seq<T>, b: Seq<T>) -> Seq<T>
    recommends
        a.len() == b.len(),
{
    Seq::new(a.len(), |i: int| a[i].mul_spec(b[i]))
}

/// Adds up the items of `v`.
pub fn sum<T: Float>(v: &Vec<T>) -> (r: T)
    ensures
        r == sum_spec(v@),
{
    let mut acc = T::zero();
    let mut i: usize = 0;
    while i < v.len()
        invariant
            i <= v.len(),
            acc == sum_spec(v@.take(i as int)),
        decreases v.len() - i,
    {
        assert(v@.take(i + 1).drop_last() =~= v@.take(i as int));
        acc = acc.add(v[i]);
        i += 1;
    }
    assert(v@.take(v.len() as int) =~= v@);
    acc
}

/// The inner product of two vectors of one length.
pub fn dot<T: Float>(a: &Vec<T>, b: &Vec<T>) -> (r: T)
    requires
        a.len() == b.len(),
    ensures
        r == dot_spec(a@, b@),
{
    let mut acc = T::zero();
    let mut i: usize = 0;
    while i < a.len()
        invariant
            i <= a.len(),
            a.len() == b.len(),
            acc == dot_spec(a@.take(i as int), b@.take(i as int)),
        decreases a.len() - i,
    {
        assert(a@.take(i + 1).drop_last() =~= a@.take(i as int));
        assert(b@.take(i + 1).drop_last() =~= b@.take(i as int));
        acc = acc.add(a[i].mul(b[i]));
        i += 1;
    }
    assert(a@.take(a.len() as int) =~= a@);
    assert(b@.take(b.len() as int) =~= b@);
    acc
}

/// The itemwise difference of two vectors of one length.
pub fn difference<T: Float>(a: &Vec<T>, b: &Vec<T>) -> (r: Vec<T>)
    requires
        a.len() == b.len(),
    ensures
        r@ == diff_spec(a@, b@),
{
    let mut out: Vec<T> = Vec::with_capacity(a.len());
    let mut i: usize = 0;
    while i < a.len()
        invariant
            i <= a.len(),
            a.len() == b.len(),
            out@ == diff_spec(a@, b@).take(i as int),
        decreases a.len() - i,
    {
        out.push(a[i].sub(b[i]));
        i += 1;
        assert(out@ =~= diff_spec(a@, b@).take(i as int));
    }
    assert(diff_spec(a@, b@).take(a.len() as int) =~= diff_spec(a@, b@));
    out
}

/// The itemwise product of two vectors of one length.
pub fn hadamard<T: Float>(a: &Vec<T>, b: &Vec<T>) -> (r: Vec<T>)
    requires
        a.len() == b.len(),
    ensures
        r@ == hadamard_spec(a@, b@),
{
    let mut out: Vec<T> = Vec::with_capacity(a.len());
    let mut i: usize = 0;
    while i < a.len()
        invariant
            i <= a.len(),
            a.len() == b.len(),
            out@ == hadamard_spec(a@, b@).take(i as int),
        decreases a.len() - i,
    {
        out.push(a[i].mul(b[i]));
        i += 1;
        assert(out@ =~= hadamard_spec(a@, b@).take(i as int));
    }
    assert(hadamard_spec(a@, b@).take(a.len() as int) =~= hadamard_spec(a@, b@));
    out
}

/// The larger of two scalars; `b` when they do not compare.
pub fn max<T: Float>(a: T, b: T) -> (r: T)
    ensures
        r == max_spec(a, b),
{
    if b.lt(a) {
        a
    } else {
        b
    }
}

/// The smaller of two scalars; `a` when they do not compare.
pub fn min<T: Float>(a: T, b: T) -> (r: T)
    ensures
        r == min_spec(a, b),
{
    if b.lt(a) {
        b
    } else {
        a
    }
}

/// `a` if `a > b`, else `b`.
pub open spec fn max_spec<T: Float>(a: T, b: T) -> T {
    if b.lt_spec(a) {
        a
    } else {
        b
    }
}

/// `b` if `a > b`, else `a`.
pub open spec fn min_spec<T: Float>(a: T, b: T) -> T {
    if b.lt_spec(a) {
        b
    } else {
        a
    }
}

} // verus!
