//! Similarity functions between feature vectors.
use vstd::prelude::*;
use crate::float::{diff_spec, difference, dot, dot_spec, Float};

verus! {

/// A similarity function between two feature vectors of one dimension.
pub enum Kernel<T: Float> {
    /// The inner product `<x1, x2>`.
    Linear,
    /// `(gamma * <x1, x2> + r) ^ degree`, the fields in that order.
    Poly(T, T, i32),
    /// `exp(-gamma * |x1 - x2|^2)`.
    RBF(T),
    /// `tanh(gamma * <x1, x2> + r)`, the fields in that order.
    Sigmoid(T, T),
}

impl<T: Float> Clone for Kernel<T> {
    fn clone(&self) -> (r: Self)
        ensures
            r == *self,
    {
        *self
    }
}

impl<T: Float> Copy for Kernel<T> {

}

/// The feature vectors of `xs` as sequences.
pub open spec fn rows<T>(xs: Seq<Vec<T>>) -> Seq<Seq<T>> {
    Seq::new(xs.len(), |i: int| xs[i]@)
}

/// Every vector of `xs` has `dim` items.
pub open spec fn uniform<T>(xs: Seq<Seq<T>>, dim: nat) -> bool {
    forall|i: int| 0 <= i < xs.len() ==> (#[trigger] xs[i]).len() == dim
}

/// Every index of `index` names an item of a sequence of length `n`.
pub open spec fn in_range(index: Seq<usize>, n: nat) -> bool {
    forall|j: int| 0 <= j < index.len() ==> (#[trigger] index[j]) < n
}

/// The items of `v` that `index` names, in the order of `index`.
pub open spec fn gather<A>(v: Seq<A>, index: Seq<usize>) -> Seq<A> {
    Seq::new(index.len(), |j: int| v[index[j] as int])
}

impl<T: Float> Kernel<T> {
    /// The similarity of `x1` and `x2`.
    ///
    /// The radial basis kernel takes the squared distance as the inner product
    /// of the difference with itself, not from the expanded form.
    pub open spec fn eval_spec(self, x1: Seq<T>, x2: Seq<T>) -> T
        recommends
            x1.len() == x2.len(),
    {
        match self {
            Kernel::Linear => dot_spec(x1, x2),
            Kernel::Poly(gamma, r, degree) => gamma.mul_spec(dot_spec(x1, x2)).add_spec(
                r,
            ).powi_spec(degree),
            Kernel::RBF(gamma) => {
                let dx = diff_spec(x1, x2);
                gamma.neg_spec().mul_spec(dot_spec(dx, dx)).exp_spec()
            },
            Kernel::Sigmoid(gamma, r) => gamma.mul_spec(dot_spec(x1, x2)).add_spec(r).tanh_spec(),
        }
    }

    /// The similarities of `x` to each vector of `xn`, in the order of `xn`.
    pub open spec fn eval_multi_spec(self, x: Seq<T>, xn: Seq<Seq<T>>) -> Seq<T> {
        Seq::new(xn.len(), |i: int| self.eval_spec(x, xn[i]))
    }

    /// The similarities of `x` to the vectors of `xn` that `index` names, in the
    /// order of `index`.
    pub open spec fn eval_indexed_spec(self, x: Seq<T>, xn: Seq<Seq<T>>, index: Seq<usize>) -> Seq<
        T,
    > {
        gather(self.eval_multi_spec(x, xn), index)
    }

    /// Evaluates the kernel on two vectors of one dimension.
    pub fn eval(&self, x1: &Vec<T>, x2: &Vec<T>) -> (k: T)
        requires
            x1.len() == x2.len(),
        ensures
            k == self.eval_spec(x1@, x2@),
    {
        match self {
            Kernel::Linear => dot(x1, x2),
            Kernel::Poly(gamma, r, degree) => gamma.mul(dot(x1, x2)).add(*r).powi(*degree),
            Kernel::RBF(gamma) => {
                let dx = difference(x1, x2);
                gamma.neg().mul(dot(&dx, &dx)).exp()
            },
            Kernel::Sigmoid(gamma, r) => gamma.mul(dot(x1, x2)).add(*r).tanh(),
        }
    }

    /// Evaluates the kernel of `x` against every vector of `xn`.
    pub fn eval_multi(&self, x: &Vec<T>, xn: &Vec<Vec<T>>) -> (k: Vec<T>)
        requires
            uniform(rows(xn@), x@.len()),
        ensures
            k@ == self.eval_multi_spec(x@, rows(xn@)),
    {
        let ghost want = self.eval_multi_spec(x@, rows(xn@));
        let mut out: Vec<T> = Vec::with_capacity(xn.len());
        let mut i: usize = 0;
        while i < xn.len()
            invariant
                i <= xn.len(),
                uniform(rows(xn@), x@.len()),
                want == self.eval_multi_spec(x@, rows(xn@)),
                out@ == want.take(i as int),
            decreases xn.len() - i,
        {
            assert(rows(xn@)[i as int] == xn@[i as int]@);
            out.push(self.eval(x, &xn[i]));
            i += 1;
            assert(out@ =~= want.take(i as int));
        }
        assert(want.take(xn.len() as int) =~= want);
        out
    }

    /// Evaluates the kernel of `x` against the vectors of `xn` that `index`
    /// names. The result follows the order of `index`; an index that occurs
    /// twice is evaluated twice.
    pub fn eval_indexed(&self, x: &Vec<T>, xn: &Vec<Vec<T>>, index: &Vec<usize>) -> (k: Vec<T>)
        requires
            uniform(rows(xn@), x@.len()),
            in_range(index@, xn@.len()),
        ensures
            k@ == self.eval_indexed_spec(x@, rows(xn@), index@),
    {
        let ghost want = self.eval_indexed_spec(x@, rows(xn@), index@);
        let mut out: Vec<T> = Vec::with_capacity(index.len());
        let mut j: usize = 0;
        while j < index.len()
            invariant
                j <= index.len(),
                uniform(rows(xn@), x@.len()),
                in_range(index@, xn@.len()),
                want == self.eval_indexed_spec(x@, rows(xn@), index@),
                out@ == want.take(j as int),
            decreases index.len() - j,
        {
            let i = index[j];
            assert(rows(xn@)[i as int] == xn@[i as int]@);
            out.push(self.eval(x, &xn[i]));
            j += 1;
            assert(out@ =~= want.take(j as int));
        }
        assert(want.take(index.len() as int) =~= want);
        out
    }
}

/// Multiplication does not depend on the order of its operands.
pub open spec fn mul_commutes<T: Float>() -> bool {
    forall|a: T, b: T| #[trigger] a.mul_spec(b) == b.mul_spec(a)
}

/// The square of a difference does not depend on the order of its operands.
pub open spec fn square_of_difference_mirrors<T: Float>() -> bool {
    forall|a: T, b: T|
        (#[trigger] a.sub_spec(b)).mul_spec(a.sub_spec(b)) == b.sub_spec(a).mul_spec(
            b.sub_spec(a),
        )
}

/// The inner product is symmetric wherever multiplication commutes.
pub proof fn lemma_dot_symmetric<T: Float>(a: Seq<T>, b: Seq<T>)
    requires
        a.len() == b.len(),
        mul_commutes::<T>(),
    ensures
        dot_spec(a, b) == dot_spec(b, a),
    decreases a.len(),
{
    if a.len() > 0 {
        lemma_dot_symmetric(a.drop_last(), b.drop_last());
    }
}

/// The squared distance is symmetric wherever the square of a difference is.
pub proof fn lemma_squared_distance_symmetric<T: Float>(a: Seq<T>, b: Seq<T>)
    requires
        a.len() == b.len(),
        square_of_difference_mirrors::<T>(),
    ensures
        dot_spec(diff_spec(a, b), diff_spec(a, b)) == dot_spec(diff_spec(b, a), diff_spec(b, a)),
    decreases a.len(),
{
    if a.len() > 0 {
        lemma_squared_distance_symmetric(a.drop_last(), b.drop_last());
        assert(diff_spec(a, b).drop_last() =~= diff_spec(a.drop_last(), b.drop_last()));
        assert(diff_spec(b, a).drop_last() =~= diff_spec(b.drop_last(), a.drop_last()));
    }
}

/// Every kernel is symmetric in its two arguments: `eval(x1, x2)` and
/// `eval(x2, x1)` are one value, for scalars whose multiplication commutes and
/// for which `(a - b) * (a - b)` equals `(b - a) * (b - a)`.
pub proof fn lemma_eval_symmetric<T: Float>(kernel: Kernel<T>, x1: Seq<T>, x2: Seq<T>)
    requires
        x1.len() == x2.len(),
        mul_commutes::<T>(),
        square_of_difference_mirrors::<T>(),
    ensures
        kernel.eval_spec(x1, x2) == kernel.eval_spec(x2, x1),
{
    lemma_dot_symmetric(x1, x2);
    lemma_squared_distance_symmetric(x1, x2);
}

} // verus!
