//! The support vector machine: training on labelled samples, and the decision
//! function and classifier of the trained model.
use vstd::prelude::*;
use crate::decision::rectangular;
use crate::decision::decision_spec;
use crate::float::{dot, dot_spec, Float};
use crate::invariants::{lemma_fit_admits, lemma_initial, meets_margin};
use crate::kernel::{gather, rows, uniform, Kernel};
use crate::model::{support_of, Partition, Problem, State};
use crate::smo::{labels_spec, lemma_support_of, SMO};

verus! {

/// Why training or inference was refused.
#[derive(Clone, Copy, PartialEq, Eq, Debug, Structural)]
pub enum SvmError {
    /// The numbers of samples and labels differ, or feature vectors differ in
    /// dimension.
    DimensionMismatch,
    /// A label is neither -1 nor +1.
    InvalidLabel,
    /// The model has not been trained.
    ModelNotFitted,
    /// The scan budget ran out before a fixpoint was reached. The model holds
    /// the solution reached so far.
    DidNotConverge,
}

/// What training leaves in a model: the signed coefficients of the support
/// vectors, the bias, and the support vectors.
#[verifier::ext_equal]
pub struct Fitted<T: Float> {
    pub at: Seq<T>,
    pub b: T,
    pub support_vector: Seq<Seq<T>>,
}

/// Every label is -1 or +1.
pub open spec fn valid_labels(t: Seq<i8>) -> bool {
    forall|i: int| 0 <= i < t.len() ==> (#[trigger] t[i]) == 1 || t[i] == -1
}

/// The tolerance of training: one over ten million.
pub open spec fn default_tolerance<T: Float>() -> T {
    T::one_spec().div_spec(T::from_i32_spec(10_000_000))
}

/// The optimization problem that training solves: regularization constant
/// one, tolerance one over ten million.
pub open spec fn training_problem<T: Float>(kernel: Kernel<T>, x: Seq<Seq<T>>, t: Seq<i8>) -> Problem<
    T,
> {
    Problem {
        x,
        t: labels_spec::<T>(t),
        c: T::one_spec(),
        kernel,
        tolerance: default_tolerance::<T>(),
    }
}

/// The model that a state of the optimizer stands for: the signed
/// coefficients and the feature vectors of the support, and the bias.
pub open spec fn extract<T: Float>(p: Problem<T>, st: State<T>) -> Fitted<T> {
    let index = support_of(st.part);
    Fitted { at: gather(p.signed(st.a), index), b: st.b, support_vector: gather(p.x, index) }
}

/// The model that training on `x` and `t` yields within `max_scans` scans, and
/// whether a fixpoint was reached. It is determined by the kernel, the budget
/// and the data.
pub open spec fn trained<T: Float>(kernel: Kernel<T>, max_scans: usize, x: Seq<Seq<T>>, t: Seq<i8>) -> (
    Fitted<T>,
    bool,
) {
    let p = training_problem(kernel, x, t);
    let (st, converged) = p.fit_spec(p.initial(), max_scans as nat);
    (extract(p, st), converged)
}

/// Whether every vector of `xs` has `dim` items.
pub fn has_dimension<T: Float>(xs: &Vec<Vec<T>>, dim: usize) -> (r: bool)
    ensures
        r == uniform(rows(xs@), dim as nat),
{
    let mut i: usize = 0;
    while i < xs.len()
        invariant
            i <= xs.len(),
            forall|k: int| 0 <= k < i ==> (#[trigger] rows(xs@)[k]).len() == dim,
        decreases xs.len() - i,
    {
        assert(rows(xs@)[i as int] == xs@[i as int]@);
        if xs[i].len() != dim {
            return false;
        }
        i += 1;
    }
    true
}

/// Whether every label of `t` is -1 or +1.
pub fn labels_are_valid(t: &Vec<i8>) -> (r: bool)
    ensures
        r == valid_labels(t@),
{
    let mut j: usize = 0;
    while j < t.len()
        invariant
            j <= t.len(),
            forall|k: int| 0 <= k < j ==> (#[trigger] t@[k]) == 1 || t@[k] == -1,
        decreases t.len() - j,
    {
        if t[j] != 1 && t[j] != -1 {
            return false;
        }
        j += 1;
    }
    true
}

/// A kernel support vector machine for two classes, labelled -1 and +1.
pub struct SVM<T: Float> {
    /// The signed coefficient of each support vector.
    pub at: Option<Vec<T>>,
    /// The bias.
    pub b: Option<T>,
    /// The support vectors.
    pub support_vector: Option<Vec<Vec<T>>>,
    /// The kernel.
    pub kernel: Kernel<T>,
    /// The most scans that training makes before it gives up.
    pub max_scans: usize,
}

impl<T: Float> SVM<T> {
    /// What a training run has left, if one has.
    pub open spec fn model(&self) -> Option<Fitted<T>> {
        if self.at is Some && self.b is Some && self.support_vector is Some {
            Some(
                Fitted {
                    at: self.at->0@,
                    b: self.b->0,
                    support_vector: rows(self.support_vector->0@),
                },
            )
        } else {
            None
        }
    }

    /// The model can be evaluated at `x`: it has one coefficient per support
    /// vector, and every support vector has the dimension of `x`.
    pub open spec fn fits(m: Fitted<T>, x: Seq<T>) -> bool {
        m.at.len() == m.support_vector.len() && uniform(m.support_vector, x.len())
    }

    /// The decision value of `x`: the inner product of the signed
    /// coefficients with the kernel values of `x` against every support
    /// vector, plus the bias.
    pub open spec fn decision(kernel: Kernel<T>, m: Fitted<T>, x: Seq<T>) -> T {
        dot_spec(m.at, kernel.eval_multi_spec(x, m.support_vector)).add_spec(m.b)
    }

    /// The class of a decision value: +1 when it is at least zero, else -1.
    pub open spec fn class_of(y: T) -> i8 {
        if T::zero_spec().le_spec(y) {
            1i8
        } else {
            -1i8
        }
    }

    /// What `y_one` returns on a sample.
    pub open spec fn y_one_spec(&self, x: Seq<T>) -> Result<T, SvmError> {
        match self.model() {
            None => Err(SvmError::ModelNotFitted),
            Some(m) => if Self::fits(m, x) {
                Ok(Self::decision(self.kernel, m, x))
            } else {
                Err(SvmError::DimensionMismatch)
            },
        }
    }

    /// An untrained model with the given kernel and no limit on the scans of
    /// training short of the largest machine word.
    pub fn new(kernel: Kernel<T>) -> (svm: Self)
        ensures
            svm.model() is None,
            svm.kernel == kernel,
            svm.max_scans == usize::MAX,
    {
        SVM { at: None, b: None, support_vector: None, kernel, max_scans: usize::MAX }
    }

    /// The decision value of one sample.
    ///
    /// Fails with `ModelNotFitted` before training, and with
    /// `DimensionMismatch` when the sample's dimension is not that of the
    /// support vectors.
    pub fn y_one(&self, x: &Vec<T>) -> (r: Result<T, SvmError>)
        ensures
            r == self.y_one_spec(x@),
    {
        match &self.at {
            None => Err(SvmError::ModelNotFitted),
            Some(at) => match self.b {
                None => Err(SvmError::ModelNotFitted),
                Some(b) => match &self.support_vector {
                    None => Err(SvmError::ModelNotFitted),
                    Some(support_vector) => {
                        if at.len() != support_vector.len() {
                            return Err(SvmError::DimensionMismatch);
                        }
                        if !has_dimension(support_vector, x.len()) {
                            return Err(SvmError::DimensionMismatch);
                        }
                        let k = self.kernel.eval_multi(x, support_vector);
                        Ok(dot(at, &k).add(b))
                    },
                },
            },
        }
    }

    /// The decision values of a batch of samples, in their order.
    ///
    /// Fails as `y_one` fails on the first sample on which it does; an
    /// untrained model fails on every batch, the empty one too.
    pub fn y(&self, x: &Vec<Vec<T>>) -> (r: Result<Vec<T>, SvmError>)
        ensures
            self.model() is None ==> r == Err::<Vec<T>, SvmError>(SvmError::ModelNotFitted),
            self.model() is Some ==> (match r {
                Ok(ys) => ys@.len() == x@.len() && forall|k: int|
                    0 <= k < x@.len() ==> self.y_one_spec(#[trigger] x@[k]@) == Ok::<T, SvmError>(
                        ys@[k],
                    ),
                Err(e) => e == SvmError::DimensionMismatch && exists|k: int|
                    0 <= k < x@.len() && self.y_one_spec(#[trigger] x@[k]@) is Err,
            }),
    {
        if self.at.is_none() || self.b.is_none() || self.support_vector.is_none() {
            return Err(SvmError::ModelNotFitted);
        }
        let mut out: Vec<T> = Vec::with_capacity(x.len());
        let mut k: usize = 0;
        while k < x.len()
            invariant
                k <= x.len(),
                self.model() is Some,
                out@.len() == k,
                forall|j: int|
                    0 <= j < k ==> self.y_one_spec(#[trigger] x@[j]@) == Ok::<T, SvmError>(out@[j]),
            decreases x.len() - k,
        {
            match self.y_one(&x[k]) {
                Ok(v) => {
                    out.push(v);
                },
                Err(e) => {
                    assert(self.y_one_spec(x@[k as int]@) is Err);
                    return Err(e);
                },
            }
            k += 1;
        }
        Ok(out)
    }

    /// The class of one sample: +1 when its decision value is at least zero,
    /// -1 otherwise. A decision value of exactly zero gives +1.
    pub fn predict_one(&self, x: &Vec<T>) -> (r: Result<i8, SvmError>)
        ensures
            r == (match self.y_one_spec(x@) {
                Ok(y) => Ok::<i8, SvmError>(Self::class_of(y)),
                Err(e) => Err::<i8, SvmError>(e),
            }),
    {
        match self.y_one(x) {
            Ok(y) => if T::zero().le(y) {
                Ok(1)
            } else {
                Ok(-1)
            },
            Err(e) => Err(e),
        }
    }

    /// The classes of a batch of samples, in their order. Fails as `y` does.
    pub fn predict(&self, x: &Vec<Vec<T>>) -> (r: Result<Vec<i8>, SvmError>)
        ensures
            self.model() is None ==> r == Err::<Vec<i8>, SvmError>(SvmError::ModelNotFitted),
            self.model() is Some ==> (match r {
                Ok(classes) => classes@.len() == x@.len() && forall|k: int|
                    0 <= k < x@.len() ==> (#[trigger] self.y_one_spec(x@[k]@)) is Ok
                        && classes@[k] == Self::class_of(self.y_one_spec(x@[k]@)->Ok_0),
                Err(e) => e == SvmError::DimensionMismatch && exists|k: int|
                    0 <= k < x@.len() && self.y_one_spec(#[trigger] x@[k]@) is Err,
            }),
    {
        match self.y(x) {
            Err(e) => Err(e),
            Ok(ys) => {
                let zero = T::zero();
                let mut out: Vec<i8> = Vec::with_capacity(ys.len());
                let mut k: usize = 0;
                while k < ys.len()
                    invariant
                        k <= ys.len(),
                        zero == T::zero_spec(),
                        out@.len() == k,
                        forall|j: int| 0 <= j < k ==> out@[j] == Self::class_of(#[trigger] ys@[j]),
                    decreases ys.len() - k,
                {
                    out.push(
                        if zero.le(ys[k]) {
                            1
                        } else {
                            -1
                        },
                    );
                    k += 1;
                }
                Ok(out)
            },
        }
    }

    /// Trains the model on the samples `x` with the labels `t`.
    ///
    /// The data is checked first: `DimensionMismatch` when the numbers of
    /// samples and labels differ or the samples differ in dimension,
    /// otherwise `InvalidLabel` when a label is neither -1 nor +1. On either
    /// the model is left as it was. Otherwise the optimizer runs from its
    /// initial state with regularization constant one, and the model is
    /// replaced by what it reached; `DidNotConverge` tells that the budget of
    /// `max_scans` scans ran out first.
    pub fn fit(&mut self, x: &Vec<Vec<T>>, t: &Vec<i8>) -> (r: Result<(), SvmError>)
        ensures
            final(self).kernel == old(self).kernel,
            final(self).max_scans == old(self).max_scans,
            x@.len() != t@.len() || !rectangular(rows(x@)) ==> r == Err::<(), SvmError>(
                SvmError::DimensionMismatch,
            ) && *final(self) == *old(self),
            x@.len() == t@.len() && rectangular(rows(x@)) && !valid_labels(t@) ==> r == Err::<
                (),
                SvmError,
            >(SvmError::InvalidLabel) && *final(self) == *old(self),
            x@.len() == t@.len() && rectangular(rows(x@)) && valid_labels(t@) ==> {
                let (m, converged) = trained(old(self).kernel, old(self).max_scans, rows(x@), t@);
                &&& final(self).model() == Some(m)
                &&& r == if converged {
                    Ok::<(), SvmError>(())
                } else {
                    Err::<(), SvmError>(SvmError::DidNotConverge)
                }
            },
    {
        if x.len() != t.len() {
            return Err(SvmError::DimensionMismatch);
        }
        if x.len() > 0 {
            assert(rows(x@)[0] == x@[0]@);
            if !has_dimension(x, x[0].len()) {
                return Err(SvmError::DimensionMismatch);
            }
        }
        if !labels_are_valid(t) {
            return Err(SvmError::InvalidLabel);
        }
        let one = T::one();
        let tolerance = one.div(T::from_i32(10_000_000));
        let mut smo = SMO::new(x, t, one, self.kernel, tolerance);
        let converged = smo.fit(self.max_scans);
        let mut at: Vec<T> = Vec::new();
        let mut b = T::zero();
        let mut support_vector: Vec<Vec<T>> = Vec::new();
        smo.params(&mut at, &mut b, &mut support_vector);
        self.at = Some(at);
        self.b = Some(b);
        self.support_vector = Some(support_vector);
        proof {
            let (m, c) = trained(old(self).kernel, old(self).max_scans, rows(x@), t@);
            assert(self.model()->0 =~= m);
        }
        if converged {
            Ok(())
        } else {
            Err(SvmError::DidNotConverge)
        }
    }
}

/// Two models with one kernel and one budget, trained on the same data, hold
/// the same coefficients, bias and support vectors: training starts from a
/// fresh optimizer and reads nothing that an earlier run has left.
pub proof fn lemma_refit_agrees<T: Float>(
    first: SVM<T>,
    second: SVM<T>,
    x: Seq<Seq<T>>,
    t: Seq<i8>,
)
    requires
        first.kernel == second.kernel,
        first.max_scans == second.max_scans,
        first.model() == Some(trained(first.kernel, first.max_scans, x, t).0),
        second.model() == Some(trained(second.kernel, second.max_scans, x, t).0),
    ensures
        first.model() == second.model(),
{
}

/// The extracted model decides as the optimizer does: it can be evaluated at
/// every `x` of the samples' dimension, and its decision value there is the
/// decision value over the support, under the state's bias.
pub proof fn lemma_extracted_decision<T: Float>(p: Problem<T>, st: State<T>, x: Seq<T>)
    requires
        p.wf(),
        p.admits(st),
        uniform(p.x, x.len()),
    ensures
        SVM::<T>::fits(extract(p, st), x),
        SVM::<T>::decision(p.kernel, extract(p, st), x) == decision_spec(
            p.signed(st.a),
            x,
            p.x,
            st.b,
            p.kernel,
            support_of(st.part),
        ),
{
    let index = support_of(st.part);
    lemma_support_of(st.part);
    assert(p.kernel.eval_multi_spec(x, gather(p.x, index)) =~= p.kernel.eval_indexed_spec(
        x,
        p.x,
        index,
    ));
    assert forall|k: int| 0 <= k < extract(p, st).support_vector.len() implies (
    #[trigger] extract(p, st).support_vector[k]).len() == x.len() by {
        assert(p.x[index[k] as int] == extract(p, st).support_vector[k]);
    }
}

/// A sample outside the bound set that meets its margin condition is
/// classified as it is labelled.
///
/// `val` reads scalars as real numbers. It is asked to read this sample's
/// margin exactly: the label as the number it is, the margin as the product
/// of label and decision value, and the comparisons of the margin with one
/// minus the tolerance and of the decision value with zero as those of the
/// numbers, where one minus the tolerance is read as a positive number.
pub proof fn lemma_margin_classifies<T: Float>(
    val: spec_fn(T) -> real,
    p: Problem<T>,
    st: State<T>,
    i: int,
    label: i8,
)
    requires
        p.wf(),
        p.admits(st),
        0 <= i < p.t.len(),
        st.part[i] != Partition::Bound,
        meets_margin(p, st, i),
        label == 1 || label == -1,
        val(p.t[i]) == label as real,
        ({
            let f = p.output(st.b, p.signed(st.a), support_of(st.part), i);
            let margin = p.t[i].mul_spec(f);
            let low = T::one_spec().sub_spec(p.tolerance);
            &&& val(margin) == val(p.t[i]) * val(f)
            &&& 0real < val(low)
            &&& low.le_spec(margin) ==> val(low) <= val(margin)
            &&& T::zero_spec().le_spec(f) <==> 0real <= val(f)
        }),
    ensures
        SVM::<T>::class_of(p.output(st.b, p.signed(st.a), support_of(st.part), i)) == label,
{
    let f = p.output(st.b, p.signed(st.a), support_of(st.part), i);
    let margin = p.t[i].mul_spec(f);
    let low = T::one_spec().sub_spec(p.tolerance);
    assert(low.le_spec(margin));
    let t = val(p.t[i]);
    let y = val(f);
    assert(0real < t * y);
    assert((t == 1real ==> 0real <= y) && (t == -1real ==> !(0real <= y))) by (nonlinear_arith)
        requires
            0real < t * y,
            t == 1real || t == -1real,
    ;
}

/// A trained model can be evaluated at every training sample, and its decision
/// value there is the one that the optimizer's last state gives the sample.
pub proof fn lemma_trained_decides_by_state<T: Float>(
    kernel: Kernel<T>,
    max_scans: usize,
    x: Seq<Seq<T>>,
    t: Seq<i8>,
    i: int,
)
    requires
        x.len() == t.len(),
        t.len() <= usize::MAX,
        rectangular(x),
        0 <= i < x.len(),
    ensures
        ({
            let p = training_problem(kernel, x, t);
            let st = p.fit_spec(p.initial(), max_scans as nat).0;
            let m = trained(kernel, max_scans, x, t).0;
            &&& SVM::<T>::fits(m, x[i])
            &&& SVM::<T>::decision(kernel, m, x[i]) == p.output(
                st.b,
                p.signed(st.a),
                support_of(st.part),
                i,
            )
        }),
{
    let p = training_problem(kernel, x, t);
    let st = p.fit_spec(p.initial(), max_scans as nat).0;
    lemma_initial(p);
    lemma_fit_admits(p, p.initial(), max_scans as nat);
    assert(x[i].len() == x[0].len());
    lemma_extracted_decision(p, st, x[i]);
}

} // verus!
