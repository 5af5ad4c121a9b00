//! The mathematical model of sequential minimal optimization: the problem, the
//! optimizer's state, and the transition that one scan makes.
use vstd::prelude::*;
use crate::decision::{decision_spec, objective_spec, rectangular};
use crate::float::{hadamard_spec, max_spec, min_spec, sum_spec, Float};
use crate::kernel::Kernel;

verus! {

/// The set that a sample belongs to, by the value of its dual coefficient.
#[derive(Clone, Copy, PartialEq, Eq, Debug, Structural)]
pub enum Partition {
    /// The coefficient is zero, up to the tolerance.
    Zero,
    /// The coefficient is between the bounds, away from both.
    Free,
    /// The coefficient is the regularization constant, up to the tolerance.
    Bound,
}

/// The samples of `part` that carry `tag`, in ascending order.
pub open spec fn indices_of(part: Seq<Partition>, tag: Partition) -> Seq<usize>
    decreases part.len(),
{
    if part.len() == 0 {
        Seq::empty()
    } else {
        let rest = indices_of(part.drop_last(), tag);
        if part.last() == tag {
            rest.push((part.len() - 1) as usize)
        } else {
            rest
        }
    }
}

/// The samples with a nonzero coefficient: the free ones, then the bound ones.
pub open spec fn support_of(part: Seq<Partition>) -> Seq<usize> {
    indices_of(part, Partition::Free) + indices_of(part, Partition::Bound)
}

/// The order in which one scan examines the samples: free, zero, bound.
pub open spec fn scan_order(part: Seq<Partition>) -> Seq<usize> {
    indices_of(part, Partition::Free) + indices_of(part, Partition::Zero) + indices_of(
        part,
        Partition::Bound,
    )
}

/// What a training run does not change: the samples, their labels as scalars,
/// the regularization constant, the kernel and the tolerance.
#[verifier::ext_equal]
pub struct Problem<T: Float> {
    pub x: Seq<Seq<T>>,
    pub t: Seq<T>,
    pub c: T,
    pub kernel: Kernel<T>,
    pub tolerance: T,
}

/// What a training run changes: the dual coefficients, the set of each sample,
/// and the bias.
#[verifier::ext_equal]
pub struct State<T: Float> {
    pub a: Seq<T>,
    pub part: Seq<Partition>,
    pub b: T,
}

impl<T: Float> Problem<T> {
    /// There is one label per sample, all samples have one dimension, and
    /// their number fits a machine word.
    pub open spec fn wf(self) -> bool {
        self.x.len() == self.t.len() && rectangular(self.x) && self.t.len() <= usize::MAX
    }

    /// `st` has one coefficient and one set per sample.
    pub open spec fn admits(self, st: State<T>) -> bool {
        st.a.len() == self.t.len() && st.part.len() == self.t.len()
    }

    /// The state before the first step: every coefficient zero, every sample in
    /// the zero set, the bias zero.
    pub open spec fn initial(self) -> State<T> {
        State {
            a: Seq::new(self.t.len(), |i: int| T::zero_spec()),
            part: Seq::new(self.t.len(), |i: int| Partition::Zero),
            b: T::zero_spec(),
        }
    }

    /// The signed coefficients `a[i] * t[i]`.
    pub open spec fn signed(self, a: Seq<T>) -> Seq<T> {
        hadamard_spec(a, self.t)
    }

    /// The decision value of sample `i` under bias `b`, over the samples of `index`.
    pub open spec fn output(self, b: T, at: Seq<T>, index: Seq<usize>, i: int) -> T {
        decision_spec(at, self.x[i], self.x, b, self.kernel, index)
    }

    /// `0 <= v <= C`.
    pub open spec fn within_box(self, v: T) -> bool {
        T::zero_spec().le_spec(v) && v.le_spec(self.c)
    }

    /// Every coefficient of `a` lies in `[0, C]`.
    pub open spec fn feasible(self, a: Seq<T>) -> bool {
        forall|i: int| 0 <= i < a.len() ==> self.within_box(#[trigger] a[i])
    }

    /// `v` clipped to `[0, C]`.
    pub open spec fn clip(self, v: T) -> T {
        if v.lt_spec(T::zero_spec()) {
            T::zero_spec()
        } else if self.c.lt_spec(v) {
            self.c
        } else {
            v
        }
    }

    /// The set of a sample whose coefficient is `v`: zero below the tolerance,
    /// free while `v` plus the tolerance does not exceed `C`, else bound.
    pub open spec fn classify(self, v: T) -> Partition {
        if v.lt_spec(self.tolerance) {
            Partition::Zero
        } else if v.add_spec(self.tolerance).le_spec(self.c) {
            Partition::Free
        } else {
            Partition::Bound
        }
    }

    /// The interval of a step before it is cut to the box: from `a2 - a1` to
    /// `C - a2 + a1` when the product `s` of the two labels is negative, else
    /// from `a1 + a2 - C` to `a1 + a2`.
    pub open spec fn span(self, a1: T, a2: T, s: T) -> (T, T) {
        if s.lt_spec(T::zero_spec()) {
            (a2.sub_spec(a1), self.c.sub_spec(a2).add_spec(a1))
        } else {
            (a1.add_spec(a2).sub_spec(self.c), a1.add_spec(a2))
        }
    }

    /// The ends `(L, H)` of the interval for the new second coefficient, from
    /// the old coefficients `a1`, `a2` and the product `s` of the two labels:
    /// the span, its lower end raised to zero and its upper end lowered to `C`.
    pub open spec fn bounds(self, a1: T, a2: T, s: T) -> (T, T) {
        let (low, high) = self.span(a1, a2, s);
        (max_spec(T::zero_spec(), low), min_spec(self.c, high))
    }

    /// The curvature `K(x1, x1) + K(x2, x2) - (K(x1, x2) + K(x1, x2))` of the
    /// objective along the line of a step.
    pub open spec fn curvature(self, i1: int, i2: int) -> T {
        let k11 = self.kernel.eval_spec(self.x[i1], self.x[i1]);
        let k12 = self.kernel.eval_spec(self.x[i1], self.x[i2]);
        let k22 = self.kernel.eval_spec(self.x[i2], self.x[i2]);
        k11.add_spec(k22).sub_spec(k12.add_spec(k12))
    }

    /// The optimum of the objective along the line of a step, for the second
    /// coefficient: `a2 + t2 * (e1 - e2) / eta`, with the errors
    /// `e = f(x) - t` of the two samples and the curvature `eta`.
    pub open spec fn optimum(
        self,
        st: State<T>,
        i1: int,
        i2: int,
        y2: T,
        at: Seq<T>,
        index: Seq<usize>,
    ) -> T {
        let e1 = self.output(st.b, at, index, i1).sub_spec(self.t[i1]);
        let e2 = y2.sub_spec(self.t[i2]);
        st.a[i2].add_spec(
            self.t[i2].mul_spec(e1.sub_spec(e2)).div_spec(self.curvature(i1, i2)),
        )
    }

    /// The new second coefficient of a step within `[l, h]`.
    ///
    /// With positive curvature it is the optimum clipped to the interval.
    /// Otherwise it is the end of the interval whose restricted objective
    /// exceeds the other's by more than the tolerance, and the old
    /// coefficient when neither does.
    pub open spec fn second(
        self,
        st: State<T>,
        i1: int,
        i2: int,
        y2: T,
        at: Seq<T>,
        index: Seq<usize>,
        l: T,
        h: T,
    ) -> T {
        if T::zero_spec().lt_spec(self.curvature(i1, i2)) {
            min_spec(max_spec(self.optimum(st, i1, i2, y2, at, index), l), h)
        } else {
            let lobj = objective_spec(st.a.update(i2, l), self.t, self.x, self.kernel, index);
            let hobj = objective_spec(st.a.update(i2, h), self.t, self.x, self.kernel, index);
            if lobj.lt_spec(hobj.sub_spec(self.tolerance)) {
                h
            } else if hobj.add_spec(self.tolerance).lt_spec(lobj) {
                l
            } else {
                st.a[i2]
            }
        }
    }

    /// Where a step moves the first coefficient, before clipping:
    /// `a1 + s * (a2 - a2_new)`.
    pub open spec fn moved(a1: T, a2: T, a2_new: T, s: T) -> T {
        a1.add_spec(s.mul_spec(a2.sub_spec(a2_new)))
    }

    /// The change from `old` to `new` is below the relative tolerance.
    pub open spec fn negligible(self, new: T, old: T) -> bool {
        new.sub_spec(old).abs_spec().lt_spec(
            self.tolerance.mul_spec(new.add_spec(old).add_spec(self.tolerance)),
        )
    }

    /// The residuals `t[n] - f0(x[n])` of the samples of `index`, where `f0` is
    /// the decision value without bias, restricted to `index`.
    pub open spec fn residuals(self, at: Seq<T>, index: Seq<usize>) -> Seq<T> {
        Seq::new(
            index.len(),
            |k: int|
                self.t[index[k] as int].sub_spec(
                    self.output(T::zero_spec(), at, index, index[k] as int),
                ),
        )
    }

    /// The bias for coefficients `a` and sets `part`: the mean residual over the
    /// support, and `b` unchanged when the support is empty.
    pub open spec fn bias(self, a: Seq<T>, part: Seq<Partition>, b: T) -> T {
        let index = support_of(part);
        if index.len() == 0 {
            b
        } else {
            sum_spec(self.residuals(self.signed(a), index)).div_spec(
                T::from_usize_spec(index.len() as usize),
            )
        }
    }

    /// The two-variable step on samples `i1` and `i2`: the state after it, or
    /// `None` when the step is rejected and the state stays as it is.
    ///
    /// `y2` is the decision value of `i2`; `at` and `index` are the signed
    /// coefficients and the support that the decision values are taken over.
    pub open spec fn step_spec(
        self,
        st: State<T>,
        i1: int,
        i2: int,
        y2: T,
        at: Seq<T>,
        index: Seq<usize>,
    ) -> Option<State<T>> {
        if i1 == i2 {
            None
        } else {
            let a1 = st.a[i1];
            let a2 = st.a[i2];
            let s = self.t[i1].mul_spec(self.t[i2]);
            let (l, h) = self.bounds(a1, a2, s);
            if h.le_spec(l) {
                None
            } else {
                let a2_new = self.second(st, i1, i2, y2, at, index, l, h);
                if self.negligible(a2_new, a2) {
                    None
                } else {
                    let a1_new = self.clip(Self::moved(a1, a2, a2_new, s));
                    let a = st.a.update(i2, a2_new).update(i1, a1_new);
                    let part = st.part.update(i1, self.classify(a1_new)).update(
                        i2,
                        self.classify(a2_new),
                    );
                    Some(State { a, part, b: self.bias(a, part, st.b) })
                }
            }
        }
    }

    /// The partner with the most extreme error among the samples below `k`,
    /// `i2` left out, with that error: the least error when the error `e2` of
    /// `i2` is positive, the greatest otherwise. Before any sample is taken the
    /// partner is sample 0 and the error is infinite.
    pub open spec fn extreme_partner(
        self,
        b: T,
        i2: int,
        e2: T,
        at: Seq<T>,
        index: Seq<usize>,
        k: nat,
    ) -> (usize, T)
        decreases k,
    {
        let zero = T::zero_spec();
        if k == 0 {
            (
                0usize,
                if zero.lt_spec(e2) {
                    T::infinity_spec()
                } else {
                    T::neg_infinity_spec()
                },
            )
        } else {
            let (i1, e1) = self.extreme_partner(b, i2, e2, at, index, (k - 1) as nat);
            let j = k - 1;
            if j == i2 {
                (i1, e1)
            } else {
                let e = self.output(b, at, index, j).sub_spec(self.t[j]);
                if (e.lt_spec(e1) && zero.lt_spec(e2)) || (e1.lt_spec(e) && e2.le_spec(zero)) {
                    (j as usize, e)
                } else {
                    (i1, e1)
                }
            }
        }
    }

    /// The partners that are tried for `i2`, in order: the one with the most
    /// extreme error, then the free samples, then the zero and the bound ones.
    pub open spec fn partners(
        self,
        st: State<T>,
        i2: int,
        y2: T,
        t2: T,
        at: Seq<T>,
        index: Seq<usize>,
    ) -> Seq<usize> {
        let e2 = y2.sub_spec(t2);
        seq![self.extreme_partner(st.b, i2, e2, at, index, self.t.len()).0] + indices_of(
            st.part,
            Partition::Free,
        ) + indices_of(st.part, Partition::Zero) + indices_of(st.part, Partition::Bound)
    }

    /// The state after the first step of `i2` with a partner of `cands` that is
    /// not rejected, or `None` when every one is.
    pub open spec fn first_step(
        self,
        st: State<T>,
        cands: Seq<usize>,
        i2: int,
        y2: T,
        at: Seq<T>,
        index: Seq<usize>,
    ) -> Option<State<T>>
        decreases cands.len(),
    {
        if cands.len() == 0 {
            None
        } else {
            match self.first_step(st, cands.drop_last(), i2, y2, at, index) {
                Some(s) => Some(s),
                None => self.step_spec(st, cands.last() as int, i2, y2, at, index),
            }
        }
    }

    /// The attempt to make progress on the violating sample `i2`.
    pub open spec fn example_spec(
        self,
        st: State<T>,
        i2: int,
        y2: T,
        t2: T,
        at: Seq<T>,
        index: Seq<usize>,
    ) -> Option<State<T>> {
        self.first_step(st, self.partners(st, i2, y2, t2, at, index), i2, y2, at, index)
    }

    /// Sample `i` violates the optimality condition of its set: a free sample
    /// when its margin `t * f(x)` is farther than the tolerance from one, a zero
    /// sample when its margin is below one, a bound sample when it is above one.
    pub open spec fn violates(self, st: State<T>, at: Seq<T>, index: Seq<usize>, i: int) -> bool {
        let one = T::one_spec();
        let margin = self.t[i].mul_spec(self.output(st.b, at, index, i));
        match st.part[i] {
            Partition::Free => one.add_spec(self.tolerance).lt_spec(margin) || margin.lt_spec(
                one.sub_spec(self.tolerance),
            ),
            Partition::Zero => margin.lt_spec(one),
            Partition::Bound => one.lt_spec(margin),
        }
    }

    /// What examining sample `i` yields: the state after a step, if `i`
    /// violates its condition and some partner admits one.
    pub open spec fn visit(self, st: State<T>, at: Seq<T>, index: Seq<usize>, i: int) -> Option<
        State<T>,
    > {
        if self.violates(st, at, index, i) {
            self.example_spec(st, i, self.output(st.b, at, index, i), self.t[i], at, index)
        } else {
            None
        }
    }

    /// The state after the first successful visit among the samples of
    /// `order`, or `None` when no visit succeeds.
    pub open spec fn scan(self, st: State<T>, at: Seq<T>, index: Seq<usize>, order: Seq<usize>) -> Option<
        State<T>,
    >
        decreases order.len(),
    {
        if order.len() == 0 {
            None
        } else {
            match self.scan(st, at, index, order.drop_last()) {
                Some(s) => Some(s),
                None => self.visit(st, at, index, order.last() as int),
            }
        }
    }

    /// One scan over all samples: the state after its first successful step,
    /// or `None` at a fixpoint.
    pub open spec fn examine_spec(self, st: State<T>) -> Option<State<T>> {
        self.scan(st, self.signed(st.a), support_of(st.part), scan_order(st.part))
    }

    /// The state after scanning until a fixpoint, at most `budget` times, and
    /// whether the fixpoint was reached within that many scans.
    pub open spec fn fit_spec(self, st: State<T>, budget: nat) -> (State<T>, bool)
        decreases budget,
    {
        if budget == 0 {
            (st, false)
        } else {
            match self.examine_spec(st) {
                None => (st, true),
                Some(next) => self.fit_spec(next, (budget - 1) as nat),
            }
        }
    }
}

} // verus!
