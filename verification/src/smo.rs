//! The optimizer: dual coefficients, the three sets of samples, and the bias,
//! driven to a fixpoint by two-variable steps.
use vstd::prelude::*;
use crate::decision::{def_func_indexed, obj_func_indexed, rectangular};
use crate::float::{hadamard, max, min, sum_spec, Float};
use crate::kernel::{gather, in_range, rows, Kernel};
use crate::model::{indices_of, scan_order, support_of, Partition, Problem, State};

verus! {

/// The labels of `t` as scalars.
pub open spec fn labels_spec<T: Float>(t: Seq<i8>) -> Seq<T> {
    Seq::new(t.len(), |i: int| T::from_i32_spec(t[i] as i32))
}

/// The indices that carry a tag are indices of the sequence, and carry the tag.
pub proof fn lemma_indices_of(part: Seq<Partition>, tag: Partition)
    requires
        part.len() <= usize::MAX,
    ensures
        indices_of(part, tag).len() <= part.len(),
        in_range(indices_of(part, tag), part.len()),
        forall|j: int|
            0 <= j < indices_of(part, tag).len() ==> part[(#[trigger] indices_of(part, tag)[j]) as int]
                == tag,
    decreases part.len(),
{
    if part.len() > 0 {
        lemma_indices_of(part.drop_last(), tag);
    }
}

/// The support consists of indices of the sequence.
pub proof fn lemma_support_of(part: Seq<Partition>)
    requires
        part.len() <= usize::MAX,
    ensures
        support_of(part).len() <= 2 * part.len(),
        in_range(support_of(part), part.len()),
{
    lemma_indices_of(part, Partition::Free);
    lemma_indices_of(part, Partition::Bound);
}

/// Trying the partners of `pre` and then those of `suf` is trying those of
/// `pre + suf`.
pub proof fn lemma_first_step_concat<T: Float>(
    p: Problem<T>,
    st: State<T>,
    pre: Seq<usize>,
    suf: Seq<usize>,
    i2: int,
    y2: T,
    at: Seq<T>,
    index: Seq<usize>,
)
    ensures
        p.first_step(st, pre + suf, i2, y2, at, index) == (match p.first_step(
            st,
            pre,
            i2,
            y2,
            at,
            index,
        ) {
            Some(next) => Some(next),
            None => p.first_step(st, suf, i2, y2, at, index),
        }),
    decreases suf.len(),
{
    if suf.len() == 0 {
        assert(pre + suf =~= pre);
    } else {
        assert((pre + suf).drop_last() =~= pre + suf.drop_last());
        lemma_first_step_concat(p, st, pre, suf.drop_last(), i2, y2, at, index);
    }
}

/// Scanning the samples of `pre` and then those of `suf` is scanning those of
/// `pre + suf`.
pub proof fn lemma_scan_concat<T: Float>(
    p: Problem<T>,
    st: State<T>,
    at: Seq<T>,
    index: Seq<usize>,
    pre: Seq<usize>,
    suf: Seq<usize>,
)
    ensures
        p.scan(st, at, index, pre + suf) == (match p.scan(st, at, index, pre) {
            Some(next) => Some(next),
            None => p.scan(st, at, index, suf),
        }),
    decreases suf.len(),
{
    if suf.len() == 0 {
        assert(pre + suf =~= pre);
    } else {
        assert((pre + suf).drop_last() =~= pre + suf.drop_last());
        lemma_scan_concat(p, st, at, index, pre, suf.drop_last());
    }
}

/// A copy of `v`.
fn duplicate<T: Float>(v: &Vec<T>) -> (r: Vec<T>)
    ensures
        r@ == v@,
{
    let mut out: Vec<T> = Vec::with_capacity(v.len());
    let mut i: usize = 0;
    while i < v.len()
        invariant
            i <= v.len(),
            out@ == v@.take(i as int),
        decreases v.len() - i,
    {
        out.push(v[i]);
        i += 1;
        assert(out@ =~= v@.take(i as int));
    }
    assert(v@.take(v.len() as int) =~= v@);
    out
}

/// The state of sequential minimal optimization over one training set.
pub struct SMO<'a, T: Float> {
    /// The dual coefficient of each sample.
    pub a: Vec<T>,
    /// The set of each sample.
    pub part: Vec<Partition>,
    /// The feature vector of each sample.
    pub x: &'a Vec<Vec<T>>,
    /// The label of each sample, as a scalar.
    pub t: Vec<T>,
    /// The bias.
    pub b: T,
    /// The regularization constant, the upper bound of every coefficient.
    pub c: T,
    /// The kernel.
    pub kernel: Kernel<T>,
    /// The numerical tolerance.
    pub tolerance: T,
}

impl<'a, T: Float> SMO<'a, T> {
    /// What the optimizer does not change.
    pub open spec fn problem(&self) -> Problem<T> {
        Problem {
            x: rows(self.x@),
            t: self.t@,
            c: self.c,
            kernel: self.kernel,
            tolerance: self.tolerance,
        }
    }

    /// What the optimizer changes.
    pub open spec fn state(&self) -> State<T> {
        State { a: self.a@, part: self.part@, b: self.b }
    }

    /// There is one label, one coefficient and one set per sample, and all
    /// samples have one dimension.
    pub open spec fn wf(&self) -> bool {
        self.problem().wf() && self.problem().admits(self.state())
    }

    /// The optimizer before its first step: every coefficient zero, every
    /// sample in the zero set, the bias zero.
    pub fn new(x: &'a Vec<Vec<T>>, t: &Vec<i8>, c: T, kernel: Kernel<T>, tolerance: T) -> (smo: Self)
        requires
            x@.len() == t@.len(),
            rectangular(rows(x@)),
        ensures
            smo.wf(),
            smo.x == x,
            smo.problem() == (Problem {
                x: rows(x@),
                t: labels_spec::<T>(t@),
                c,
                kernel,
                tolerance,
            }),
            smo.state() == smo.problem().initial(),
    {
        let n = t.len();
        let zero = T::zero();
        let mut labels: Vec<T> = Vec::with_capacity(n);
        let mut a: Vec<T> = Vec::with_capacity(n);
        let mut part: Vec<Partition> = Vec::with_capacity(n);
        let mut i: usize = 0;
        while i < n
            invariant
                i <= n,
                n == t@.len(),
                zero == T::zero_spec(),
                labels@ == labels_spec::<T>(t@).take(i as int),
                a@ == Seq::new(i as nat, |k: int| T::zero_spec()),
                part@ == Seq::new(i as nat, |k: int| Partition::Zero),
            decreases n - i,
        {
            labels.push(T::from_i32(t[i] as i32));
            a.push(zero);
            part.push(Partition::Zero);
            i += 1;
            assert(labels@ =~= labels_spec::<T>(t@).take(i as int));
            assert(a@ =~= Seq::new(i as nat, |k: int| T::zero_spec()));
            assert(part@ =~= Seq::new(i as nat, |k: int| Partition::Zero));
        }
        assert(labels_spec::<T>(t@).take(n as int) =~= labels_spec::<T>(t@));
        let smo = SMO { a, part, x, t: labels, b: zero, c, kernel, tolerance };
        assert(smo.state() =~= smo.problem().initial());
        smo
    }

    /// The samples of one set, in ascending order.
    pub fn indices(&self, tag: Partition) -> (r: Vec<usize>)
        ensures
            r@ == indices_of(self.part@, tag),
    {
        let mut out: Vec<usize> = Vec::new();
        let mut i: usize = 0;
        while i < self.part.len()
            invariant
                i <= self.part.len(),
                out@ == indices_of(self.part@.take(i as int), tag),
            decreases self.part.len() - i,
        {
            assert(self.part@.take(i + 1).drop_last() =~= self.part@.take(i as int));
            if self.part[i] == tag {
                out.push(i);
            }
            i += 1;
        }
        assert(self.part@.take(self.part.len() as int) =~= self.part@);
        out
    }

    /// The samples with a nonzero coefficient: the free ones, then the bound
    /// ones, each in ascending order.
    pub fn support(&self) -> (r: Vec<usize>)
        ensures
            r@ == support_of(self.part@),
    {
        let mut out = self.indices(Partition::Free);
        let bound = self.indices(Partition::Bound);
        let ghost free = out@;
        let mut j: usize = 0;
        while j < bound.len()
            invariant
                j <= bound.len(),
                out@ == free + bound@.take(j as int),
            decreases bound.len() - j,
        {
            out.push(bound[j]);
            j += 1;
            assert(out@ =~= free + bound@.take(j as int));
        }
        assert(bound@.take(bound.len() as int) =~= bound@);
        out
    }

    /// Recomputes the bias as the mean residual over the support. With an
    /// empty support the bias stays as it is.
    pub fn update_b(&mut self)
        requires
            old(self).wf(),
        ensures
            final(self).wf(),
            final(self).x == old(self).x,
            final(self).problem() == old(self).problem(),
            final(self).a == old(self).a,
            final(self).part == old(self).part,
            final(self).b == old(self).problem().bias(old(self).a@, old(self).part@, old(self).b),
    {
        let at = hadamard(&self.a, &self.t);
        let s = self.support();
        let nm = s.len();
        if nm == 0 {
            return ;
        }
        proof {
            lemma_support_of(self.part@);
        }
        let ghost p = self.problem();
        let ghost res = p.residuals(at@, s@);
        let zero = T::zero();
        let mut acc = T::zero();
        let mut k: usize = 0;
        while k < nm
            invariant
                k <= nm,
                nm == s@.len(),
                self.wf(),
                p == self.problem(),
                at@.len() == self.t@.len(),
                in_range(s@, self.t@.len()),
                zero == T::zero_spec(),
                res == p.residuals(at@, s@),
                acc == sum_spec(res.take(k as int)),
            decreases nm - k,
        {
            let n = s[k];
            assert(rows(self.x@)[n as int] == self.x@[n as int]@);
            assert(rows(self.x@)[0].len() == self.x@[n as int]@.len());
            let y = def_func_indexed(&at, &self.x[n], self.x, zero, self.kernel, &s);
            assert(res.take(k + 1).drop_last() =~= res.take(k as int));
            acc = acc.add(self.t[n].sub(y));
            k += 1;
        }
        assert(res.take(nm as int) =~= res);
        self.b = acc.div(T::from_usize(nm));
    }

    /// The set of a sample whose coefficient is `v`.
    fn classify(&self, v: T) -> (tag: Partition)
        ensures
            tag == self.problem().classify(v),
    {
        if v.lt(self.tolerance) {
            Partition::Zero
        } else if v.add(self.tolerance).le(self.c) {
            Partition::Free
        } else {
            Partition::Bound
        }
    }

    /// The new second coefficient of a step on `i1` and `i2` within `[l, h]`.
    fn second(&self, i1: usize, i2: usize, y2: T, at: &Vec<T>, index: &Vec<usize>, l: T, h: T) -> (a2_new: T)
        requires
            self.wf(),
            i1 < self.t@.len(),
            i2 < self.t@.len(),
            at@.len() == self.t@.len(),
            in_range(index@, self.t@.len()),
        ensures
            a2_new == self.problem().second(
                self.state(),
                i1 as int,
                i2 as int,
                y2,
                at@,
                index@,
                l,
                h,
            ),
    {
        let x1 = &self.x[i1];
        let x2 = &self.x[i2];
        assert(rows(self.x@)[i1 as int] == x1@ && rows(self.x@)[i2 as int] == x2@);
        assert(rows(self.x@)[0].len() == x1@.len() && rows(self.x@)[0].len() == x2@.len());
        let k11 = self.kernel.eval(x1, x1);
        let k12 = self.kernel.eval(x1, x2);
        let k22 = self.kernel.eval(x2, x2);
        let eta = k11.add(k22).sub(k12.add(k12));
        let a2 = self.a[i2];
        if T::zero().lt(eta) {
            let y1 = def_func_indexed(at, x1, self.x, self.b, self.kernel, index);
            let e1 = y1.sub(self.t[i1]);
            let e2 = y2.sub(self.t[i2]);
            min(max(a2.add(self.t[i2].mul(e1.sub(e2)).div(eta)), l), h)
        } else {
            let mut trial = duplicate(&self.a);
            trial.set(i2, l);
            let lobj = obj_func_indexed(&trial, &self.t, self.x, self.kernel, index);
            trial.set(i2, h);
            assert(trial@ =~= self.a@.update(i2 as int, h));
            let hobj = obj_func_indexed(&trial, &self.t, self.x, self.kernel, index);
            if lobj.lt(hobj.sub(self.tolerance)) {
                h
            } else if hobj.add(self.tolerance).lt(lobj) {
                l
            } else {
                a2
            }
        }
    }

    /// The two-variable step on the samples `i1` and `i2`.
    ///
    /// Moves the coefficient of `i2` to the optimum of the objective along the
    /// line that keeps the weighted sum of the two coefficients, within the
    /// box, moves the coefficient of `i1` with it, puts both samples into the
    /// sets of their new coefficients and recomputes the bias. Returns `false`,
    /// with nothing changed, when the two samples are one, when the box leaves
    /// no room, or when the change would be below the tolerance.
    ///
    /// `y2` is taken as the decision value of `i2`; `at` and `index` as the
    /// signed coefficients and the support over which decision values and
    /// objectives are computed.
    pub fn step(&mut self, i1: usize, i2: usize, y2: T, at: &Vec<T>, index: &Vec<usize>) -> (moved:
        bool)
        requires
            old(self).wf(),
            i1 < old(self).t@.len(),
            i2 < old(self).t@.len(),
            at@.len() == old(self).t@.len(),
            in_range(index@, old(self).t@.len()),
        ensures
            final(self).wf(),
            final(self).x == old(self).x,
            final(self).problem() == old(self).problem(),
            moved == old(self).problem().step_spec(
                old(self).state(),
                i1 as int,
                i2 as int,
                y2,
                at@,
                index@,
            ) is Some,
            final(self).state() == (match old(self).problem().step_spec(
                old(self).state(),
                i1 as int,
                i2 as int,
                y2,
                at@,
                index@,
            ) {
                Some(next) => next,
                None => old(self).state(),
            }),
    {
        if i1 == i2 {
            return false;
        }
        let a1 = self.a[i1];
        let a2 = self.a[i2];
        let s = self.t[i1].mul(self.t[i2]);
        let zero = T::zero();
        let (l, h) = if s.lt(zero) {
            (max(zero, a2.sub(a1)), min(self.c, self.c.sub(a2).add(a1)))
        } else {
            (max(zero, a1.add(a2).sub(self.c)), min(self.c, a1.add(a2)))
        };
        if h.le(l) {
            return false;
        }
        let a2_new = self.second(i1, i2, y2, at, index, l, h);
        if a2_new.sub(a2).abs().lt(self.tolerance.mul(a2_new.add(a2).add(self.tolerance))) {
            return false;
        }
        let moved_to = a1.add(s.mul(a2.sub(a2_new)));
        let a1_new = if moved_to.lt(zero) {
            zero
        } else if self.c.lt(moved_to) {
            self.c
        } else {
            moved_to
        };
        let tag1 = self.classify(a1_new);
        let tag2 = self.classify(a2_new);
        self.a.set(i2, a2_new);
        self.a.set(i1, a1_new);
        self.part.set(i1, tag1);
        self.part.set(i2, tag2);
        self.update_b();
        proof {
            let next = old(self).problem().step_spec(
                old(self).state(),
                i1 as int,
                i2 as int,
                y2,
                at@,
                index@,
            );
            assert(next is Some);
            assert(self.state() =~= next->0);
        }
        true
    }

    /// Tries a step of `i2` with each partner of `cands` in turn, until one
    /// is not rejected.
    fn try_partners(&mut self, cands: &Vec<usize>, i2: usize, y2: T, at: &Vec<T>, index: &Vec<usize>) -> (moved: bool)
        requires
            old(self).wf(),
            in_range(cands@, old(self).t@.len()),
            i2 < old(self).t@.len(),
            at@.len() == old(self).t@.len(),
            in_range(index@, old(self).t@.len()),
        ensures
            final(self).wf(),
            final(self).x == old(self).x,
            final(self).problem() == old(self).problem(),
            moved == old(self).problem().first_step(
                old(self).state(),
                cands@,
                i2 as int,
                y2,
                at@,
                index@,
            ) is Some,
            final(self).state() == (match old(self).problem().first_step(
                old(self).state(),
                cands@,
                i2 as int,
                y2,
                at@,
                index@,
            ) {
                Some(next) => next,
                None => old(self).state(),
            }),
    {
        let ghost p = self.problem();
        let ghost st = self.state();
        let mut j: usize = 0;
        while j < cands.len()
            invariant
                j <= cands.len(),
                self.wf(),
                self.x == old(self).x,
                self.problem() == p,
                self.state() == st,
                p == old(self).problem(),
                st == old(self).state(),
                in_range(cands@, self.t@.len()),
                i2 < self.t@.len(),
                at@.len() == self.t@.len(),
                in_range(index@, self.t@.len()),
                p.first_step(st, cands@.take(j as int), i2 as int, y2, at@, index@) is None,
            decreases cands.len() - j,
        {
            assert(cands@.take(j + 1).drop_last() =~= cands@.take(j as int));
            if self.step(cands[j], i2, y2, at, index) {
                proof {
                    assert(cands@ =~= cands@.take(j + 1) + cands@.skip(j + 1));
                    lemma_first_step_concat(
                        p,
                        st,
                        cands@.take(j + 1),
                        cands@.skip(j + 1),
                        i2 as int,
                        y2,
                        at@,
                        index@,
                    );
                }
                return true;
            }
            j += 1;
        }
        assert(cands@.take(cands.len() as int) =~= cands@);
        false
    }

    /// Tries to make progress on the violating sample `i2`, whose decision
    /// value is `y2` and whose label is `t2`.
    ///
    /// The first partner is the sample whose error is most extreme in the
    /// direction opposite to the error of `i2`. If that step is rejected, the
    /// free samples are tried in ascending order, then the zero and the bound
    /// ones. Returns `true` at the first step that is not rejected, and `false`
    /// with nothing changed when every partner is.
    pub fn example(&mut self, i2: usize, y2: T, t2: T, at: &Vec<T>, index: &Vec<usize>) -> (moved:
        bool)
        requires
            old(self).wf(),
            i2 < old(self).t@.len(),
            at@.len() == old(self).t@.len(),
            in_range(index@, old(self).t@.len()),
        ensures
            final(self).wf(),
            final(self).x == old(self).x,
            final(self).problem() == old(self).problem(),
            moved == old(self).problem().example_spec(
                old(self).state(),
                i2 as int,
                y2,
                t2,
                at@,
                index@,
            ) is Some,
            final(self).state() == (match old(self).problem().example_spec(
                old(self).state(),
                i2 as int,
                y2,
                t2,
                at@,
                index@,
            ) {
                Some(next) => next,
                None => old(self).state(),
            }),
    {
        let ghost p = self.problem();
        let ghost st = self.state();
        let n = self.t.len();
        let zero = T::zero();
        let e2 = y2.sub(t2);
        let mut i1: usize = 0;
        let mut e1 = if zero.lt(e2) {
            T::infinity()
        } else {
            T::neg_infinity()
        };
        let mut k: usize = 0;
        while k < n
            invariant
                k <= n,
                n == self.t@.len(),
                self.wf(),
                self.x == old(self).x,
                self.problem() == p,
                self.state() == st,
                p == old(self).problem(),
                st == old(self).state(),
                i2 < n,
                i1 < n,
                at@.len() == n,
                in_range(index@, n as nat),
                zero == T::zero_spec(),
                (i1, e1) == p.extreme_partner(st.b, i2 as int, e2, at@, index@, k as nat),
            decreases n - k,
        {
            if k != i2 {
                assert(rows(self.x@)[k as int] == self.x@[k as int]@);
                assert(rows(self.x@)[0].len() == self.x@[k as int]@.len());
                let y1 = def_func_indexed(at, &self.x[k], self.x, self.b, self.kernel, index);
                let e = y1.sub(self.t[k]);
                if (e.lt(e1) && zero.lt(e2)) || (e1.lt(e) && e2.le(zero)) {
                    e1 = e;
                    i1 = k;
                }
            }
            k += 1;
        }
        let free = self.indices(Partition::Free);
        let zeros = self.indices(Partition::Zero);
        let bound = self.indices(Partition::Bound);
        proof {
            lemma_indices_of(self.part@, Partition::Free);
            lemma_indices_of(self.part@, Partition::Zero);
            lemma_indices_of(self.part@, Partition::Bound);
            let first = seq![i1];
            assert(first.drop_last() =~= Seq::<usize>::empty());
            assert(p.first_step(st, first.drop_last(), i2 as int, y2, at@, index@) is None);
            assert(p.partners(st, i2 as int, y2, t2, at@, index@) == first + free@ + zeros@
                + bound@);
            lemma_first_step_concat(p, st, first + free@ + zeros@, bound@, i2 as int, y2, at@, index@);
            lemma_first_step_concat(p, st, first + free@, zeros@, i2 as int, y2, at@, index@);
            lemma_first_step_concat(p, st, first, free@, i2 as int, y2, at@, index@);
        }
        if self.step(i1, i2, y2, at, index) {
            return true;
        }
        if self.try_partners(&free, i2, y2, at, index) {
            return true;
        }
        if self.try_partners(&zeros, i2, y2, at, index) {
            return true;
        }
        self.try_partners(&bound, i2, y2, at, index)
    }

    /// Whether sample `i` violates the optimality condition of its set, given
    /// its decision value `y`.
    fn violates(&self, i: usize, y: T) -> (v: bool)
        requires
            i < self.part@.len(),
            i < self.t@.len(),
        ensures
            v == ({
                let one = T::one_spec();
                let margin = self.t@[i as int].mul_spec(y);
                match self.part@[i as int] {
                    Partition::Free => one.add_spec(self.tolerance).lt_spec(margin)
                        || margin.lt_spec(one.sub_spec(self.tolerance)),
                    Partition::Zero => margin.lt_spec(one),
                    Partition::Bound => one.lt_spec(margin),
                }
            }),
    {
        let one = T::one();
        let margin = self.t[i].mul(y);
        match self.part[i] {
            Partition::Free => one.add(self.tolerance).lt(margin) || margin.lt(
                one.sub(self.tolerance),
            ),
            Partition::Zero => margin.lt(one),
            Partition::Bound => one.lt(margin),
        }
    }

    /// Visits the samples of `order` in turn until a step succeeds.
    fn scan(&mut self, order: &Vec<usize>, at: &Vec<T>, index: &Vec<usize>) -> (moved: bool)
        requires
            old(self).wf(),
            in_range(order@, old(self).t@.len()),
            at@.len() == old(self).t@.len(),
            in_range(index@, old(self).t@.len()),
        ensures
            final(self).wf(),
            final(self).x == old(self).x,
            final(self).problem() == old(self).problem(),
            moved == old(self).problem().scan(old(self).state(), at@, index@, order@) is Some,
            final(self).state() == (match old(self).problem().scan(
                old(self).state(),
                at@,
                index@,
                order@,
            ) {
                Some(next) => next,
                None => old(self).state(),
            }),
    {
        let ghost p = self.problem();
        let ghost st = self.state();
        let mut j: usize = 0;
        while j < order.len()
            invariant
                j <= order.len(),
                self.wf(),
                self.x == old(self).x,
                self.problem() == p,
                self.state() == st,
                p == old(self).problem(),
                st == old(self).state(),
                in_range(order@, self.t@.len()),
                at@.len() == self.t@.len(),
                in_range(index@, self.t@.len()),
                p.scan(st, at@, index@, order@.take(j as int)) is None,
            decreases order.len() - j,
        {
            let i = order[j];
            assert(order@.take(j + 1).drop_last() =~= order@.take(j as int));
            assert(rows(self.x@)[i as int] == self.x@[i as int]@);
            assert(rows(self.x@)[0].len() == self.x@[i as int]@.len());
            let y2 = def_func_indexed(at, &self.x[i], self.x, self.b, self.kernel, index);
            if self.violates(i, y2) {
                if self.example(i, y2, self.t[i], at, index) {
                    proof {
                        assert(order@ =~= order@.take(j + 1) + order@.skip(j + 1));
                        lemma_scan_concat(p, st, at@, index@, order@.take(j + 1), order@.skip(j + 1));
                    }
                    return true;
                }
            }
            j += 1;
        }
        assert(order@.take(order.len() as int) =~= order@);
        false
    }

    /// One scan over all samples: the free ones first, then the zero ones,
    /// then the bound ones, each set in ascending order.
    ///
    /// Each sample's decision value is taken over the support. A sample that
    /// violates the optimality condition of its set is handed to `example`.
    /// Returns `true` at the first step that succeeds, with the state after
    /// that step, and `false` with nothing changed when none does: the state is
    /// then a fixpoint.
    pub fn examine(&mut self) -> (moved: bool)
        requires
            old(self).wf(),
        ensures
            final(self).wf(),
            final(self).x == old(self).x,
            final(self).problem() == old(self).problem(),
            moved == old(self).problem().examine_spec(old(self).state()) is Some,
            final(self).state() == (match old(self).problem().examine_spec(old(self).state()) {
                Some(next) => next,
                None => old(self).state(),
            }),
    {
        let ghost p = self.problem();
        let ghost st = self.state();
        let at = hadamard(&self.a, &self.t);
        let index = self.support();
        let free = self.indices(Partition::Free);
        let zeros = self.indices(Partition::Zero);
        let bound = self.indices(Partition::Bound);
        proof {
            lemma_support_of(self.part@);
            lemma_indices_of(self.part@, Partition::Free);
            lemma_indices_of(self.part@, Partition::Zero);
            lemma_indices_of(self.part@, Partition::Bound);
            assert(scan_order(st.part) == free@ + zeros@ + bound@);
            lemma_scan_concat(p, st, at@, index@, free@ + zeros@, bound@);
            lemma_scan_concat(p, st, at@, index@, free@, zeros@);
        }
        if self.scan(&free, &at, &index) {
            return true;
        }
        if self.scan(&zeros, &at, &index) {
            return true;
        }
        self.scan(&bound, &at, &index)
    }

    /// Scans until a fixpoint, at most `max_scans` times.
    ///
    /// Returns `true` when a scan found no step to make, so that the state is a
    /// fixpoint, and `false` when `max_scans` scans each made a step; the state
    /// then holds the coefficients reached so far.
    pub fn fit(&mut self, max_scans: usize) -> (converged: bool)
        requires
            old(self).wf(),
        ensures
            final(self).wf(),
            final(self).x == old(self).x,
            final(self).problem() == old(self).problem(),
            (final(self).state(), converged) == old(self).problem().fit_spec(
                old(self).state(),
                max_scans as nat,
            ),
    {
        let ghost p = self.problem();
        let ghost start = self.state();
        let mut left = max_scans;
        while left > 0
            invariant
                self.wf(),
                self.x == old(self).x,
                self.problem() == p,
                p == old(self).problem(),
                start == old(self).state(),
                p.fit_spec(start, max_scans as nat) == p.fit_spec(self.state(), left as nat),
            decreases left,
        {
            if !self.examine() {
                return true;
            }
            left -= 1;
        }
        false
    }

    /// Extracts the solution: the bias, and for each sample of the support, in
    /// the order free then bound, its signed coefficient and its feature
    /// vector.
    pub fn params(&self, at: &mut Vec<T>, b: &mut T, support_vector: &mut Vec<Vec<T>>)
        requires
            self.wf(),
        ensures
            *final(b) == self.b,
            final(at)@ == gather(self.problem().signed(self.a@), support_of(self.part@)),
            rows(final(support_vector)@) == gather(rows(self.x@), support_of(self.part@)),
    {
        *b = self.b;
        let index = self.support();
        proof {
            lemma_support_of(self.part@);
        }
        let n = index.len();
        let mut coeffs: Vec<T> = Vec::with_capacity(n);
        let mut vectors: Vec<Vec<T>> = Vec::with_capacity(n);
        let ghost want_at = gather(self.problem().signed(self.a@), index@);
        let ghost want_sv = gather(rows(self.x@), index@);
        let mut j: usize = 0;
        while j < n
            invariant
                j <= n,
                n == index@.len(),
                self.wf(),
                in_range(index@, self.t@.len()),
                want_at == gather(self.problem().signed(self.a@), index@),
                want_sv == gather(rows(self.x@), index@),
                coeffs@ == want_at.take(j as int),
                vectors@.len() == j,
                rows(vectors@) == want_sv.take(j as int),
            decreases n - j,
        {
            let i = index[j];
            coeffs.push(self.a[i].mul(self.t[i]));
            let ghost before = vectors@;
            vectors.push(duplicate(&self.x[i]));
            j += 1;
            assert(coeffs@ =~= want_at.take(j as int));
            assert(rows(vectors@) =~= want_sv.take(j as int)) by {
                assert forall|k: int| 0 <= k < j implies rows(vectors@)[k] == want_sv.take(
                    j as int,
                )[k] by {
                    if k < j - 1 {
                        assert(vectors@[k] == before[k]);
                        assert(rows(before)[k] == want_sv.take(j - 1)[k]);
                    }
                }
            }
        }
        assert(want_at.take(n as int) =~= want_at);
        assert(want_sv.take(n as int) =~= want_sv);
        *at = coeffs;
        *support_vector = vectors;
    }
}

} // verus!
