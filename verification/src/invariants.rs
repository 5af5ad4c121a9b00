//! What holds of every state that the optimizer reaches.
use vstd::prelude::*;
use crate::float::{max_spec, Float};
use crate::kernel::in_range;
use crate::model::{indices_of, scan_order, support_of, Partition, Problem, State};

verus! {

/// The samples of `part` that carry `tag`, as a set.
pub open spec fn members(part: Seq<Partition>, tag: Partition) -> Set<int> {
    Set::new(|i: int| 0 <= i < part.len() && part[i] == tag)
}

/// Every sample belongs to exactly one of the three sets.
pub proof fn lemma_partition_exact(part: Seq<Partition>, i: int)
    requires
        0 <= i < part.len(),
    ensures
        members(part, Partition::Zero).contains(i) || members(part, Partition::Free).contains(i)
            || members(part, Partition::Bound).contains(i),
        !(members(part, Partition::Zero).contains(i) && members(part, Partition::Free).contains(
            i,
        )),
        !(members(part, Partition::Zero).contains(i) && members(part, Partition::Bound).contains(
            i,
        )),
        !(members(part, Partition::Free).contains(i) && members(part, Partition::Bound).contains(
            i,
        )),
{
}

/// The three sets are pairwise disjoint and together hold every sample.
pub proof fn lemma_partition_covers(part: Seq<Partition>)
    ensures
        members(part, Partition::Zero).disjoint(members(part, Partition::Free)),
        members(part, Partition::Zero).disjoint(members(part, Partition::Bound)),
        members(part, Partition::Free).disjoint(members(part, Partition::Bound)),
        members(part, Partition::Zero) + members(part, Partition::Free) + members(
            part,
            Partition::Bound,
        ) == Set::new(|i: int| 0 <= i < part.len()),
{
    assert(members(part, Partition::Zero) + members(part, Partition::Free) + members(
        part,
        Partition::Bound,
    ) =~= Set::new(|i: int| 0 <= i < part.len()));
}

/// The list of a set holds each of its samples once, in ascending order, and
/// nothing else.
pub proof fn lemma_indices_list_members(part: Seq<Partition>, tag: Partition)
    requires
        part.len() <= usize::MAX,
    ensures
        forall|j: int|
            0 <= j < indices_of(part, tag).len() ==> members(part, tag).contains(
                #[trigger] indices_of(part, tag)[j] as int,
            ),
        forall|j: int, k: int|
            0 <= j < k < indices_of(part, tag).len() ==> indices_of(part, tag)[j] < indices_of(
                part,
                tag,
            )[k],
        forall|i: int|
            members(part, tag).contains(i) ==> exists|j: int|
                0 <= j < indices_of(part, tag).len() && #[trigger] indices_of(part, tag)[j] == i,
    decreases part.len(),
{
    if part.len() > 0 {
        let rest = part.drop_last();
        lemma_indices_list_members(rest, tag);
        let old_list = indices_of(rest, tag);
        let list = indices_of(part, tag);
        assert forall|j: int| 0 <= j < old_list.len() implies (#[trigger] old_list[j]) < rest.len() by {
            assert(members(rest, tag).contains(old_list[j] as int));
        }
        assert forall|i: int| members(part, tag).contains(i) implies exists|j: int|
            0 <= j < list.len() && #[trigger] list[j] == i by {
            if i < rest.len() {
                assert(members(rest, tag).contains(i));
                let j = choose|j: int| 0 <= j < old_list.len() && #[trigger] old_list[j] == i;
                assert(list[j] == i);
            } else {
                assert(list[list.len() - 1] == i);
            }
        }
    }
}

/// A step leaves one coefficient and one set per sample.
pub proof fn lemma_step_admits<T: Float>(
    p: Problem<T>,
    st: State<T>,
    i1: int,
    i2: int,
    y2: T,
    at: Seq<T>,
    index: Seq<usize>,
)
    requires
        p.admits(st),
        0 <= i1 < st.a.len(),
        0 <= i2 < st.a.len(),
    ensures
        p.step_spec(st, i1, i2, y2, at, index) is Some ==> p.admits(
            p.step_spec(st, i1, i2, y2, at, index)->0,
        ),
{
}

/// Each sample is in the set of its coefficient.
pub open spec fn classified<T: Float>(p: Problem<T>, st: State<T>) -> bool {
    forall|i: int| 0 <= i < st.part.len() ==> #[trigger] st.part[i] == p.classify(st.a[i])
}

/// A step puts the two samples it moves into the sets of their new
/// coefficients and leaves every other sample in its set: if each sample was
/// in the set of its coefficient before the step, each is after it.
pub proof fn lemma_step_keeps_classified<T: Float>(
    p: Problem<T>,
    st: State<T>,
    i1: int,
    i2: int,
    y2: T,
    at: Seq<T>,
    index: Seq<usize>,
)
    requires
        p.admits(st),
        0 <= i1 < st.a.len(),
        0 <= i2 < st.a.len(),
        classified(p, st),
    ensures
        p.step_spec(st, i1, i2, y2, at, index) is Some ==> classified(
            p,
            p.step_spec(st, i1, i2, y2, at, index)->0,
        ),
{
    if p.step_spec(st, i1, i2, y2, at, index) is Some {
        let next = p.step_spec(st, i1, i2, y2, at, index)->0;
        assert forall|i: int| 0 <= i < next.part.len() implies #[trigger] next.part[i]
            == p.classify(next.a[i]) by {
            if i != i1 && i != i2 {
                assert(next.part[i] == st.part[i]);
                assert(next.a[i] == st.a[i]);
            }
        }
    }
}

/// On the scalars of `among`, the comparisons are those of a total order:
/// `<=` is reflexive, transitive and compares any two of them, and `a < b`
/// means that `b <= a` fails.
pub open spec fn ordered_on<T: Float>(among: Set<T>) -> bool {
    &&& forall|a: T| among.contains(a) ==> #[trigger] a.le_spec(a)
    &&& forall|a: T, b: T|
        among.contains(a) && among.contains(b) ==> #[trigger] a.le_spec(b) || b.le_spec(a)
    &&& forall|a: T, b: T|
        #![trigger a.lt_spec(b)]
        #![trigger b.le_spec(a)]
        among.contains(a) && among.contains(b) ==> (a.lt_spec(b) <==> !b.le_spec(a))
    &&& forall|a: T, b: T, c: T|
        #![trigger a.le_spec(b), b.le_spec(c)]
        among.contains(a) && among.contains(b) && among.contains(c) && a.le_spec(b) && b.le_spec(
            c,
        ) ==> a.le_spec(c)
}

/// The order of the scalars is total.
pub open spec fn total_order<T: Float>() -> bool {
    ordered_on(Set::<T>::full())
}

/// A total order is one on every set of scalars.
pub proof fn lemma_total_order_on<T: Float>(among: Set<T>)
    requires
        total_order::<T>(),
    ensures
        ordered_on(among),
{
    assert forall|a: T| among.contains(a) implies #[trigger] a.le_spec(a) by {
        assert(Set::<T>::full().contains(a));
    }
    assert forall|a: T, b: T| among.contains(a) && among.contains(b) implies #[trigger] a.le_spec(
        b,
    ) || b.le_spec(a) by {
        assert(Set::<T>::full().contains(a) && Set::<T>::full().contains(b));
    }
    assert forall|a: T, b: T|
        #![trigger a.lt_spec(b)]
        #![trigger b.le_spec(a)]
        among.contains(a) && among.contains(b) implies (a.lt_spec(b) <==> !b.le_spec(a)) by {
        assert(Set::<T>::full().contains(a) && Set::<T>::full().contains(b));
    }
    assert forall|a: T, b: T, c: T|
        #![trigger a.le_spec(b), b.le_spec(c)]
        among.contains(a) && among.contains(b) && among.contains(c) && a.le_spec(b) && b.le_spec(
            c,
        ) implies a.le_spec(c) by {
        assert(Set::<T>::full().contains(a) && Set::<T>::full().contains(b) && Set::<
            T,
        >::full().contains(c));
    }
}

/// The scalars that a step on `i1` and `i2` compares on the way to its two
/// new coefficients: zero, the regularization constant, the two old
/// coefficients, the two ends of the span, the greater of the optimum along
/// the line and the lower end of the interval, and the place the first
/// coefficient moves to. An optimum that does not compare is not among them:
/// the lower end then stands for it.
pub open spec fn step_scalars<T: Float>(
    p: Problem<T>,
    st: State<T>,
    i1: int,
    i2: int,
    y2: T,
    at: Seq<T>,
    index: Seq<usize>,
) -> Set<T> {
    let a1 = st.a[i1];
    let a2 = st.a[i2];
    let s = p.t[i1].mul_spec(p.t[i2]);
    let (low, high) = p.span(a1, a2, s);
    let (l, h) = p.bounds(a1, a2, s);
    let a2_new = p.second(st, i1, i2, y2, at, index, l, h);
    set![
        T::zero_spec(),
        p.c,
        a1,
        a2,
        low,
        high,
        max_spec(p.optimum(st, i1, i2, y2, at, index), l),
        Problem::<T>::moved(a1, a2, a2_new, s),
    ]
}

/// Coefficient feasibility of one step: where the scalars that the step
/// compares are totally ordered and the box holds zero, a step from
/// coefficients in `[0, C]` leads to coefficients in `[0, C]`.
pub proof fn lemma_step_keeps_box<T: Float>(
    p: Problem<T>,
    st: State<T>,
    i1: int,
    i2: int,
    y2: T,
    at: Seq<T>,
    index: Seq<usize>,
)
    requires
        ordered_on(step_scalars(p, st, i1, i2, y2, at, index)),
        p.within_box(T::zero_spec()),
        p.admits(st),
        0 <= i1 < st.a.len(),
        0 <= i2 < st.a.len(),
        p.feasible(st.a),
    ensures
        p.step_spec(st, i1, i2, y2, at, index) is Some ==> p.feasible(
            p.step_spec(st, i1, i2, y2, at, index)->0.a,
        ),
{
    if p.step_spec(st, i1, i2, y2, at, index) is Some {
        let next = p.step_spec(st, i1, i2, y2, at, index)->0;
        let zero = T::zero_spec();
        let a1 = st.a[i1];
        let a2 = st.a[i2];
        let s = p.t[i1].mul_spec(p.t[i2]);
        let (low, high) = p.span(a1, a2, s);
        let (l, h) = p.bounds(a1, a2, s);
        let a2_new = p.second(st, i1, i2, y2, at, index, l, h);
        let raised = max_spec(p.optimum(st, i1, i2, y2, at, index), l);
        let target = Problem::<T>::moved(a1, a2, a2_new, s);
        let among = step_scalars(p, st, i1, i2, y2, at, index);
        assert(among.contains(zero) && among.contains(p.c) && among.contains(a1) && among.contains(
            a2,
        ) && among.contains(low) && among.contains(high) && among.contains(raised)
            && among.contains(target));
        assert(among.contains(l) && among.contains(h));
        assert(p.within_box(st.a[i2]));
        assert(p.within_box(l) && p.within_box(h) && l.le_spec(h));
        assert(p.within_box(a2_new));
        let a1_new = p.clip(target);
        assert(p.within_box(a1_new));
        assert forall|i: int| 0 <= i < next.a.len() implies p.within_box(#[trigger] next.a[i]) by {
            if i == i1 {
                assert(next.a[i] == a1_new);
            } else if i == i2 {
                assert(next.a[i] == a2_new);
            } else {
                assert(next.a[i] == st.a[i]);
            }
        }
    }
}

/// `i` occurs in `list`.
pub open spec fn lists(list: Seq<usize>, i: int) -> bool {
    exists|j: int| 0 <= j < list.len() && #[trigger] list[j] == i
}

/// The partner with the most extreme error is a sample.
pub proof fn lemma_extreme_partner_in_range<T: Float>(
    p: Problem<T>,
    b: T,
    i2: int,
    e2: T,
    at: Seq<T>,
    index: Seq<usize>,
    k: nat,
)
    requires
        0 < p.t.len() <= usize::MAX,
        k <= p.t.len(),
    ensures
        p.extreme_partner(b, i2, e2, at, index, k).0 < p.t.len(),
    decreases k,
{
    if k > 0 {
        lemma_extreme_partner_in_range(p, b, i2, e2, at, index, (k - 1) as nat);
    }
}

/// The partners that are tried for a sample are samples, and every sample is
/// among them.
pub proof fn lemma_partners<T: Float>(
    p: Problem<T>,
    st: State<T>,
    i2: int,
    y2: T,
    t2: T,
    at: Seq<T>,
    index: Seq<usize>,
)
    requires
        p.wf(),
        p.admits(st),
        0 <= i2 < p.t.len(),
    ensures
        in_range(p.partners(st, i2, y2, t2, at, index), p.t.len()),
        forall|i1: int|
            0 <= i1 < p.t.len() ==> #[trigger] lists(p.partners(st, i2, y2, t2, at, index), i1),
{
    let cands = p.partners(st, i2, y2, t2, at, index);
    let free = indices_of(st.part, Partition::Free);
    let zeros = indices_of(st.part, Partition::Zero);
    let bound = indices_of(st.part, Partition::Bound);
    lemma_extreme_partner_in_range(p, st.b, i2, y2.sub_spec(t2), at, index, p.t.len());
    lemma_indices_list_members(st.part, Partition::Free);
    lemma_indices_list_members(st.part, Partition::Zero);
    lemma_indices_list_members(st.part, Partition::Bound);
    assert forall|j: int| 0 <= j < cands.len() implies (#[trigger] cands[j]) < p.t.len() by {
        if j == 0 {
        } else if j < 1 + free.len() {
            assert(members(st.part, Partition::Free).contains(free[j - 1] as int));
        } else if j < 1 + free.len() + zeros.len() {
            assert(members(st.part, Partition::Zero).contains(zeros[j - 1 - free.len()] as int));
        } else {
            assert(members(st.part, Partition::Bound).contains(
                bound[j - 1 - free.len() - zeros.len()] as int,
            ));
        }
    }
    assert forall|i1: int| 0 <= i1 < p.t.len() implies #[trigger] lists(cands, i1) by {
        match st.part[i1] {
            Partition::Free => {
                assert(members(st.part, Partition::Free).contains(i1));
                let j = choose|j: int| 0 <= j < free.len() && #[trigger] free[j] == i1;
                assert(cands[1 + j] == i1);
            },
            Partition::Zero => {
                assert(members(st.part, Partition::Zero).contains(i1));
                let j = choose|j: int| 0 <= j < zeros.len() && #[trigger] zeros[j] == i1;
                assert(cands[1 + free.len() + j] == i1);
            },
            Partition::Bound => {
                assert(members(st.part, Partition::Bound).contains(i1));
                let j = choose|j: int| 0 <= j < bound.len() && #[trigger] bound[j] == i1;
                assert(cands[1 + free.len() + zeros.len() + j] == i1);
            },
        }
    }
}

/// The samples that a scan examines are samples, and every sample is among
/// them.
pub proof fn lemma_scan_order<T: Float>(p: Problem<T>, st: State<T>)
    requires
        p.wf(),
        p.admits(st),
    ensures
        in_range(scan_order(st.part), p.t.len()),
        in_range(support_of(st.part), p.t.len()),
        forall|i: int| 0 <= i < p.t.len() ==> #[trigger] lists(scan_order(st.part), i),
{
    let order = scan_order(st.part);
    let free = indices_of(st.part, Partition::Free);
    let zeros = indices_of(st.part, Partition::Zero);
    let bound = indices_of(st.part, Partition::Bound);
    lemma_indices_list_members(st.part, Partition::Free);
    lemma_indices_list_members(st.part, Partition::Zero);
    lemma_indices_list_members(st.part, Partition::Bound);
    assert forall|j: int| 0 <= j < order.len() implies (#[trigger] order[j]) < p.t.len() by {
        if j < free.len() {
            assert(members(st.part, Partition::Free).contains(free[j] as int));
        } else if j < free.len() + zeros.len() {
            assert(members(st.part, Partition::Zero).contains(zeros[j - free.len()] as int));
        } else {
            assert(members(st.part, Partition::Bound).contains(
                bound[j - free.len() - zeros.len()] as int,
            ));
        }
    }
    let support = support_of(st.part);
    assert forall|j: int| 0 <= j < support.len() implies (#[trigger] support[j]) < p.t.len() by {
        if j < free.len() {
            assert(members(st.part, Partition::Free).contains(free[j] as int));
        } else {
            assert(members(st.part, Partition::Bound).contains(bound[j - free.len()] as int));
        }
    }
    assert forall|i: int| 0 <= i < p.t.len() implies #[trigger] lists(order, i) by {
        match st.part[i] {
            Partition::Free => {
                assert(members(st.part, Partition::Free).contains(i));
                let j = choose|j: int| 0 <= j < free.len() && #[trigger] free[j] == i;
                assert(order[j] == i);
            },
            Partition::Zero => {
                assert(members(st.part, Partition::Zero).contains(i));
                let j = choose|j: int| 0 <= j < zeros.len() && #[trigger] zeros[j] == i;
                assert(order[free.len() + j] == i);
            },
            Partition::Bound => {
                assert(members(st.part, Partition::Bound).contains(i));
                let j = choose|j: int| 0 <= j < bound.len() && #[trigger] bound[j] == i;
                assert(order[free.len() + zeros.len() + j] == i);
            },
        }
    }
}

/// When no partner of `cands` admits a step, each of them rejects it; when one
/// does, the outcome is the step with one of them.
pub proof fn lemma_first_step<T: Float>(
    p: Problem<T>,
    st: State<T>,
    cands: Seq<usize>,
    i2: int,
    y2: T,
    at: Seq<T>,
    index: Seq<usize>,
)
    ensures
        p.first_step(st, cands, i2, y2, at, index) is None ==> forall|j: int|
            0 <= j < cands.len() ==> #[trigger] p.step_spec(
                st,
                cands[j] as int,
                i2,
                y2,
                at,
                index,
            ) is None,
        p.first_step(st, cands, i2, y2, at, index) is Some ==> exists|j: int|
            0 <= j < cands.len() && #[trigger] p.step_spec(st, cands[j] as int, i2, y2, at, index)
                == p.first_step(st, cands, i2, y2, at, index),
    decreases cands.len(),
{
    if cands.len() > 0 {
        let init = cands.drop_last();
        lemma_first_step(p, st, init, i2, y2, at, index);
        if p.first_step(st, init, i2, y2, at, index) is Some {
            let j = choose|j: int|
                0 <= j < init.len() && #[trigger] p.step_spec(st, init[j] as int, i2, y2, at, index)
                    == p.first_step(st, init, i2, y2, at, index);
            assert(cands[j] == init[j]);
            assert(p.step_spec(st, cands[j] as int, i2, y2, at, index) == p.first_step(
                st,
                cands,
                i2,
                y2,
                at,
                index,
            ));
        } else {
            if p.first_step(st, cands, i2, y2, at, index) is Some {
                let j = cands.len() - 1;
                assert(p.step_spec(st, cands[j] as int, i2, y2, at, index) == p.first_step(
                    st,
                    cands,
                    i2,
                    y2,
                    at,
                    index,
                ));
            } else {
                assert forall|j: int| 0 <= j < cands.len() implies #[trigger] p.step_spec(
                    st,
                    cands[j] as int,
                    i2,
                    y2,
                    at,
                    index,
                ) is None by {
                    if j < init.len() {
                        assert(cands[j] == init[j]);
                    }
                }
            }
        }
    }
}

/// When a scan over `order` makes no step, no visit of its samples does; when
/// it makes one, the outcome is the visit of one of them.
pub proof fn lemma_scan<T: Float>(
    p: Problem<T>,
    st: State<T>,
    at: Seq<T>,
    index: Seq<usize>,
    order: Seq<usize>,
)
    ensures
        p.scan(st, at, index, order) is None ==> forall|j: int|
            0 <= j < order.len() ==> #[trigger] p.visit(st, at, index, order[j] as int) is None,
        p.scan(st, at, index, order) is Some ==> exists|j: int|
            0 <= j < order.len() && #[trigger] p.visit(st, at, index, order[j] as int) == p.scan(
                st,
                at,
                index,
                order,
            ),
    decreases order.len(),
{
    if order.len() > 0 {
        let init = order.drop_last();
        lemma_scan(p, st, at, index, init);
        if p.scan(st, at, index, init) is Some {
            let j = choose|j: int|
                0 <= j < init.len() && #[trigger] p.visit(st, at, index, init[j] as int) == p.scan(
                    st,
                    at,
                    index,
                    init,
                );
            assert(order[j] == init[j]);
            assert(p.visit(st, at, index, order[j] as int) == p.scan(st, at, index, order));
        } else {
            if p.scan(st, at, index, order) is Some {
                let j = order.len() - 1;
                assert(p.visit(st, at, index, order[j] as int) == p.scan(st, at, index, order));
            } else {
                assert forall|j: int| 0 <= j < order.len() implies #[trigger] p.visit(
                    st,
                    at,
                    index,
                    order[j] as int,
                ) is None by {
                    if j < init.len() {
                        assert(order[j] == init[j]);
                    }
                }
            }
        }
    }
}

/// `next` is what a two-variable step on some pair of samples makes of `st`,
/// with decision values taken over the support of `st`.
pub open spec fn is_step<T: Float>(p: Problem<T>, st: State<T>, next: State<T>) -> bool {
    let at = p.signed(st.a);
    let index = support_of(st.part);
    exists|i1: int, i2: int|
        0 <= i1 < p.t.len() && 0 <= i2 < p.t.len() && #[trigger] p.step_spec(
            st,
            i1,
            i2,
            p.output(st.b, at, index, i2),
            at,
            index,
        ) == Some(next)
}

/// Every change that a scan makes is one two-variable step.
pub proof fn lemma_examine_is_step<T: Float>(p: Problem<T>, st: State<T>)
    requires
        p.wf(),
        p.admits(st),
    ensures
        p.examine_spec(st) is Some ==> is_step(p, st, p.examine_spec(st)->0),
{
    if p.examine_spec(st) is Some {
        let next = p.examine_spec(st)->0;
        let at = p.signed(st.a);
        let index = support_of(st.part);
        let order = scan_order(st.part);
        lemma_scan_order(p, st);
        lemma_scan(p, st, at, index, order);
        let j = choose|j: int|
            0 <= j < order.len() && #[trigger] p.visit(st, at, index, order[j] as int) == p.scan(
                st,
                at,
                index,
                order,
            );
        let i2 = order[j] as int;
        let y2 = p.output(st.b, at, index, i2);
        let cands = p.partners(st, i2, y2, p.t[i2], at, index);
        lemma_partners(p, st, i2, y2, p.t[i2], at, index);
        lemma_first_step(p, st, cands, i2, y2, at, index);
        let k = choose|k: int|
            0 <= k < cands.len() && #[trigger] p.step_spec(st, cands[k] as int, i2, y2, at, index)
                == p.first_step(st, cands, i2, y2, at, index);
        let i1 = cands[k] as int;
        assert(p.step_spec(st, i1, i2, p.output(st.b, at, index, i2), at, index) == Some(next));
    }
}

/// Fixpoint: when a scan makes no step, no sample that violates the
/// optimality condition of its set has a partner with which a step is
/// accepted.
pub proof fn lemma_fixpoint_admits_no_step<T: Float>(p: Problem<T>, st: State<T>)
    requires
        p.wf(),
        p.admits(st),
        p.examine_spec(st) is None,
    ensures
        forall|i1: int, i2: int|
            0 <= i1 < p.t.len() && 0 <= i2 < p.t.len() && p.violates(
                st,
                p.signed(st.a),
                support_of(st.part),
                i2,
            ) ==> #[trigger] p.step_spec(
                st,
                i1,
                i2,
                p.output(st.b, p.signed(st.a), support_of(st.part), i2),
                p.signed(st.a),
                support_of(st.part),
            ) is None,
{
    let at = p.signed(st.a);
    let index = support_of(st.part);
    let order = scan_order(st.part);
    lemma_scan_order(p, st);
    lemma_scan(p, st, at, index, order);
    assert forall|i1: int, i2: int|
        0 <= i1 < p.t.len() && 0 <= i2 < p.t.len() && p.violates(
            st,
            at,
            index,
            i2,
        ) implies #[trigger] p.step_spec(
        st,
        i1,
        i2,
        p.output(st.b, at, index, i2),
        at,
        index,
    ) is None by {
        assert(lists(order, i2));
        let j = choose|j: int| 0 <= j < order.len() && #[trigger] order[j] == i2;
        assert(p.visit(st, at, index, order[j] as int) is None);
        let y2 = p.output(st.b, at, index, i2);
        let cands = p.partners(st, i2, y2, p.t[i2], at, index);
        lemma_partners(p, st, i2, y2, p.t[i2], at, index);
        lemma_first_step(p, st, cands, i2, y2, at, index);
        assert(lists(cands, i1));
        let k = choose|k: int| 0 <= k < cands.len() && #[trigger] cands[k] == i1;
        assert(p.step_spec(st, cands[k] as int, i2, y2, at, index) is None);
    }
}

/// The margin `t * f(x)` of sample `i` meets the condition of its set: at
/// least one minus the tolerance in the zero set, at most one plus the
/// tolerance in the bound set, and both in the free set.
pub open spec fn meets_margin<T: Float>(p: Problem<T>, st: State<T>, i: int) -> bool {
    let low = T::one_spec().sub_spec(p.tolerance);
    let high = T::one_spec().add_spec(p.tolerance);
    let margin = p.t[i].mul_spec(p.output(st.b, p.signed(st.a), support_of(st.part), i));
    match st.part[i] {
        Partition::Zero => low.le_spec(margin),
        Partition::Free => low.le_spec(margin) && margin.le_spec(high),
        Partition::Bound => margin.le_spec(high),
    }
}

/// No partner admits a step on sample `i2`.
pub open spec fn stuck<T: Float>(p: Problem<T>, st: State<T>, i2: int) -> bool {
    forall|i1: int|
        0 <= i1 < p.t.len() ==> #[trigger] p.step_spec(
            st,
            i1,
            i2,
            p.output(st.b, p.signed(st.a), support_of(st.part), i2),
            p.signed(st.a),
            support_of(st.part),
        ) is None
}

/// Optimality at a fixpoint: for totally ordered scalars and a tolerance with
/// `1 - tolerance <= 1 <= 1 + tolerance`, when a scan makes no step, every
/// sample either meets the margin condition of its set or has no partner
/// with which a step is accepted.
pub proof fn lemma_fixpoint_margins<T: Float>(p: Problem<T>, st: State<T>)
    requires
        total_order::<T>(),
        T::one_spec().sub_spec(p.tolerance).le_spec(T::one_spec()),
        T::one_spec().le_spec(T::one_spec().add_spec(p.tolerance)),
        p.wf(),
        p.admits(st),
        p.examine_spec(st) is None,
    ensures
        forall|i: int| 0 <= i < p.t.len() ==> #[trigger] meets_margin(p, st, i) || stuck(p, st, i),
{
    lemma_fixpoint_admits_no_step(p, st);
    let at = p.signed(st.a);
    let index = support_of(st.part);
    assert forall|i: int| 0 <= i < p.t.len() implies #[trigger] meets_margin(p, st, i) || stuck(
        p,
        st,
        i,
    ) by {
        if p.violates(st, at, index, i) {
            assert(stuck(p, st, i));
        } else {
            assert(meets_margin(p, st, i));
        }
    }
}

/// The state before the first step has one coefficient and one set per
/// sample; its coefficients lie in the box when zero does; each sample is in
/// the set of its coefficient when zero is below the tolerance.
pub proof fn lemma_initial<T: Float>(p: Problem<T>)
    ensures
        p.admits(p.initial()),
        p.within_box(T::zero_spec()) ==> p.feasible(p.initial().a),
        T::zero_spec().lt_spec(p.tolerance) ==> classified(p, p.initial()),
{
}

/// Coefficient feasibility over a whole run: for totally ordered scalars and
/// a regularization constant of at least zero, the coefficients lie in
/// `[0, C]` in the state that any number of scans reaches from coefficients
/// in `[0, C]`, and so in every state on the way.
pub proof fn lemma_fit_keeps_box<T: Float>(p: Problem<T>, st: State<T>, budget: nat)
    requires
        total_order::<T>(),
        p.wf(),
        p.admits(st),
        p.within_box(T::zero_spec()),
        p.feasible(st.a),
    ensures
        p.admits(p.fit_spec(st, budget).0),
        p.feasible(p.fit_spec(st, budget).0.a),
    decreases budget,
{
    if budget > 0 && p.examine_spec(st) is Some {
        let next = p.examine_spec(st)->0;
        lemma_examine_is_step(p, st);
        let at = p.signed(st.a);
        let index = support_of(st.part);
        let (i1, i2) = choose|i1: int, i2: int|
            0 <= i1 < p.t.len() && 0 <= i2 < p.t.len() && #[trigger] p.step_spec(
                st,
                i1,
                i2,
                p.output(st.b, at, index, i2),
                at,
                index,
            ) == Some(next);
        lemma_step_admits(p, st, i1, i2, p.output(st.b, at, index, i2), at, index);
        lemma_total_order_on(
            step_scalars(p, st, i1, i2, p.output(st.b, at, index, i2), at, index),
        );
        lemma_step_keeps_box(p, st, i1, i2, p.output(st.b, at, index, i2), at, index);
        lemma_fit_keeps_box(p, next, (budget - 1) as nat);
    }
}

/// Partition over a whole run: in the state that any number of scans reaches,
/// and so in every state on the way, there is one set per sample, and each
/// sample is in the set of its coefficient if that held at the start.
pub proof fn lemma_fit_keeps_classified<T: Float>(p: Problem<T>, st: State<T>, budget: nat)
    requires
        p.wf(),
        p.admits(st),
        classified(p, st),
    ensures
        p.admits(p.fit_spec(st, budget).0),
        classified(p, p.fit_spec(st, budget).0),
    decreases budget,
{
    if budget > 0 && p.examine_spec(st) is Some {
        let next = p.examine_spec(st)->0;
        lemma_examine_is_step(p, st);
        let at = p.signed(st.a);
        let index = support_of(st.part);
        let (i1, i2) = choose|i1: int, i2: int|
            0 <= i1 < p.t.len() && 0 <= i2 < p.t.len() && #[trigger] p.step_spec(
                st,
                i1,
                i2,
                p.output(st.b, at, index, i2),
                at,
                index,
            ) == Some(next);
        lemma_step_admits(p, st, i1, i2, p.output(st.b, at, index, i2), at, index);
        lemma_step_keeps_classified(p, st, i1, i2, p.output(st.b, at, index, i2), at, index);
        lemma_fit_keeps_classified(p, next, (budget - 1) as nat);
    }
}

/// A run leaves one coefficient and one set per sample.
pub proof fn lemma_fit_admits<T: Float>(p: Problem<T>, st: State<T>, budget: nat)
    requires
        p.wf(),
        p.admits(st),
    ensures
        p.admits(p.fit_spec(st, budget).0),
    decreases budget,
{
    if budget > 0 && p.examine_spec(st) is Some {
        let next = p.examine_spec(st)->0;
        lemma_examine_is_step(p, st);
        let at = p.signed(st.a);
        let index = support_of(st.part);
        let (i1, i2) = choose|i1: int, i2: int|
            0 <= i1 < p.t.len() && 0 <= i2 < p.t.len() && #[trigger] p.step_spec(
                st,
                i1,
                i2,
                p.output(st.b, at, index, i2),
                at,
                index,
            ) == Some(next);
        lemma_step_admits(p, st, i1, i2, p.output(st.b, at, index, i2), at, index);
        lemma_fit_admits(p, next, (budget - 1) as nat);
    }
}

/// When a run reports convergence, the state it reached is a fixpoint.
pub proof fn lemma_fit_converged_is_fixpoint<T: Float>(p: Problem<T>, st: State<T>, budget: nat)
    ensures
        p.fit_spec(st, budget).1 ==> p.examine_spec(p.fit_spec(st, budget).0) is None,
    decreases budget,
{
    if budget > 0 && p.examine_spec(st) is Some {
        lemma_fit_converged_is_fixpoint(p, p.examine_spec(st)->0, (budget - 1) as nat);
    }
}

/// The weighted sum of the coefficients: the sum over the samples of the
/// value of the coefficient times the value of the label, where `val` reads a
/// scalar as a real number.
pub open spec fn weighted_sum<T: Float>(val: spec_fn(T) -> real, a: Seq<T>, t: Seq<T>) -> real
    decreases a.len(),
{
    if a.len() == 0 {
        0real
    } else {
        weighted_sum(val, a.drop_last(), t.drop_last()) + val(a.last()) * val(t.last())
    }
}

/// Replacing one coefficient changes the weighted sum by the change of that
/// coefficient times its label.
pub proof fn lemma_weighted_sum_update<T: Float>(
    val: spec_fn(T) -> real,
    a: Seq<T>,
    t: Seq<T>,
    i: int,
    v: T,
)
    requires
        a.len() == t.len(),
        0 <= i < a.len(),
    ensures
        weighted_sum(val, a.update(i, v), t) == weighted_sum(val, a, t) + (val(v) - val(a[i]))
            * val(t[i]),
    decreases a.len(),
{
    let w = val(t[i]);
    let x = val(v);
    let y = val(a[i]);
    assert((x - y) * w == x * w - y * w) by (nonlinear_arith);
    if i == a.len() - 1 {
        assert(a.update(i, v).drop_last() =~= a.drop_last());
    } else {
        assert(a.update(i, v).drop_last() =~= a.drop_last().update(i, v));
        lemma_weighted_sum_update(val, a.drop_last(), t.drop_last(), i, v);
    }
}

/// The arithmetic that moves the first coefficient of a step is exact under
/// `val`: the product of the labels, the change of the second coefficient,
/// their product, and its sum with the old first coefficient are the real
/// product, difference, product and sum.
pub open spec fn exact_move<T: Float>(
    val: spec_fn(T) -> real,
    a1: T,
    a2: T,
    a2_new: T,
    t1: T,
    t2: T,
) -> bool {
    let s = t1.mul_spec(t2);
    let d = a2.sub_spec(a2_new);
    let m = s.mul_spec(d);
    &&& val(s) == val(t1) * val(t2)
    &&& val(d) == val(a2) - val(a2_new)
    &&& val(m) == val(s) * val(d)
    &&& val(a1.add_spec(m)) == val(a1) + val(m)
}

/// Equality constraint: a step that is accepted leaves the weighted sum of
/// the coefficients as it was, provided that the two labels have the values
/// plus or minus one, that the arithmetic that moves the first coefficient is
/// exact, and that the moved first coefficient needs no clipping.
pub proof fn lemma_step_keeps_weighted_sum<T: Float>(
    val: spec_fn(T) -> real,
    p: Problem<T>,
    st: State<T>,
    i1: int,
    i2: int,
    y2: T,
    at: Seq<T>,
    index: Seq<usize>,
)
    requires
        p.admits(st),
        0 <= i1 < st.a.len(),
        0 <= i2 < st.a.len(),
        p.step_spec(st, i1, i2, y2, at, index) is Some,
        val(p.t[i1]) == 1real || val(p.t[i1]) == -1real,
        val(p.t[i2]) == 1real || val(p.t[i2]) == -1real,
        ({
            let next = p.step_spec(st, i1, i2, y2, at, index)->0;
            let moved = st.a[i1].add_spec(
                p.t[i1].mul_spec(p.t[i2]).mul_spec(st.a[i2].sub_spec(next.a[i2])),
            );
            &&& exact_move(val, st.a[i1], st.a[i2], next.a[i2], p.t[i1], p.t[i2])
            &&& p.clip(moved) == moved
        }),
    ensures
        weighted_sum(val, p.step_spec(st, i1, i2, y2, at, index)->0.a, p.t) == weighted_sum(
            val,
            st.a,
            p.t,
        ),
{
    let next = p.step_spec(st, i1, i2, y2, at, index)->0;
    let a1 = st.a[i1];
    let a2 = st.a[i2];
    let a2_new = next.a[i2];
    let a1_new = next.a[i1];
    let mid = st.a.update(i2, a2_new);
    assert(next.a =~= mid.update(i1, a1_new));
    lemma_weighted_sum_update(val, st.a, p.t, i2, a2_new);
    lemma_weighted_sum_update(val, mid, p.t, i1, a1_new);
    let t1 = val(p.t[i1]);
    let t2 = val(p.t[i2]);
    let r1 = val(a1);
    let r2 = val(a2);
    let r2n = val(a2_new);
    let r1n = val(a1_new);
    assert(r1n == r1 + (t1 * t2) * (r2 - r2n));
    assert((r2n - r2) * t2 + (r1n - r1) * t1 == 0real) by (nonlinear_arith)
        requires
            r1n == r1 + (t1 * t2) * (r2 - r2n),
            t1 == 1real || t1 == -1real,
            t2 == 1real || t2 == -1real,
    ;
}

} // verus!
