//! The decision value and the dual objective, restricted to a list of samples.
use vstd::prelude::*;
use crate::float::{dot, dot_spec, hadamard_spec, sum_spec, Float};
use crate::kernel::{gather, in_range, rows, uniform, Kernel};

verus! {

/// All vectors of `xs` have one dimension.
pub open spec fn rectangular<T>(xs: Seq<Seq<T>>) -> bool {
    xs.len() > 0 ==> uniform(xs, xs[0].len())
}

/// The decision value of `x` over the samples that `index` names:
/// the inner product of their signed coefficients with their kernel values
/// against `x`, plus the bias `b`. Samples outside `index` do not contribute.
pub open spec fn decision_spec<T: Float>(
    at: Seq<T>,
    x: Seq<T>,
    support_vector: Seq<Seq<T>>,
    b: T,
    kernel: Kernel<T>,
    index: Seq<usize>,
) -> T {
    dot_spec(gather(at, index), kernel.eval_indexed_spec(x, support_vector, index)).add_spec(b)
}

/// The terms of row `n` of the quadratic part of the dual objective:
/// `(at[n] * at[m]) * K(x[n], x[m])` for each `m`, where `at` and `xs` are
/// already restricted to the chosen samples.
pub open spec fn gram_row<T: Float>(at: Seq<T>, xs: Seq<Seq<T>>, kernel: Kernel<T>, n: int) -> Seq<
    T,
> {
    Seq::new(at.len(), |m: int| at[n].mul_spec(at[m]).mul_spec(kernel.eval_spec(xs[n], xs[m])))
}

/// The row sums of the quadratic part of the dual objective.
pub open spec fn gram_row_sums<T: Float>(at: Seq<T>, xs: Seq<Seq<T>>, kernel: Kernel<T>) -> Seq<T> {
    Seq::new(at.len(), |n: int| sum_spec(gram_row(at, xs, kernel, n)))
}

/// The dual objective over the samples that `index` names:
/// the sum of their coefficients minus half the sum, over all pairs of them,
/// of the product of their signed coefficients and their kernel value.
pub open spec fn objective_spec<T: Float>(
    a: Seq<T>,
    t: Seq<T>,
    x: Seq<Seq<T>>,
    kernel: Kernel<T>,
    index: Seq<usize>,
) -> T {
    let a_indexed = gather(a, index);
    let at_indexed = hadamard_spec(a_indexed, gather(t, index));
    let pairs = sum_spec(gram_row_sums(at_indexed, gather(x, index), kernel));
    sum_spec(a_indexed).sub_spec(pairs.div_spec(T::from_i32_spec(2)))
}

/// Copies the items of `v` that `index` names, in the order of `index`.
pub fn select<T: Float>(v: &Vec<T>, index: &Vec<usize>) -> (r: Vec<T>)
    requires
        in_range(index@, v@.len()),
    ensures
        r@ == gather(v@, index@),
{
    let mut out: Vec<T> = Vec::with_capacity(index.len());
    let mut j: usize = 0;
    while j < index.len()
        invariant
            j <= index.len(),
            in_range(index@, v@.len()),
            out@ == gather(v@, index@).take(j as int),
        decreases index.len() - j,
    {
        out.push(v[index[j]]);
        j += 1;
        assert(out@ =~= gather(v@, index@).take(j as int));
    }
    assert(gather(v@, index@).take(index.len() as int) =~= gather(v@, index@));
    out
}

/// The decision value of `x` restricted to the samples that `index` names.
///
/// `at` holds the signed coefficient of every sample and `support_vector` its
/// feature vector; only the entries that `index` names are read.
pub fn def_func_indexed<T: Float>(
    at: &Vec<T>,
    x: &Vec<T>,
    support_vector: &Vec<Vec<T>>,
    b: T,
    kernel: Kernel<T>,
    index: &Vec<usize>,
) -> (y: T)
    requires
        uniform(rows(support_vector@), x@.len()),
        in_range(index@, support_vector@.len()),
        in_range(index@, at@.len()),
    ensures
        y == decision_spec(at@, x@, rows(support_vector@), b, kernel, index@),
{
    let at_indexed = select(at, index);
    let k = kernel.eval_indexed(x, support_vector, index);
    dot(&at_indexed, &k).add(b)
}

/// The dual objective restricted to the samples that `index` names.
pub fn obj_func_indexed<T: Float>(
    a: &Vec<T>,
    t: &Vec<T>,
    x: &Vec<Vec<T>>,
    kernel: Kernel<T>,
    index: &Vec<usize>,
) -> (w: T)
    requires
        rectangular(rows(x@)),
        in_range(index@, a@.len()),
        in_range(index@, t@.len()),
        in_range(index@, x@.len()),
    ensures
        w == objective_spec(a@, t@, rows(x@), kernel, index@),
{
    let a_indexed = select(a, index);
    let t_indexed = select(t, index);
    let at_indexed = crate::float::hadamard(&a_indexed, &t_indexed);
    let a_sum = crate::float::sum(&a_indexed);
    let l = index.len();
    let ghost xs = gather(rows(x@), index@);
    let ghost row_sums = gram_row_sums(at_indexed@, xs, kernel);
    let mut pairs = T::zero();
    let mut n: usize = 0;
    while n < l
        invariant
            n <= l,
            l == index@.len(),
            at_indexed@.len() == l,
            rectangular(rows(x@)),
            in_range(index@, x@.len()),
            xs == gather(rows(x@), index@),
            row_sums == gram_row_sums(at_indexed@, xs, kernel),
            pairs == sum_spec(row_sums.take(n as int)),
        decreases l - n,
    {
        let ghost row = gram_row(at_indexed@, xs, kernel, n as int);
        let mut acc = T::zero();
        let mut m: usize = 0;
        while m < l
            invariant
                m <= l,
                n < l,
                l == index@.len(),
                at_indexed@.len() == l,
                rectangular(rows(x@)),
                in_range(index@, x@.len()),
                xs == gather(rows(x@), index@),
                row == gram_row(at_indexed@, xs, kernel, n as int),
                acc == sum_spec(row.take(m as int)),
            decreases l - m,
        {
            let xn = &x[index[n]];
            let xm = &x[index[m]];
            assert(rows(x@)[index@[n as int] as int] == xn@);
            assert(rows(x@)[index@[m as int] as int] == xm@);
            assert(rows(x@)[0].len() == xn@.len() && rows(x@)[0].len() == xm@.len());
            let term = at_indexed[n].mul(at_indexed[m]).mul(kernel.eval(xn, xm));
            assert(term == row[m as int]);
            assert(row.take(m + 1).drop_last() =~= row.take(m as int));
            acc = acc.add(term);
            m += 1;
        }
        assert(row.take(l as int) =~= row);
        assert(row_sums.take(n + 1).drop_last() =~= row_sums.take(n as int));
        pairs = pairs.add(acc);
        n += 1;
    }
    assert(row_sums.take(l as int) =~= row_sums);
    a_sum.sub(pairs.div(T::from_i32(2)))
}

} // verus!
