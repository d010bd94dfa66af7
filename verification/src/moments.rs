//! The update rule of the estimator over exact real numbers, the statistics
//! read from its state, and what they amount to. Machine arithmetic rounds;
//! nothing here speaks of rounding.

use vstd::prelude::*;
use vstd::seq_lib::{to_multiset_contains, to_multiset_len, to_multiset_remove};
use crate::arith::{
    lemma_deviation_grows, lemma_distributes, lemma_moved_product, lemma_one_more,
    lemma_one_times, lemma_quotient, lemma_scaled_step, lemma_times_zero, lemma_zero_times,
};
use crate::count::bessel_divisor;

verus! {

/// One joint observation of the two variables.
pub struct Sample {
    pub x: real,
    pub y: real,
}

/// The state of the estimator: how many samples it has taken in, the mean of
/// each variable, and the sums of products of deviations from those means.
pub struct Moments {
    pub count: nat,
    pub mean_x: real,
    pub mean_y: real,
    pub co_moment: real,
    pub sq_dev_x: real,
    pub sq_dev_y: real,
}

impl Moments {
    /// The state before any sample.
    pub open spec fn empty() -> Moments {
        Moments {
            count: 0,
            mean_x: 0real,
            mean_y: 0real,
            co_moment: 0real,
            sq_dev_x: 0real,
            sq_dev_y: 0real,
        }
    }

    /// The state after one more sample. The deviations of the sample from the
    /// means held so far are divided by the new count; the means move by
    /// these quotients, and the three sums grow by the products of the
    /// quotients, scaled by `n * (n - 1)`.
    pub open spec fn push(self, s: Sample) -> Moments {
        let n = (self.count + 1) as real;
        let delta_x = (s.x - self.mean_x) / n;
        let delta_y = (s.y - self.mean_y) / n;
        let n1 = n * (n - 1real);
        Moments {
            count: self.count + 1,
            mean_x: self.mean_x + delta_x,
            mean_y: self.mean_y + delta_y,
            co_moment: self.co_moment + delta_x * delta_y * n1,
            sq_dev_x: self.sq_dev_x + delta_x * delta_x * n1,
            sq_dev_y: self.sq_dev_y + delta_y * delta_y * n1,
        }
    }

    /// The state after the samples of a stream, taken in from first to last.
    pub open spec fn of(samples: Seq<Sample>) -> Moments
        decreases samples.len(),
    {
        if samples.len() == 0 {
            Moments::empty()
        } else {
            Moments::of(samples.drop_last()).push(samples.last())
        }
    }

    /// A sum of the state over the Bessel divisor, or zero while the divisor
    /// does not exist.
    pub open spec fn unbiased(self, sum: real) -> real {
        match bessel_divisor(self.count) {
            Some(d) => sum / (d as real),
            None => 0real,
        }
    }

    /// The unbiased estimate of the covariance of the two variables.
    pub open spec fn sample_covariance(self) -> real {
        self.unbiased(self.co_moment)
    }

    /// The unbiased estimate of the variance of the first variable.
    pub open spec fn sample_variance_x(self) -> real {
        self.unbiased(self.sq_dev_x)
    }

    /// The unbiased estimate of the variance of the second variable.
    pub open spec fn sample_variance_y(self) -> real {
        self.unbiased(self.sq_dev_y)
    }
}

/// The sum of `f` over the samples.
pub open spec fn total(samples: Seq<Sample>, f: spec_fn(Sample) -> real) -> real
    decreases samples.len(),
{
    if samples.len() == 0 {
        0real
    } else {
        total(samples.drop_last(), f) + f(samples.last())
    }
}

/// The first variable of a sample.
pub open spec fn coord_x() -> spec_fn(Sample) -> real {
    |s: Sample| s.x
}

/// The second variable of a sample.
pub open spec fn coord_y() -> spec_fn(Sample) -> real {
    |s: Sample| s.y
}

/// The sum over the samples of the product of the deviation of `u` from `a`
/// and the deviation of `v` from `b`.
pub open spec fn deviation_products(
    samples: Seq<Sample>,
    u: spec_fn(Sample) -> real,
    v: spec_fn(Sample) -> real,
    a: real,
    b: real,
) -> real {
    total(samples, |s: Sample| (u(s) - a) * (v(s) - b))
}

/// The arithmetic mean of `u` over the samples, zero for no samples.
pub open spec fn mean(samples: Seq<Sample>, u: spec_fn(Sample) -> real) -> real {
    if samples.len() == 0 {
        0real
    } else {
        total(samples, u) / (samples.len() as real)
    }
}

/// Moving the two reference points of a sum of deviation products changes
/// the sum by terms in the plain deviations of each variable and in the
/// number of samples.
proof fn lemma_deviation_products_moved(
    samples: Seq<Sample>,
    u: spec_fn(Sample) -> real,
    v: spec_fn(Sample) -> real,
    a: real,
    b: real,
    da: real,
    db: real,
)
    ensures
        deviation_products(samples, u, v, a + da, b + db) == deviation_products(
            samples,
            u,
            v,
            a,
            b,
        ) - db * (total(samples, u) - (samples.len() as real) * a) - da * (total(samples, v) - (
        samples.len() as real) * b) + (samples.len() as real) * (da * db),
    decreases samples.len(),
{
    if samples.len() == 0 {
        lemma_zero_times(a);
        lemma_zero_times(b);
        lemma_zero_times(da * db);
        lemma_times_zero(da);
        lemma_times_zero(db);
    } else {
        let rest = samples.drop_last();
        let m = rest.len() as real;
        let p = u(samples.last());
        let q = v(samples.last());
        lemma_deviation_products_moved(rest, u, v, a, b, da, db);
        lemma_moved_product(p, q, a, b, da, db);
        lemma_deviation_grows(db, total(rest, u), p, m, a);
        lemma_deviation_grows(da, total(rest, v), q, m, b);
        lemma_one_more(m, da * db);
        assert(samples.len() as real == m + 1real);
    }
}

/// The number of samples times their mean is their total.
proof fn lemma_mean_times_len(samples: Seq<Sample>, u: spec_fn(Sample) -> real)
    ensures
        (samples.len() as real) * mean(samples, u) == total(samples, u),
{
    if samples.len() == 0 {
        lemma_zero_times(mean(samples, u));
    } else {
        lemma_quotient(total(samples, u), samples.len() as real);
    }
}

/// The mean after one more sample: the mean so far, moved by the sample's
/// deviation from it over the new count.
proof fn lemma_push_mean(rest: Seq<Sample>, s: Sample, u: spec_fn(Sample) -> real)
    ensures
        mean(rest.push(s), u) == mean(rest, u) + (u(s) - mean(rest, u)) / ((rest.len() + 1) as real),
{
    let k = rest.len() as real;
    let n = (rest.len() + 1) as real;
    let a = mean(rest, u);
    let d = (u(s) - a) / n;
    assert(rest.push(s).drop_last() =~= rest);
    assert(total(rest.push(s), u) == total(rest, u) + u(s));
    lemma_mean_times_len(rest, u);
    lemma_quotient(u(s) - a, n);
    lemma_one_more(k, a);
    assert(n == k + 1real);
    lemma_distributes(n, a, d);
    assert(n * (a + d) == total(rest.push(s), u));
    lemma_quotient(a + d, n);
}

/// The sum of deviation products about the means after one more sample: the
/// sum so far, plus the product of the two quotients that moved the means,
/// scaled by `n * (n - 1)`.
proof fn lemma_push_products(
    rest: Seq<Sample>,
    s: Sample,
    u: spec_fn(Sample) -> real,
    v: spec_fn(Sample) -> real,
)
    ensures
        ({
            let n = (rest.len() + 1) as real;
            let a = mean(rest, u);
            let b = mean(rest, v);
            let da = (u(s) - a) / n;
            let db = (v(s) - b) / n;
            deviation_products(rest.push(s), u, v, a + da, b + db) == deviation_products(
                rest,
                u,
                v,
                a,
                b,
            ) + da * db * (n * (n - 1real))
        }),
{
    let k = rest.len() as real;
    let n = (rest.len() + 1) as real;
    let a = mean(rest, u);
    let b = mean(rest, v);
    let da = (u(s) - a) / n;
    let db = (v(s) - b) / n;
    assert(n == k + 1real);
    assert(rest.push(s).drop_last() =~= rest);
    assert(deviation_products(rest.push(s), u, v, a + da, b + db) == deviation_products(
        rest,
        u,
        v,
        a + da,
        b + db,
    ) + (u(s) - (a + da)) * (v(s) - (b + db)));
    lemma_deviation_products_moved(rest, u, v, a, b, da, db);
    lemma_mean_times_len(rest, u);
    lemma_mean_times_len(rest, v);
    lemma_times_zero(da);
    lemma_times_zero(db);
    lemma_quotient(u(s) - a, n);
    lemma_quotient(v(s) - b, n);
    lemma_one_more(k, da);
    lemma_one_more(k, db);
    assert(u(s) - (a + da) == k * da);
    assert(v(s) - (b + db) == k * db);
    lemma_scaled_step(k, da, db);
}

/// After any stream the state holds the number of samples, the arithmetic
/// mean of each variable, and the sums of the products of the deviations from
/// those means: of the two variables with each other, and of each variable
/// with itself.
pub proof fn lemma_closed_form(samples: Seq<Sample>)
    ensures
        Moments::of(samples).count == samples.len(),
        Moments::of(samples).mean_x == mean(samples, coord_x()),
        Moments::of(samples).mean_y == mean(samples, coord_y()),
        Moments::of(samples).co_moment == deviation_products(
            samples,
            coord_x(),
            coord_y(),
            mean(samples, coord_x()),
            mean(samples, coord_y()),
        ),
        Moments::of(samples).sq_dev_x == deviation_products(
            samples,
            coord_x(),
            coord_x(),
            mean(samples, coord_x()),
            mean(samples, coord_x()),
        ),
        Moments::of(samples).sq_dev_y == deviation_products(
            samples,
            coord_y(),
            coord_y(),
            mean(samples, coord_y()),
            mean(samples, coord_y()),
        ),
    decreases samples.len(),
{
    if samples.len() > 0 {
        let rest = samples.drop_last();
        let s = samples.last();
        assert(rest.push(s) =~= samples);
        lemma_closed_form(rest);
        lemma_push_mean(rest, s, coord_x());
        lemma_push_mean(rest, s, coord_y());
        lemma_push_products(rest, s, coord_x(), coord_y());
        lemma_push_products(rest, s, coord_x(), coord_x());
        lemma_push_products(rest, s, coord_y(), coord_y());
    }
}

/// A total is the total without one of the samples, plus that sample's term.
proof fn lemma_total_without(samples: Seq<Sample>, i: int, f: spec_fn(Sample) -> real)
    requires
        0 <= i < samples.len(),
    ensures
        total(samples, f) == total(samples.remove(i), f) + f(samples[i]),
    decreases samples.len(),
{
    if i == samples.len() - 1 {
        assert(samples.remove(i) =~= samples.drop_last());
    } else {
        lemma_total_without(samples.drop_last(), i, f);
        assert(samples.remove(i).drop_last() =~= samples.drop_last().remove(i));
        assert(samples.remove(i).last() == samples.last());
    }
}

/// A total does not depend on the order of the samples.
proof fn lemma_total_rearranged(s: Seq<Sample>, t: Seq<Sample>, f: spec_fn(Sample) -> real)
    requires
        s.to_multiset() == t.to_multiset(),
    ensures
        s.len() == t.len(),
        total(s, f) == total(t, f),
    decreases s.len(),
{
    to_multiset_len(s);
    to_multiset_len(t);
    if s.len() > 0 {
        let e = s.last();
        let last = s.len() - 1;
        assert(s.contains(e));
        to_multiset_contains(s, e);
        to_multiset_contains(t, e);
        let i = choose|i: int| 0 <= i < t.len() && t[i] == e;
        to_multiset_remove(s, last);
        to_multiset_remove(t, i);
        assert(s.remove(last) =~= s.drop_last());
        lemma_total_rearranged(s.drop_last(), t.remove(i), f);
        lemma_total_without(t, i, f);
    }
}

/// The state reached depends on which samples were taken in and how often
/// each, not on their order.
pub proof fn lemma_order_invariant(s: Seq<Sample>, t: Seq<Sample>)
    requires
        s.to_multiset() == t.to_multiset(),
    ensures
        Moments::of(s) == Moments::of(t),
{
    lemma_closed_form(s);
    lemma_closed_form(t);
    let ax = mean(s, coord_x());
    let ay = mean(s, coord_y());
    lemma_total_rearranged(s, t, coord_x());
    lemma_total_rearranged(s, t, coord_y());
    lemma_total_rearranged(s, t, |p: Sample| (coord_x()(p) - ax) * (coord_y()(p) - ay));
    lemma_total_rearranged(s, t, |p: Sample| (coord_x()(p) - ax) * (coord_x()(p) - ax));
    lemma_total_rearranged(s, t, |p: Sample| (coord_y()(p) - ay) * (coord_y()(p) - ay));
}

/// From two samples on, the three estimates are the sums of products of
/// deviations from the arithmetic means, over one less than the number of
/// samples.
pub proof fn lemma_estimates(samples: Seq<Sample>)
    requires
        samples.len() >= 2,
    ensures
        Moments::of(samples).sample_covariance() == deviation_products(
            samples,
            coord_x(),
            coord_y(),
            mean(samples, coord_x()),
            mean(samples, coord_y()),
        ) / ((samples.len() - 1) as real),
        Moments::of(samples).sample_variance_x() == deviation_products(
            samples,
            coord_x(),
            coord_x(),
            mean(samples, coord_x()),
            mean(samples, coord_x()),
        ) / ((samples.len() - 1) as real),
        Moments::of(samples).sample_variance_y() == deviation_products(
            samples,
            coord_y(),
            coord_y(),
            mean(samples, coord_y()),
            mean(samples, coord_y()),
        ) / ((samples.len() - 1) as real),
{
    lemma_closed_form(samples);
}

/// Before any sample the count, both means and all three estimates are zero.
pub proof fn lemma_nothing_seen()
    ensures
        Moments::of(Seq::empty()) == Moments::empty(),
        Moments::empty().count == 0,
        Moments::empty().mean_x == 0real,
        Moments::empty().mean_y == 0real,
        Moments::empty().sample_covariance() == 0real,
        Moments::empty().sample_variance_x() == 0real,
        Moments::empty().sample_variance_y() == 0real,
{
}

/// After a single sample the means are the sample itself, and all three
/// estimates are still zero.
pub proof fn lemma_single_sample(s: Sample)
    ensures
        Moments::of(seq![s]) == Moments::empty().push(s),
        Moments::of(seq![s]).count == 1,
        Moments::of(seq![s]).mean_x == s.x,
        Moments::of(seq![s]).mean_y == s.y,
        Moments::of(seq![s]).sample_covariance() == 0real,
        Moments::of(seq![s]).sample_variance_x() == 0real,
        Moments::of(seq![s]).sample_variance_y() == 0real,
{
    let one = seq![s];
    assert(one.drop_last() =~= Seq::<Sample>::empty());
    assert(one.last() == s);
    assert(Moments::of(one.drop_last()) == Moments::empty());
    lemma_quotient(s.x, 1real);
    lemma_quotient(s.y, 1real);
    lemma_one_times(s.x / 1real);
    lemma_one_times(s.y / 1real);
}

/// Where the two variables are equal in every sample, their means are equal,
/// and the covariance estimate is the variance estimate of either.
pub proof fn lemma_equal_variables(samples: Seq<Sample>)
    requires
        forall|i: int| 0 <= i < samples.len() ==> samples[i].x == samples[i].y,
    ensures
        Moments::of(samples).mean_x == Moments::of(samples).mean_y,
        Moments::of(samples).co_moment == Moments::of(samples).sq_dev_x,
        Moments::of(samples).co_moment == Moments::of(samples).sq_dev_y,
        Moments::of(samples).sample_covariance() == Moments::of(samples).sample_variance_x(),
        Moments::of(samples).sample_covariance() == Moments::of(samples).sample_variance_y(),
    decreases samples.len(),
{
    if samples.len() > 0 {
        lemma_equal_variables(samples.drop_last());
    }
}

/// The samples with one constant added to the first variable and another to
/// the second.
pub open spec fn offset(samples: Seq<Sample>, cx: real, cy: real) -> Seq<Sample> {
    Seq::new(samples.len(), |i: int| Sample { x: samples[i].x + cx, y: samples[i].y + cy })
}

/// Adding a constant to every sample of a variable moves its mean by that
/// constant and leaves the three sums, and so the three estimates, as they
/// were.
pub proof fn lemma_offset_invariant(samples: Seq<Sample>, cx: real, cy: real)
    ensures
        Moments::of(offset(samples, cx, cy)).count == Moments::of(samples).count,
        samples.len() > 0 ==> Moments::of(offset(samples, cx, cy)).mean_x == Moments::of(
            samples,
        ).mean_x + cx,
        samples.len() > 0 ==> Moments::of(offset(samples, cx, cy)).mean_y == Moments::of(
            samples,
        ).mean_y + cy,
        Moments::of(offset(samples, cx, cy)).co_moment == Moments::of(samples).co_moment,
        Moments::of(offset(samples, cx, cy)).sq_dev_x == Moments::of(samples).sq_dev_x,
        Moments::of(offset(samples, cx, cy)).sq_dev_y == Moments::of(samples).sq_dev_y,
        Moments::of(offset(samples, cx, cy)).sample_covariance() == Moments::of(
            samples,
        ).sample_covariance(),
        Moments::of(offset(samples, cx, cy)).sample_variance_x() == Moments::of(
            samples,
        ).sample_variance_x(),
        Moments::of(offset(samples, cx, cy)).sample_variance_y() == Moments::of(
            samples,
        ).sample_variance_y(),
    decreases samples.len(),
{
    let moved = offset(samples, cx, cy);
    if samples.len() > 0 {
        let rest = samples.drop_last();
        let s = samples.last();
        assert(moved.drop_last() =~= offset(rest, cx, cy));
        assert(moved.last() == Sample { x: s.x + cx, y: s.y + cy });
        lemma_offset_invariant(rest, cx, cy);
        if rest.len() == 0 {
            let dx = (s.x - 0real) / 1real;
            let dy = (s.y - 0real) / 1real;
            let ex = (s.x + cx - 0real) / 1real;
            let ey = (s.y + cy - 0real) / 1real;
            lemma_quotient(s.x, 1real);
            lemma_quotient(s.y, 1real);
            lemma_quotient(s.x + cx, 1real);
            lemma_quotient(s.y + cy, 1real);
            lemma_one_times(dx);
            lemma_one_times(dy);
            lemma_one_times(ex);
            lemma_one_times(ey);
            lemma_times_zero(1real);
            lemma_times_zero(dx * dy);
            lemma_times_zero(dx * dx);
            lemma_times_zero(dy * dy);
            lemma_times_zero(ex * ey);
            lemma_times_zero(ex * ex);
            lemma_times_zero(ey * ey);
        }
    }
}

} // verus!
