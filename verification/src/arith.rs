//! Identities of real arithmetic that the proofs about the estimator use.

use vstd::prelude::*;

verus! {

/// Zero times anything is zero.
pub(crate) proof fn lemma_zero_times(t: real)
    by (nonlinear_arith)
    ensures
        0real * t == 0real,
{
}

/// Anything times zero is zero.
pub(crate) proof fn lemma_times_zero(t: real)
    by (nonlinear_arith)
    ensures
        t * 0real == 0real,
{
}

/// One times anything is itself.
pub(crate) proof fn lemma_one_times(t: real)
    by (nonlinear_arith)
    ensures
        1real * t == t,
{
}

/// One more copy of a term.
pub(crate) proof fn lemma_one_more(m: real, t: real)
    by (nonlinear_arith)
    ensures
        (m + 1real) * t == m * t + t,
{
}

/// A factor times a sum is the sum of the products.
pub(crate) proof fn lemma_distributes(n: real, a: real, d: real)
    by (nonlinear_arith)
    ensures
        n * (a + d) == n * a + n * d,
{
}

/// A quotient times its divisor gives back the dividend.
pub(crate) proof fn lemma_quotient(t: real, n: real)
    by (nonlinear_arith)
    requires
        n != 0real,
    ensures
        n * (t / n) == t,
        (n * t) / n == t,
{
}

/// The product of two moved deviations, written over the deviations before
/// the move.
pub(crate) proof fn lemma_moved_product(p: real, q: real, a: real, b: real, da: real, db: real)
    by (nonlinear_arith)
    ensures
        (p - (a + da)) * (q - (b + db)) == (p - a) * (q - b) - db * (p - a) - da * (q - b) + da
            * db,
{
}

/// A factor times a total deviation that takes in one more term.
pub(crate) proof fn lemma_deviation_grows(d: real, sum: real, p: real, m: real, a: real)
    by (nonlinear_arith)
    ensures
        d * ((sum + p) - (m + 1real) * a) == d * (sum - m * a) + d * (p - a),
{
}

/// The growth of a sum of deviation products that the update rule adds,
/// written over the count before the sample.
pub(crate) proof fn lemma_scaled_step(k: real, da: real, db: real)
    by (nonlinear_arith)
    ensures
        k * (da * db) + (k * da) * (k * db) == da * db * ((k + 1real) * ((k + 1real) - 1real)),
{
}

} // verus!
