use vstd::prelude::*;

verus! {

/// `f(i, b)` summed over `i < b < j`: one row of the upper triangle.
pub open spec fn row_sum(f: spec_fn(int, int) -> int, i: int, j: int) -> int
    decreases j - i,
{
    if j <= i + 1 {
        0
    } else {
        row_sum(f, i, j - 1) + f(i, j - 1)
    }
}

/// `f(a, b)` summed over every pair `a < b < n` with `a < i`.
pub open spec fn tri_sum(f: spec_fn(int, int) -> int, i: int, n: int) -> int
    decreases i,
{
    if i <= 0 {
        0
    } else {
        tri_sum(f, i - 1, n) + row_sum(f, i - 1, n)
    }
}

/// `f(k)` summed over `k < m`.
pub open spec fn seq_sum(f: spec_fn(int) -> int, m: int) -> int
    decreases m,
{
    if m <= 0 {
        0
    } else {
        seq_sum(f, m - 1) + f(m - 1)
    }
}

pub proof fn lemma_row_sum_ext(f: spec_fn(int, int) -> int, g: spec_fn(int, int) -> int, i: int, j: int)
    requires
        forall|b: int| i < b < j ==> #[trigger] f(i, b) == g(i, b),
    ensures
        row_sum(f, i, j) == row_sum(g, i, j),
    decreases j - i,
{
    if j > i + 1 {
        lemma_row_sum_ext(f, g, i, j - 1);
    }
}

/// Two functions that agree on the first `i` rows of the triangle below `n`
/// have the same sum there.
pub proof fn lemma_tri_sum_ext(f: spec_fn(int, int) -> int, g: spec_fn(int, int) -> int, i: int, n: int)
    requires
        forall|a: int, b: int| 0 <= a < i && a < b < n ==> #[trigger] f(a, b) == g(a, b),
    ensures
        tri_sum(f, i, n) == tri_sum(g, i, n),
    decreases i,
{
    if i > 0 {
        lemma_tri_sum_ext(f, g, i - 1, n);
        lemma_row_sum_ext(f, g, i - 1, n);
    }
}

pub proof fn lemma_row_sum_bound(f: spec_fn(int, int) -> int, i: int, j: int, bound: int)
    requires
        bound >= 0,
        i >= 0,
        j >= 0,
        forall|a: int, b: int| -bound <= #[trigger] f(a, b) <= bound,
    ensures
        -(j * bound) <= row_sum(f, i, j) <= j * bound,
    decreases j - i,
{
    if j > i + 1 {
        lemma_row_sum_bound(f, i, j - 1, bound);
        assert((j - 1) * bound + bound == j * bound) by (nonlinear_arith);
        assert(f(i, j - 1) <= bound);
    } else {
        assert(0 <= j * bound) by (nonlinear_arith)
            requires j >= 0, bound >= 0;
    }
}

/// Each term bounded by `bound` keeps a partial triangle sum within `i * n * bound`.
pub proof fn lemma_tri_sum_bound(f: spec_fn(int, int) -> int, i: int, n: int, bound: int)
    requires
        bound >= 0,
        n >= 0,
        i >= 0,
        forall|a: int, b: int| -bound <= #[trigger] f(a, b) <= bound,
    ensures
        -(i * n * bound) <= tri_sum(f, i, n) <= i * n * bound,
    decreases i,
{
    if i > 0 {
        lemma_tri_sum_bound(f, i - 1, n, bound);
        lemma_row_sum_bound(f, i - 1, n, bound);
        assert((i - 1) * n * bound + n * bound == i * n * bound) by (nonlinear_arith);
    }
}

pub proof fn lemma_row_sum_add(f: spec_fn(int, int) -> int, g: spec_fn(int, int) -> int, h: spec_fn(int, int) -> int, i: int, j: int)
    requires
        forall|a: int, b: int| #[trigger] h(a, b) == f(a, b) + g(a, b),
    ensures
        row_sum(h, i, j) == row_sum(f, i, j) + row_sum(g, i, j),
    decreases j - i,
{
    if j > i + 1 {
        lemma_row_sum_add(f, g, h, i, j - 1);
    }
}

/// The triangle sum is additive in the summed function.
pub proof fn lemma_tri_sum_add(f: spec_fn(int, int) -> int, g: spec_fn(int, int) -> int, h: spec_fn(int, int) -> int, i: int, n: int)
    requires
        forall|a: int, b: int| #[trigger] h(a, b) == f(a, b) + g(a, b),
    ensures
        tri_sum(h, i, n) == tri_sum(f, i, n) + tri_sum(g, i, n),
    decreases i,
{
    if i > 0 {
        lemma_tri_sum_add(f, g, h, i - 1, n);
        lemma_row_sum_add(f, g, h, i - 1, n);
    }
}

pub proof fn lemma_tri_sum_zero(f: spec_fn(int, int) -> int, i: int, n: int)
    requires
        forall|a: int, b: int| 0 <= a < i && a < b < n ==> #[trigger] f(a, b) == 0,
    ensures
        tri_sum(f, i, n) == 0,
{
    lemma_tri_sum_ext(f, |a: int, b: int| 0int, i, n);
    lemma_tri_sum_const_zero(i, n);
}

proof fn lemma_tri_sum_const_zero(i: int, n: int)
    ensures
        tri_sum(|a: int, b: int| 0int, i, n) == 0,
    decreases i,
{
    if i > 0 {
        lemma_tri_sum_const_zero(i - 1, n);
        lemma_row_sum_const_zero(i - 1, n);
    }
}

proof fn lemma_row_sum_const_zero(i: int, j: int)
    ensures
        row_sum(|a: int, b: int| 0int, i, j) == 0,
    decreases j - i,
{
    if j > i + 1 {
        lemma_row_sum_const_zero(i, j - 1);
    }
}

} // verus!

verus! {

pub proof fn lemma_seq_sum_bound(f: spec_fn(int) -> int, m: int, bound: int)
    requires
        m >= 0,
        forall|k: int| 0 <= k < m ==> -bound < #[trigger] f(k) < bound,
    ensures
        m > 0 ==> -(m * bound) < seq_sum(f, m) < m * bound,
    decreases m,
{
    if m > 0 {
        lemma_seq_sum_bound(f, m - 1, bound);
        assert((m - 1) * bound + bound == m * bound) by (nonlinear_arith);
        assert(-bound < f(m - 1) < bound);
        if m == 1 {
            assert(seq_sum(f, 0) == 0);
        }
    }
}

/// Subtracting the same value from every term subtracts `m` times it from the sum.
pub proof fn lemma_seq_sum_shift(f: spec_fn(int) -> int, g: spec_fn(int) -> int, m: int, c: int)
    requires
        m >= 0,
        forall|k: int| 0 <= k < m ==> #[trigger] g(k) == f(k) - c,
    ensures
        seq_sum(g, m) == seq_sum(f, m) - m * c,
    decreases m,
{
    if m > 0 {
        lemma_seq_sum_shift(f, g, m - 1, c);
        assert((m - 1) * c + c == m * c) by (nonlinear_arith);
        assert(g(m - 1) == f(m - 1) - c);
    } else {
        assert(m * c == 0) by (nonlinear_arith)
            requires m == 0;
    }
}

/// Multiplying every term by `c` multiplies the sum by `c`.
pub proof fn lemma_seq_sum_scale(f: spec_fn(int) -> int, g: spec_fn(int) -> int, m: int, c: int)
    requires
        forall|k: int| 0 <= k < m ==> #[trigger] g(k) == c * f(k),
    ensures
        seq_sum(g, m) == c * seq_sum(f, m),
    decreases m,
{
    if m > 0 {
        lemma_seq_sum_scale(f, g, m - 1, c);
        assert(c * seq_sum(f, m - 1) + c * f(m - 1) == c * (seq_sum(f, m - 1) + f(m - 1))) by (nonlinear_arith);
    }
}

} // verus!

verus! {

/// Over nonnegative terms a longer prefix has a larger sum.
pub proof fn lemma_seq_sum_monotone(f: spec_fn(int) -> int, m1: int, m2: int)
    requires
        0 <= m1 <= m2,
        forall|k: int| 0 <= k < m2 ==> #[trigger] f(k) >= 0,
    ensures
        seq_sum(f, m1) <= seq_sum(f, m2),
    decreases m2 - m1,
{
    if m1 < m2 {
        lemma_seq_sum_monotone(f, m1, m2 - 1);
        assert(f(m2 - 1) >= 0);
    }
}

} // verus!
