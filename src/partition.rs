//! Stride (round-robin) partitioning of row indices across workers.
use vstd::prelude::*;
use vstd::arithmetic::div_mod::{lemma_fundamental_div_mod, lemma_fundamental_div_mod_converse};

verus! {

/// How many of the rows `t, t + w, t + 2w, ...` lie below `n`.
pub open spec fn stride_count(n: int, w: int, t: int) -> int {
    if t < n {
        (n - 1 - t) / w + 1
    } else {
        0
    }
}

/// The rows that worker `t` of `w` owns among `n` rows:
/// `t, t + w, t + 2w, ...`, all below `n`, in increasing order.
pub open spec fn stride_rows(n: int, w: int, t: int) -> Seq<int> {
    Seq::new(stride_count(n, w, t) as nat, |k: int| t + k * w)
}

/// The rows of a stride, as plain integers.
pub open spec fn index_values(s: Seq<usize>) -> Seq<int> {
    s.map_values(|x: usize| x as int)
}

/// Once the `k`-th step of a stride from `t` reaches `n` and the one before
/// it did not, the stride holds exactly `k` rows.
pub proof fn lemma_stride_count_exact(n: int, w: int, t: int, k: int)
    requires
        0 <= t,
        0 < w,
        0 <= k,
        t + k * w >= n,
        k == 0 || t + (k - 1) * w < n,
        k == 0 ==> t >= n,
    ensures
        stride_count(n, w, t) == k,
{
    if k > 0 {
        let q = n - 1 - t;
        assert(0 <= q);
        assert((k - 1) * w <= q < k * w) by (nonlinear_arith)
            requires
                t + k * w >= n,
                t + (k - 1) * w < n,
                q == n - 1 - t,
        ;
        assert(q / w == k - 1) by (nonlinear_arith)
            requires
                (k - 1) * w <= q < k * w,
                0 < w,
                k > 0,
        ;
    }
}

/// Step `k` of the stride from `t` is one of its rows exactly when it lies
/// below `n`.
pub proof fn lemma_stride_member(n: int, w: int, t: int, k: int)
    requires
        0 <= t,
        0 < w,
        0 <= k,
    ensures
        k < stride_count(n, w, t) <==> t + k * w < n,
{
    assert(0 <= k * w) by (nonlinear_arith)
        requires
            0 <= k,
            0 < w,
    ;
    if t < n {
        let m = n - 1 - t;
        lemma_fundamental_div_mod(m, w);
        let q = m / w;
        assert(k <= q <==> k * w <= m) by (nonlinear_arith)
            requires
                m == w * q + m % w,
                0 <= m % w < w,
                0 < w,
        ;
    }
}

/// Stride partitioning is total and disjoint: with `w >= 1` workers, every
/// row of every stride lies below `n`; a row `r` found in stride `t` at
/// place `k` has `t == r % w` and `k == r / w`, so it stands in no other
/// stride and at no other place; and each row `r` below `n` does stand in
/// stride `r % w`, at place `r / w`.
pub proof fn lemma_stride_partition(n: int, w: int)
    requires
        0 <= n,
        0 < w,
    ensures
        forall|t: int, k: int|
            0 <= t < w && 0 <= k < stride_rows(n, w, t).len() ==> 0 <= #[trigger] stride_rows(
                n,
                w,
                t,
            )[k] < n,
        forall|t: int, k: int|
            0 <= t < w && 0 <= k < stride_rows(n, w, t).len() ==> (#[trigger] stride_rows(
                n,
                w,
                t,
            )[k]) % w == t && stride_rows(n, w, t)[k] / w == k,
        forall|r: int|
            0 <= r < n ==> r / w < (#[trigger] stride_rows(n, w, r % w)).len() && stride_rows(
                n,
                w,
                r % w,
            )[r / w] == r,
{
    assert forall|t: int, k: int|
        0 <= t < w && 0 <= k < stride_rows(n, w, t).len() implies 0 <= #[trigger] stride_rows(
        n,
        w,
        t,
    )[k] < n && (t + k * w) % w == t && (t + k * w) / w == k by {
        lemma_stride_member(n, w, t, k);
        assert(0 <= k * w) by (nonlinear_arith)
            requires
                0 <= k,
                0 < w,
        ;
        lemma_fundamental_div_mod_converse(t + k * w, w, k, t);
    }
    assert forall|r: int|
        0 <= r < n implies r / w < (#[trigger] stride_rows(n, w, r % w)).len() && stride_rows(
        n,
        w,
        r % w,
    )[r / w] == r by {
        lemma_fundamental_div_mod(r, w);
        assert(0 <= r / w) by (nonlinear_arith)
            requires
                0 <= r,
                0 < w,
        ;
        assert((r / w) * w == w * (r / w)) by (nonlinear_arith);
        lemma_stride_member(n, w, r % w, r / w);
    }
}

/// With more workers than rows, the workers from `n` on own no row, and
/// each worker below `n` owns just its own row, as it does when there are
/// exactly `n` workers.
pub proof fn lemma_oversubscribed_strides(n: int, w: int)
    requires
        0 <= n < w,
    ensures
        forall|t: int| n <= t < w ==> (#[trigger] stride_rows(n, w, t)).len() == 0,
        forall|t: int|
            0 <= t < n ==> #[trigger] stride_rows(n, w, t) == stride_rows(n, n, t)
                && stride_rows(n, w, t) == seq![t],
{
    assert forall|t: int| 0 <= t < n implies #[trigger] stride_rows(n, w, t) == stride_rows(n, n, t)
        && stride_rows(n, w, t) == seq![t] by {
        let m = n - 1 - t;
        assert(m / w == 0) by (nonlinear_arith)
            requires
                0 <= m < w,
        ;
        assert(m / n == 0) by (nonlinear_arith)
            requires
                0 <= m < n,
        ;
        assert(stride_rows(n, w, t) =~= seq![t]);
        assert(stride_rows(n, n, t) =~= seq![t]);
    }
}

/// Lists the rows owned by worker `t` of `w` among `n`, in increasing order.
pub fn stride_indices(n: usize, w: usize, t: usize) -> (r: Vec<usize>)
    requires
        w > 0,
    ensures
        index_values(r@) == stride_rows(n as int, w as int, t as int),
        forall|i: int| 0 <= i < r@.len() ==> #[trigger] r@[i] < n,
{
    let mut r: Vec<usize> = Vec::new();
    let mut x: usize = t;
    let ghost mut k: int = 0;
    while x < n
        invariant
            w > 0,
            0 <= k,
            x >= n ==> x == t + k * w || (x == n && t + k * w >= n),
            x < n ==> x == t + k * w,
            k > 0 ==> t + (k - 1) * w < n,
            r@.len() == k,
            forall|i: int| 0 <= i < k ==> (#[trigger] r@[i]) as int == t + i * w,
            forall|i: int| 0 <= i < k ==> #[trigger] r@[i] < n,
        decreases n - x,
    {
        r.push(x);
        proof {
            k = k + 1;
            assert((k - 1) * w + w == k * w) by (nonlinear_arith);
        }
        if n - x > w {
            x = x + w;
        } else {
            x = n;
        }
    }
    proof {
        if k == 0 {
            assert(t >= n);
        }
        lemma_stride_count_exact(n as int, w as int, t as int, k);
    }
    assert(index_values(r@) =~= stride_rows(n as int, w as int, t as int));
    r
}

} // verus!
