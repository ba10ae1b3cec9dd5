//! The parallel reducer: per-worker shares of the sum, and their merge.
use vstd::prelude::*;
use vstd::arithmetic::div_mod::lemma_mod_pos_bound;
use crate::matrix::{Matrix, add_rows, cells, is_square, matrix_sum, row_sum, simple_sum};
use crate::partition::{index_values, lemma_stride_partition, stride_indices, stride_rows};

verus! {

/// The rows one worker computed, each tagged with the index of the output
/// row that it belongs to.
pub struct ThreadSumResult {
    pub sum: Vec<Vec<i32>>,
    pub indices: Vec<usize>,
}

/// `p` is the share of worker `t` when `w` workers split the sum of `a` and
/// `b`: the rows of its stride, in order, each tagged with its index.
pub open spec fn is_worker_share(
    p: ThreadSumResult,
    a: Seq<Vec<i32>>,
    b: Seq<Vec<i32>>,
    w: int,
    t: int,
) -> bool {
    &&& index_values(p.indices@) == stride_rows(a.len() as int, w, t)
    &&& p.sum@.len() == p.indices@.len()
    &&& forall|k: int|
        0 <= k < p.sum@.len() ==> (#[trigger] p.sum@[k])@ == row_sum(
            a[p.indices@[k] as int]@,
            b[p.indices@[k] as int]@,
        )
}

/// `p` can be merged into a matrix of `n` rows: one row per index, every
/// index below `n`, the indices strictly increasing (so none comes twice).
pub open spec fn is_mergeable(p: ThreadSumResult, n: int) -> bool {
    &&& p.sum@.len() == p.indices@.len()
    &&& forall|k: int| 0 <= k < p.indices@.len() ==> (#[trigger] p.indices@[k]) < n
    &&& forall|k: int, l: int|
        0 <= k < l < p.indices@.len() ==> #[trigger] p.indices@[k] < #[trigger] p.indices@[l]
}

/// `m` is `prev` with each row of `p` written at its index.
pub open spec fn is_merged(m: Seq<Vec<i32>>, prev: Seq<Vec<i32>>, p: ThreadSumResult) -> bool {
    &&& m.len() == prev.len()
    &&& forall|k: int|
        0 <= k < p.indices@.len() ==> (#[trigger] m[p.indices@[k] as int])@ == p.sum@[k]@
    &&& forall|r: int|
        0 <= r < m.len() && !p.indices@.contains(r as usize) ==> #[trigger] m[r] == prev[r]
}

/// The shares of all `w` workers together hold the sum exactly once: row
/// `r` of the sum of `a` and `b` stands in the share of worker `r % w`, at
/// place `r / w`; and every row that a share holds lies below `n` and
/// belongs to that worker and that place, so no row comes twice.
pub proof fn lemma_shares_make_sum(a: Seq<Vec<i32>>, b: Seq<Vec<i32>>, shares: Seq<ThreadSumResult>)
    requires
        is_square(a, a.len()),
        is_square(b, a.len()),
        shares.len() > 0,
        forall|t: int|
            0 <= t < shares.len() ==> is_worker_share(
                #[trigger] shares[t],
                a,
                b,
                shares.len() as int,
                t,
            ),
    ensures
        forall|r: int|
            0 <= r < a.len() ==> {
                let w = shares.len() as int;
                let p = shares[r % w];
                &&& r / w < p.indices@.len()
                &&& p.indices@[r / w] == r
                &&& p.sum@[r / w]@ == row_sum((#[trigger] a[r])@, b[r]@)
            },
        forall|t: int, k: int|
            0 <= t < shares.len() && 0 <= k < shares[t].indices@.len() ==> {
                let w = shares.len() as int;
                let x = (#[trigger] shares[t].indices@[k]) as int;
                &&& x < a.len()
                &&& x % w == t
                &&& x / w == k
            },
{
    let n = a.len() as int;
    let w = shares.len() as int;
    lemma_stride_partition(n, w);
    assert forall|t: int, k: int| 0 <= t < w && 0 <= k < shares[t].indices@.len() implies (
    #[trigger] shares[t].indices@[k]) as int == stride_rows(n, w, t)[k] by {
        assert(is_worker_share(shares[t], a, b, w, t));
        assert(index_values(shares[t].indices@)[k] == shares[t].indices@[k] as int);
    }
    assert forall|r: int| 0 <= r < n implies {
        let p = shares[r % w];
        &&& r / w < p.indices@.len()
        &&& p.indices@[r / w] == r
        &&& p.sum@[r / w]@ == row_sum((#[trigger] a[r])@, b[r]@)
    } by {
        lemma_mod_pos_bound(r, w);
        let t = r % w;
        assert(is_worker_share(shares[t], a, b, w, t));
        assert(index_values(shares[t].indices@).len() == shares[t].indices@.len());
        assert(stride_rows(n, w, t)[r / w] == r);
    }
}

/// The work of worker `thread_index` of `workers`: the sums of the rows
/// `thread_index, thread_index + workers, ...` of `a` and `b`, tagged with
/// their indices.
pub fn thread_sum(a: &Matrix, b: &Matrix, workers: usize, thread_index: usize) -> (r:
    ThreadSumResult)
    requires
        is_square(a@, a@.len()),
        is_square(b@, a@.len()),
        workers > 0,
    ensures
        is_worker_share(r, a@, b@, workers as int, thread_index as int),
{
    let n = a.len();
    let indices = stride_indices(n, workers, thread_index);
    let ghost rows = stride_rows(n as int, workers as int, thread_index as int);
    let mut sum: Vec<Vec<i32>> = Vec::new();
    let mut k: usize = 0;
    while k < indices.len()
        invariant
            n == a@.len(),
            is_square(a@, n as nat),
            is_square(b@, n as nat),
            index_values(indices@) == rows,
            rows == stride_rows(n as int, workers as int, thread_index as int),
            forall|i: int| 0 <= i < indices@.len() ==> #[trigger] indices@[i] < n,
            k <= indices@.len(),
            sum@.len() == k,
            forall|i: int|
                0 <= i < k ==> (#[trigger] sum@[i])@ == row_sum(
                    a@[indices@[i] as int]@,
                    b@[indices@[i] as int]@,
                ),
        decreases indices@.len() - k,
    {
        let x = indices[k];
        let row = add_rows(&a[x], &b[x]);
        sum.push(row);
        k += 1;
    }
    ThreadSumResult { sum, indices }
}

/// Merges one worker's share into `sum`, writing each of its rows at the
/// row's index. A share that is not mergeable into `sum` (see
/// `is_mergeable`) is refused: `sum` is left as it was and `false` comes back.
pub fn merge_partial(sum: &mut Matrix, part: &ThreadSumResult) -> (merged: bool)
    ensures
        merged == is_mergeable(*part, old(sum)@.len() as int),
        merged ==> is_merged(final(sum)@, old(sum)@, *part),
        !merged ==> final(sum)@ == old(sum)@,
{
    let n = sum.len();
    let len = part.indices.len();
    if part.sum.len() != len {
        return false;
    }
    let mut i: usize = 0;
    while i < len
        invariant
            len == part.indices@.len(),
            len == part.sum@.len(),
            n == sum@.len(),
            i <= len,
            forall|k: int| 0 <= k < i ==> (#[trigger] part.indices@[k]) < n,
            forall|k: int, l: int|
                0 <= k < l < i ==> #[trigger] part.indices@[k] < #[trigger] part.indices@[l],
        decreases len - i,
    {
        if part.indices[i] >= n {
            assert(!(part.indices@[i as int] < n));
            return false;
        }
        if i > 0 && part.indices[i - 1] >= part.indices[i] {
            return false;
        }
        proof {
            assert forall|k: int, l: int| 0 <= k < l < i + 1 implies #[trigger] part.indices@[k]
                < #[trigger] part.indices@[l] by {
                if l == i && k < i - 1 {
                    assert(part.indices@[k] < part.indices@[i - 1]);
                }
            }
        }
        i += 1;
    }
    let ghost before = sum@;
    let mut k: usize = 0;
    while k < len
        invariant
            len == part.indices@.len(),
            len == part.sum@.len(),
            is_mergeable(*part, n as int),
            n == before.len(),
            sum@.len() == n,
            k <= len,
            forall|j: int| 0 <= j < k ==> (#[trigger] sum@[part.indices@[j] as int])@ == part.sum@[j]@,
            forall|r: int|
                0 <= r < n && (forall|j: int| 0 <= j < k ==> part.indices@[j] != r) ==> #[trigger] sum@[r]
                    == before[r],
        decreases len - k,
    {
        let row = part.sum[k].clone();
        sum.set(part.indices[k], row);
        assert(sum@[part.indices@[k as int] as int]@ =~= part.sum@[k as int]@);
        k += 1;
    }
    assert forall|r: int| 0 <= r < n && !part.indices@.contains(r as usize) implies #[trigger] sum@[r]
        == before[r] by {
        assert forall|j: int| 0 <= j < len implies part.indices@[j] != r by {
            if part.indices@[j] == r {
                assert(part.indices@.contains(r as usize));
            }
        }
    }
    true
}

/// An `n` by `n` matrix of zeros.
pub fn zero_matrix(n: usize) -> (m: Matrix)
    ensures
        is_square(m@, n as nat),
        forall|i: int, j: int| 0 <= i < n && 0 <= j < n ==> #[trigger] m@[i]@[j] == 0,
{
    let mut m: Matrix = Vec::with_capacity(n);
    let mut i: usize = 0;
    while i < n
        invariant
            i <= n,
            m@.len() == i,
            forall|k: int| 0 <= k < i ==> (#[trigger] m@[k])@.len() == n,
            forall|k: int, j: int| 0 <= k < i && 0 <= j < n ==> #[trigger] m@[k]@[j] == 0,
        decreases n - i,
    {
        let row: Vec<i32> = vec![0; n];
        m.push(row);
        i += 1;
    }
    m
}

/// `p` has the shape of worker `t`'s share when `w` workers split `n` rows:
/// its indices are the stride of `t`, with one row for each.
pub open spec fn is_stride_share(p: ThreadSumResult, n: int, w: int, t: int) -> bool {
    &&& index_values(p.indices@) == stride_rows(n, w, t)
    &&& p.sum@.len() == p.indices@.len()
}

/// Whether `p` has the shape of worker `t`'s share among `w` over `n` rows.
fn check_stride_share(p: &ThreadSumResult, n: usize, w: usize, t: usize) -> (ok: bool)
    requires
        w > 0,
    ensures
        ok == is_stride_share(*p, n as int, w as int, t as int),
{
    let expected = stride_indices(n, w, t);
    if p.indices.len() != expected.len() || p.sum.len() != p.indices.len() {
        assert(index_values(p.indices@).len() != index_values(expected@).len()
            || p.sum@.len() != p.indices@.len());
        return false;
    }
    let mut k: usize = 0;
    while k < expected.len()
        invariant
            p.indices@.len() == expected@.len(),
            index_values(expected@) == stride_rows(n as int, w as int, t as int),
            k <= expected@.len(),
            forall|i: int| 0 <= i < k ==> #[trigger] p.indices@[i] == expected@[i],
        decreases expected@.len() - k,
    {
        if p.indices[k] != expected[k] {
            assert(index_values(p.indices@)[k as int] != index_values(expected@)[k as int]);
            return false;
        }
        k += 1;
    }
    assert(index_values(p.indices@) =~= index_values(expected@));
    true
}

/// The merge after all workers have reported: writes row `r` of `sum` from
/// the share of worker `r % w` (at place `r / w`), where `w` is the number of
/// shares. Shares that do not have exactly the shape of the workers' strides
/// over the rows of `sum` are refused: `sum` is left as it was and `false`
/// comes back, so no row is ever dropped or written twice.
pub fn merge_shares(sum: &mut Matrix, shares: &Vec<ThreadSumResult>) -> (merged: bool)
    ensures
        merged == (shares@.len() > 0 && forall|t: int|
            0 <= t < shares@.len() ==> is_stride_share(
                #[trigger] shares@[t],
                old(sum)@.len() as int,
                shares@.len() as int,
                t,
            )),
        merged ==> final(sum)@.len() == old(sum)@.len() && forall|r: int|
            0 <= r < old(sum)@.len() ==> (#[trigger] final(sum)@[r])@ == shares@[r % (
            shares@.len() as int)].sum@[r / (shares@.len() as int)]@,
        !merged ==> final(sum)@ == old(sum)@,
{
    let n = sum.len();
    let w = shares.len();
    if w == 0 {
        return false;
    }
    let mut t: usize = 0;
    while t < w
        invariant
            w == shares@.len(),
            n == sum@.len(),
            0 < w,
            t <= w,
            forall|u: int| 0 <= u < t ==> is_stride_share(#[trigger] shares@[u], n as int, w as int, u),
        decreases w - t,
    {
        if !check_stride_share(&shares[t], n, w, t) {
            return false;
        }
        t += 1;
    }
    proof {
        lemma_stride_partition(n as int, w as int);
    }
    let ghost wi = w as int;
    let mut t: usize = 0;
    while t < w
        invariant
            w == shares@.len(),
            wi == w,
            0 < w,
            t <= w,
            sum@.len() == n,
            forall|u: int| 0 <= u < w ==> is_stride_share(#[trigger] shares@[u], n as int, wi, u),
            forall|r: int|
                0 <= r < n && r % wi < t ==> (#[trigger] sum@[r])@ == shares@[r % wi].sum@[r / wi]@,
            forall|tt: int, k: int|
                0 <= tt < w && 0 <= k < stride_rows(n as int, wi, tt).len() ==> (
                #[trigger] stride_rows(n as int, wi, tt)[k]) % wi == tt && stride_rows(
                    n as int,
                    wi,
                    tt,
                )[k] / wi == k,
            forall|tt: int, k: int|
                0 <= tt < w && 0 <= k < stride_rows(n as int, wi, tt).len() ==> 0
                    <= #[trigger] stride_rows(n as int, wi, tt)[k] < n,
            forall|r: int|
                0 <= r < n ==> r / wi < (#[trigger] stride_rows(n as int, wi, r % wi)).len()
                    && stride_rows(n as int, wi, r % wi)[r / wi] == r,
        decreases w - t,
    {
        let part = &shares[t];
        let ghost before = sum@;
        let ghost rows = stride_rows(n as int, wi, t as int);
        proof {
            assert(is_stride_share(shares@[t as int], n as int, wi, t as int));
            assert forall|k: int| 0 <= k < part.indices@.len() implies (#[trigger] part.indices@[k])
                as int == rows[k] by {
                assert(index_values(part.indices@)[k] == part.indices@[k] as int);
            }
            assert forall|k: int, l: int| 0 <= k < l < part.indices@.len() implies #[trigger] part.indices@[k]
                < #[trigger] part.indices@[l] by {
                assert(rows[k] == t + k * w);
                assert(rows[l] == t + l * w);
                assert(k * w < l * w) by (nonlinear_arith)
                    requires
                        k < l,
                        0 < w,
                ;
            }
        }
        let merged = merge_partial(sum, part);
        assert(merged);
        proof {
            assert forall|r: int| 0 <= r < n && r % wi < t + 1 implies (#[trigger] sum@[r])@
                == shares@[r % wi].sum@[r / wi]@ by {
                if r % wi == t {
                    let k = r / wi;
                    assert(rows[k] == r);
                    assert(part.indices@[k] as int == r);
                } else {
                    if part.indices@.contains(r as usize) {
                        let k = part.indices@.index_of(r as usize);
                        assert(part.indices@[k] as int == rows[k]);
                        assert(rows[k] % wi == t);
                    }
                    assert(sum@[r] == before[r]);
                }
            }
        }
        t += 1;
    }
    proof {
        assert forall|r: int| 0 <= r < n implies (#[trigger] sum@[r])@ == shares@[r % wi].sum@[r
            / wi]@ by {
            lemma_mod_pos_bound(r, wi);
        }
    }
    true
}

/// The parallel reducer, worker by worker: with `workers == 0` the
/// sequential reducer; otherwise the share of each worker is computed and
/// the shares are merged into a zeroed output. Either way the result is the
/// elementwise sum of `a` and `b`.
pub fn parallel_reduce(a: &Matrix, b: &Matrix, workers: usize) -> (r: Matrix)
    requires
        is_square(a@, a@.len()),
        is_square(b@, a@.len()),
    ensures
        is_square(r@, a@.len()),
        cells(r@) == matrix_sum(a@, b@),
{
    let n = a.len();
    let mut sum = zero_matrix(n);
    if workers == 0 {
        simple_sum(a, b, &mut sum);
        return sum;
    }
    let mut shares: Vec<ThreadSumResult> = Vec::with_capacity(workers);
    let mut t: usize = 0;
    while t < workers
        invariant
            n == a@.len(),
            is_square(a@, n as nat),
            is_square(b@, n as nat),
            t <= workers,
            shares@.len() == t,
            forall|u: int|
                0 <= u < t ==> is_worker_share(#[trigger] shares@[u], a@, b@, workers as int, u),
        decreases workers - t,
    {
        let part = thread_sum(a, b, workers, t);
        shares.push(part);
        t += 1;
    }
    proof {
        lemma_shares_make_sum(a@, b@, shares@);
    }
    let merged = merge_shares(&mut sum, &shares);
    assert(merged);
    assert(cells(sum@) =~= matrix_sum(a@, b@));
    assert forall|i: int| 0 <= i < n implies (#[trigger] sum@[i])@.len() == n by {
        assert(cells(sum@)[i] == sum@[i]@);
    }
    sum
}

} // verus!
