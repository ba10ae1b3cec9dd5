//! The matrix model and the sequential reducer.
use vstd::prelude::*;

verus! {

/// A square matrix, stored row by row.
pub type Matrix = Vec<Vec<i32>>;

/// The sum of two `i32` values, wrapped into the `i32` range as the
/// two's-complement hardware does.
pub open spec fn cell_sum(x: i32, y: i32) -> i32 {
    if x + y > i32::MAX {
        (x + y - 0x1_0000_0000) as i32
    } else if x + y < i32::MIN {
        (x + y + 0x1_0000_0000) as i32
    } else {
        (x + y) as i32
    }
}

/// The cells of a matrix, as a sequence of rows.
pub open spec fn cells(m: Seq<Vec<i32>>) -> Seq<Seq<i32>> {
    m.map_values(|r: Vec<i32>| r@)
}

/// `m` has `n` rows of `n` cells each.
pub open spec fn is_square(m: Seq<Vec<i32>>, n: nat) -> bool {
    &&& m.len() == n
    &&& forall|i: int| 0 <= i < n ==> (#[trigger] m[i])@.len() == n
}

/// The elementwise sum of two rows (as long as the first).
pub open spec fn row_sum(a: Seq<i32>, b: Seq<i32>) -> Seq<i32> {
    Seq::new(a.len(), |j: int| cell_sum(a[j], b[j]))
}

/// The elementwise sum of two matrices (with as many rows as the first).
pub open spec fn matrix_sum(a: Seq<Vec<i32>>, b: Seq<Vec<i32>>) -> Seq<Seq<i32>> {
    Seq::new(a.len(), |i: int| row_sum(a[i]@, b[i]@))
}

/// Adds two rows of length `n` cell by cell, wrapping on overflow.
pub fn add_rows(a: &Vec<i32>, b: &Vec<i32>) -> (r: Vec<i32>)
    requires
        a@.len() == b@.len(),
    ensures
        r@ == row_sum(a@, b@),
{
    let n = a.len();
    let mut r: Vec<i32> = Vec::with_capacity(n);
    let mut j: usize = 0;
    while j < n
        invariant
            n == a@.len(),
            a@.len() == b@.len(),
            j <= n,
            r@ == row_sum(a@, b@).subrange(0, j as int),
        decreases n - j,
    {
        r.push(a[j].wrapping_add(b[j]));
        j += 1;
        assert(r@ =~= row_sum(a@, b@).subrange(0, j as int));
    }
    assert(r@ =~= row_sum(a@, b@));
    r
}

/// The sequential reducer: overwrites every cell of `sum` with the wrapped
/// sum of the matching cells of `a` and `b`.
pub fn simple_sum(a: &Matrix, b: &Matrix, sum: &mut Matrix)
    requires
        is_square(a@, a@.len()),
        is_square(b@, a@.len()),
        is_square(old(sum)@, a@.len()),
    ensures
        cells(final(sum)@) == matrix_sum(a@, b@),
        is_square(final(sum)@, a@.len()),
{
    let n = a.len();
    let mut i: usize = 0;
    while i < n
        invariant
            n == a@.len(),
            is_square(a@, n as nat),
            is_square(b@, n as nat),
            is_square(sum@, n as nat),
            i <= n,
            forall|k: int| 0 <= k < i ==> (#[trigger] sum@[k])@ == row_sum(a@[k]@, b@[k]@),
        decreases n - i,
    {
        let mut j: usize = 0;
        while j < n
            invariant
                n == a@.len(),
                is_square(a@, n as nat),
                is_square(b@, n as nat),
                is_square(sum@, n as nat),
                i < n,
                j <= n,
                forall|k: int| 0 <= k < i ==> (#[trigger] sum@[k])@ == row_sum(a@[k]@, b@[k]@),
                forall|c: int|
                    0 <= c < j ==> (#[trigger] sum@[i as int]@[c]) == cell_sum(
                        a@[i as int]@[c],
                        b@[i as int]@[c],
                    ),
            decreases n - j,
        {
            sum[i][j] = a[i][j].wrapping_add(b[i][j]);
            j += 1;
        }
        assert(sum@[i as int]@ =~= row_sum(a@[i as int]@, b@[i as int]@));
        i += 1;
    }
    assert(cells(sum@) =~= matrix_sum(a@, b@));
}

} // verus!
