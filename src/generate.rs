//! Matrices of pseudo-random cells, drawn from a seeded or entropy-based
//! source.
use rand::rngs::SmallRng;
use rand::Rng;
use vstd::prelude::*;
use crate::matrix::{Matrix, is_square};

verus! {

/// The smallest value a generated cell can take.
pub const RNG_FROM: i32 = 1_000;

/// One past the largest value a generated cell can take.
pub const RNG_TO: i32 = 9_999;

#[verifier::external_type_specification]
#[verifier::external_body]
pub struct ExSmallRng(SmallRng);

/// Relies on `rand::Rng::gen_range` with a half-open range `low..high`: the
/// value drawn lies in the range; it panics only on an empty range, which
/// `requires` leaves out.
#[verifier::external_body]
fn draw_in_range(rng: &mut SmallRng, low: i32, high: i32) -> (r: i32)
    requires
        low < high,
    ensures
        low <= r < high,
{
    rng.gen_range(low..high)
}

/// An `n` by `n` matrix whose cells are drawn one by one from `rng`, row by
/// row, each in `RNG_FROM..RNG_TO`.
pub fn generate_matrix(rng: &mut SmallRng, n: usize) -> (m: Matrix)
    ensures
        is_square(m@, n as nat),
        forall|i: int, j: int|
            0 <= i < n && 0 <= j < n ==> RNG_FROM <= #[trigger] m@[i]@[j] < RNG_TO,
{
    let mut m: Matrix = Vec::with_capacity(n);
    let mut i: usize = 0;
    while i < n
        invariant
            i <= n,
            m@.len() == i,
            forall|k: int| 0 <= k < i ==> (#[trigger] m@[k])@.len() == n,
            forall|k: int, j: int|
                0 <= k < i && 0 <= j < n ==> RNG_FROM <= #[trigger] m@[k]@[j] < RNG_TO,
        decreases n - i,
    {
        let mut row: Vec<i32> = Vec::with_capacity(n);
        let mut j: usize = 0;
        while j < n
            invariant
                j <= n,
                row@.len() == j,
                forall|c: int| 0 <= c < j ==> RNG_FROM <= #[trigger] row@[c] < RNG_TO,
            decreases n - j,
        {
            let v = draw_in_range(rng, RNG_FROM, RNG_TO);
            row.push(v);
            j += 1;
        }
        m.push(row);
        i += 1;
    }
    m
}

} // verus!
