use matrix_sum::generate::generate_matrix;
use matrix_sum::matrix::{add_rows, simple_sum, Matrix};
use matrix_sum::parallel::{
    merge_partial, merge_shares, parallel_reduce, thread_sum, zero_matrix, ThreadSumResult,
};
use matrix_sum::partition::stride_indices;
use rand::rngs::SmallRng;
use rand::SeedableRng;

fn three_by_three() -> Matrix {
    vec![vec![1, 2, 3], vec![4, 5, 6], vec![7, 8, 9]]
}

fn sequential(a: &Matrix, b: &Matrix) -> Matrix {
    let mut sum = zero_matrix(a.len());
    simple_sum(a, b, &mut sum);
    sum
}

#[test]
fn sequential_sum_of_three_by_three() {
    let a = three_by_three();
    let b = three_by_three();
    assert_eq!(sequential(&a, &b), vec![vec![2, 4, 6], vec![8, 10, 12], vec![14, 16, 18]]);
}

#[test]
fn parallel_two_workers_matches_sequential() {
    let a = three_by_three();
    let b = three_by_three();
    let expected = vec![vec![2, 4, 6], vec![8, 10, 12], vec![14, 16, 18]];
    assert_eq!(parallel_reduce(&a, &b, 2), expected);
    assert_eq!(parallel_reduce(&a, &b, 2), sequential(&a, &b));
}

#[test]
fn single_cell_for_any_worker_count() {
    let a = vec![vec![5]];
    let b = vec![vec![7]];
    assert_eq!(sequential(&a, &b), vec![vec![12]]);
    for w in 0..5 {
        assert_eq!(parallel_reduce(&a, &b, w), vec![vec![12]]);
    }
}

#[test]
fn overflow_wraps_around() {
    let a = vec![vec![2_000_000_000, 1], vec![i32::MIN, -1]];
    let b = vec![vec![2_000_000_000, 1], vec![-1, i32::MIN]];
    let expected = vec![vec![-294_967_296, 2], vec![i32::MAX, i32::MAX]];
    assert_eq!(sequential(&a, &b), expected);
    assert_eq!(parallel_reduce(&a, &b, 1), expected);
    assert_eq!(parallel_reduce(&a, &b, 3), expected);
}

#[test]
fn zero_workers_is_sequential() {
    let mut rng = SmallRng::from_seed([3; 32]);
    let a = generate_matrix(&mut rng, 9);
    let b = generate_matrix(&mut rng, 9);
    assert_eq!(parallel_reduce(&a, &b, 0), sequential(&a, &b));
}

#[test]
fn more_workers_than_rows() {
    let a = three_by_three();
    let b = vec![vec![-1, 0, 1], vec![10, 20, 30], vec![0, 0, -9]];
    let at_n = parallel_reduce(&a, &b, 3);
    assert_eq!(at_n, vec![vec![0, 2, 4], vec![14, 25, 36], vec![7, 8, 0]]);
    assert_eq!(parallel_reduce(&a, &b, 4), at_n);
    assert_eq!(parallel_reduce(&a, &b, 64), at_n);
    let idle = thread_sum(&a, &b, 5, 4);
    assert!(idle.sum.is_empty());
    assert!(idle.indices.is_empty());
}

#[test]
fn every_worker_count_matches_sequential() {
    let mut rng = SmallRng::from_seed([1; 32]);
    for n in 0..8 {
        let a = generate_matrix(&mut rng, n);
        let b = generate_matrix(&mut rng, n);
        let expected = sequential(&a, &b);
        for w in 0..12 {
            assert_eq!(parallel_reduce(&a, &b, w), expected);
        }
    }
}

#[test]
fn stride_partition_covers_rows_once() {
    assert_eq!(stride_indices(10, 3, 0), vec![0, 3, 6, 9]);
    assert_eq!(stride_indices(10, 3, 1), vec![1, 4, 7]);
    assert_eq!(stride_indices(10, 3, 2), vec![2, 5, 8]);
    assert_eq!(stride_indices(2, 5, 3), Vec::<usize>::new());
    for n in 0..20 {
        for w in 1..25 {
            let mut seen = vec![0; n];
            for t in 0..w {
                for r in stride_indices(n, w, t) {
                    assert_eq!(r % w, t);
                    seen[r] += 1;
                }
            }
            assert!(seen.iter().all(|&c| c == 1));
        }
    }
}

#[test]
fn worker_share_is_tagged_by_row() {
    let a = vec![vec![1, 1, 1, 1], vec![2, 2, 2, 2], vec![3, 3, 3, 3], vec![4, 4, 4, 4]];
    let b = vec![vec![10, 20, 30, 40]; 4];
    let share = thread_sum(&a, &b, 3, 0);
    assert_eq!(share.indices, vec![0, 3]);
    assert_eq!(share.sum, vec![vec![11, 21, 31, 41], vec![14, 24, 34, 44]]);
    let share = thread_sum(&a, &b, 3, 2);
    assert_eq!(share.indices, vec![2]);
    assert_eq!(share.sum, vec![vec![13, 23, 33, 43]]);
}

#[test]
fn merge_writes_rows_at_their_indices() {
    let mut sum = zero_matrix(3);
    let share = ThreadSumResult { sum: vec![vec![1, 2, 3], vec![7, 8, 9]], indices: vec![0, 2] };
    assert!(merge_partial(&mut sum, &share));
    assert_eq!(sum, vec![vec![1, 2, 3], vec![0, 0, 0], vec![7, 8, 9]]);
}

#[test]
fn merge_refuses_index_out_of_range() {
    let mut sum = zero_matrix(2);
    let share = ThreadSumResult { sum: vec![vec![1, 2]], indices: vec![2] };
    assert!(!merge_partial(&mut sum, &share));
    assert_eq!(sum, zero_matrix(2));
}

#[test]
fn merge_refuses_repeated_index() {
    let mut sum = zero_matrix(2);
    let share = ThreadSumResult { sum: vec![vec![1, 2], vec![3, 4]], indices: vec![1, 1] };
    assert!(!merge_partial(&mut sum, &share));
    assert_eq!(sum, zero_matrix(2));
}

#[test]
fn merge_refuses_missing_row() {
    let mut sum = zero_matrix(2);
    let share = ThreadSumResult { sum: vec![vec![1, 2]], indices: vec![0, 1] };
    assert!(!merge_partial(&mut sum, &share));
    assert_eq!(sum, zero_matrix(2));
}

#[test]
fn add_rows_wraps() {
    assert_eq!(add_rows(&vec![i32::MAX, 3, -4], &vec![1, 4, -5]), vec![i32::MIN, 7, -9]);
    assert_eq!(add_rows(&vec![], &vec![]), Vec::<i32>::new());
}

#[test]
fn zero_matrix_shape() {
    assert_eq!(zero_matrix(2), vec![vec![0, 0], vec![0, 0]]);
    assert_eq!(zero_matrix(0), Vec::<Vec<i32>>::new());
}

#[test]
fn merge_shares_places_each_worker_row() {
    let a = three_by_three();
    let b = three_by_three();
    let shares: Vec<ThreadSumResult> = (0..2).map(|t| thread_sum(&a, &b, 2, t)).collect();
    let mut sum = zero_matrix(3);
    assert!(merge_shares(&mut sum, &shares));
    assert_eq!(sum, vec![vec![2, 4, 6], vec![8, 10, 12], vec![14, 16, 18]]);
}

#[test]
fn merge_shares_with_idle_workers() {
    let a = vec![vec![5]];
    let b = vec![vec![7]];
    let shares: Vec<ThreadSumResult> = (0..4).map(|t| thread_sum(&a, &b, 4, t)).collect();
    let mut sum = zero_matrix(1);
    assert!(merge_shares(&mut sum, &shares));
    assert_eq!(sum, vec![vec![12]]);
}

#[test]
fn merge_shares_refuses_missing_worker() {
    let a = three_by_three();
    let b = three_by_three();
    let shares = vec![thread_sum(&a, &b, 2, 0)];
    let mut sum = zero_matrix(3);
    assert!(!merge_shares(&mut sum, &shares));
    assert_eq!(sum, zero_matrix(3));
}

#[test]
fn merge_shares_refuses_no_shares() {
    let mut sum = zero_matrix(2);
    assert!(!merge_shares(&mut sum, &Vec::new()));
    assert_eq!(sum, zero_matrix(2));
}

#[test]
fn merge_shares_refuses_swapped_shares() {
    let a = three_by_three();
    let b = three_by_three();
    let shares = vec![thread_sum(&a, &b, 2, 1), thread_sum(&a, &b, 2, 0)];
    let mut sum = zero_matrix(3);
    assert!(!merge_shares(&mut sum, &shares));
    assert_eq!(sum, zero_matrix(3));
}
