use rustdsa::heap::{heapify, heapsort};
use rustdsa::insertion::insertion_sort;
use rustdsa::model::swap_at;
use rustdsa::partition::{compare_swap, median_of_three, order_five, partition, partition_dual};
use rustdsa::sorting::{
    depth_limit, introsort, introsort_inner, introsort_with, sort_std, PivotStrategy,
    INSERTION_SORT_THRESHOLD,
};

fn pseudo_random(count: usize, seed: u64) -> Vec<i64> {
    let mut state = seed;
    let mut out = Vec::with_capacity(count);
    for _ in 0..count {
        state = state.wrapping_mul(6364136223846793005).wrapping_add(1442695040888963407);
        out.push((state >> 16) as i64 % 1_000_003 - 500_000);
    }
    out
}

fn sorted_copy(values: &[i64]) -> Vec<i64> {
    let mut copy = values.to_vec();
    copy.sort();
    copy
}

fn check_introsort(values: Vec<i64>) {
    let expected = sorted_copy(&values);
    let mut actual = values.clone();
    introsort(&mut actual);
    assert_eq!(actual, expected);
    let mut single = values.clone();
    introsort_with(&mut single, PivotStrategy::Single);
    assert_eq!(single, expected);
    let mut dual = values;
    introsort_with(&mut dual, PivotStrategy::Dual);
    assert_eq!(dual, expected);
}

#[test]
fn empty_stays_empty() {
    let mut v: Vec<i64> = vec![];
    introsort(&mut v);
    assert_eq!(v, Vec::<i64>::new());
}

#[test]
fn single_value_stays() {
    let mut v = vec![5];
    introsort(&mut v);
    assert_eq!(v, vec![5]);
}

#[test]
fn three_values() {
    let mut v = vec![3, 1, 2];
    introsort(&mut v);
    assert_eq!(v, vec![1, 2, 3]);
}

#[test]
fn five_descending() {
    assert_eq!(depth_limit(5), 4);
    let mut v = vec![5, 4, 3, 2, 1];
    introsort(&mut v);
    assert_eq!(v, vec![1, 2, 3, 4, 5]);
}

#[test]
fn eighteen_equal_values() {
    let mut v = vec![2i64; 18];
    assert!(v.len() > INSERTION_SORT_THRESHOLD);
    introsort(&mut v);
    assert_eq!(v, vec![2i64; 18]);
}

#[test]
fn hundred_thousand_random_values() {
    check_introsort(pseudo_random(100_000, 42));
}

#[test]
fn output_is_a_permutation_in_order() {
    let input = vec![9, -3, 7, 7, 0, i64::MAX, i64::MIN, 4, -3, 12, 5, 5, 5, 1, 8, 2, 6, 11, -9, 3];
    let mut v = input.clone();
    introsort(&mut v);
    for w in v.windows(2) {
        assert!(w[0] <= w[1]);
    }
    for x in &input {
        let before = input.iter().filter(|y| *y == x).count();
        let after = v.iter().filter(|y| *y == x).count();
        assert_eq!(before, after);
    }
    assert_eq!(v.len(), input.len());
}

#[test]
fn sorted_input_is_unchanged() {
    let input: Vec<i64> = (0..1000).map(|x| x * 3 - 500).collect();
    let mut v = input.clone();
    introsort(&mut v);
    assert_eq!(v, input);
    let mut again = v.clone();
    introsort(&mut again);
    assert_eq!(again, v);
}

#[test]
fn sizes_around_the_threshold() {
    for n in [INSERTION_SORT_THRESHOLD - 1, INSERTION_SORT_THRESHOLD, INSERTION_SORT_THRESHOLD + 1] {
        check_introsort(pseudo_random(n, n as u64));
        check_introsort((0..n as i64).rev().collect());
    }
}

#[test]
fn reverse_sorted_input() {
    check_introsort((0..5000).rev().collect());
}

#[test]
fn all_equal_input() {
    check_introsort(vec![7; 5000]);
}

#[test]
fn one_outlier_among_duplicates() {
    let mut v = vec![4i64; 3000];
    v[1234] = -1;
    check_introsort(v.clone());
    v[1234] = 99;
    check_introsort(v);
}

#[test]
fn organ_pipe_input() {
    let mut v: Vec<i64> = (0..2000).collect();
    v.extend((0..2000).rev());
    check_introsort(v);
}

#[test]
fn depth_limit_is_twice_the_floored_logarithm() {
    assert_eq!(depth_limit(0), 0);
    assert_eq!(depth_limit(1), 0);
    assert_eq!(depth_limit(2), 2);
    assert_eq!(depth_limit(3), 2);
    assert_eq!(depth_limit(4), 4);
    assert_eq!(depth_limit(5), 4);
    assert_eq!(depth_limit(1023), 18);
    assert_eq!(depth_limit(1024), 20);
    assert_eq!(depth_limit(100_000), 32);
    assert_eq!(depth_limit(usize::MAX), 2 * (usize::BITS as usize - 1));
}

#[test]
fn controller_with_no_budget_still_sorts() {
    let input = pseudo_random(500, 7);
    let mut v = input.clone();
    let levels = introsort_inner(&mut v, 0, 499, 0, PivotStrategy::Single);
    assert_eq!(levels, 0);
    assert_eq!(v, sorted_copy(&input));
    let mut w = input.clone();
    let levels = introsort_inner(&mut w, 0, 499, 0, PivotStrategy::Dual);
    assert_eq!(levels, 0);
    assert_eq!(w, sorted_copy(&input));
}

#[test]
fn controller_sorts_only_its_range() {
    let input = pseudo_random(200, 11);
    let mut v = input.clone();
    let levels = introsort_inner(&mut v, 50, 149, 3, PivotStrategy::Dual);
    assert!(1 <= levels && levels <= 3);
    assert_eq!(&v[..50], &input[..50]);
    assert_eq!(&v[150..], &input[150..]);
    assert_eq!(&v[50..150], &sorted_copy(&input[50..150])[..]);
}

#[test]
fn controller_leaves_a_terminal_range() {
    let mut v = vec![3, 2, 1];
    assert_eq!(introsort_inner(&mut v, 1, 1, 4, PivotStrategy::Single), 0);
    assert_eq!(v, vec![3, 2, 1]);
    assert_eq!(introsort_inner(&mut v, 2, 1, 4, PivotStrategy::Single), 0);
    assert_eq!(v, vec![3, 2, 1]);
    assert_eq!(introsort_inner(&mut v, 7, 3, 4, PivotStrategy::Dual), 0);
    assert_eq!(v, vec![3, 2, 1]);
}

#[test]
fn insertion_sort_of_a_range() {
    let mut v = vec![9, 8, 5, 1, 4, 2, 3, 0, -1];
    insertion_sort(&mut v, 2, 6);
    assert_eq!(v, vec![9, 8, 1, 2, 3, 4, 5, 0, -1]);
    insertion_sort(&mut v, 4, 4);
    assert_eq!(v, vec![9, 8, 1, 2, 3, 4, 5, 0, -1]);
    insertion_sort(&mut v, 0, 8);
    assert_eq!(v, vec![-1, 0, 1, 2, 3, 4, 5, 8, 9]);
}

#[test]
fn heapsort_of_a_range_away_from_zero() {
    let mut v = vec![100, 99, 5, 1, 4, 2, 3, 7, 6, -5, -6];
    heapsort(&mut v, 2, 8);
    assert_eq!(v, vec![100, 99, 1, 2, 3, 4, 5, 6, 7, -5, -6]);
    heapsort(&mut v, 3, 3);
    assert_eq!(v, vec![100, 99, 1, 2, 3, 4, 5, 6, 7, -5, -6]);
    let input = pseudo_random(1000, 3);
    let mut w = input.clone();
    heapsort(&mut w, 0, 999);
    assert_eq!(w, sorted_copy(&input));
}

#[test]
fn heapify_sifts_the_root_down() {
    // the heap occupies positions 1..=5, rooted at position 1
    let mut v = vec![0, 1, 9, 8, 4, 7, 50];
    heapify(&mut v, 1, 1, 5);
    assert_eq!(v, vec![0, 9, 7, 8, 4, 1, 50]);
    let mut w = vec![5, 3, 4];
    heapify(&mut w, 0, 0, 2);
    assert_eq!(w, vec![5, 3, 4]);
}

#[test]
fn median_of_three_orders_three_positions() {
    let mut v = vec![30, 0, 10, 0, 20];
    let m = median_of_three(&mut v, 0, 2, 4);
    assert_eq!(m, 2);
    assert_eq!(v, vec![10, 0, 20, 0, 30]);
    let mut w = vec![2, 1];
    let m = median_of_three(&mut w, 0, 0, 1);
    assert_eq!(m, 0);
    assert_eq!(w, vec![1, 2]);
}

#[test]
fn partition_splits_around_the_median() {
    let mut v = vec![8, 3, 9, 1, 5, 7, 2, 6, 4];
    let p = partition(&mut v, 0, 8);
    assert_eq!(v[p], 5);
    assert_eq!(p, 4);
    for k in 0..p {
        assert!(v[k] <= v[p]);
    }
    for k in p + 1..9 {
        assert!(v[k] > v[p]);
    }
    assert_eq!(sorted_copy(&v), vec![1, 2, 3, 4, 5, 6, 7, 8, 9]);
}

#[test]
fn partition_of_equal_values_ends_at_the_top() {
    let mut v = vec![2i64; 18];
    let p = partition(&mut v, 0, 17);
    assert_eq!(p, 17);
    assert_eq!(v, vec![2i64; 18]);
}

#[test]
fn swap_at_exchanges_two_values() {
    let mut v = vec![1, 2, 3];
    swap_at(&mut v, 0, 2);
    assert_eq!(v, vec![3, 2, 1]);
    swap_at(&mut v, 1, 1);
    assert_eq!(v, vec![3, 2, 1]);
}

#[test]
fn sort_std_sorts() {
    let input = pseudo_random(1000, 99);
    let mut v = input.clone();
    sort_std(&mut v);
    for w in v.windows(2) {
        assert!(w[0] <= w[1]);
    }
    let mut by_engine = input.clone();
    introsort(&mut by_engine);
    assert_eq!(v, by_engine);
    let mut small = vec![3, 1, 2];
    sort_std(&mut small);
    assert_eq!(small, vec![1, 2, 3]);
}

#[test]
fn nesting_never_exceeds_the_budget() {
    let patterns: Vec<Vec<i64>> = vec![
        pseudo_random(20_000, 5),
        (0..20_000).collect(),
        (0..20_000).rev().collect(),
        vec![1; 20_000],
        (0..10_000).chain((0..10_000).rev()).collect(),
    ];
    for input in patterns {
        for strategy in [PivotStrategy::Single, PivotStrategy::Dual] {
            let n = input.len();
            let budget = depth_limit(n);
            assert_eq!(budget, 28);
            let mut v = input.clone();
            let levels = introsort_inner(&mut v, 0, n - 1, budget, strategy);
            assert!(levels >= 1);
            assert!(levels <= budget);
            assert_eq!(v, sorted_copy(&input));
        }
    }
}

#[test]
fn driver_reports_nesting_within_the_budget() {
    for strategy in [PivotStrategy::Single, PivotStrategy::Dual] {
        let mut small = pseudo_random(INSERTION_SORT_THRESHOLD, 1);
        assert_eq!(introsort_with(&mut small, strategy), 0);
        let mut v = pseudo_random(INSERTION_SORT_THRESHOLD + 1, 2);
        let levels = introsort_with(&mut v, strategy);
        assert!(1 <= levels && levels <= 8);
        let mut w = pseudo_random(3000, 3);
        let levels = introsort_with(&mut w, strategy);
        assert!(1 <= levels && levels <= 22);
        let mut e: Vec<i64> = vec![];
        assert_eq!(introsort_with(&mut e, strategy), 0);
    }
}

#[test]
fn a_small_budget_forces_the_fallback() {
    let input: Vec<i64> = vec![3; 4000];
    let mut v = input.clone();
    let levels = introsort_inner(&mut v, 0, 3999, 2, PivotStrategy::Single);
    assert_eq!(levels, 2);
    assert_eq!(v, input);
}

#[test]
fn dual_pivot_sorts_eighteen_equal_values() {
    let mut v = vec![2i64; 18];
    introsort_with(&mut v, PivotStrategy::Dual);
    assert_eq!(v, vec![2i64; 18]);
    let (l, g) = partition_dual(&mut v, 0, 17);
    assert!(l < g);
    assert_eq!(v, vec![2i64; 18]);
}

#[test]
fn dual_pivot_small_cases() {
    for strategy in [PivotStrategy::Single, PivotStrategy::Dual] {
        let mut v: Vec<i64> = vec![];
        introsort_with(&mut v, strategy);
        assert_eq!(v, Vec::<i64>::new());
        let mut v = vec![5];
        introsort_with(&mut v, strategy);
        assert_eq!(v, vec![5]);
        let mut v = vec![3, 1, 2];
        introsort_with(&mut v, strategy);
        assert_eq!(v, vec![1, 2, 3]);
        let mut v = vec![5, 4, 3, 2, 1];
        introsort_with(&mut v, strategy);
        assert_eq!(v, vec![1, 2, 3, 4, 5]);
    }
}

#[test]
fn partition_dual_splits_in_three() {
    // candidates at 0, 2, 4, 6, 8 hold 50, 10, 40, 20, 30: the pivots are 20 and 40
    let mut v = vec![50, 45, 10, 5, 40, 25, 20, 60, 30];
    let (l, g) = partition_dual(&mut v, 0, 8);
    assert_eq!(v[l], 20);
    assert_eq!(v[g], 40);
    assert_eq!((l, g), (2, 5));
    for k in 0..l {
        assert!(v[k] < v[l]);
    }
    for k in l + 1..g {
        assert!(v[l] <= v[k] && v[k] <= v[g]);
    }
    for k in g + 1..9 {
        assert!(v[k] > v[g]);
    }
    assert_eq!(sorted_copy(&v), vec![5, 10, 20, 25, 30, 40, 45, 50, 60]);
}

#[test]
fn partition_dual_of_a_short_range() {
    let mut v = vec![9, 4, 1];
    let (l, g) = partition_dual(&mut v, 0, 2);
    assert_eq!(v, vec![1, 4, 9]);
    assert_eq!((l, g), (0, 2));
    let mut w = vec![7, 2, 8];
    let (l, g) = partition_dual(&mut w, 0, 1);
    assert_eq!(w, vec![2, 7, 8]);
    assert_eq!((l, g), (0, 1));
}

#[test]
fn order_five_sorts_the_five_positions() {
    let mut v = vec![50, 0, 10, 0, 40, 0, 20, 0, 30];
    order_five(&mut v, 0, 2, 4, 6, 8);
    assert_eq!(v, vec![10, 0, 20, 0, 30, 0, 40, 0, 50]);
}

#[test]
fn compare_swap_puts_two_values_in_order() {
    let mut v = vec![2, 1, 3];
    compare_swap(&mut v, 0, 1);
    assert_eq!(v, vec![1, 2, 3]);
    compare_swap(&mut v, 0, 2);
    assert_eq!(v, vec![1, 2, 3]);
    compare_swap(&mut v, 2, 0);
    assert_eq!(v, vec![3, 2, 1]);
}
