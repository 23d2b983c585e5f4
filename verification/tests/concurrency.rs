use cookbook::concurrency::{find_max, max_of_two, short_lived_threads, terms_over};

#[test]
fn test_short_lived_threads() {
    let max = short_lived_threads();
    assert_eq!(max, Some(26));
}

#[test]
fn find_max_on_slices_of_all_lengths() {
    assert_eq!(find_max(&[]), None);
    assert_eq!(find_max(&[3]), Some(3));
    assert_eq!(find_max(&[3, 9]), Some(9));
    assert_eq!(find_max(&[9, 3, 4]), Some(9));
    assert_eq!(find_max(&[1, 25, -4, 10, 26]), Some(26));
    assert_eq!(find_max(&[-5, -9, -1, -7]), Some(-1));
    assert_eq!(find_max(&[i32::MIN, i32::MIN]), Some(i32::MIN));
    let many: Vec<i32> = (0..40).map(|i| (i * 37) % 41 - 20).collect();
    assert_eq!(find_max(&many), many.iter().copied().max());
}

#[test]
fn the_larger_of_two_results() {
    assert_eq!(max_of_two(None, None), None);
    assert_eq!(max_of_two(Some(1), None), Some(1));
    assert_eq!(max_of_two(None, Some(-1)), Some(-1));
    assert_eq!(max_of_two(Some(1), Some(2)), Some(2));
    assert_eq!(max_of_two(Some(2), Some(1)), Some(2));
    for a in [None, Some(-3), Some(0), Some(7)] {
        for b in [None, Some(-3), Some(0), Some(7)] {
            assert_eq!(max_of_two(a, b), a.max(b));
        }
    }
}

#[test]
fn ages_above_thirty() {
    let ages = [23, 19, 42, 17, 17, 31, 30];
    assert_eq!(terms_over(&ages, 30), (73, 2));
    let (sum, count) = terms_over(&ages, 30);
    assert_eq!(sum as f32 / count as f32, 36.5);
    assert_eq!(terms_over(&ages, 100), (0, 0));
    assert_eq!(terms_over(&[], 0), (0, 0));
    assert_eq!(terms_over(&[u32::MAX, u32::MAX, 0], 0), (2 * u32::MAX as u128, 2));
    assert_eq!(terms_over(&[5, 5], 5), (0, 0));
}
