use cookbook::iterators::{
    basic_usage, chain, cycle_while_sum_at_most, enumerate, filter_multiples, is_multiple,
    it_filter, it_transforms, it_transforms_iteration_process, labels, range_inclusive, ranges,
    rev, skip, skip_while_below, squares, step_by, take, take_while_below, zip,
};

#[test]
fn first_demonstration() {
    let rows = it_transforms_iteration_process();
    assert_eq!(rows.len(), 7);
    assert_eq!(rows[0], (0..=10).collect::<Vec<i32>>());
    assert_eq!(rows[1], (0..=10).take(4).collect::<Vec<i32>>());
    assert_eq!(rows[2], (0..=10).skip(4).collect::<Vec<i32>>());
    assert_eq!(rows[3], (0..=10).step_by(2).collect::<Vec<i32>>());
    assert_eq!(rows[4], (0..=10).chain(25..30).collect::<Vec<i32>>());
    let mut sum = 0;
    let mut cycled = Vec::new();
    for i in (0..=10).cycle() {
        sum += i;
        if sum > 100 {
            break;
        }
        cycled.push(i);
    }
    assert_eq!(rows[5], cycled);
    assert_eq!(rows[5].len(), 21);
    assert_eq!(rows[6], (0..=10).rev().collect::<Vec<i32>>());
}

#[test]
fn second_demonstration() {
    let made = it_transforms();
    assert_eq!(made.squares, (0..=10).map(|x| x * x).collect::<Vec<i32>>());
    assert_eq!(made.labels, (0..=10).map(|x| format!("i={}", x)).collect::<Vec<String>>());
    assert_eq!(
        made.reversed,
        (0..=10).rev().enumerate().collect::<Vec<(usize, i32)>>()
    );
    assert_eq!(made.zipped, (0..=10).zip(50..55).collect::<Vec<(i32, i32)>>());
}

#[test]
fn third_demonstration() {
    let rows = it_filter();
    assert_eq!(rows[0], vec![0, 3, 6, 9]);
    assert_eq!(rows[1], vec![0, 1, 2]);
    assert_eq!(rows[2], vec![3, 4, 5, 6, 7, 8, 9, 10]);
}

#[test]
fn ranges_with_and_without_their_end() {
    let (open, closed) = ranges();
    assert_eq!(open, (1..6).collect::<Vec<i32>>());
    assert_eq!(closed, (1..=6).collect::<Vec<i32>>());
}

#[test]
fn steps_of_an_iterator() {
    assert_eq!(basic_usage(), vec![Some("Red"), Some("Yellow"), Some("Green"), None]);
}

#[test]
fn adaptors_on_the_edges() {
    assert!(range_inclusive(3, 2).is_empty());
    assert_eq!(range_inclusive(i32::MAX - 1, i32::MAX), vec![i32::MAX - 1, i32::MAX]);
    assert_eq!(range_inclusive(i32::MIN, i32::MIN), vec![i32::MIN]);
    let v = vec![5, 6, 7];
    assert_eq!(take(&v, 0), Vec::<i32>::new());
    assert_eq!(take(&v, 9), v);
    assert_eq!(skip(&v, 9), Vec::<i32>::new());
    assert_eq!(skip(&v, 0), v);
    assert_eq!(step_by(&v, 1), v);
    assert_eq!(step_by(&v, 2), vec![5, 7]);
    assert_eq!(step_by(&v, 3), vec![5]);
    assert_eq!(step_by(&v, usize::MAX), vec![5]);
    assert_eq!(step_by(&Vec::new(), 4), Vec::<i32>::new());
    for step in 1..8usize {
        let long: Vec<i32> = (0..23).collect();
        assert_eq!(step_by(&long, step), long.iter().copied().step_by(step).collect::<Vec<i32>>());
    }
    assert_eq!(chain(&v, &Vec::new()), v);
    assert_eq!(chain(&Vec::new(), &v), v);
    assert_eq!(rev(&v), vec![7, 6, 5]);
    assert_eq!(enumerate(&v), vec![(0, 5), (1, 6), (2, 7)]);
    assert_eq!(zip(&v, &vec![1]), vec![(5, 1)]);
    assert_eq!(squares(3), vec![0, 1, 4, 9]);
    assert_eq!(squares(0), vec![0]);
    assert!(squares(-1).is_empty());
    assert!(squares(i32::MIN).is_empty());
    assert_eq!(squares(46340).last(), Some(&2147395600));
    assert_eq!(labels(0), vec!["i=0"]);
    assert_eq!(labels(12).last().unwrap(), "i=12");
}

#[test]
fn cycling_ends_before_the_sum_exceeds_the_limit() {
    assert_eq!(cycle_while_sum_at_most(&vec![0, 3], 7), vec![0, 3, 0, 3, 0]);
    assert_eq!(cycle_while_sum_at_most(&vec![5], 4), Vec::<i32>::new());
    assert_eq!(cycle_while_sum_at_most(&vec![5], 5), vec![5]);
    assert_eq!(cycle_while_sum_at_most(&vec![0, 1], -1), Vec::<i32>::new());
    assert_eq!(cycle_while_sum_at_most(&vec![0, 1], 0), vec![0]);
    assert_eq!(cycle_while_sum_at_most(&vec![i32::MAX], i32::MAX), vec![i32::MAX]);
}

#[test]
fn filters() {
    let v = vec![-6, -5, -3, 0, 1, 3, 4, 9];
    assert_eq!(filter_multiples(&v, 3), vec![-6, -3, 0, 3, 9]);
    for x in [i32::MIN, i32::MIN + 1, -7, -1, 0, 1, 7, i32::MAX] {
        for d in [1, 2, 3, 7, i32::MAX] {
            assert_eq!(is_multiple(x, d), x % d == 0, "{} by {}", x, d);
        }
    }
    assert_eq!(take_while_below(&v, 0), vec![-6, -5, -3]);
    assert_eq!(skip_while_below(&v, 0), vec![0, 1, 3, 4, 9]);
    assert_eq!(take_while_below(&v, -10), Vec::<i32>::new());
    assert_eq!(skip_while_below(&v, 100), Vec::<i32>::new());
    let mixed = vec![1, 5, 2];
    assert_eq!(take_while_below(&mixed, 3), vec![1]);
    assert_eq!(skip_while_below(&mixed, 3), vec![5, 2]);
}
