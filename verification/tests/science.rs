use cookbook::science::{
    basics, count_of, factorial, frequencies, matrix, matrix_product, matrix_sum, mean_terms, median_terms,
    mode, partition, reach, select, Matrix,
};
use num::bigint::BigInt;

#[test]
fn partition_splits_around_the_first_element() {
    let data = [3, 1, 6, 1, 5, 8, 1, 8, 10, 11];
    assert_eq!(
        partition(&data),
        Some((vec![1, 1, 1], 3, vec![6, 5, 8, 8, 10, 11]))
    );
    assert_eq!(partition(&[]), None);
    assert_eq!(partition(&[7]), Some((vec![], 7, vec![])));
    assert_eq!(partition(&[2, 2, 1, 2, 3]), Some((vec![1], 2, vec![2, 2, 3])));
}

#[test]
fn select_gives_the_element_at_the_sorted_index() {
    let data = [3, 1, 6, 1, 5, 8, 1, 8, 10, 11];
    let mut sorted = data.to_vec();
    sorted.sort();
    for k in 0..data.len() {
        assert_eq!(select(&data, k), Some(sorted[k]));
    }
    assert_eq!(select(&data, 5), Some(6));
    assert_eq!(select(&data, data.len()), None);
    assert_eq!(select(&[], 0), None);
    assert_eq!(select(&[i32::MIN, i32::MAX, 0], 0), Some(i32::MIN));
    assert_eq!(select(&[i32::MIN, i32::MAX, 0], 2), Some(i32::MAX));
}

#[test]
fn median_terms_of_even_and_odd_lengths() {
    let data = [3, 1, 6, 1, 5, 8, 1, 8, 10, 11];
    let terms = median_terms(&data).unwrap();
    assert_eq!(terms, (5, 6));
    assert_eq!((terms.0 + terms.1) as f32 / 2.0, 5.5);
    assert_eq!(median_terms(&[9, 2, 4]), Some((4, 4)));
    assert_eq!(median_terms(&[4]), Some((4, 4)));
    assert_eq!(median_terms(&[]), None);
}

#[test]
fn factorial_of_small_numbers() {
    assert_eq!(factorial(0), BigInt::from(1));
    assert_eq!(factorial(1), BigInt::from(1));
    assert_eq!(factorial(5), BigInt::from(120));
    assert_eq!(factorial(-3), BigInt::from(1));
    assert_eq!(factorial(20), BigInt::from(2432902008176640000u64));
}

#[test]
fn factorial_of_a_hundred() {
    assert_eq!(
        factorial(100).to_string(),
        "93326215443944152681699238856266700490715968264381621468592963895217599993229915608941463976156518286253697920827223758251185210916864000000000000000000000000"
    );
}

#[test]
fn mean_is_sum_over_count() {
    let data = [3, 1, 6, 1, 5, 8, 1, 8, 10, 11];
    let (sum, count) = mean_terms(&data).unwrap();
    assert_eq!((sum, count), (54, 10));
    assert_eq!(sum as f32 / count as f32, 5.4);
    assert_eq!(mean_terms(&[]), None);
    assert_eq!(mean_terms(&[i32::MAX, i32::MAX, 1]), Some((2 * (i32::MAX as i128) + 1, 3)));
    assert_eq!(mean_terms(&[i32::MIN, i32::MIN]), Some((2 * (i32::MIN as i128), 2)));
}

#[test]
fn mode_occurs_most_often() {
    let data = [3, 1, 6, 1, 5, 8, 1, 8, 10, 11];
    assert_eq!(mode(&data), Some(1));
    assert_eq!(mode(&[]), None);
    assert_eq!(mode(&[4]), Some(4));
    assert_eq!(mode(&[2, 7, 7, 2, 9]), Some(2));
    assert_eq!(mode(&[9, 7, 7, 2, 2, 2]), Some(2));
    assert_eq!(count_of(&data, 1), 3);
    assert_eq!(count_of(&data, 8), 2);
    assert_eq!(count_of(&data, 4), 0);
}

#[test]
fn sum_and_product_of_the_demonstration() {
    let (sum, product) = basics().unwrap();
    assert_eq!(sum, Matrix { rows: 2, cols: 3, cells: vec![7, 7, 7, 7, 7, 7] });
    assert_eq!(product, Matrix { rows: 2, cols: 2, cells: vec![28, 10, 73, 28] });
}

#[test]
fn matrices_need_a_cell_for_each_place() {
    assert!(matrix(2, 3, vec![0; 6]).is_some());
    assert!(matrix(2, 3, vec![0; 5]).is_none());
    assert!(matrix(0, 3, vec![]).is_some());
    assert!(matrix(usize::MAX, 2, vec![]).is_none());
    assert!(matrix(usize::MAX, 0, vec![]).is_none());
    assert!(matrix(0x7FFF_FFFF, 0, vec![]).is_some());
    assert!(matrix(0x8000_0000, 0, vec![]).is_none());
}

#[test]
fn sums_of_matrices() {
    let a = matrix(2, 2, vec![1, -2, i32::MAX - 1, i32::MIN]).unwrap();
    let b = matrix(2, 2, vec![10, 20, 1, 0]).unwrap();
    assert_eq!(
        matrix_sum(&a, &b),
        Some(Matrix { rows: 2, cols: 2, cells: vec![11, 18, i32::MAX, i32::MIN] })
    );
    let too_much = matrix(2, 2, vec![0, 0, 2, 0]).unwrap();
    assert_eq!(matrix_sum(&a, &too_much), None);
    let too_little = matrix(2, 2, vec![0, 0, 0, -1]).unwrap();
    assert_eq!(matrix_sum(&a, &too_little), None);
    let row = matrix(1, 4, vec![1, 2, 3, 4]).unwrap();
    assert_eq!(matrix_sum(&a, &row), None);
    let broken = Matrix { rows: 2, cols: 2, cells: vec![1] };
    assert_eq!(matrix_sum(&broken, &broken), None);
    let empty = matrix(0, 5, vec![]).unwrap();
    assert_eq!(matrix_sum(&empty, &empty), Some(Matrix { rows: 0, cols: 5, cells: vec![] }));
}

#[test]
fn products_of_matrices() {
    let a = matrix(2, 3, vec![1, -2, 3, 0, 5, -6]).unwrap();
    let b = matrix(3, 1, vec![7, 8, -9]).unwrap();
    assert_eq!(
        matrix_product(&a, &b),
        Some(Matrix { rows: 2, cols: 1, cells: vec![7 - 16 - 27, 40 + 54] })
    );
    assert_eq!(matrix_product(&b, &a), None);
    let outer = matrix_product(&b, &matrix(1, 2, vec![2, -1]).unwrap()).unwrap();
    assert_eq!(outer, Matrix { rows: 3, cols: 2, cells: vec![14, -7, 16, -8, -18, 9] });
    let big = matrix(1, 2, vec![46341, 0]).unwrap();
    let column = matrix(2, 1, vec![46341, 0]).unwrap();
    assert_eq!(matrix_product(&big, &column), None);
    let fits = matrix(1, 2, vec![32767, 32767]).unwrap();
    let other = matrix(2, 1, vec![32767, -32767]).unwrap();
    assert_eq!(matrix_product(&fits, &other), Some(Matrix { rows: 1, cols: 1, cells: vec![0] }));
    let zero = matrix(1, 1, vec![0]).unwrap();
    let least = matrix(1, 1, vec![i32::MIN]).unwrap();
    assert_eq!(matrix_product(&zero, &least), Some(Matrix { rows: 1, cols: 1, cells: vec![0] }));
    assert_eq!(reach(&least), 0x8000_0000);
    assert_eq!(reach(&a), 6);
    assert_eq!(reach(&matrix(0, 0, vec![]).unwrap()), 0);
    let none = matrix(2, 0, vec![]).unwrap();
    let wide = matrix(0, 3, vec![]).unwrap();
    assert_eq!(matrix_product(&none, &wide), Some(Matrix { rows: 2, cols: 3, cells: vec![0; 6] }));
}

#[test]
fn how_often_each_number_occurs() {
    let data = [3, 1, 6, 1, 5, 8, 1, 8, 10, 11];
    let freqs = frequencies(&data);
    assert_eq!(freqs.len(), 7);
    assert_eq!(freqs.get(&1), Some(&3));
    assert_eq!(freqs.get(&8), Some(&2));
    assert_eq!(freqs.get(&3), Some(&1));
    assert_eq!(freqs.get(&4), None);
    assert!(frequencies(&[]).is_empty());
    assert_eq!(frequencies(&[i32::MIN, i32::MIN]).get(&i32::MIN), Some(&2));
}

#[test]
fn of_several_modes_the_first() {
    assert_eq!(mode(&[7, 2, 2, 7]), Some(7));
    assert_eq!(mode(&[2, 7, 7, 2]), Some(2));
    assert_eq!(mode(&[5, 4, 3]), Some(5));
    assert_eq!(mode(&[5, 4, 4, 3, 3, 3, 4]), Some(4));
}
