use vector_data_analysis::counting::{_count_sort, append_counting_sorted, min_max_of};
use vector_data_analysis::stair_sort::{run, Bins, SortError, VectorInfo};

fn is_ascending(v: &[usize]) -> bool {
    v.windows(2).all(|w| w[0] <= w[1])
}

fn same_values(a: &[usize], b: &[usize]) -> bool {
    let mut x = a.to_vec();
    let mut y = b.to_vec();
    x.sort();
    y.sort();
    x == y
}

#[test]
fn sorts_mixed_values_with_three_buckets() {
    let v: Vec<usize> = vec![5, 3, 3, 1, 4, 1, 5, 9, 2, 6];
    assert_eq!(run(v, 3), Ok(vec![1, 1, 2, 3, 3, 4, 5, 5, 6, 9]));
}

#[test]
fn sorts_single_element() {
    assert_eq!(run(vec![7], 5), Ok(vec![7]));
}

#[test]
fn sorts_all_equal_values() {
    assert_eq!(run(vec![2, 2, 2, 2], 4), Ok(vec![2, 2, 2, 2]));
}

#[test]
fn refuses_empty_input() {
    assert_eq!(run(Vec::new(), 4), Err(SortError::EmptyInput));
}

#[test]
fn sorts_wide_range_in_one_bucket() {
    assert_eq!(run(vec![0, 1_000_000], 1), Ok(vec![0, 1_000_000]));
}

#[test]
fn zero_buckets_count_as_one() {
    assert_eq!(run(vec![3, 1, 2], 0), Ok(vec![1, 2, 3]));
}

#[test]
fn more_buckets_than_values() {
    assert_eq!(run(vec![10, 0, 5], 100), Ok(vec![0, 5, 10]));
}

#[test]
fn sorts_values_at_the_top_of_the_range() {
    let v: Vec<usize> = vec![usize::MAX, 0, usize::MAX - 1, usize::MAX];
    assert_eq!(run(v, 3), Ok(vec![0, usize::MAX - 1, usize::MAX, usize::MAX]));
}

#[test]
fn output_is_ascending_permutation_of_input() {
    let v: Vec<usize> = vec![40, 7, 7, 0, 19, 3, 88, 40, 1, 2, 65, 7];
    let s = run(v.clone(), 4).unwrap();
    assert_eq!(s.len(), v.len());
    assert!(is_ascending(&s));
    assert!(same_values(&s, &v));
}

#[test]
fn sorting_twice_changes_nothing() {
    let v: Vec<usize> = vec![9, 4, 4, 12, 0, 31, 2];
    let once = run(v, 3).unwrap();
    let twice = run(once.clone(), 5).unwrap();
    assert_eq!(twice, once);
}

#[test]
fn bucket_count_does_not_change_result() {
    let v: Vec<usize> = vec![100, 3, 57, 57, 8, 1000, 0, 42, 999, 13];
    let reference = run(v.clone(), 1).unwrap();
    for k in [0usize, 2, 3, 7, 10, 64] {
        assert_eq!(run(v.clone(), k).unwrap(), reference);
    }
}

#[test]
fn single_bucket_equals_global_counting_sort() {
    let v: Vec<usize> = vec![14, 2, 2, 9, 30, 0, 5];
    assert_eq!(run(v.clone(), 1).unwrap(), _count_sort(&v));
}

#[test]
fn it_sorts() {
    let v: Vec<usize> = vec![1, 4, 6, 2, 7, 2, 8, 9, 0];
    assert_eq!(vec![0, 1, 2, 2, 4, 6, 7, 8, 9], _count_sort(&v));
}

#[test]
fn count_sort_of_empty_is_empty() {
    let v: Vec<usize> = Vec::new();
    assert_eq!(_count_sort(&v), Vec::<usize>::new());
}

#[test]
fn counting_sort_appends_after_existing_output() {
    let mut out: Vec<usize> = vec![99];
    append_counting_sorted(&[3, 1, 2, 1], &mut out);
    assert_eq!(out, vec![99, 1, 1, 2, 3]);
}

#[test]
fn counting_sort_sparse_range() {
    let mut out: Vec<usize> = Vec::new();
    append_counting_sorted(&[500, 20, 500], &mut out);
    assert_eq!(out, vec![20, 500, 500]);
}

#[test]
fn min_max_of_values() {
    assert_eq!(min_max_of(&[4, 9, 1, 7]), (1, 9));
    assert_eq!(min_max_of(&[5]), (5, 5));
}

#[test]
fn vector_info_finds_range() {
    let mut info = VectorInfo::init(vec![8, 3, 12, 5]);
    assert_eq!((info.min, info.max), (8, 8));
    assert_eq!(info.min_max(), (3, 12));
    assert_eq!((info.min, info.max), (3, 12));
}

#[test]
fn bins_split_by_thresholds() {
    let mut info = VectorInfo::init(vec![0, 10, 4, 5, 9, 1]);
    info.min_max();
    let bins = Bins::init(2, &mut info);
    assert_eq!(bins.thresholds, vec![0, 5]);
    assert_eq!(bins.bins, vec![vec![0, 4, 5, 1], vec![10, 9]]);
    assert!(info.base_vector.is_empty());
}

#[test]
fn bins_offset_by_minimum() {
    let mut info = VectorInfo::init(vec![100, 110, 104, 105, 109]);
    info.min_max();
    let mut bins = Bins::init(2, &mut info);
    assert_eq!(bins.thresholds, vec![0, 5]);
    assert_eq!(bins.bins, vec![vec![100, 104, 105], vec![110, 109]]);
    bins.sort_bins_optimized(&mut info);
    assert_eq!(info.sorted_vector, vec![100, 104, 105, 109, 110]);
    assert!(bins.bins.iter().all(|b| b.is_empty()));
}
