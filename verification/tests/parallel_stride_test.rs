use headlamp::parallel_stride::{collect_in_order, project_stride, stride_indices, worker_count};

#[test]
fn workers_are_bounded_by_items_and_at_least_one() {
    assert_eq!(worker_count(3, 10), 3);
    assert_eq!(worker_count(3, 2), 2);
    assert_eq!(worker_count(0, 5), 1);
    assert_eq!(worker_count(4, 0), 1);
    assert_eq!(project_stride(true), 1);
    assert_eq!(project_stride(false), 3);
}

#[test]
fn each_item_goes_to_one_worker() {
    let w = worker_count(3, 7);
    let lists: Vec<Vec<usize>> = (0..w).map(|s| stride_indices(s, w, 7)).collect();
    assert_eq!(lists, vec![vec![0, 3, 6], vec![1, 4], vec![2, 5]]);
    let mut all: Vec<usize> = lists.into_iter().flatten().collect();
    all.sort();
    assert_eq!(all, (0..7).collect::<Vec<_>>());
    assert!(stride_indices(5, 2, 3).is_empty());
}

#[test]
fn results_come_back_in_item_order() {
    assert_eq!(collect_in_order(vec![Some("a"), None, Some("c"), Some("d")]), vec!["a", "c", "d"]);
    assert!(collect_in_order::<u8>(vec![]).is_empty());
}
