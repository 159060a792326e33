use dubbo::least_active::{least_active_index, LeastActive};
use dubbo::url::Url;

#[test]
fn a_single_least_active_invoker_is_taken() {
    assert_eq!(least_active_index(&vec![3, 1, 2], &vec![100, 100, 100], 7, 9), 1);
    assert_eq!(least_active_index(&vec![5, 3, 3, 1], &vec![1, 2, 3, 4], 0, 1), 3);
}

#[test]
fn tied_invokers_with_equal_weights_are_drawn_uniformly() {
    // The least active invokers of [5, 3, 3] are 1 and 2: the draw takes position r2 % 2.
    assert_eq!(least_active_index(&vec![5, 3, 3], &vec![100, 100, 100], 0, 0), 1);
    assert_eq!(least_active_index(&vec![5, 3, 3], &vec![100, 100, 100], 0, 1), 2);
    assert_eq!(least_active_index(&vec![5, 3, 3], &vec![100, 100, 100], 0, 3), 2);
}

#[test]
fn tied_invokers_with_different_weights_are_drawn_by_weight() {
    // Least active: 1 (weight 10) and 2 (weight 30); offsets below 10 pick 1.
    assert_eq!(least_active_index(&vec![5, 3, 3], &vec![1, 10, 30], 9, 0), 1);
    assert_eq!(least_active_index(&vec![5, 3, 3], &vec![1, 10, 30], 10, 0), 2);
    assert_eq!(least_active_index(&vec![5, 3, 3], &vec![1, 10, 30], 39, 0), 2);
    assert_eq!(least_active_index(&vec![5, 3, 3], &vec![1, 10, 30], 40, 0), 1);
}

#[test]
fn least_active_policy_name_and_select() {
    let mut l = LeastActive::new();
    assert_eq!(l.name, "least_active");
    let invokers = vec![
        Url::from_url("tri://127.0.0.1:8888/a").unwrap(),
        Url::from_url("tri://127.0.0.1:8889/a").unwrap(),
    ];
    let u = l.do_select(&invokers, &vec![5, 0], &vec![100, 100]).unwrap();
    assert_eq!(u.port, "8889");
}
