use mockchain::split::{sort_bounded, split_value};

#[test]
fn split_value_splits_whole_value() {
    let parts = split_value(100, 4, vec![70, 10, 40]);
    assert_eq!(parts, vec![10, 30, 30, 30]);
    assert_eq!(parts.iter().sum::<u64>(), 100);
    assert_eq!(split_value(100, 1, vec![]), vec![100]);
    assert_eq!(split_value(100, 0, vec![]), Vec::<u64>::new());
    assert_eq!(split_value(u64::MAX, 3, vec![u64::MAX, 0]), vec![0, u64::MAX, 0]);
}

#[test]
fn sort_keeps_elements_in_order() {
    let mut v = vec![5, 1, 4, 1, 3];
    sort_bounded(&mut v, 5);
    assert_eq!(v, vec![1, 1, 3, 4, 5]);
}
