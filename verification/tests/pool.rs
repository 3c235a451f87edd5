use async_server::pool::remove_completed;

#[test]
fn removes_listed_indices_keeping_order() {
    let mut v = vec!['a', 'b', 'c', 'd', 'e'];
    remove_completed(&mut v, &vec![0, 2, 4]);
    assert_eq!(v, vec!['b', 'd']);
}

#[test]
fn removing_nothing_keeps_all() {
    let mut v = vec![1, 2, 3];
    remove_completed(&mut v, &vec![]);
    assert_eq!(v, vec![1, 2, 3]);
}

#[test]
fn removing_everything_empties() {
    let mut v = vec![1, 2, 3];
    remove_completed(&mut v, &vec![0, 1, 2]);
    assert!(v.is_empty());
}

#[test]
fn removing_adjacent_at_end() {
    let mut v = vec![10, 20, 30, 40];
    remove_completed(&mut v, &vec![2, 3]);
    assert_eq!(v, vec![10, 20]);
}
