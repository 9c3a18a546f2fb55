use shmkv::list::LinkedList;

#[test]
fn list() {
    let mut list = LinkedList::new();

    assert_eq!(list.find(&4).copied(), None);
    list.insert(4, 23);
    assert_eq!(list.find(&4).copied(), Some(23));
    list.insert(4, 25);
    assert_eq!(list.find(&4).copied(), Some(25));
    list.insert(2, 45);
    assert_eq!(list.find(&4).copied(), Some(25));
    assert_eq!(list.find(&2).copied(), Some(45));
    list.insert(3, 45);
    list.remove(&2);
    assert_eq!(list.find(&2).copied(), None);
    assert_eq!(list.find(&3).copied(), Some(45));
    list.remove(&4);
    list.remove(&3);
    assert!(list.is_empty());
}

#[test]
fn list_keeps_keys_ascending() {
    let mut list = LinkedList::new();
    list.insert(9, 1u64);
    list.insert(3, 2);
    list.insert(7, 3);
    list.insert(3, 4);
    list.insert(12, 5);
    assert_eq!(list.to_vec(), vec![(3, 4), (7, 3), (9, 1), (12, 5)]);
}

#[test]
fn list_remove_missing_is_noop() {
    let mut list = LinkedList::new();
    list.insert(5, 50u64);
    list.remove(&4);
    list.remove(&6);
    assert_eq!(list.to_vec(), vec![(5, 50)]);
    assert!(!list.is_empty());
}

#[test]
fn list_edge_keys() {
    let mut list = LinkedList::new();
    list.insert(u64::MAX, 1u64);
    list.insert(0, 2);
    assert_eq!(list.find(&u64::MAX).copied(), Some(1));
    assert_eq!(list.find(&0).copied(), Some(2));
    assert_eq!(list.find(&1).copied(), None);
    assert_eq!(list.to_vec(), vec![(0, 2), (u64::MAX, 1)]);
}
