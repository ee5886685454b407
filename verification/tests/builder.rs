use linked_lists::builder::from_values;
use linked_lists::builder::repeated;
use linked_lists::unsafe_linked_list::UnsafeLinkedList;

#[test]
fn empty_linked_list() {
    let mut list = UnsafeLinkedList::new();

    assert!(list.is_empty());
    assert_eq!(list.pop_front(), None);

    list.push_front(5);
    assert_eq!(list.len(), 1);
    assert_eq!(list.pop_front(), Some(5));
}

#[test]
fn single_linked_list() {
    let mut list = from_values(vec![0]);

    assert_eq!(list.len(), 1);
    assert_eq!(list.pop_front(), Some(0));
    assert_eq!(list.pop_front(), None);
}

#[test]
fn multiple_linked_list() {
    let mut list = from_values(vec![0, 1, 2]);

    assert_eq!(list.len(), 3);
    assert_eq!(list.pop_front(), Some(2));
    assert_eq!(list.pop_front(), Some(1));
    assert_eq!(list.pop_front(), Some(0));
    assert_eq!(list.pop_front(), None);
}

#[test]
fn repeating_value() {
    let list = repeated(10, 100);

    assert_eq!(list.len(), 100);

    let mut it = list.into_iter();
    let mut sum: i32 = 0;
    while let Some(x) = it.next() {
        sum += x;
    }
    assert_eq!(sum, 1000);
}
