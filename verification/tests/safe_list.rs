use linked_lists::safe_linked_list::SafeLinkedList;

#[test]
fn safe_linked_list_push_front() {
    let mut list = SafeLinkedList::new();

    list.push_front(0u64);
    list.push_front(1);
    list.push_front(2);

    assert_eq!(list.render(), "[0, 1, 2]");
}

#[test]
fn safe_linked_list_push_back() {
    let mut list = SafeLinkedList::new();

    list.push_back(0u64);
    list.push_back(1);
    list.push_back(2);

    assert_eq!(list.render(), "[2, 1, 0]");
}

#[test]
fn safe_linked_list_pop_front() {
    let mut list = SafeLinkedList::new();

    list.push_front(0);
    list.push_front(1);
    list.push_front(2);

    assert_eq!(list.pop_front(), Some(2));
    assert_eq!(list.pop_front(), Some(1));
    assert_eq!(list.pop_front(), Some(0));
    assert_eq!(list.pop_front(), None);
}

#[test]
fn safe_linked_list_pop_back() {
    let mut list = SafeLinkedList::new();

    list.push_back(0);
    list.push_back(1);
    list.push_back(2);

    assert_eq!(list.pop_back(), Some(2));
    assert_eq!(list.pop_back(), Some(1));
    assert_eq!(list.pop_back(), Some(0));
    assert_eq!(list.pop_back(), None);
}

#[test]
fn peek_front() {
    let mut list = SafeLinkedList::new();

    assert!(list.peek_front().is_none());

    list.push_front(0);
    assert_eq!(&*list.peek_front().unwrap(), &0);

    list.push_front(1);
    assert_eq!(&*list.peek_front().unwrap(), &1);

    list.push_front(2);
    assert_eq!(&*list.peek_front().unwrap(), &2);
}

#[test]
fn peek_back() {
    let mut list = SafeLinkedList::new();

    assert!(list.peek_back().is_none());

    list.push_back(0);
    assert_eq!(&*list.peek_back().unwrap(), &0);

    list.push_back(1);
    assert_eq!(&*list.peek_back().unwrap(), &1);

    list.push_back(2);
    assert_eq!(&*list.peek_back().unwrap(), &2);
}

#[test]
fn peek_front_mut() {
    let mut list = SafeLinkedList::new();

    assert!(list.peek_front().is_none());

    list.push_front(0);
    assert_eq!(&mut *list.peek_front_mut().unwrap(), &mut 0);

    list.push_front(1);
    assert_eq!(&mut *list.peek_front_mut().unwrap(), &mut 1);

    list.push_front(2);
    assert_eq!(&mut *list.peek_front_mut().unwrap(), &mut 2);
}

#[test]
fn peek_back_mut() {
    let mut list = SafeLinkedList::new();

    assert!(list.peek_back().is_none());

    list.push_back(0);
    assert_eq!(&mut *list.peek_back_mut().unwrap(), &mut 0);

    list.push_back(1);
    assert_eq!(&mut *list.peek_back_mut().unwrap(), &mut 1);

    list.push_back(2);
    assert_eq!(&mut *list.peek_back_mut().unwrap(), &mut 2);
}

#[test]
fn safe_linked_list_iterator() {
    let mut list = SafeLinkedList::new();

    for i in 0..10 {
        list.push_front(i);
    }

    let mut it = list.into_iter();
    let mut sum: i32 = 0;
    while let Some(x) = it.next() {
        sum += x;
    }
    assert_eq!(sum, 45);
}
