use linked_lists::list1;
use linked_lists::list2;

#[test]
fn simple_list_push_pop_is_lifo() {
    let mut list = list1::List::new();
    list.push(1);
    list.push(2);
    list.push(3);
    assert_eq!(list.peek(), Some(&3));
    assert_eq!(list.pop(), Some(3));
    assert_eq!(list.pop(), Some(2));
    assert_eq!(list.pop(), Some(1));
    assert_eq!(list.pop(), None);
    assert_eq!(list.peek(), None);
}

#[test]
fn simple_list_take_keeps_order() {
    let mut list = list1::List::new();
    for v in [5, 4, 3, 2, 1] {
        list.push(v);
    }
    let taken = list.take(2);
    let mut it = taken.iter();
    assert_eq!(it.next(), Some(&1));
    assert_eq!(it.next(), Some(&2));
    assert_eq!(it.next(), None);
    let mut rest = list1::ListIter::new(&list);
    assert_eq!(rest.next(), Some(&3));
    assert_eq!(rest.next(), Some(&4));
    assert_eq!(rest.next(), Some(&5));
    assert_eq!(rest.next(), None);
}

#[test]
fn simple_list_iter_is_restartable() {
    let mut list = list1::List::new();
    list.push(2);
    list.push(1);
    for _ in 0..2 {
        let mut it = list.iter();
        assert_eq!(it.next(), Some(&1));
        assert_eq!(it.next(), Some(&2));
        assert_eq!(it.next(), None);
        assert_eq!(it.next(), None);
    }
    assert_eq!(list.peek(), Some(&1));
}

#[test]
fn option_list_push_pop_is_lifo() {
    let mut list = list2::List::new();
    list.push("a");
    list.push("b");
    assert_eq!(list.peek(), Some(&"b"));
    assert_eq!(list.peek(), Some(&"b"));
    assert_eq!(list.pop(), Some("b"));
    assert_eq!(list.pop(), Some("a"));
    assert_eq!(list.pop(), None);
    assert_eq!(list.pop(), None);
}

#[test]
fn option_list_take_keeps_order() {
    let mut list = list2::List::new();
    for v in [3, 2, 1] {
        list.push(v);
    }
    let taken = list.take(3);
    let mut it = taken.iter();
    assert_eq!(it.next(), Some(&1));
    assert_eq!(it.next(), Some(&2));
    assert_eq!(it.next(), Some(&3));
    assert_eq!(it.next(), None);
    assert_eq!(list.pop(), None);
    let zero = list.take(0);
    assert_eq!(zero.peek(), None);
}

#[test]
fn option_list_iter_walks_head_to_tail() {
    let mut list = list2::List::new();
    list.push(30);
    list.push(20);
    list.push(10);
    let mut it = list2::ListIter::new(&list);
    assert_eq!(it.next(), Some(&10));
    assert_eq!(it.next(), Some(&20));
    assert_eq!(it.next(), Some(&30));
    assert_eq!(it.next(), None);
}
