use linked_lists::dlist::{DList, DListIter};

fn from_back(vals: &[i32]) -> DList<i32> {
    let mut list = DList::new();
    for v in vals {
        list.push_back(*v);
    }
    list
}

fn contents(list: &DList<i32>) -> Vec<i32> {
    let mut out = Vec::new();
    let mut it = DListIter::new(list);
    while let Some(v) = it.next() {
        out.push(*v);
    }
    out
}

#[test]
fn test_push_front() {
    let mut list: DList<i32> = DList::new();
    list.push_front(1);
    list.push_front(2);
    list.push_front(3);

    assert_eq!(list.pop_front(), Some(3));
    assert_eq!(list.pop_front(), Some(2));
    assert_eq!(list.pop_front(), Some(1));
    assert_eq!(list.pop_front(), None);
}

#[test]
fn test_push_back() {
    let mut list: DList<i32> = DList::new();
    list.push_back(1);
    list.push_back(2);
    list.push_back(3);

    assert_eq!(list.pop_back(), Some(3));
    assert_eq!(list.pop_back(), Some(2));
    assert_eq!(list.pop_back(), Some(1));
    assert_eq!(list.pop_back(), None);
}

#[test]
fn test_pop_front() {
    let mut list: DList<i32> = DList::new();
    list.push_back(1);
    list.push_back(2);
    list.push_back(3);

    assert_eq!(list.pop_front(), Some(1));
    assert_eq!(list.pop_front(), Some(2));
    assert_eq!(list.pop_front(), Some(3));
    assert_eq!(list.pop_front(), None);
}

#[test]
fn test_pop_back() {
    let mut list: DList<i32> = DList::new();
    list.push_back(1);
    list.push_back(2);
    list.push_back(3);

    assert_eq!(list.pop_back(), Some(3));
    assert_eq!(list.pop_back(), Some(2));
    assert_eq!(list.pop_back(), Some(1));
    assert_eq!(list.pop_back(), None);
}

// take pops from the front and pushes onto the front of the new list, so the
// taken elements come back in reverse order.
#[test]
fn test_take() {
    let mut list: DList<i32> = DList::new();
    list.push_back(1);
    list.push_back(2);
    list.push_back(3);

    let mut taken = list.take(2);
    assert_eq!(taken.pop_front(), Some(2));
    assert_eq!(taken.pop_front(), Some(1));
    assert_eq!(taken.pop_front(), None);

    assert_eq!(list.pop_front(), Some(3));
    assert_eq!(list.pop_front(), None);
}

#[test]
fn test_popn() {
    let mut list: DList<i32> = DList::new();
    list.push_back(1);
    list.push_back(2);
    list.push_back(3);
    list.push_back(4);
    list.push_back(5);

    // popn removes only the node at the given 1-based position; this differs
    // from the values 3, 5, 4, None once listed for this sequence.
    assert_eq!(list.popn(3), Some(3));
    assert_eq!(list.popn(2), Some(2));
    assert_eq!(list.popn(1), Some(1));
    assert_eq!(list.popn(1), Some(4));
}

#[test]
fn popn_at_length_then_front_then_out_of_range() {
    let mut list = from_back(&[1, 2, 3]);
    assert_eq!(list.popn(3), Some(3));
    assert_eq!(contents(&list), vec![1, 2]);
    assert_eq!(list.popn(1), Some(1));
    assert_eq!(contents(&list), vec![2]);
    assert_eq!(list.popn(5), None);
    assert_eq!(contents(&list), vec![2]);
}

#[test]
fn popn_zero_changes_nothing() {
    let mut list = from_back(&[7, 8]);
    assert_eq!(list.popn(0), None);
    assert_eq!(contents(&list), vec![7, 8]);
}

#[test]
fn popn_in_the_middle_splices_neighbours() {
    let mut list = from_back(&[1, 2, 3, 4, 5]);
    assert_eq!(list.popn(2), Some(2));
    assert_eq!(contents(&list), vec![1, 3, 4, 5]);
    assert_eq!(list.popn(3), Some(4));
    assert_eq!(contents(&list), vec![1, 3, 5]);
    assert_eq!(list.pop_back(), Some(5));
    assert_eq!(list.pop_back(), Some(3));
    assert_eq!(list.pop_back(), Some(1));
    assert_eq!(list.pop_back(), None);
}

#[test]
fn popn_sequence_on_five_elements() {
    let mut list = from_back(&[1, 2, 3, 4, 5]);
    assert_eq!(list.popn(3), Some(3));
    assert_eq!(contents(&list), vec![1, 2, 4, 5]);
    assert_eq!(list.popn(4), Some(5));
    assert_eq!(list.popn(1), Some(1));
    assert_eq!(list.popn(2), Some(4));
    assert_eq!(list.popn(1), Some(2));
    assert_eq!(list.popn(1), None);
}

#[test]
fn popn_on_empty_is_none() {
    let mut list: DList<i32> = DList::new();
    assert_eq!(list.popn(1), None);
    assert_eq!(list.popn(0), None);
}

#[test]
fn push_front_then_pop_back_is_fifo() {
    let mut list = DList::new();
    for v in [10, 20, 30] {
        list.push_front(v);
    }
    assert_eq!(list.pop_back(), Some(10));
    assert_eq!(list.pop_back(), Some(20));
    assert_eq!(list.pop_back(), Some(30));
    assert_eq!(list.pop_back(), None);
}

#[test]
fn exhausted_list_stays_empty_at_both_ends() {
    let mut list = from_back(&[1, 2]);
    assert_eq!(list.pop_front(), Some(1));
    assert_eq!(list.pop_back(), Some(2));
    assert_eq!(list.pop_front(), None);
    assert_eq!(list.pop_back(), None);
    assert_eq!(list.pop_front(), None);
    assert_eq!(list.pop_back(), None);
    list.push_back(9);
    assert_eq!(contents(&list), vec![9]);
}

#[test]
fn peek_twice_sees_same_value_and_keeps_list() {
    let list = from_back(&[4, 5, 6]);
    let a = list.peek().copied();
    let b = list.peek().copied();
    assert_eq!(a, Some(4));
    assert_eq!(a, b);
    assert_eq!(contents(&list), vec![4, 5, 6]);
    let empty: DList<i32> = DList::new();
    assert_eq!(empty.peek(), None);
}

#[test]
fn take_all_and_take_none() {
    let mut list = from_back(&[1, 2, 3]);
    let none = list.take(0);
    assert_eq!(contents(&none), Vec::<i32>::new());
    let all = list.take(3);
    assert_eq!(contents(&all), vec![3, 2, 1]);
    assert_eq!(contents(&list), Vec::<i32>::new());
}

#[test]
fn links_stay_mirrored_after_mixed_operations() {
    let mut list = DList::new();
    list.push_back(1);
    list.push_front(0);
    list.push_back(2);
    list.push_back(3);
    assert_eq!(list.popn(4), Some(3));
    list.push_front(-1);
    assert_eq!(list.pop_front(), Some(-1));
    list.push_back(4);
    assert_eq!(contents(&list), vec![0, 1, 2, 4]);
    let mut back = Vec::new();
    while let Some(v) = list.pop_back() {
        back.push(v);
    }
    assert_eq!(back, vec![4, 2, 1, 0]);
}

#[test]
fn freed_slots_are_reused_in_order() {
    let mut list = DList::new();
    list.push_back(0);
    for round in 1..5 {
        list.push_back(round);
        list.push_front(round + 100);
        assert_eq!(list.pop_front(), Some(round + 100));
        assert_eq!(list.pop_front(), Some(round - 1));
    }
    assert_eq!(contents(&list), vec![4]);
}
