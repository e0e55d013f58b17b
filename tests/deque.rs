use lists::fourth::List;

#[test]
fn fourth_basics() {
    let mut list = List::new();
    assert_eq!(list.pop_front(), None);

    list.push_front(1);
    list.push_front(2);
    list.push_front(3);
    assert_eq!(list.pop_front(), Some(3));
    assert_eq!(list.pop_front(), Some(2));

    list.push_front(4);
    list.push_front(5);
    assert_eq!(list.pop_front(), Some(5));
    assert_eq!(list.pop_front(), Some(4));
    assert_eq!(list.pop_front(), Some(1));
    assert_eq!(list.pop_front(), None);

    let mut list = List::new();

    list.push_back(1);
    list.push_back(2);
    list.push_back(3);
    assert_eq!(list.pop_back(), Some(3));
    assert_eq!(list.pop_back(), Some(2));

    list.push_back(4);
    list.push_back(5);
    assert_eq!(list.pop_back(), Some(5));
    assert_eq!(list.pop_back(), Some(4));
    assert_eq!(list.pop_back(), Some(1));
    assert_eq!(list.pop_back(), None);
}

#[test]
fn peek_front() {
    let mut list = List::new();

    list.push_front(1);
    assert_eq!(&*list.peek_front().unwrap(), &1);
    assert_eq!(&mut *list.peek_front_mut().unwrap(), &mut 1);

    list.push_front(2);
    assert_eq!(&*list.peek_front().unwrap(), &2);
}

#[test]
fn peek_back() {
    let mut list = List::new();

    list.push_front(1);
    assert_eq!(&*list.peek_back().unwrap(), &1);
    assert_eq!(&mut *list.peek_back_mut().unwrap(), &mut 1);

    list.push_front(2);
    assert_eq!(&*list.peek_back().unwrap(), &1);

    list.push_back(3);
    assert_eq!(&*list.peek_back().unwrap(), &3);
}

#[test]
fn deque_front_three_then_pop_three() {
    let mut list = List::new();
    list.push_front(1);
    list.push_front(2);
    list.push_front(3);
    assert_eq!(list.pop_front(), Some(3));
    assert_eq!(list.pop_front(), Some(2));
    assert_eq!(list.pop_front(), Some(1));
    assert_eq!(list.pop_front(), None);
}

#[test]
fn deque_back_three_then_pop_three() {
    let mut list = List::new();
    list.push_back(1);
    list.push_back(2);
    list.push_back(3);
    assert_eq!(list.pop_back(), Some(3));
    assert_eq!(list.pop_back(), Some(2));
    assert_eq!(list.pop_back(), Some(1));
    assert_eq!(list.pop_back(), None);
}

#[test]
fn deque_mixed_ends() {
    let mut list = List::new();
    list.push_back(2);
    list.push_front(1);
    list.push_back(3);
    assert_eq!(list.peek_front(), Some(&1));
    assert_eq!(list.peek_back(), Some(&3));
    assert_eq!(list.pop_back(), Some(3));
    assert_eq!(list.pop_front(), Some(1));
    assert_eq!(list.pop_back(), Some(2));
    assert_eq!(list.pop_front(), None);
    assert_eq!(list.pop_back(), None);
    assert_eq!(list.peek_front(), None);
    assert_eq!(list.peek_back(), None);
    list.push_front(7);
    assert_eq!(list.pop_back(), Some(7));
    assert_eq!(list.pop_front(), None);
}

#[test]
fn deque_peek_mut_writes_through() {
    let mut list = List::new();
    assert_eq!(list.peek_front_mut(), None);
    assert_eq!(list.peek_back_mut(), None);
    list.push_back(1);
    list.push_back(2);
    list.push_back(3);
    if let Some(x) = list.peek_front_mut() {
        *x = 10;
    }
    if let Some(x) = list.peek_back_mut() {
        *x = 30;
    }
    assert_eq!(list.pop_front(), Some(10));
    assert_eq!(list.pop_front(), Some(2));
    assert_eq!(list.pop_front(), Some(30));
}

#[test]
fn deque_reuses_freed_slots() {
    let mut list = List::new();
    for i in 0..20 {
        list.push_back(i);
    }
    for i in 0..10 {
        assert_eq!(list.pop_front(), Some(i));
    }
    for i in 0..10 {
        list.push_front(100 + i);
    }
    for i in (0..10).rev() {
        assert_eq!(list.pop_front(), Some(100 + i));
    }
    for i in (10..20).rev() {
        assert_eq!(list.pop_back(), Some(i));
    }
    assert_eq!(list.pop_back(), None);
}

#[test]
fn long_deque_drops() {
    let mut list = List::new();
    for i in 0..200_000u64 {
        if i % 2 == 0 {
            list.push_back(i);
        } else {
            list.push_front(i);
        }
    }
    drop(list);
}
