use lists::fifth;
use lists::unsafe_deque::List;

#[test]
fn unsafe_deque_basics() {
    let mut list = List::new();

    assert_eq!(list.pop(), None);

    list.push(1);
    list.push(2);
    list.push(3);
    assert_eq!(list.pop(), Some(1));
    assert_eq!(list.pop(), Some(2));

    list.push(4);
    list.push(5);
    assert_eq!(list.pop(), Some(3));
    assert_eq!(list.pop(), Some(4));
    assert_eq!(list.pop(), Some(5));
    assert_eq!(list.pop(), None);

    list.push(6);
    list.push(7);
    assert_eq!(list.pop(), Some(6));
    assert_eq!(list.pop(), Some(7));
    assert_eq!(list.pop(), None);
}

#[test]
fn unsafe_deque_into_iter() {
    let mut list = List::new();
    list.push(1);
    list.push(2);
    list.push(3);

    let mut iter = list.into_iter();
    assert_eq!(iter.next(), Some(1));
    assert_eq!(iter.next(), Some(2));
    assert_eq!(iter.next(), Some(3));
}

#[test]
fn unsafe_deque_iter() {
    let mut list = List::new();
    list.push(1);
    list.push(2);

    let mut iter = list.iter();
    assert_eq!(iter.next(), Some(&1));
    assert_eq!(iter.next(), Some(&2));
}

#[test]
fn iter_mut() {
    let mut list = List::new();
    list.push(1);
    list.push(2);

    let mut iter = list.iter_mut();
    assert_eq!(iter.next(), Some(&mut 1));
    assert_eq!(iter.next(), Some(&mut 2));
}

#[test]
fn queue_push_three_pop_two() {
    let mut list = List::new();
    list.push(1);
    list.push(2);
    list.push(3);
    assert_eq!(list.pop(), Some(1));
    assert_eq!(list.pop(), Some(2));
    assert_eq!(list.pop(), Some(3));
    assert_eq!(list.pop(), None);
    // Pushing again after the queue was drained must start a fresh chain.
    list.push(8);
    list.push(9);
    let mut iter = list.iter();
    assert_eq!(iter.next(), Some(&8));
    assert_eq!(iter.next(), Some(&9));
    assert_eq!(iter.next(), None);
}

#[test]
fn queue_reuses_freed_slots_in_order() {
    let mut list = List::new();
    for round in 0..5 {
        for i in 0..10 {
            list.push(round * 100 + i);
        }
        for i in 0..7 {
            assert_eq!(list.pop(), Some(round * 100 + i));
        }
        for i in 7..10 {
            assert_eq!(list.pop(), Some(round * 100 + i));
        }
        assert_eq!(list.pop(), None);
    }
}

#[test]
fn queue_iter_mut_writes_through() {
    let mut list = List::new();
    list.push(1);
    list.push(2);
    list.push(3);
    {
        let mut iter = list.iter_mut();
        while let Some(x) = iter.next() {
            *x *= 10;
        }
        assert_eq!(iter.next(), None);
        assert_eq!(iter.next(), None);
    }
    assert_eq!(list.pop(), Some(10));
    assert_eq!(list.pop(), Some(20));
    assert_eq!(list.pop(), Some(30));
}

#[test]
fn queue_iterators_stay_exhausted() {
    let mut list = List::new();
    list.push(5);
    {
        let mut iter = list.iter();
        assert_eq!(iter.next(), Some(&5));
        assert_eq!(iter.next(), None);
        assert_eq!(iter.next(), None);
    }
    let mut iter = list.into_iter();
    assert_eq!(iter.next(), Some(5));
    assert_eq!(iter.next(), None);
    assert_eq!(iter.next(), None);
}

#[test]
fn fifth_push_appends_at_back() {
    let mut list = fifth::List::new();
    list.push("a");
    list.push("b");
    let mut iter = list.iter();
    assert_eq!(iter.next(), Some(&"a"));
    assert_eq!(iter.next(), Some(&"b"));
    assert_eq!(iter.next(), None);
}

#[test]
fn long_queue_drops() {
    let mut list = List::new();
    for i in 0..200_000u64 {
        list.push(i);
    }
    drop(list);
}
