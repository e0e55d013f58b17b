use lists::bad_stack;
use lists::first;
use lists::second;

#[test]
fn bad_stack_basics() {
    let mut list = bad_stack::List::new();

    assert_eq!(list.pop(), None);

    list.push(1);
    list.push(2);
    list.push(3);

    assert_eq!(list.pop(), Some(3));
    assert_eq!(list.pop(), Some(2));

    list.push(4);
    list.push(5);

    assert_eq!(list.pop(), Some(5));
    assert_eq!(list.pop(), Some(4));
    assert_eq!(list.pop(), Some(1));
    assert_eq!(list.pop(), None);
}

#[test]
fn first_basics() {
    let mut list = first::List::new();

    assert_eq!(list.pop(), None);

    list.push(1);
    list.push(2);
    list.push(3);

    assert_eq!(list.pop(), Some(3));
    assert_eq!(list.pop(), Some(2));

    list.push(4);
    list.push(5);

    assert_eq!(list.pop(), Some(5));
    assert_eq!(list.pop(), Some(4));
    assert_eq!(list.pop(), Some(1));
    assert_eq!(list.pop(), None);
}

#[test]
fn second_basics() {
    let mut list = second::List::new();

    assert_eq!(list.pop(), None);

    list.push(1);
    list.push(2);
    list.push(3);

    assert_eq!(list.pop(), Some(3));
    assert_eq!(list.pop(), Some(2));

    list.push(4);
    list.push(5);

    assert_eq!(list.pop(), Some(5));
    assert_eq!(list.pop(), Some(4));
    assert_eq!(list.pop(), Some(1));
    assert_eq!(list.pop(), None);
}

#[test]
fn peek() {
    let mut list = second::List::new();

    list.push(1);
    list.push(2);
    assert_eq!(list.peek(), Some(&2));
    assert_eq!(list.peek_mut(), Some(&mut 2));
    assert_eq!(list.pop(), Some(2));
    assert_eq!(list.pop(), Some(1));
}

#[test]
fn second_into_iter() {
    let mut list = second::List::new();
    list.push(1);
    list.push(2);
    list.push(3);

    let mut iter = list.into_iter();
    assert_eq!(iter.next(), Some(3));
    assert_eq!(iter.next(), Some(2));
    assert_eq!(iter.next(), Some(1));
}

#[test]
fn second_iter_and_peek_mut() {
    let mut list = second::List::new();
    assert_eq!(list.peek(), None);
    assert_eq!(list.peek_mut(), None);
    list.push(1);
    list.push(2);
    if let Some(top) = list.peek_mut() {
        *top = 20;
    }
    assert_eq!(list.peek(), Some(&20));

    let mut iter = list.iter();
    assert_eq!(iter.next(), Some(&20));
    assert_eq!(iter.next(), Some(&1));
    assert_eq!(iter.next(), None);
    assert_eq!(iter.next(), None);
    assert_eq!(list.pop(), Some(20));
}

#[test]
fn stacks_pop_in_reverse_order_of_push() {
    let values: Vec<i32> = (0..50).map(|i| i * 7 - 100).collect();
    let mut a = first::List::new();
    let mut b = bad_stack::List::new();
    let mut c = second::List::new();
    for &v in &values {
        a.push(v);
        b.push(v);
        c.push(v);
    }
    for &v in values.iter().rev() {
        assert_eq!(a.pop(), Some(v));
        assert_eq!(b.pop(), Some(v));
        assert_eq!(c.pop(), Some(v));
    }
    assert_eq!(a.pop(), None);
    assert_eq!(b.pop(), None);
    assert_eq!(c.pop(), None);
}

#[test]
fn stack_into_iter_stays_exhausted() {
    let mut list = second::List::new();
    list.push(1);
    let mut iter = list.into_iter();
    assert_eq!(iter.next(), Some(1));
    assert_eq!(iter.next(), None);
    assert_eq!(iter.next(), None);
}

#[test]
fn long_vector_backed_stacks_drop() {
    let mut a = bad_stack::List::new();
    let mut b = second::List::new();
    for i in 0..200_000 {
        a.push(i);
        b.push(i);
    }
    drop(a);
    drop(b);
}
