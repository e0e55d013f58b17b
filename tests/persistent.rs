use lists::third::List;

#[test]
fn third_basics() {
    let list = List::new();
    assert_eq!(list.head(), None);

    let list = list.append(1).append(2).append(3);
    assert_eq!(list.head(), Some(&3));
    assert_eq!(list.tail().head(), Some(&2));
    assert_eq!(list.tail().tail().head(), Some(&1));
    assert_eq!(list.tail().tail().tail().head(), None);
    assert_eq!(list.tail().tail().tail().tail().head(), None);
}

#[test]
fn third_iter() {
    let list = List::new().append(1).append(2);

    let mut iter = list.iter();
    assert_eq!(iter.next(), Some(&2));
    assert_eq!(iter.next(), Some(&1));
    assert_eq!(list.head(), Some(&2));
}

#[test]
fn append_leaves_original_intact() {
    let l1 = List::new().append(1).append(2);
    let l2 = l1.append(3);
    let l3 = l1.append(4);
    let mut iter = l1.iter();
    assert_eq!(iter.next(), Some(&2));
    assert_eq!(iter.next(), Some(&1));
    assert_eq!(iter.next(), None);
    assert_eq!(l2.head(), Some(&3));
    assert_eq!(l3.head(), Some(&4));
    assert_eq!(l2.tail().head(), Some(&2));
    assert_eq!(l3.tail().tail().head(), Some(&1));
}

#[test]
fn persistent_iter_stays_exhausted() {
    let list = List::new().append(1);
    let mut iter = list.iter();
    assert_eq!(iter.next(), Some(&1));
    assert_eq!(iter.next(), None);
    assert_eq!(iter.next(), None);
}

#[test]
fn clear_stops_at_shared_node() {
    let base = List::new().append(1).append(2);
    let mut branch = base.append(3);
    branch.clear();
    assert_eq!(branch.head(), None);
    let mut iter = base.iter();
    assert_eq!(iter.next(), Some(&2));
    assert_eq!(iter.next(), Some(&1));
    assert_eq!(iter.next(), None);
}

#[test]
fn long_persistent_list_clears() {
    let mut list = List::new();
    for i in 0..200_000u64 {
        list = list.append(i);
    }
    let mut branch = list.append(7);
    branch.clear();
    assert_eq!(list.head(), Some(&199_999));
    list.clear();
    assert_eq!(list.head(), None);
}

#[test]
fn long_persistent_list_drops() {
    let mut list = List::new();
    for i in 0..200_000u64 {
        list = list.append(i);
    }
    drop(list);
}

#[test]
fn dropping_a_branch_keeps_the_shared_tail() {
    let mut base = List::new();
    for i in 0..200_000u64 {
        base = base.append(i);
    }
    let branch = base.append(7).append(8);
    drop(branch);
    assert_eq!(base.head(), Some(&199_999));
    assert_eq!(base.tail().head(), Some(&199_998));
    drop(base);
}
