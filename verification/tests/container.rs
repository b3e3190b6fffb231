use linkedvector::LinkedVector;

/// The elements in logical order, rendered as the space-separated decimal
/// string the original debug output used.
fn render(v: &LinkedVector<u64>) -> String {
    let mut parts: Vec<String> = Vec::new();
    let mut i = 0usize;
    while let Some(node) = v.get(i) {
        parts.push(format!("{:?}", node.item.as_ref().unwrap()));
        i += 1;
    }
    parts.join(" ")
}

#[test]
fn it_works() {
    let mut my_vec = LinkedVector::<u64>::new();
    assert_eq!(render(&my_vec), "");

    assert_eq!(my_vec.len(), 0);
    assert_eq!(my_vec.true_len(), 0);

    my_vec.push_back(100u64);
    assert_eq!(render(&my_vec), "100");

    my_vec.push_back(200u64);
    assert_eq!(render(&my_vec), "100 200");

    my_vec.push_front(300u64);
    assert_eq!(render(&my_vec), "300 100 200");

    assert_eq!(my_vec.len(), 3);
    assert_eq!(my_vec.true_len(), 3);

    let a = my_vec.pop_front();
    assert_eq!(render(&my_vec), "100 200");
    assert_eq!(a, Some(300));

    assert_eq!(my_vec.len(), 2);
    assert_eq!(my_vec.true_len(), 3);

    let b = my_vec.delete(1);
    assert_eq!(render(&my_vec), "100");
    assert_eq!(b, 200);

    assert_eq!(my_vec.len(), 1);
    assert_eq!(my_vec.true_len(), 3);
}

#[test]
#[should_panic]
fn it_panics() {
    let mut my_vec = LinkedVector::<u64>::new();

    my_vec.push_back(100u64);
    my_vec.push_back(200u64);
    my_vec.push_front(300u64);

    my_vec.pop_front();
    my_vec.try_delete(1).unwrap();

    my_vec.try_delete(1).unwrap(); // Should panic here
}

#[test]
fn push_back_round_trip() {
    let mut v = LinkedVector::<u64>::new();
    let items = [7u64, 1, 9, 4, 4, 2];
    for &x in items.iter() {
        v.push_back(x);
    }
    assert_eq!(v.len(), items.len());
    for (i, &x) in items.iter().enumerate() {
        assert_eq!(v.get(i).unwrap().item, Some(x));
    }
}

#[test]
fn push_front_round_trip() {
    let mut v = LinkedVector::<u64>::new();
    let items = [7u64, 1, 9, 4, 4, 2];
    for &x in items.iter() {
        v.push_front(x);
    }
    assert_eq!(v.len(), items.len());
    for (i, &x) in items.iter().enumerate() {
        assert_eq!(v.get(items.len() - 1 - i).unwrap().item, Some(x));
    }
}

#[test]
fn push_back_then_delete_last_restores_order() {
    let mut v = LinkedVector::<u64>::new();
    v.push_back(1);
    v.push_back(2);
    v.push_back(3);
    assert_eq!(v.true_len(), 3);

    v.push_back(9);
    assert_eq!(v.true_len(), 4);
    let r = v.delete(v.len() - 1);
    assert_eq!(r, 9);

    // The logical contents are back; the arena keeps the extra slot.
    assert_eq!(v.len(), 3);
    assert_eq!(render(&v), "1 2 3");
    assert_eq!(v.true_len(), 4);
    assert_eq!(v.tail().unwrap().item, Some(3));
}

#[test]
fn true_len_monotone_and_slots_reused() {
    let mut v = LinkedVector::<u64>::new();
    let mut high = 0usize;
    let step = |v: &LinkedVector<u64>, high: &mut usize| {
        assert!(v.true_len() >= *high);
        *high = v.true_len();
    };
    v.push_back(1);
    step(&v, &mut high);
    v.push_back(2);
    step(&v, &mut high);
    v.push_back(3);
    step(&v, &mut high);
    assert_eq!(high, 3);
    v.pop_front();
    step(&v, &mut high);
    v.delete(1);
    step(&v, &mut high);
    // Two slots are free: the next two allocations reuse them.
    v.push_front(4);
    step(&v, &mut high);
    v.push_back(5);
    step(&v, &mut high);
    assert_eq!(v.true_len(), 3);
    // The free list is exhausted: the arena must grow now.
    v.push_back(6);
    step(&v, &mut high);
    assert_eq!(v.true_len(), 4);
    assert_eq!(render(&v), "4 2 5 6");
}

#[test]
fn boundary_at_len_fails_at_len_minus_one_targets_tail() {
    let mut v = LinkedVector::<u64>::new();
    v.push_back(10);
    v.push_back(20);
    v.push_back(30);

    assert!(v.get(v.len()).is_none());
    assert!(v.try_delete(v.len()).is_none());
    assert_eq!(v.len(), 3);
    assert_eq!(render(&v), "10 20 30");

    assert_eq!(v.get(v.len() - 1).unwrap().item, Some(30));
    let r = v.delete(v.len() - 1);
    assert_eq!(r, 30);
    assert_eq!(v.len(), 2);
    assert_eq!(v.tail().unwrap().item, Some(20));
}

#[test]
fn delete_out_of_bounds_leaves_state_intact() {
    let mut v = LinkedVector::<u64>::new();
    v.push_back(100u64);
    v.push_back(200u64);
    v.push_front(300u64);
    v.pop_front();
    assert_eq!(v.try_delete(1), Some(200));

    assert_eq!(v.try_delete(1), None);
    assert_eq!(v.len(), 1);
    assert_eq!(v.true_len(), 3);
    assert_eq!(render(&v), "100");
    assert_eq!(v.tail().unwrap().item, Some(100));
}

#[test]
fn empty_iff_no_head_iff_no_tail() {
    let mut v = LinkedVector::<u64>::new();
    assert_eq!(v.len(), 0);
    assert!(v.head().is_none());
    assert!(v.tail().is_none());

    v.push_back(5);
    assert!(v.head().is_some());
    assert!(v.tail().is_some());

    // Popping the last element must clear the tail along with the head.
    assert_eq!(v.pop_front(), Some(5));
    assert_eq!(v.len(), 0);
    assert!(v.head().is_none());
    assert!(v.tail().is_none());

    // The emptied list is fully usable again.
    v.push_back(8);
    assert_eq!(v.head().unwrap().item, Some(8));
    assert_eq!(v.tail().unwrap().item, Some(8));
}

#[test]
fn pop_front_on_empty_is_absent_not_an_error() {
    let mut v = LinkedVector::<u64>::new();
    assert_eq!(v.pop_front(), None);
    assert_eq!(v.len(), 0);
    assert_eq!(v.true_len(), 0);
}

#[test]
fn head_and_tail_read_the_ends() {
    let mut v = LinkedVector::<u64>::new();
    v.push_back(1);
    v.push_back(2);
    v.push_back(3);
    assert_eq!(v.head().unwrap().item, Some(1));
    assert_eq!(v.tail().unwrap().item, Some(3));
}

#[test]
fn mutable_access_writes_elements_in_place() {
    let mut v = LinkedVector::<u64>::new();
    assert!(v.head_mut().is_none());
    assert!(v.tail_mut().is_none());

    v.push_back(1);
    v.push_back(2);
    v.push_back(3);

    *v.head_mut().unwrap() = 10;
    *v.tail_mut().unwrap() = 30;
    *v.get_mut(1) = 20;

    assert_eq!(render(&v), "10 20 30");
    assert_eq!(v.len(), 3);
    assert_eq!(v.true_len(), 3);
}

#[test]
fn with_capacity_starts_empty() {
    let mut v = LinkedVector::<u64>::with_capacity(8);
    assert_eq!(v.len(), 0);
    assert_eq!(v.true_len(), 0);
    assert!(v.pop_front().is_none());
    v.push_back(1);
    assert_eq!(v.len(), 1);
    assert_eq!(v.true_len(), 1);
}

#[test]
fn capacity_covers_the_arena() {
    let mut v = LinkedVector::<u64>::new();
    v.push_back(1);
    v.push_back(2);
    v.push_back(3);
    assert!(v.capacity() >= v.true_len());
    assert!(v.capacity() >= 3);
}

#[test]
fn mem_used_counts_every_slot_and_free_entry() {
    let su = std::mem::size_of::<usize>();
    let st = std::mem::size_of::<u64>();

    let mut v = LinkedVector::<u64>::new();
    assert_eq!(v.mem_used(), 0);

    v.push_back(100u64);
    v.push_back(200u64);
    v.push_front(300u64);
    // Three slots, none free.
    assert_eq!(v.mem_used(), (st + su) * 3);

    v.pop_front();
    v.delete(1);
    // Still three slots, two of them on the free list.
    assert_eq!(v.len(), 1);
    assert_eq!(v.mem_used(), (st + su) * 3 + su * 2);

    assert!(v.true_mem_used() >= v.mem_used());
}
