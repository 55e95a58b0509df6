use xfg::epoch::{CurrentEpoch, DeletionQueue, Eh, Epoch, ValidUntil, is_valid};

#[test]
fn epoch_new_is_earliest() {
    assert_eq!(Epoch::new().0, 0);
}

#[test]
fn current_epoch_starts_at_one() {
    let current = CurrentEpoch::new();
    assert_eq!(current.now().0, 1);
}

#[test]
fn current_epoch_advances_by_count() {
    let mut current = CurrentEpoch::new();
    current.advance(4);
    assert_eq!(current.now().0, 5);
    current.advance(1);
    assert_eq!(current.now().0, 6);
}

#[test]
fn holder_with_no_bound_disposes_immediately() {
    let current = CurrentEpoch::new();
    let held = Eh::new(42u32);
    assert_eq!(held.valid_until().0, 0);
    match held.dispose(&current) {
        Ok(value) => assert_eq!(value, 42),
        Err(_) => panic!("a holder with no bound must dispose at once"),
    }
}

#[test]
fn holder_with_future_bound_refuses_disposal() {
    let mut current = CurrentEpoch::new();
    let mut held = Eh::new(String::from("resource"));
    held.make_valid_until(Epoch(5));
    assert_eq!(held.valid_until().0, 5);
    let held = match held.dispose(&current) {
        Ok(_) => panic!("the bound lies in the future"),
        Err(held) => held,
    };
    current.advance(4);
    match held.dispose(&current) {
        Ok(value) => assert_eq!(value, "resource"),
        Err(_) => panic!("the bound has passed"),
    }
}

#[test]
fn validity_bound_only_moves_forward() {
    let mut held = Eh::new(7u8);
    held.make_valid_until(Epoch(5));
    held.make_valid_until(Epoch(3));
    assert_eq!(held.valid_until().0, 5);
    held.make_valid_until(Epoch(9));
    assert_eq!(held.valid_until().0, 9);
    assert_eq!(*held.inner(), 7);
}

#[test]
fn is_valid_compares_strictly() {
    let mut held = Eh::new(0u8);
    held.make_valid_until(Epoch(3));
    assert!(is_valid(&held, Epoch(2)));
    assert!(!is_valid(&held, Epoch(3)));
    assert!(!is_valid(&held, Epoch(4)));
}

#[test]
fn deletion_queue_disposes_only_expired_values() {
    let mut current = CurrentEpoch::new();
    let mut queue: DeletionQueue<Eh<u32>> = DeletionQueue::new();
    let mut early = Eh::new(1u32);
    early.make_valid_until(Epoch(2));
    let mut late = Eh::new(2u32);
    late.make_valid_until(Epoch(4));
    queue.add(early);
    queue.add(late);

    let mut disposed: Vec<u32> = Vec::new();
    current.advance(2);
    queue.clean(&current, |value| disposed.push(value));
    assert_eq!(disposed, vec![1]);

    current.advance(2);
    queue.clean(&current, |value| disposed.push(value));
    assert_eq!(disposed, vec![1, 2]);
}

#[test]
fn deletion_queue_clean_on_empty_queue() {
    let mut current = CurrentEpoch::new();
    let mut queue: DeletionQueue<Eh<u8>> = DeletionQueue::new();
    current.advance(7);
    let mut count = 0usize;
    queue.clean(&current, |_| count += 1);
    assert_eq!(count, 0);
}
