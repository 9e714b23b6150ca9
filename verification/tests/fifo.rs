use cohort::error::Error;
use cohort::fifo::{validate, CohortFifo};

fn ring(capacity: usize) -> CohortFifo<u32> {
    CohortFifo::<u32>::new(capacity, None).unwrap()
}

fn batching_ring(capacity: usize, batch_size: usize) -> CohortFifo<u32> {
    CohortFifo::<u32>::new(capacity, Some(batch_size)).unwrap()
}

fn try_pop_pair(fifo: &mut CohortFifo<u32>) -> Result<(u32, u32), Error> {
    let mut a = 0;
    let mut b = 0;
    fifo.try_pop(&mut a, &mut b)?;
    Ok((a, b))
}

#[test]
fn initializes_empty() {
    let spsc = CohortFifo::<[u8; 16]>::new(10, None).unwrap();
    assert!(spsc.is_empty());
}

#[test]
fn test_filling_up_and_test_extra_push_and_test_emptying_and_test_extra_pop() {
    let mut spsc = CohortFifo::<[u8; 16]>::new(10, None).unwrap();

    for n in [0u8, 2, 4, 6, 8] {
        spsc.push(&[n; 16], &[n + 1; 16]);
    }

    assert!(spsc.is_full());
    assert!(spsc.try_push(&[11; 16], &[11; 16]).is_err());
    assert!(spsc.is_full());

    for n in [0u8, 2] {
        let mut first = [0; 16];
        let mut second = [0; 16];
        spsc.pop(&mut first, &mut second);
        assert_eq!(first, [n; 16]);
        assert_eq!(second, [n + 1; 16]);
    }

    for n in [0u8, 2] {
        spsc.push(&[n; 16], &[n + 1; 16]);
    }

    for n in [4u8, 6, 8] {
        let mut first = [0; 16];
        let mut second = [0; 16];
        spsc.pop(&mut first, &mut second);
        assert!(first == [n; 16]);
        assert!(second == [n + 1; 16]);
    }

    for n in [0u8, 2] {
        let mut first = [0; 16];
        let mut second = [0; 16];
        spsc.pop(&mut first, &mut second);
        assert!(first == [n; 16]);
        assert!(second == [n + 1; 16]);
    }
    assert!(spsc.is_empty());
    let mut first = [0; 16];
    let mut second = [0; 16];
    assert!(spsc.try_pop(&mut first, &mut second).is_err());
}

#[test]
fn capacity_is_the_one_asked_for() {
    for capacity in [0usize, 2, 4, 10, 64, 1000] {
        let fifo = ring(capacity);
        assert_eq!(fifo.capacity(), capacity);
        assert_eq!(fifo.buffer_size(), capacity + 1);
        assert_eq!(fifo.buffer().len(), capacity + 1);
        assert_eq!(fifo.batch_size(), None);
    }
    for (capacity, batch) in [(2usize, 2usize), (4, 2), (4, 4), (10, 4), (64, 8)] {
        let fifo = batching_ring(capacity, batch);
        assert_eq!(fifo.capacity(), capacity);
        assert_eq!(fifo.batch_size(), Some(batch));
    }
}

#[test]
fn new_ring_has_every_index_at_zero_and_no_slot_written() {
    let fifo = batching_ring(4, 2);
    assert_eq!(fifo.head(), 0);
    assert_eq!(fifo.sw_tail(), 0);
    assert_eq!(fifo.hw_tail(), 0);
    assert_eq!(fifo.unread(), 0);
    assert_eq!(fifo.num_elems(), 0);
    assert!(fifo.buffer().iter().all(|slot| slot.is_none()));
}

#[test]
fn construction_rejects_odd_capacity() {
    assert_eq!(CohortFifo::<u32>::new(5, None).err(), Some(Error::Capacity(5)));
    assert_eq!(CohortFifo::<u32>::new(5, Some(2)).err(), Some(Error::CapacityNotEven));
}

#[test]
fn construction_rejects_odd_batch_size() {
    assert_eq!(CohortFifo::<u32>::new(4, Some(3)).err(), Some(Error::BatchSizeNotEven));
}

#[test]
fn construction_rejects_batch_size_below_two() {
    assert_eq!(CohortFifo::<u32>::new(4, Some(1)).err(), Some(Error::BatchSizeTooSmall));
    assert_eq!(CohortFifo::<u32>::new(4, Some(0)).err(), Some(Error::BatchSizeTooSmall));
}

#[test]
fn construction_rejects_capacity_below_batch_size() {
    assert_eq!(
        CohortFifo::<u32>::new(4, Some(6)).err(),
        Some(Error::CapacityLessThanBatchSize)
    );
}

#[test]
fn construction_checks_the_capacity_before_the_batch_size() {
    assert_eq!(CohortFifo::<u32>::new(5, Some(1)).err(), Some(Error::CapacityNotEven));
    assert_eq!(CohortFifo::<u32>::new(5, Some(3)).err(), Some(Error::CapacityNotEven));
    assert_eq!(CohortFifo::<u32>::new(5, Some(6)).err(), Some(Error::CapacityNotEven));
    assert_eq!(CohortFifo::<u32>::new(0, Some(3)).err(), Some(Error::BatchSizeNotEven));
    assert_eq!(CohortFifo::<u32>::new(0, Some(2)).err(), Some(Error::CapacityLessThanBatchSize));
}

#[test]
fn construction_accepts_capacity_equal_to_batch_size() {
    assert!(CohortFifo::<u32>::new(4, Some(4)).is_ok());
}

#[test]
fn wraparound_with_capacity_four() {
    let mut fifo = ring(4);
    fifo.push(&1, &2);
    fifo.push(&3, &4);
    assert!(fifo.is_full());
    assert_eq!(fifo.try_push(&9, &9), Err(Error::Full));

    let (mut a, mut b) = (0, 0);
    fifo.pop(&mut a, &mut b);
    assert_eq!((a, b), (1, 2));

    fifo.push(&5, &6);
    assert_eq!(fifo.sw_tail(), 1);
    assert_eq!(fifo.buffer()[4], Some(5));
    assert_eq!(fifo.buffer()[0], Some(6));

    fifo.pop(&mut a, &mut b);
    assert_eq!((a, b), (3, 4));
    fifo.pop(&mut a, &mut b);
    assert_eq!((a, b), (5, 6));
    assert!(fifo.is_empty());
}

#[test]
fn pops_come_in_push_order() {
    let mut fifo = ring(6);
    let mut next_in = 0u32;
    let mut next_out = 0u32;
    for round in 0..50 {
        let pushes = 1 + round % 3;
        for _ in 0..pushes {
            if fifo.try_push(&next_in, &(next_in + 1)).is_ok() {
                next_in += 2;
            }
        }
        let pops = 1 + (round / 2) % 3;
        for _ in 0..pops {
            if let Ok((a, b)) = try_pop_pair(&mut fifo) {
                assert_eq!((a, b), (next_out, next_out + 1));
                next_out += 2;
            }
        }
        assert_eq!(fifo.unread() as u32, next_in - next_out);
    }
    while let Ok((a, b)) = try_pop_pair(&mut fifo) {
        assert_eq!((a, b), (next_out, next_out + 1));
        next_out += 2;
    }
    assert_eq!(next_in, next_out);
    assert!(next_in > 50);
}

#[test]
fn full_and_empty_exclude_each_other() {
    let mut fifo = ring(4);
    assert!(fifo.is_empty() && !fifo.is_full());
    fifo.push(&1, &2);
    assert!(!fifo.is_empty() && !fifo.is_full());
    fifo.push(&3, &4);
    assert!(!fifo.is_empty() && fifo.is_full());
}

#[test]
fn ring_of_capacity_zero_is_both_full_and_empty() {
    let mut fifo = ring(0);
    assert!(fifo.is_empty());
    assert!(fifo.is_full());
    assert_eq!(fifo.try_push(&1, &2), Err(Error::Full));
    assert_eq!(try_pop_pair(&mut fifo), Err(Error::Empty));
}

#[test]
fn holds_exactly_its_capacity() {
    let mut fifo = ring(10);
    let mut pushed = 0;
    while fifo.try_push(&7, &8).is_ok() {
        pushed += 2;
    }
    assert_eq!(pushed, 10);
    assert_eq!(fifo.unread(), 10);
    assert_eq!(fifo.try_push(&7, &8), Err(Error::Full));
    assert_eq!(fifo.unread(), 10);
}

#[test]
fn rejected_push_changes_nothing() {
    let mut fifo = ring(2);
    fifo.push(&1, &2);
    let before: Vec<Option<u32>> = fifo.buffer().to_vec();
    let (head, sw_tail, hw_tail) = (fifo.head(), fifo.sw_tail(), fifo.hw_tail());
    assert_eq!(fifo.try_push(&3, &4), Err(Error::Full));
    assert_eq!(fifo.buffer(), &before[..]);
    assert_eq!((fifo.head(), fifo.sw_tail(), fifo.hw_tail()), (head, sw_tail, hw_tail));
}

#[test]
fn round_trip_of_a_full_capacity_leaves_the_ring_empty() {
    let mut fifo = ring(4);
    fifo.push(&1, &2);
    fifo.push(&3, &4);
    assert_eq!(try_pop_pair(&mut fifo), Ok((1, 2)));
    assert_eq!(try_pop_pair(&mut fifo), Ok((3, 4)));
    assert!(fifo.is_empty());
    assert_eq!(fifo.unread(), 0);
    assert_eq!(fifo.head(), 4);
    assert_eq!(fifo.sw_tail(), 4);
    assert_eq!(fifo.hw_tail(), 4);
}

#[test]
fn round_trip_on_capacity_zero_moves_nothing() {
    let mut fifo = ring(0);
    assert_eq!(try_pop_pair(&mut fifo), Err(Error::Empty));
    assert_eq!((fifo.head(), fifo.sw_tail(), fifo.hw_tail()), (0, 0, 0));
}

#[test]
fn try_pop_on_empty_reports_empty_and_keeps_the_head() {
    let mut fifo = ring(4);
    let (mut a, mut b) = (41, 42);
    assert_eq!(fifo.try_pop(&mut a, &mut b), Err(Error::Empty));
    assert_eq!((a, b), (41, 42));
    assert_eq!(fifo.head(), 0);

    fifo.push(&1, &2);
    fifo.pop(&mut a, &mut b);
    assert_eq!(fifo.head(), 2);
    assert_eq!(fifo.try_pop(&mut a, &mut b), Err(Error::Empty));
    assert_eq!((a, b), (1, 2));
    assert_eq!(fifo.head(), 2);
    assert_eq!(fifo.sw_tail(), 2);
}

#[test]
fn push_writes_at_the_tail_and_moves_it_by_two() {
    let mut fifo = ring(4);
    fifo.push(&10, &20);
    assert_eq!(fifo.buffer(), &[Some(10), Some(20), None, None, None][..]);
    assert_eq!(fifo.sw_tail(), 2);
    assert_eq!(fifo.hw_tail(), 2);
    assert_eq!(fifo.head(), 0);
    assert_eq!(fifo.unread(), 2);
}

#[test]
fn num_elems_is_the_distance_from_tail_to_head() {
    let mut fifo = ring(4);
    assert_eq!(fifo.num_elems(), 0);
    fifo.push(&1, &2);
    assert_eq!(fifo.num_elems(), 3);
    fifo.push(&3, &4);
    assert_eq!(fifo.num_elems(), 1);
    let (mut a, mut b) = (0, 0);
    fifo.pop(&mut a, &mut b);
    assert_eq!((fifo.head(), fifo.sw_tail()), (2, 4));
    assert_eq!(fifo.num_elems(), 3);
    fifo.pop(&mut a, &mut b);
    assert_eq!(fifo.num_elems(), 0);
}

#[test]
fn iter_walks_from_the_tail_to_the_head() {
    let mut fifo = ring(4);
    assert_eq!(fifo.iter(), vec![]);
    fifo.push(&1, &2);
    fifo.push(&3, &4);
    let (mut a, mut b) = (0, 0);
    fifo.pop(&mut a, &mut b);
    assert_eq!((fifo.head(), fifo.sw_tail()), (2, 4));
    assert_eq!(fifo.iter(), vec![(4, None), (0, Some(1)), (1, Some(2))]);
    assert_eq!(fifo.iter().len(), fifo.num_elems());
}

#[test]
fn batching_publishes_a_whole_batch_at_a_time() {
    let mut fifo = batching_ring(8, 4);
    fifo.push(&1, &2);
    assert_eq!((fifo.sw_tail(), fifo.hw_tail()), (2, 0));
    fifo.push(&3, &4);
    assert_eq!((fifo.sw_tail(), fifo.hw_tail()), (4, 4));
    fifo.push(&5, &6);
    assert_eq!((fifo.sw_tail(), fifo.hw_tail()), (6, 4));
    fifo.push(&7, &8);
    assert_eq!((fifo.sw_tail(), fifo.hw_tail()), (8, 8));
    assert!(fifo.is_full());
}

#[test]
fn batching_keeps_the_unpublished_count_below_the_batch_size() {
    let mut fifo = batching_ring(12, 6);
    let mut value = 0u32;
    for round in 0..40 {
        if fifo.try_push(&value, &(value + 1)).is_ok() {
            value += 2;
        }
        let size = fifo.buffer_size();
        let gap = (fifo.sw_tail() + size - fifo.hw_tail()) % size;
        assert!(gap < 6);
        assert!(gap % 2 == 0);
        if round % 5 == 4 {
            while try_pop_pair(&mut fifo).is_ok() {}
            assert_eq!(fifo.sw_tail(), fifo.hw_tail());
        }
    }
}

#[test]
fn batching_pop_sees_only_what_was_published() {
    let mut fifo = batching_ring(8, 4);
    fifo.push(&1, &2);
    assert_eq!(fifo.unread(), 2);
    assert_eq!(try_pop_pair(&mut fifo), Err(Error::Empty));
    assert_eq!(fifo.unread(), 0);
    assert_eq!((fifo.head(), fifo.sw_tail(), fifo.hw_tail()), (0, 0, 0));

    fifo.push(&3, &4);
    fifo.push(&5, &6);
    assert_eq!(try_pop_pair(&mut fifo), Ok((3, 4)));
    assert_eq!(try_pop_pair(&mut fifo), Ok((5, 6)));
    assert_eq!(try_pop_pair(&mut fifo), Err(Error::Empty));
}

#[test]
fn batch_size_two_publishes_every_push() {
    let mut fifo = batching_ring(4, 2);
    fifo.push(&1, &2);
    assert_eq!((fifo.sw_tail(), fifo.hw_tail()), (2, 2));
    assert_eq!(try_pop_pair(&mut fifo), Ok((1, 2)));
}

#[test]
fn batching_wraps_around() {
    let mut fifo = batching_ring(4, 4);
    fifo.push(&1, &2);
    fifo.push(&3, &4);
    assert_eq!(try_pop_pair(&mut fifo), Ok((1, 2)));
    assert_eq!(try_pop_pair(&mut fifo), Ok((3, 4)));
    assert_eq!((fifo.head(), fifo.sw_tail(), fifo.hw_tail()), (4, 4, 4));
    fifo.push(&5, &6);
    assert_eq!((fifo.sw_tail(), fifo.hw_tail()), (1, 4));
    fifo.push(&7, &8);
    assert_eq!((fifo.sw_tail(), fifo.hw_tail()), (3, 3));
    assert_eq!(try_pop_pair(&mut fifo), Ok((5, 6)));
    assert_eq!(try_pop_pair(&mut fifo), Ok((7, 8)));
    assert!(fifo.is_empty());
}

#[test]
fn validate_agrees_with_new() {
    let cases: [(usize, Option<usize>); 10] = [
        (0, None),
        (5, None),
        (10, None),
        (4, Some(0)),
        (4, Some(1)),
        (4, Some(3)),
        (4, Some(4)),
        (4, Some(6)),
        (5, Some(4)),
        (usize::MAX, None),
    ];
    for (capacity, batch_size) in cases {
        if capacity < 1000 {
            assert_eq!(
                validate(capacity, batch_size).err(),
                CohortFifo::<u32>::new(capacity, batch_size).err()
            );
        }
    }
    assert_eq!(validate(10, Some(4)), Ok(()));
    assert_eq!(
        validate(usize::MAX, None),
        Err(Error::Capacity(usize::MAX))
    );
}

#[test]
fn round_trip_on_several_capacities() {
    for capacity in [2usize, 4, 6, 10, 32] {
        let mut fifo = ring(capacity);
        for n in 0..capacity / 2 {
            fifo.push(&(2 * n as u32), &(2 * n as u32 + 1));
        }
        assert!(fifo.is_full());
        for n in 0..capacity / 2 {
            assert_eq!(try_pop_pair(&mut fifo), Ok((2 * n as u32, 2 * n as u32 + 1)));
        }
        assert!(fifo.is_empty());
        assert_eq!(fifo.head(), capacity);
        assert_eq!(fifo.sw_tail(), capacity);
        assert_eq!(fifo.hw_tail(), capacity);
    }
}

#[test]
fn round_trip_with_a_batch_left_incomplete() {
    let mut fifo = batching_ring(10, 4);
    for n in 0..5u32 {
        fifo.push(&(2 * n), &(2 * n + 1));
    }
    assert!(fifo.is_full());
    assert_eq!((fifo.sw_tail(), fifo.hw_tail()), (10, 8));
    for n in 0..4u32 {
        assert_eq!(try_pop_pair(&mut fifo), Ok((2 * n, 2 * n + 1)));
    }
    assert_eq!(try_pop_pair(&mut fifo), Err(Error::Empty));
    assert!(fifo.is_empty());
    assert_eq!((fifo.head(), fifo.sw_tail(), fifo.hw_tail()), (8, 8, 8));
}

#[test]
fn many_pairs_through_a_small_ring() {
    let mut fifo = CohortFifo::<[u8; 16]>::new(10, None).unwrap();
    let mut sent = 0u32;
    let mut received = 0u32;
    while received < 100_000 {
        while sent < 100_000 && fifo.try_push(&[(sent % 64) as u8; 16], &[(sent % 64) as u8; 16]).is_ok() {
            sent += 1;
        }
        let mut first = [0; 16];
        let mut second = [0; 16];
        while fifo.try_pop(&mut first, &mut second).is_ok() {
            assert_eq!(first, [(received % 64) as u8; 16]);
            assert_eq!(second, [(received % 64) as u8; 16]);
            received += 1;
        }
    }
    assert_eq!(sent, received);
    assert!(fifo.is_empty());
}

#[test]
fn elem_size_is_the_size_of_an_element() {
    assert_eq!(ring(4).elem_size(), 4);
    assert_eq!(CohortFifo::<[u8; 16]>::new(10, None).unwrap().elem_size(), 16);
    assert_eq!(CohortFifo::<u64>::new(2, Some(2)).unwrap().elem_size(), 8);
}
