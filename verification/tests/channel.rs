use cohort::channel::describe;
use cohort::error::Error;
use cohort::fifo::CohortFifo;
use cohort::{Binding, Cohort, KernelCall, BACKOFF_COUNTER_VAL};

#[test]
fn backoff_constant() {
    assert_eq!(BACKOFF_COUNTER_VAL, 240);
}

#[test]
fn new_channel_is_empty_and_unregistered() {
    let cohort = Cohort::<u64>::new(3, 8, 4);
    assert_eq!(cohort.id(), 3);
    assert_eq!(cohort.binding(), Binding::Created);
    assert_eq!(*cohort.custom_data(), 0);
    assert!(cohort.sender().is_empty());
    assert!(cohort.receiver().is_empty());
    assert_eq!(cohort.sender().capacity(), 8);
    assert_eq!(cohort.receiver().capacity(), 8);
    assert_eq!(cohort.sender().batch_size(), Some(4));
    assert_eq!(cohort.receiver().batch_size(), Some(4));
}

#[test]
fn register_hands_out_the_registration() {
    let (cohort, call) = Cohort::<u64>::register(0, 8, 2);
    assert_eq!(call, KernelCall::Register { backoff: 240 });
    assert_eq!(cohort.binding(), Binding::Registered);
    assert!(cohort.sender().is_empty());
}

#[test]
fn a_channel_is_registered_once() {
    let mut cohort = Cohort::<u64>::new(0, 8, 2);
    assert_eq!(
        cohort.cohort_mn_register(),
        Some(KernelCall::Register { backoff: BACKOFF_COUNTER_VAL })
    );
    assert_eq!(cohort.binding(), Binding::Registered);
    assert_eq!(cohort.cohort_mn_register(), None);
    assert_eq!(cohort.binding(), Binding::Registered);
}

#[test]
fn a_channel_is_unregistered_once() {
    let (mut cohort, _) = Cohort::<u64>::register(0, 8, 2);
    assert_eq!(cohort.cohort_mn_unregister(), Some(KernelCall::Unregister));
    assert_eq!(cohort.binding(), Binding::Unregistered);
    assert_eq!(cohort.cohort_mn_unregister(), None);
    assert_eq!(cohort.binding(), Binding::Unregistered);
    assert_eq!(cohort.cohort_mn_register(), None);
    assert_eq!(cohort.binding(), Binding::Unregistered);
}

#[test]
fn a_channel_never_registered_is_still_torn_down_once() {
    let mut cohort = Cohort::<u64>::new(0, 8, 2);
    assert_eq!(cohort.cohort_mn_unregister(), Some(KernelCall::Unregister));
    assert_eq!(cohort.cohort_mn_unregister(), None);
}

#[test]
fn push_goes_to_the_sender() {
    let mut cohort = Cohort::<u64>::new(0, 4, 2);
    cohort.push(&1, &2);
    assert_eq!(cohort.try_push(&3, &4), Ok(()));
    assert_eq!(cohort.try_push(&5, &6), Err(Error::Full));
    assert_eq!(cohort.sender().unread(), 4);
    assert_eq!(cohort.receiver().unread(), 0);
    assert_eq!(cohort.sender().buffer(), &[Some(1), Some(2), Some(3), Some(4), None][..]);
}

#[test]
fn pop_comes_from_the_receiver() {
    let mut cohort = Cohort::<u64>::new(0, 4, 2);
    cohort.push(&1, &2);
    let (mut a, mut b) = (0, 0);
    assert_eq!(cohort.try_pop(&mut a, &mut b), Err(Error::Empty));
    assert_eq!((a, b), (0, 0));

    cohort.receiver_mut().push(&7, &8);
    cohort.receiver_mut().push(&9, &10);
    cohort.pop(&mut a, &mut b);
    assert_eq!((a, b), (7, 8));
    assert_eq!(cohort.try_pop(&mut a, &mut b), Ok(()));
    assert_eq!((a, b), (9, 10));
    assert_eq!(cohort.try_pop(&mut a, &mut b), Err(Error::Empty));
    assert_eq!(cohort.sender().unread(), 2);
}

#[test]
fn loopback_through_both_rings() {
    let mut cohort = Cohort::<u64>::new(0, 8, 4);
    for n in 0..4u64 {
        cohort.push(&(2 * n), &(2 * n + 1));
    }
    let (mut a, mut b) = (0, 0);
    while cohort.sender_mut().try_pop(&mut a, &mut b).is_ok() {
        cohort.receiver_mut().push(&(a + 100), &(b + 100));
    }
    for n in 0..4u64 {
        cohort.pop(&mut a, &mut b);
        assert_eq!((a, b), (2 * n + 100, 2 * n + 101));
    }
    assert!(cohort.sender().is_empty());
    assert!(cohort.receiver().is_empty());
}

#[test]
fn rings_as_text() {
    let mut cohort = Cohort::<u64>::new(0, 4, 2);
    cohort.push(&11, &22);
    let sender = cohort.sender_to_string();
    let receiver = cohort.receiver_to_string();
    assert!(sender.contains("11") && sender.contains("22"));
    assert!(!receiver.contains("11"));
    assert_ne!(sender, receiver);
    assert_eq!(
        sender,
        "CohortFifo { head: 0, sw_tail: 2, hw_tail: 2, batch_size: 2, buffer: [11, 22, -, -, -] }"
    );
    assert_eq!(
        receiver,
        "CohortFifo { head: 0, sw_tail: 0, hw_tail: 0, batch_size: 2, buffer: [-, -, -, -, -] }"
    );
}

#[test]
fn ring_text_follows_the_indices() {
    let mut cohort = Cohort::<u64>::new(0, 12, 4);
    cohort.receiver_mut().push(&1, &2);
    cohort.receiver_mut().push(&3, &4);
    cohort.receiver_mut().push(&5, &6);
    let (mut a, mut b) = (0, 0);
    cohort.pop(&mut a, &mut b);
    assert_eq!(
        cohort.receiver_to_string(),
        "CohortFifo { head: 2, sw_tail: 4, hw_tail: 4, batch_size: 4, \
         buffer: [1, 2, 3, 4, 5, 6, -, -, -, -, -, -, -] }"
    );
    assert_eq!(
        cohort.sender_to_string(),
        "CohortFifo { head: 0, sw_tail: 0, hw_tail: 0, batch_size: 4, \
         buffer: [-, -, -, -, -, -, -, -, -, -, -, -, -] }"
    );
}

#[test]
fn elements_write_themselves() {
    let mut cohort = Cohort::<[u8; 2]>::new(0, 2, 2);
    cohort.push(&[1, 2], &[3, 4]);
    assert_eq!(
        cohort.sender_to_string(),
        "CohortFifo { head: 0, sw_tail: 2, hw_tail: 2, batch_size: 2, buffer: [[1, 2], [3, 4], -] }"
    );
}

#[test]
fn describe_lays_out_the_texts_it_is_given() {
    let mut fifo = CohortFifo::<u32>::new(2, None).unwrap();
    fifo.push(&7, &8);
    let texts = vec!["seven".to_string(), "eight".to_string(), "spare".to_string()];
    assert_eq!(
        describe(&fifo, &texts),
        "CohortFifo { head: 0, sw_tail: 2, hw_tail: 2, batch_size: none, \
         buffer: [seven, eight, spare] }"
    );
    assert_eq!(
        describe(&fifo, &vec!["alone".to_string()]),
        "CohortFifo { head: 0, sw_tail: 2, hw_tail: 2, batch_size: none, buffer: [alone] }"
    );
    assert_eq!(
        describe(&fifo, &vec![]),
        "CohortFifo { head: 0, sw_tail: 2, hw_tail: 2, batch_size: none, buffer: [] }"
    );
}
