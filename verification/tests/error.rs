use cohort::error::Error;

#[test]
fn full_and_empty_in_words() {
    assert_eq!(Error::Full.to_string(), "fifo is full");
    assert_eq!(Error::Empty.to_string(), "fifo is empty");
}

#[test]
fn capacity_error_names_the_capacity() {
    assert_eq!(Error::Capacity(5).to_string(), "fifo capacity 5 is not divisible by 2");
    assert_eq!(Error::Capacity(0).to_string(), "fifo capacity 0 is not divisible by 2");
    assert_eq!(Error::Capacity(10).to_string(), "fifo capacity 10 is not divisible by 2");
    assert_eq!(
        Error::Capacity(1234567890).to_string(),
        "fifo capacity 1234567890 is not divisible by 2"
    );
    assert_eq!(
        Error::Capacity(usize::MAX).to_string(),
        format!("fifo capacity {} is not divisible by 2", usize::MAX)
    );
}

#[test]
fn construction_errors_in_words() {
    assert_eq!(Error::BatchSizeTooSmall.to_string(), "batch size is too small");
    assert_eq!(Error::BatchSizeNotEven.to_string(), "batch size is not even");
    assert_eq!(
        Error::CapacityLessThanBatchSize.to_string(),
        "capacity is less than batch size"
    );
    assert_eq!(Error::CapacityNotEven.to_string(), "capacity is not even");
}
