use linux_task_manager::history::{HistoryBuffer, HISTORY_CAPACITY};

#[test]
fn empty_buffer_is_valid() {
    let buf = HistoryBuffer::new();
    assert_eq!(buf.len(), 0);
    assert!(buf.values().is_empty());
}

#[test]
fn single_element_buffer_is_valid() {
    let mut buf = HistoryBuffer::new();
    buf.push(4200);
    assert_eq!(buf.len(), 1);
    assert_eq!(buf.values()[0], 4200);
}

#[test]
fn push_keeps_insertion_order_below_capacity() {
    let mut buf = HistoryBuffer::new();
    for v in 1..=10u64 {
        buf.push(v);
    }
    assert_eq!(buf.len(), 10);
    let values = buf.values();
    for (i, v) in values.iter().enumerate() {
        assert_eq!(*v, (i + 1) as u64);
    }
}

#[test]
fn pushing_120_values_keeps_last_100_in_order() {
    let mut buf = HistoryBuffer::new();
    for v in 1..=120u64 {
        buf.push(v);
    }
    assert_eq!(buf.len(), HISTORY_CAPACITY);
    let values = buf.values();
    assert_eq!(values.len(), 100);
    assert_eq!(values[0], 21);
    assert_eq!(values[99], 120);
    for (i, v) in values.iter().enumerate() {
        assert_eq!(*v, (i + 21) as u64);
    }
}

#[test]
fn push_at_exact_capacity_evicts_oldest() {
    let mut buf = HistoryBuffer::new();
    for v in 0..HISTORY_CAPACITY as u64 {
        buf.push(v);
    }
    assert_eq!(buf.len(), HISTORY_CAPACITY);
    assert_eq!(buf.values()[0], 0);
    buf.push(999);
    assert_eq!(buf.len(), HISTORY_CAPACITY);
    assert_eq!(buf.values()[0], 1);
    assert_eq!(buf.values()[HISTORY_CAPACITY - 1], 999);
}
