use plato_state::{timestamp_from_elapsed, StateHistory, StateLabel};

/// A room state as sixteen values, one per label.
type Values = [f64; 16];

fn state_with(label: StateLabel, value: f64) -> Values {
    let mut v = [0.0; 16];
    v[label.index()] = value;
    v
}

#[test]
fn test_history_push_and_latest() {
    let mut hist: StateHistory<Values> = StateHistory::new(5);
    assert!(hist.latest().is_none());
    let v = state_with(StateLabel::Health, 1.0);
    hist.push(v);
    assert_eq!(hist.len(), 1);
    assert!((hist.latest().unwrap()[StateLabel::Health.index()] - 1.0).abs() < 1e-10);
}

#[test]
fn test_history_ring_wrap() {
    let mut hist: StateHistory<Values> = StateHistory::new(3);
    for i in 0..5u64 {
        let v = state_with(StateLabel::Health, i as f64);
        hist.push_with_timestamp(v, i);
    }
    assert_eq!(hist.len(), 3);
    // Latest should be 4.0
    assert!((hist.latest().unwrap()[StateLabel::Health.index()] - 4.0).abs() < 1e-10);
}

#[test]
fn new_history_is_empty() {
    let hist: StateHistory<u32> = StateHistory::new(4);
    assert!(hist.is_empty());
    assert_eq!(hist.len(), 0);
    assert_eq!(hist.capacity(), 4);
    assert!(hist.latest().is_none());
    assert!(hist.iter_chrono().is_empty());
}

#[test]
fn zero_capacity_history_reads_empty() {
    let hist: StateHistory<u32> = StateHistory::new(0);
    assert!(hist.is_empty());
    assert!(hist.latest().is_none());
    assert!(hist.iter_chrono().is_empty());
}

#[test]
fn chrono_order_before_wrap() {
    let mut hist: StateHistory<u32> = StateHistory::new(4);
    hist.push_with_timestamp(10, 100);
    hist.push_with_timestamp(11, 101);
    hist.push_with_timestamp(12, 102);
    let states: Vec<u32> = hist.iter_chrono().iter().map(|e| e.state).collect();
    let stamps: Vec<u64> = hist.iter_chrono().iter().map(|e| e.timestamp).collect();
    assert_eq!(states, vec![10, 11, 12]);
    assert_eq!(stamps, vec![100, 101, 102]);
    assert!(!hist.is_empty());
    assert_eq!(*hist.latest().unwrap(), 12);
}

#[test]
fn chrono_order_after_wrap_keeps_most_recent() {
    let mut hist: StateHistory<u32> = StateHistory::new(3);
    for i in 0..8u32 {
        hist.push_with_timestamp(i, i as u64 * 10);
        let expected: Vec<u32> = (i.saturating_sub(2)..=i).collect();
        let states: Vec<u32> = hist.iter_chrono().iter().map(|e| e.state).collect();
        assert_eq!(states, expected);
        assert_eq!(hist.len(), expected.len());
        assert_eq!(*hist.latest().unwrap(), i);
    }
    let stamps: Vec<u64> = hist.iter_chrono().iter().map(|e| e.timestamp).collect();
    assert_eq!(stamps, vec![50, 60, 70]);
}

#[test]
fn full_history_evicts_oldest() {
    let mut hist: StateHistory<u32> = StateHistory::new(2);
    hist.push_with_timestamp(1, 1);
    hist.push_with_timestamp(2, 2);
    hist.push_with_timestamp(3, 3);
    let states: Vec<u32> = hist.iter_chrono().iter().map(|e| e.state).collect();
    assert_eq!(states, vec![2, 3]);
    assert_eq!(hist.len(), 2);
}

#[test]
fn capacity_one_holds_the_latest_only() {
    let mut hist: StateHistory<u32> = StateHistory::new(1);
    for i in 0..4u32 {
        hist.push_with_timestamp(i, 0);
        assert_eq!(hist.len(), 1);
        assert_eq!(*hist.latest().unwrap(), i);
        let states: Vec<u32> = hist.iter_chrono().iter().map(|e| e.state).collect();
        assert_eq!(states, vec![i]);
    }
}

#[test]
fn push_stamps_with_the_clock() {
    let mut hist: StateHistory<u32> = StateHistory::new(2);
    hist.push(7);
    let entries = hist.iter_chrono();
    assert_eq!(entries.len(), 1);
    assert_eq!(entries[0].state, 7);
    // milliseconds since the Unix epoch: some time after the year 2020
    assert!(entries[0].timestamp > 1_577_836_800_000);
    assert!(plato_state::now_ms() >= entries[0].timestamp);
}

#[test]
fn timestamp_from_elapsed_truncates_or_zeroes() {
    assert_eq!(timestamp_from_elapsed(Some(1_234)), 1_234);
    assert_eq!(timestamp_from_elapsed(None), 0);
    assert_eq!(timestamp_from_elapsed(Some((1u128 << 64) + 5)), 5);
    assert_eq!(timestamp_from_elapsed(Some(u64::MAX as u128)), u64::MAX);
}
