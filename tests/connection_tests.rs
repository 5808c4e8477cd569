use iceoryx2_core::channel::OverflowPolicy;
use iceoryx2_core::connection::{Connection, ConnectionError};

fn receive_values(c: &mut Connection) -> Vec<u64> {
    let mut got = vec![];
    while let Ok(Some(_)) = c.receive() {
        got.push(c.read(c.number_of_loans() - 1));
        c.release(c.number_of_loans() - 1);
    }
    got
}

#[test]
fn connection_round_trip() {
    let mut c = Connection::new(0, 4, OverflowPolicy::DropOldest, 2);
    let total = c.free_slots();
    assert_eq!(total, 0 + 4 + 2 + 1);
    for v in [1u64, 2, 3] {
        c.send(v).unwrap();
    }
    assert_eq!(receive_values(&mut c), vec![1, 2, 3]);
    assert_eq!(c.free_slots(), total);
}

#[test]
fn connection_overflow_drop_oldest() {
    let mut c = Connection::new(0, 2, OverflowPolicy::DropOldest, 2);
    let total = c.free_slots();
    for v in [10u64, 20, 30, 40] {
        c.send(v).unwrap();
    }
    assert_eq!(c.sample_loss_count(), 2);
    assert_eq!(receive_values(&mut c), vec![30, 40]);
    assert_eq!(c.free_slots(), total);
}

#[test]
fn connection_sequence_numbers_increase() {
    let mut c = Connection::new(1, 3, OverflowPolicy::Reject, 3);
    let sent: Vec<u64> = (0..5).map(|v| c.send(v).unwrap().sequence_number).collect();
    assert_eq!(sent, vec![0, 1, 2, 3, 4]);
    let mut seqs = vec![];
    while let Ok(Some(s)) = c.receive() {
        seqs.push(s.sequence_number);
    }
    assert_eq!(seqs, vec![0, 1, 2]);
    assert_eq!(c.sample_loss_count(), 2);
}

#[test]
fn loan_outlives_later_sends() {
    let mut c = Connection::new(1, 1, OverflowPolicy::DropOldest, 1);
    c.send(7).unwrap();
    let loan = c.receive().unwrap().unwrap();
    for v in 100u64..110 {
        c.send(v).unwrap();
    }
    // the loaned slot was not reused: its contents are intact
    assert_eq!(c.loan_at(0), loan);
    assert_eq!(c.read(0), 7);
    assert_eq!(c.receive(), Err(ConnectionError::ExceedsMaxLoanedSamples));
    assert!(c.release(0));
    assert_eq!(c.receive().unwrap().map(|s| s.sequence_number), Some(10));
}

#[test]
fn history_holds_slots_until_pushed_out() {
    let mut c = Connection::new(2, 1, OverflowPolicy::DropOldest, 1);
    let total = c.free_slots();
    c.send(1).unwrap();
    c.send(2).unwrap();
    c.send(3).unwrap();
    // two slots are referenced by the history, one by the queue (also in history)
    assert_eq!(c.free_slots(), total - 2);
    assert_eq!(receive_values(&mut c), vec![3]);
    assert_eq!(c.free_slots(), total - 2);
}

#[test]
fn pool_exhaustion_on_send() {
    let mut c = Connection::new(0, 1, OverflowPolicy::Reject, 1);
    c.send(1).unwrap();
    c.receive().unwrap();
    c.send(2).unwrap();
    // one slot loaned, one queued, one free
    assert_eq!(c.free_slots(), 1);
    c.send(3).unwrap();
    assert_eq!(c.free_slots(), 1);
}
