use iceoryx2_core::channel::{Channel, OverflowPolicy, PushOutcome, SampleRef};
use iceoryx2_core::subscriber::Subscriber;

fn sample(slot: usize, seq: u64) -> SampleRef {
    SampleRef { slot, sequence_number: seq }
}

#[test]
fn receive_goes_round_robin_over_publishers() {
    let mut sub = Subscriber::new();
    assert_eq!(sub.connect(Channel::new(4, OverflowPolicy::DropOldest)), 0);
    assert_eq!(sub.connect(Channel::new(4, OverflowPolicy::DropOldest)), 1);
    assert_eq!(sub.connect(Channel::new(4, OverflowPolicy::DropOldest)), 2);
    assert_eq!(sub.deliver(0, sample(0, 1)), PushOutcome::Delivered);
    sub.deliver(0, sample(1, 2));
    sub.deliver(2, sample(5, 10));
    sub.deliver(2, sample(6, 11));
    let got: Vec<(usize, u64)> = std::iter::from_fn(|| sub.receive())
        .map(|(p, s)| (p, s.sequence_number))
        .collect();
    assert_eq!(got, vec![(0, 1), (2, 10), (0, 2), (2, 11)]);
    assert!(sub.receive().is_none());
    assert_eq!(sub.number_of_publishers(), 3);
}

#[test]
fn subscriber_without_publishers_receives_nothing() {
    let mut sub = Subscriber::new();
    assert!(sub.receive().is_none());
}
