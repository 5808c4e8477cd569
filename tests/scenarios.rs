use iceoryx2_core::channel::{Channel, OverflowPolicy, PushOutcome, SampleRef};
use iceoryx2_core::dynamic_config::{Capacities, DynamicConfig, PortKind, RegistrationError};
use iceoryx2_core::history::History;
use iceoryx2_core::monitoring::State;
use iceoryx2_core::slot_pool::{SlotPool, SlotPoolError};
use iceoryx2_core::static_config::{
    ConfigField, MessagingPattern, ServiceOpenError, StaticConfig, TypeDetail,
};

/// Publishes `value` as sample `seq` into `channel`, the publisher giving up
/// its write reference afterwards; returns what the channel did.
fn publish(
    pool: &mut SlotPool,
    payloads: &mut Vec<u64>,
    channel: &mut Channel,
    value: u64,
    seq: u64,
) -> PushOutcome {
    let slot = pool.loan().unwrap();
    payloads[slot] = value;
    pool.borrow(slot).unwrap();
    let outcome = channel.push(SampleRef { slot, sequence_number: seq });
    match outcome {
        PushOutcome::DeliveredDroppingOldest(old) => {
            pool.release(old.slot).unwrap();
        }
        PushOutcome::Rejected => {
            pool.release(slot).unwrap();
        }
        PushOutcome::Delivered => {}
    }
    pool.release(slot).unwrap();
    outcome
}

/// Receives every queued sample, releasing each loan after reading it.
fn receive_all(pool: &mut SlotPool, payloads: &Vec<u64>, channel: &mut Channel) -> Vec<u64> {
    let mut got = vec![];
    while let Some(s) = channel.pop() {
        got.push(payloads[s.slot]);
        pool.release(s.slot).unwrap();
    }
    got
}

fn u64_type() -> TypeDetail {
    TypeDetail { type_id: 0x75_36_34, size: 8, alignment: 8 }
}

fn pub_sub_u64() -> StaticConfig {
    StaticConfig {
        messaging_pattern: MessagingPattern::PublishSubscribe,
        payload: u64_type(),
        response: None,
        history_size: 0,
        subscriber_max_buffer_size: 2,
        max_publishers: 2,
        max_subscribers: 8,
        max_nodes: 20,
        subscriber_max_borrowed_samples: 2,
        overflow: OverflowPolicy::DropOldest,
    }
}

#[test]
fn basic_round_trip() {
    let mut pool = SlotPool::new(4);
    let mut payloads = vec![0u64; 4];
    let mut channel = Channel::new(4, OverflowPolicy::DropOldest);
    for (seq, v) in [1u64, 2, 3].iter().enumerate() {
        assert_eq!(
            publish(&mut pool, &mut payloads, &mut channel, *v, seq as u64),
            PushOutcome::Delivered
        );
    }
    assert_eq!(receive_all(&mut pool, &payloads, &mut channel), vec![1, 2, 3]);
    assert_eq!(pool.free_len(), 4);
}

#[test]
fn overflow_drop_oldest() {
    let mut pool = SlotPool::new(6);
    let mut payloads = vec![0u64; 6];
    let mut channel = Channel::new(2, OverflowPolicy::DropOldest);
    for (seq, v) in [10u64, 20, 30, 40].iter().enumerate() {
        publish(&mut pool, &mut payloads, &mut channel, *v, seq as u64);
    }
    assert_eq!(channel.sample_loss_count(), 2);
    assert_eq!(receive_all(&mut pool, &payloads, &mut channel), vec![30, 40]);
    assert_eq!(pool.free_len(), 6);
}

#[test]
fn overflow_reject_keeps_queued_samples() {
    let mut pool = SlotPool::new(6);
    let mut payloads = vec![0u64; 6];
    let mut channel = Channel::new(2, OverflowPolicy::Reject);
    let mut outcomes = vec![];
    for (seq, v) in [10u64, 20, 30].iter().enumerate() {
        outcomes.push(publish(&mut pool, &mut payloads, &mut channel, *v, seq as u64));
    }
    assert_eq!(outcomes[2], PushOutcome::Rejected);
    assert_eq!(channel.sample_loss_count(), 1);
    assert_eq!(receive_all(&mut pool, &payloads, &mut channel), vec![10, 20]);
    assert_eq!(pool.free_len(), 6);
}

#[test]
fn dead_publisher_loan_outlives() {
    let publisher_node: u128 = 77;
    let mut registry = DynamicConfig::new(Capacities {
        max_nodes: 3,
        max_publishers: 1,
        max_subscribers: 1,
        max_clients: 0,
        max_servers: 0,
    });
    registry.register_node(publisher_node).unwrap();
    registry.register_node(5).unwrap();
    registry.add_port(PortKind::Publisher, 1, publisher_node).unwrap();
    registry.add_port(PortKind::Subscriber, 2, 5).unwrap();

    let mut pool = SlotPool::new(2);
    let mut payloads = vec![0u64; 2];
    let mut channel = Channel::new(2, OverflowPolicy::DropOldest);
    publish(&mut pool, &mut payloads, &mut channel, 4711, 7);
    let loan = channel.pop().unwrap();
    assert_eq!(loan.sequence_number, 7);

    // the publisher dies: it is seen as dead, while the loan stays readable
    assert_eq!(registry.remove_stale_resources(publisher_node, State::Alive).is_err(), true);
    assert_eq!(payloads[loan.slot], 4711);
    assert_eq!(pool.refcount(loan.slot), 1);
    assert_eq!(pool.release(loan.slot), Ok(true));
    assert_eq!(registry.remove_stale_resources(publisher_node, State::Dead), Ok(true));
    assert_eq!(registry.number_of_ports(PortKind::Publisher), 0);
    assert_eq!(registry.number_of_ports(PortKind::Subscriber), 1);
    assert!(registry.has_node(5));
}

#[test]
fn service_config_mismatch() {
    let transmission_data = TypeDetail { type_id: 0x7464, size: 16, alignment: 8 };
    let created = StaticConfig {
        messaging_pattern: MessagingPattern::RequestResponse,
        response: Some(transmission_data),
        ..pub_sub_u64()
    };
    let requested = pub_sub_u64();
    assert_eq!(
        created.check_compatible(&requested),
        Err(ServiceOpenError::IncompatibleServiceConfig(ConfigField::MessagingPattern))
    );
}

#[test]
fn history_replay() {
    let mut history = History::new(3);
    for seq in 100u64..200 {
        history.record(SampleRef { slot: (seq % 8) as usize, sequence_number: seq });
    }
    let mut channel = Channel::with_history(4, OverflowPolicy::DropOldest, &history);
    let seqs: Vec<u64> = (0..3).map(|_| channel.pop().unwrap().sequence_number).collect();
    assert_eq!(seqs, vec![197, 198, 199]);
    channel.push(SampleRef { slot: 1, sequence_number: 200 });
    assert_eq!(channel.pop().unwrap().sequence_number, 200);
    assert!(channel.pop().is_none());
}

#[test]
fn capacity() {
    let mut registry = DynamicConfig::new(Capacities {
        max_nodes: 2,
        max_publishers: 1,
        max_subscribers: 2,
        max_clients: 0,
        max_servers: 0,
    });
    assert_eq!(registry.add_port(PortKind::Subscriber, 1, 9), Ok(()));
    assert_eq!(registry.add_port(PortKind::Subscriber, 2, 9), Ok(()));
    assert_eq!(
        registry.add_port(PortKind::Subscriber, 3, 9),
        Err(RegistrationError::ExceedsMaxSubscribers)
    );
    assert_eq!(registry.number_of_ports(PortKind::Subscriber), 2);
    assert_eq!(registry.add_port(PortKind::Publisher, 4, 9), Ok(()));
}

#[test]
fn pool_exhaustion_and_corruption() {
    let mut pool = SlotPool::new(1);
    let s = pool.loan().unwrap();
    assert_eq!(s, 0);
    assert_eq!(pool.loan(), Err(SlotPoolError::ExceedsMaxLoanedSamples));
    assert_eq!(pool.release(s), Ok(true));
    assert_eq!(pool.release(s), Err(SlotPoolError::Corrupted));
    assert_eq!(pool.borrow(5), Err(SlotPoolError::Corrupted));
    assert_eq!(pool.free_len(), 1);
    assert_eq!(pool.capacity(), 1);
}

#[test]
fn delivery_is_in_publication_order() {
    let mut channel = Channel::new(3, OverflowPolicy::DropOldest);
    for seq in 1u64..=5 {
        channel.push(SampleRef { slot: 0, sequence_number: seq });
    }
    let mut last = 0;
    while let Some(s) = channel.pop() {
        assert!(s.sequence_number > last);
        last = s.sequence_number;
    }
    assert_eq!(last, 5);
}

#[test]
fn no_overflow_delivers_every_sample() {
    let mut channel = Channel::new(8, OverflowPolicy::Reject);
    for seq in 40u64..48 {
        assert_eq!(channel.push(SampleRef { slot: 0, sequence_number: seq }), PushOutcome::Delivered);
    }
    let got: Vec<u64> = (0..8).map(|_| channel.pop().unwrap().sequence_number).collect();
    assert_eq!(got, (40u64..48).collect::<Vec<u64>>());
    assert_eq!(channel.sample_loss_count(), 0);
}

#[test]
fn cleanup_twice_removes_once() {
    let mut registry = DynamicConfig::new(Capacities {
        max_nodes: 2,
        max_publishers: 2,
        max_subscribers: 2,
        max_clients: 2,
        max_servers: 2,
    });
    registry.register_node(3).unwrap();
    registry.add_port(PortKind::Server, 1, 3).unwrap();
    assert_eq!(registry.remove_stale_resources(3, State::Dead), Ok(true));
    assert_eq!(registry.remove_stale_resources(3, State::Dead), Ok(false));
    assert_eq!(registry.number_of_ports(PortKind::Server), 0);
}

#[test]
fn node_capacity() {
    let mut registry = DynamicConfig::new(Capacities {
        max_nodes: 1,
        max_publishers: 0,
        max_subscribers: 0,
        max_clients: 0,
        max_servers: 0,
    });
    assert_eq!(registry.register_node(1), Ok(()));
    assert_eq!(registry.register_node(1), Ok(()));
    assert_eq!(registry.register_node(2), Err(RegistrationError::ExceedsMaxSupportedNodes));
    assert_eq!(registry.add_port(PortKind::Client, 1, 1), Err(RegistrationError::ExceedsMaxClients));
}

#[test]
fn equal_configs_are_compatible() {
    let a = pub_sub_u64();
    assert_eq!(a.check_compatible(&pub_sub_u64()), Ok(()));
    let b = StaticConfig { history_size: 1, ..pub_sub_u64() };
    assert_eq!(
        a.check_compatible(&b),
        Err(ServiceOpenError::IncompatibleServiceConfig(ConfigField::HistorySize))
    );
    let c = StaticConfig { overflow: OverflowPolicy::Reject, ..pub_sub_u64() };
    assert_eq!(
        a.check_compatible(&c),
        Err(ServiceOpenError::IncompatibleServiceConfig(ConfigField::Overflow))
    );
}

#[test]
fn history_of_depth_zero_keeps_nothing() {
    let mut h = History::new(0);
    let e = SampleRef { slot: 0, sequence_number: 1 };
    assert_eq!(h.record(e), Some(e));
    assert_eq!(h.entries().len(), 0);
}
