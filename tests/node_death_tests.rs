use iceoryx2_core::dynamic_config::{Capacities, DynamicConfig, PortKind};
use iceoryx2_core::monitoring::{
    Builder, Configuration, DirectoryEntry, FileLockMonitoring, ProcessState, State,
};
use iceoryx2_core::named_concept::FileName;

fn capacities() -> Capacities {
    Capacities {
        max_nodes: 4,
        max_publishers: 2,
        max_subscribers: 2,
        max_clients: 2,
        max_servers: 2,
    }
}

#[test]
fn dead_node_is_marked_as_dead_and_can_be_cleaned_up() {
    let node_name = FileName::new(("toby or no toby".to_string() + &0.to_string()).as_bytes()).unwrap();
    let fake_node_id = (u32::MAX as u128) << 96;

    let mut registry = DynamicConfig::new(capacities());
    registry.register_node(fake_node_id).unwrap();
    registry.add_port(PortKind::Publisher, 1, fake_node_id).unwrap();

    // the token of the node is gone: its monitor reports the node as dead
    let builder = Builder::new(&node_name);
    let monitor = builder.monitor(Ok(())).unwrap();
    assert_eq!(monitor.name().as_bytes(), node_name.as_bytes());
    let state = monitor.state(Ok(ProcessState::Dead)).unwrap();
    assert_eq!(state, State::Dead);

    // the node's file is found when listing
    let cfg = Configuration::default();
    let file = FileName::new(b"iox2_toby or no toby0.monitor").unwrap();
    let listing = vec![DirectoryEntry { name: file, is_file: true }];
    let node_list = FileLockMonitoring::list_cfg(&cfg, Ok(Ok(listing))).unwrap();
    assert_eq!(node_list.len(), 1);
    assert_eq!(node_list[0].as_bytes(), node_name.as_bytes());

    assert_eq!(registry.remove_stale_resources(fake_node_id, state), Ok(true));
    assert!(!registry.has_node(fake_node_id));
    assert_eq!(registry.number_of_ports(PortKind::Publisher), 0);

    let node_list = FileLockMonitoring::list_cfg(&cfg, Ok(Ok(vec![]))).unwrap();
    assert_eq!(node_list.len(), 0);
}
