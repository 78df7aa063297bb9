use message_relay::endpoint::{EndpointId, Liveness};
use message_relay::router::{ForwardingPolicy, RegisterError, RoutingTable};

#[test]
fn new_table_has_the_local_endpoint_alone() {
    let table = RoutingTable::new(ForwardingPolicy::Broadcast);
    assert_eq!(table.policy(), ForwardingPolicy::Broadcast);
    assert_eq!(table.remote_count(), 0);
    assert!(table.is_active(EndpointId::Local));
    assert_eq!(table.liveness(EndpointId::Remote(0)), Liveness::Connecting);
    assert_eq!(table.destinations(EndpointId::Local), vec![]);
    assert_eq!(table.destinations(EndpointId::Remote(0)), vec![]);
}

#[test]
fn broadcast_routes() {
    let mut table = RoutingTable::new(ForwardingPolicy::Broadcast);
    assert_eq!(table.register_remote(), Ok(EndpointId::Remote(0)));
    assert_eq!(table.register_remote(), Ok(EndpointId::Remote(1)));
    assert_eq!(table.register_remote(), Ok(EndpointId::Remote(2)));
    assert_eq!(table.remote_count(), 3);
    assert_eq!(
        table.destinations(EndpointId::Local),
        vec![EndpointId::Remote(0), EndpointId::Remote(1), EndpointId::Remote(2)]
    );
    for n in 0..3 {
        assert_eq!(table.destinations(EndpointId::Remote(n)), vec![EndpointId::Local]);
    }
    assert_eq!(table.destinations(EndpointId::Remote(3)), vec![]);
}

#[test]
fn nothing_is_routed_back_to_its_source() {
    let mut table = RoutingTable::new(ForwardingPolicy::Broadcast);
    for _ in 0..4 {
        table.register_remote().unwrap();
    }
    let mut sources = vec![EndpointId::Local];
    sources.extend((0..6).map(EndpointId::Remote));
    for source in sources {
        assert!(!table.destinations(source).contains(&source));
    }
}

#[test]
fn losing_one_remote_leaves_the_others() {
    let mut table = RoutingTable::new(ForwardingPolicy::Broadcast);
    for _ in 0..4 {
        table.register_remote().unwrap();
    }
    assert!(table.deregister(EndpointId::Remote(1)));
    assert_eq!(
        table.destinations(EndpointId::Local),
        vec![EndpointId::Remote(0), EndpointId::Remote(2), EndpointId::Remote(3)]
    );
    assert_eq!(table.liveness(EndpointId::Remote(1)), Liveness::Closed);
    assert_eq!(table.destinations(EndpointId::Remote(1)), vec![]);
    assert_eq!(table.destinations(EndpointId::Remote(2)), vec![EndpointId::Local]);
    assert!(!table.deregister(EndpointId::Remote(1)));
    assert_eq!(table.remote_count(), 3);
}

#[test]
fn a_closed_endpoint_does_not_come_back() {
    let mut table = RoutingTable::new(ForwardingPolicy::Broadcast);
    assert_eq!(table.register_remote(), Ok(EndpointId::Remote(0)));
    assert!(table.deregister(EndpointId::Remote(0)));
    assert_eq!(table.register_remote(), Ok(EndpointId::Remote(1)));
    assert_eq!(table.liveness(EndpointId::Remote(0)), Liveness::Closed);
    assert_eq!(table.liveness(EndpointId::Remote(1)), Liveness::Active);
    assert_eq!(table.liveness(EndpointId::Remote(2)), Liveness::Connecting);
    assert_eq!(table.destinations(EndpointId::Local), vec![EndpointId::Remote(1)]);
}

#[test]
fn the_local_endpoint_stays() {
    let mut table = RoutingTable::new(ForwardingPolicy::PointToPoint);
    table.register_remote().unwrap();
    assert!(!table.deregister(EndpointId::Local));
    assert!(table.is_active(EndpointId::Local));
    assert_eq!(table.liveness(EndpointId::Local), Liveness::Active);
    assert_eq!(table.remote_count(), 1);
    assert_eq!(table.deregister_all(), vec![EndpointId::Remote(0)]);
    assert!(table.is_active(EndpointId::Local));
    assert_eq!(table.remote_count(), 0);
}

#[test]
fn point_to_point_takes_one_remote() {
    let mut table = RoutingTable::new(ForwardingPolicy::PointToPoint);
    assert_eq!(table.register_remote(), Ok(EndpointId::Remote(0)));
    assert_eq!(table.register_remote(), Err(RegisterError::Occupied));
    assert_eq!(table.remote_count(), 1);
    assert_eq!(table.destinations(EndpointId::Local), vec![EndpointId::Remote(0)]);
    assert_eq!(table.destinations(EndpointId::Remote(0)), vec![EndpointId::Local]);
    assert!(table.deregister(EndpointId::Remote(0)));
    assert_eq!(table.register_remote(), Ok(EndpointId::Remote(1)));
}

#[test]
fn deregister_all_gives_the_remotes_in_order() {
    let mut table = RoutingTable::new(ForwardingPolicy::Broadcast);
    for _ in 0..3 {
        table.register_remote().unwrap();
    }
    table.deregister(EndpointId::Remote(0));
    assert_eq!(table.deregister_all(), vec![EndpointId::Remote(1), EndpointId::Remote(2)]);
    assert_eq!(table.destinations(EndpointId::Local), vec![]);
    assert_eq!(table.liveness(EndpointId::Remote(2)), Liveness::Closed);
    assert_eq!(table.register_remote(), Ok(EndpointId::Remote(3)));
}
