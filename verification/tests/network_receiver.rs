use rkl::net::Ipv4Net;
use rkl::receiver::{
    BuildError, ConfigRun, NetworkAction, NetworkConfigMessage, NetworkReceiverBuilder, NetworkService,
    StartDecision, StopDecision,
};
use rkl::subnet::{subnet_file_contents, NetworkConfig};

fn v4(text: &str) -> Ipv4Net {
    let n: ipnetwork::Ipv4Network = text.parse().unwrap();
    Ipv4Net::new(n.ip().octets(), n.prefix()).unwrap()
}

#[test]
fn test_network_receiver_builder() {
    let receiver = NetworkReceiverBuilder::new()
        .subnet_file_path("/tmp/subnet.env".to_string())
        .link_index(2)
        .backend_type("overlay".to_string())
        .node_id("test-node-1".to_string())
        .build()
        .unwrap();

    assert_eq!(receiver.get_node_id(), "test-node-1");
    assert_eq!(receiver.subnet_file_path(), "/tmp/subnet.env");
    assert_eq!(receiver.route_link_index(), 2);
    assert_eq!(receiver.route_backend_type(), "overlay");
}

#[test]
fn test_network_receiver_builder_defaults() {
    let receiver = NetworkReceiverBuilder::new()
        .node_id("test-node-2".to_string())
        .build()
        .unwrap();

    assert_eq!(receiver.get_node_id(), "test-node-2");
    assert_eq!(receiver.subnet_file_path(), "/etc/cni/net.d/subnet.env");
    assert_eq!(receiver.route_link_index(), 1);
    assert_eq!(receiver.route_backend_type(), "hostgw");
}

#[test]
fn test_network_receiver_builder_missing_node_id() {
    let result = NetworkReceiverBuilder::new().build();
    assert!(result.is_err());
    let err = NetworkReceiverBuilder::default().link_index(3).build().err().unwrap();
    assert_eq!(err, BuildError::MissingNodeId);
    assert_eq!(err.message(), "Node ID is required");
}

#[test]
fn test_network_service_lifecycle() {
    let receiver = NetworkReceiverBuilder::new()
        .node_id("test-node-3".to_string())
        .build()
        .unwrap();

    let mut service = NetworkService::new(receiver);

    assert!(!service.is_running());

    assert_eq!(service.start(), StartDecision::StartReceiver);
    service.record_start(true);
    assert!(service.is_running());
    // A second start finds the service running.
    assert_eq!(service.start(), StartDecision::AlreadyRunning);

    assert_eq!(service.stop(), StopDecision::StopReceiver);
    service.record_stop(true);
    assert!(!service.is_running());
    assert_eq!(service.stop(), StopDecision::NotRunning);
    assert_eq!(service.get_receiver().get_node_id(), "test-node-3");
}

#[test]
fn test_network_config_message_handling() {
    let receiver = NetworkReceiverBuilder::new()
        .subnet_file_path("subnet.env".to_string())
        .node_id("test-node-4".to_string())
        .build()
        .unwrap();

    let config_msg: NetworkConfigMessage<u32> = NetworkConfigMessage::SubnetConfig {
        network_config: NetworkConfig {
            enable_ipv4: true,
            enable_ipv6: false,
            network: Some(v4("10.0.0.0/16")),
            ..Default::default()
        },
        ip_masq: true,
        ipv4_subnet: Some(v4("10.0.1.0/24")),
        ipv6_subnet: None,
        mtu: 1500,
    };

    let actions = receiver.network_config_actions(config_msg);
    assert_eq!(actions.len(), 1);
    match &actions[0] {
        NetworkAction::WriteSubnetFile { network_config, ip_masq, ipv4_subnet, ipv6_subnet, mtu } => {
            let contents =
                subnet_file_contents(network_config, *ip_masq, *ipv4_subnet, *ipv6_subnet, *mtu);
            assert!(contents.contains("RKL_NETWORK=10.0.0.0/16"));
            assert!(contents.contains("RKL_SUBNET=10.0.1.0/24"));
        }
        NetworkAction::ApplyRoutes { .. } => panic!("expected the subnet file to be written"),
    }
    assert_eq!(receiver.subnet_file_path(), "subnet.env");
}

#[test]
fn full_config_writes_subnet_then_routes() {
    let receiver = NetworkReceiverBuilder::new().node_id("n".to_string()).build().unwrap();
    let service = NetworkService::new(receiver);
    let msg: NetworkConfigMessage<u32> = NetworkConfigMessage::FullConfig {
        network_config: NetworkConfig::default(),
        ip_masq: false,
        ipv4_subnet: None,
        ipv6_subnet: None,
        mtu: 1400,
        routes: vec![7, 8],
    };
    let actions = service.handle_config(msg);
    assert_eq!(actions.len(), 2);
    assert!(matches!(actions[0], NetworkAction::WriteSubnetFile { mtu: 1400, .. }));
    match &actions[1] {
        NetworkAction::ApplyRoutes { routes } => assert_eq!(routes, &vec![7, 8]),
        _ => panic!("expected routes"),
    }
    let only_routes: NetworkConfigMessage<u32> = NetworkConfigMessage::RouteConfig { routes: vec![] };
    let actions = service.handle_config(only_routes);
    assert_eq!(actions.len(), 1);
    assert!(matches!(&actions[0], NetworkAction::ApplyRoutes { routes } if routes.is_empty()));
}

#[test]
fn failed_start_and_stop_leave_the_service_as_it_was() {
    let receiver = NetworkReceiverBuilder::new()
        .node_id("node-f".to_string())
        .build()
        .unwrap();
    let mut service = NetworkService::new(receiver);
    assert_eq!(service.start(), StartDecision::StartReceiver);
    service.record_start(false);
    assert!(!service.is_running());
    assert_eq!(service.start(), StartDecision::StartReceiver);
    service.record_start(true);
    assert!(service.is_running());
    assert_eq!(service.stop(), StopDecision::StopReceiver);
    service.record_stop(false);
    assert!(service.is_running());
    service.record_stop(true);
    assert!(!service.is_running());
}

#[test]
fn a_failed_step_ends_the_handling() {
    let mut run = ConfigRun::new(2);
    assert!(run.proceeds());
    assert_eq!(run.outcome(), None);
    run.record(false);
    assert!(!run.proceeds());
    assert_eq!(run.outcome(), Some(false));

    let mut run = ConfigRun::new(2);
    run.record(true);
    assert!(run.proceeds());
    assert_eq!(run.outcome(), None);
    run.record(true);
    assert!(!run.proceeds());
    assert_eq!(run.outcome(), Some(true));

    let mut run = ConfigRun::new(2);
    run.record(true);
    run.record(false);
    assert_eq!(run.outcome(), Some(false));

    let run = ConfigRun::new(0);
    assert!(!run.proceeds());
    assert_eq!(run.outcome(), Some(true));
}
