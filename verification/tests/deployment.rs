//! Deployment routes: nodes, station placement and gateway delivery.

use sectorsync::deployment::{
    DeploymentConfig, DeploymentError, DeploymentNodeState, DeploymentRouteTable, GatewayRoute,
};
use sectorsync::ids::{ClientId, NodeId, StationId, Tick};

fn config() -> DeploymentConfig {
    DeploymentConfig {
        max_nodes: 2,
        max_stations_per_node: 2,
        stale_after_ticks: 3,
    }
}

#[test]
fn registers_nodes_and_assigns_station_routes() {
    let mut table = DeploymentRouteTable::new(config());
    let node = table
        .register_node(NodeId::new(1), 2, Tick::new(10))
        .expect("node should register");
    assert_eq!(node.route_epoch, 1);
    assert_eq!(node.state, DeploymentNodeState::Online);

    let route = table
        .assign_station(StationId::new(11), NodeId::new(1), Tick::new(10))
        .expect("station should assign");
    assert_eq!(route.node_id, NodeId::new(1));
    assert_eq!(route.route_epoch, 1);
    assert_eq!(
        table.stations_on_node(NodeId::new(1)).expect("node exists"),
        vec![StationId::new(11)]
    );
    assert_eq!(
        table
            .node_route(NodeId::new(1))
            .expect("node route should exist")
            .assigned_stations,
        1
    );
}

#[test]
fn enforces_node_and_station_capacity() {
    let mut table = DeploymentRouteTable::new(DeploymentConfig {
        max_nodes: 1,
        max_stations_per_node: 1,
        stale_after_ticks: 3,
    });
    table
        .register_node(NodeId::new(1), 2, Tick::new(0))
        .expect("first node should register");
    assert_eq!(
        table
            .register_node(NodeId::new(2), 1, Tick::new(0))
            .expect_err("second node should exceed capacity"),
        DeploymentError::NodeCapacityFull { capacity: 1 }
    );
    table
        .assign_station(StationId::new(10), NodeId::new(1), Tick::new(0))
        .expect("first station should fit");
    assert_eq!(
        table
            .assign_station(StationId::new(11), NodeId::new(1), Tick::new(0))
            .expect_err("second station should exceed node capacity"),
        DeploymentError::NodeStationCapacity {
            node_id: NodeId::new(1),
            capacity: 1,
            attempted: 2
        }
    );
    assert_eq!(table.stats().placements_rejected_capacity, 1);
}

#[test]
fn draining_nodes_keep_routes_but_reject_new_placements() {
    let mut table = DeploymentRouteTable::new(config());
    table
        .register_node(NodeId::new(1), 2, Tick::new(0))
        .expect("node should register");
    table
        .assign_station(StationId::new(10), NodeId::new(1), Tick::new(0))
        .expect("station should assign");
    let draining = table
        .mark_draining(NodeId::new(1))
        .expect("node should drain");
    assert_eq!(draining.state, DeploymentNodeState::Draining);
    assert_eq!(
        table
            .station_route(StationId::new(10))
            .expect("existing route remains")
            .node_id,
        NodeId::new(1)
    );
    assert_eq!(
        table
            .assign_station(StationId::new(11), NodeId::new(1), Tick::new(1))
            .expect_err("draining node should reject new placement"),
        DeploymentError::NodeUnavailable {
            node_id: NodeId::new(1),
            state: DeploymentNodeState::Draining
        }
    );
}

#[test]
fn moves_station_routes_between_nodes() {
    let mut table = DeploymentRouteTable::new(config());
    table
        .register_node(NodeId::new(1), 2, Tick::new(0))
        .expect("source node should register");
    table
        .register_node(NodeId::new(2), 2, Tick::new(0))
        .expect("target node should register");
    table
        .assign_station(StationId::new(10), NodeId::new(1), Tick::new(0))
        .expect("station should assign");

    let moved = table
        .move_station(StationId::new(10), NodeId::new(2), Tick::new(5))
        .expect("station should move");
    assert_eq!(moved.previous.node_id, NodeId::new(1));
    assert_eq!(moved.current.node_id, NodeId::new(2));
    assert_eq!(moved.current.route_epoch, 2);
    assert!(
        table
            .stations_on_node(NodeId::new(1))
            .expect("source exists")
            .is_empty()
    );
    assert_eq!(
        table
            .stations_on_node(NodeId::new(2))
            .expect("target exists"),
        vec![StationId::new(10)]
    );
}

#[test]
fn detects_and_marks_stale_nodes_offline() {
    let mut table = DeploymentRouteTable::new(config());
    table
        .register_node(NodeId::new(1), 2, Tick::new(10))
        .expect("node should register");
    assert!(table.stale_nodes(Tick::new(13)).is_empty());
    assert_eq!(table.stale_nodes(Tick::new(14)), vec![NodeId::new(1)]);
    assert_eq!(table.mark_stale_offline(Tick::new(14)), 1);
    assert_eq!(
        table
            .node_route(NodeId::new(1))
            .expect("node route should exist")
            .state,
        DeploymentNodeState::Offline
    );
}

#[test]
fn missing_nodes_and_stations_are_named() {
    let mut table = DeploymentRouteTable::new(config());
    assert_eq!(
        table.heartbeat(NodeId::new(9), Tick::new(1)),
        Err(DeploymentError::MissingNode(NodeId::new(9)))
    );
    assert_eq!(
        table.assign_station(StationId::new(1), NodeId::new(9), Tick::new(1)),
        Err(DeploymentError::MissingNode(NodeId::new(9)))
    );
    table
        .register_node(NodeId::new(1), 2, Tick::new(0))
        .expect("node should register");
    assert_eq!(
        table.move_station(StationId::new(5), NodeId::new(1), Tick::new(1)),
        Err(DeploymentError::MissingStation(StationId::new(5)))
    );
    assert_eq!(
        table.unassign_station(StationId::new(5)),
        Err(DeploymentError::MissingStation(StationId::new(5)))
    );
}

#[test]
fn gateway_routes_resolve_to_the_hosting_node() {
    let mut table = DeploymentRouteTable::new(config());
    table
        .register_node(NodeId::new(1), 2, Tick::new(0))
        .expect("node should register");
    table
        .assign_station(StationId::new(10), NodeId::new(1), Tick::new(0))
        .expect("station should assign");
    let route = GatewayRoute {
        client_id: ClientId::new(7),
        station_id: StationId::new(10),
    };
    let delivery = table
        .resolve_gateway_route(route)
        .expect("route should resolve");
    assert_eq!(delivery.client_id, ClientId::new(7));
    assert_eq!(delivery.station_id, StationId::new(10));
    assert_eq!(delivery.node_id, NodeId::new(1));
    assert_eq!(delivery.station_route_epoch, 1);

    assert_eq!(
        table.resolve_gateway_route(GatewayRoute {
            client_id: ClientId::new(7),
            station_id: StationId::new(11),
        }),
        Err(DeploymentError::MissingStation(StationId::new(11)))
    );
    table
        .mark_offline(NodeId::new(1))
        .expect("node should go offline");
    assert_eq!(
        table.resolve_gateway_route(route),
        Err(DeploymentError::NodeUnavailable {
            node_id: NodeId::new(1),
            state: DeploymentNodeState::Offline
        })
    );
}

#[test]
fn unassigned_stations_leave_room_for_others() {
    let mut table = DeploymentRouteTable::new(config());
    table
        .register_node(NodeId::new(1), 1, Tick::new(0))
        .expect("node should register");
    table
        .assign_station(StationId::new(10), NodeId::new(1), Tick::new(0))
        .expect("station should assign");
    let removed = table
        .unassign_station(StationId::new(10))
        .expect("station should leave");
    assert_eq!(removed.node_id, NodeId::new(1));
    assert_eq!(table.station_len(), 0);
    table
        .assign_station(StationId::new(11), NodeId::new(1), Tick::new(1))
        .expect("room should be free again");
    assert_eq!(table.node_len(), 1);
    assert_eq!(table.station_len(), 1);
}

#[test]
fn moving_a_station_leaves_the_others() {
    let mut table = DeploymentRouteTable::new(config());
    for node in [1, 2] {
        table
            .register_node(NodeId::new(node), 2, Tick::new(0))
            .expect("node should register");
    }
    for station in [10, 11] {
        table
            .assign_station(StationId::new(station), NodeId::new(1), Tick::new(0))
            .expect("station should assign");
    }
    let kept = table
        .station_route(StationId::new(11))
        .expect("station is routed");

    let moved = table
        .move_station(StationId::new(10), NodeId::new(2), Tick::new(3))
        .expect("station should move");

    assert_eq!(moved.previous.node_id, NodeId::new(1));
    assert_eq!(moved.current.node_id, NodeId::new(2));
    assert_eq!(moved.current.route_epoch, moved.previous.route_epoch + 1);
    assert_eq!(table.station_route(StationId::new(11)), Ok(kept));
    for (node, station) in [(1, 11), (2, 10)] {
        assert_eq!(
            table.stations_on_node(NodeId::new(node)),
            Ok(vec![StationId::new(station)])
        );
        let route = table
            .node_route(NodeId::new(node))
            .expect("node is registered");
        assert_eq!(route.assigned_stations, 1);
    }
}

#[test]
fn registering_a_draining_node_again_raises_its_epoch() {
    let mut table = DeploymentRouteTable::new(config());
    let node = NodeId::new(1);
    let fresh = table
        .register_node(node, 2, Tick::new(0))
        .expect("node should register");
    assert_eq!(fresh.route_epoch, 1);
    let draining = table.mark_draining(node).expect("node should drain");
    assert_eq!(draining.route_epoch, 2);

    let back = table
        .register_node(node, 2, Tick::new(5))
        .expect("node should register again");

    assert_eq!(back.state, DeploymentNodeState::Online);
    assert_eq!(back.last_heartbeat, Tick::new(5));
    assert_eq!(back.station_capacity, 2);
    assert_eq!(back.route_epoch, 3);
    let same = table
        .register_node(node, 2, Tick::new(6))
        .expect("node should refresh");
    assert_eq!(same.route_epoch, 3);
}
