//! Low-level deployment routing and station placement primitives.

use vstd::prelude::*;

use crate::ids::{ClientId, NodeId, StationId, Tick};
use crate::num::min_usize;
use crate::ordered_map::{lemma_map_of, OrderedMap};

verus! {

/// Deployment route table configuration.
#[derive(Clone, Copy, Debug, PartialEq, Eq, Structural)]
pub struct DeploymentConfig {
    /// Maximum registered nodes.
    pub max_nodes: usize,
    /// Maximum stations accepted by one node unless the node advertises a lower capacity.
    pub max_stations_per_node: usize,
    /// Ticks without heartbeat before a node is considered stale.
    pub stale_after_ticks: u64,
}

impl Default for DeploymentConfig {
    fn default() -> (config: Self)
        ensures
            config == (DeploymentConfig {
                max_nodes: 1024,
                max_stations_per_node: 1024,
                stale_after_ticks: 200,
            }),
    {
        Self { max_nodes: 1024, max_stations_per_node: 1024, stale_after_ticks: 20 * 10 }
    }
}

/// Node availability state for placement decisions.
#[derive(Clone, Copy, Debug, PartialEq, Eq, Structural)]
pub enum DeploymentNodeState {
    /// Node may receive new station placements.
    Online,
    /// Node keeps existing station placements but should not receive new ones.
    Draining,
    /// Node is unavailable for station routes.
    Offline,
}

/// Route metadata for one node.
#[derive(Clone, Copy, Debug, PartialEq, Eq, Structural)]
pub struct DeploymentNodeRoute {
    /// Node id.
    pub node_id: NodeId,
    /// Node availability state.
    pub state: DeploymentNodeState,
    /// Last heartbeat tick.
    pub last_heartbeat: Tick,
    /// Station capacity advertised for this node.
    pub station_capacity: usize,
    /// Current assigned station count.
    pub assigned_stations: usize,
    /// Route epoch incremented when node state/capacity changes.
    pub route_epoch: u64,
}

/// Route metadata for one station.
#[derive(Clone, Copy, Debug, PartialEq, Eq, Structural)]
pub struct DeploymentStationRoute {
    /// Station id.
    pub station_id: StationId,
    /// Node currently hosting the station.
    pub node_id: NodeId,
    /// Route epoch incremented on station placement changes.
    pub route_epoch: u64,
    /// Tick at which this placement was last assigned.
    pub assigned_at: Tick,
}

/// Result of moving a station route.
#[derive(Clone, Copy, Debug, PartialEq, Eq, Structural)]
pub struct DeploymentStationMove {
    /// Previous station route.
    pub previous: DeploymentStationRoute,
    /// New station route.
    pub current: DeploymentStationRoute,
}

/// Where the gateway sends a client's commands.
#[derive(Clone, Copy, Debug, PartialEq, Eq, Structural)]
pub struct GatewayRoute {
    /// Client whose commands are routed.
    pub client_id: ClientId,
    /// Station that applies them.
    pub station_id: StationId,
}

/// A gateway route with the node that hosts its station.
#[derive(Clone, Copy, Debug, PartialEq, Eq, Structural)]
pub struct GatewayDeliveryRoute {
    /// Client whose commands are routed.
    pub client_id: ClientId,
    /// Station that applies them.
    pub station_id: StationId,
    /// Node that hosts the station.
    pub node_id: NodeId,
    /// Epoch of the station route.
    pub station_route_epoch: u64,
}

/// Deployment route table statistics.
#[derive(Clone, Copy, Debug, Default, PartialEq, Eq, Structural)]
pub struct DeploymentStats {
    /// Nodes registered.
    pub nodes_registered: usize,
    /// Nodes marked draining.
    pub nodes_draining: usize,
    /// Nodes marked offline.
    pub nodes_offline: usize,
    /// Station assignments created.
    pub stations_assigned: usize,
    /// Station routes moved.
    pub stations_moved: usize,
    /// Station routes removed.
    pub stations_unassigned: usize,
    /// Placement attempts rejected by capacity.
    pub placements_rejected_capacity: usize,
    /// Stale nodes detected.
    pub stale_nodes_detected: usize,
}

impl DeploymentStats {
    /// All counts at zero.
    pub open spec fn zero() -> Self {
        DeploymentStats {
            nodes_registered: 0,
            nodes_draining: 0,
            nodes_offline: 0,
            stations_assigned: 0,
            stations_moved: 0,
            stations_unassigned: 0,
            placements_rejected_capacity: 0,
            stale_nodes_detected: 0,
        }
    }

    /// The counts after a placement was rejected by capacity.
    pub open spec fn with_rejected_placement(self) -> Self {
        DeploymentStats {
            placements_rejected_capacity: self.placements_rejected_capacity.saturating_add(1),
            ..self
        }
    }
}

/// Deployment route error.
#[derive(Clone, Copy, Debug, PartialEq, Eq, Structural)]
pub enum DeploymentError {
    /// Node table is full.
    NodeCapacityFull {
        /// Configured node table capacity.
        capacity: usize,
    },
    /// Node does not exist.
    MissingNode(NodeId),
    /// Station route does not exist.
    MissingStation(StationId),
    /// Node cannot accept new placements in its current state.
    NodeUnavailable {
        /// Node id.
        node_id: NodeId,
        /// Current state.
        state: DeploymentNodeState,
    },
    /// Node station capacity would be exceeded.
    NodeStationCapacity {
        /// Node id.
        node_id: NodeId,
        /// Configured/advertised station capacity.
        capacity: usize,
        /// Attempted station count.
        attempted: usize,
    },
}

/// A node with the stations assigned to it.
#[derive(Clone, Debug)]
pub struct DeploymentNodeRecord {
    /// Route metadata.
    pub route: DeploymentNodeRoute,
    /// Assigned stations by number.
    pub stations: OrderedMap<StationId>,
}

impl DeploymentNodeRecord {
    fn new(node_id: NodeId, station_capacity: usize, now: Tick) -> (record: Self)
        ensures
            record.stations.wf(),
            record.stations@ == Map::<u128, StationId>::empty(),
            record.route == (DeploymentNodeRoute {
                node_id,
                state: DeploymentNodeState::Online,
                last_heartbeat: now,
                station_capacity,
                assigned_stations: 0,
                route_epoch: 1,
            }),
    {
        Self {
            route: DeploymentNodeRoute {
                node_id,
                state: DeploymentNodeState::Online,
                last_heartbeat: now,
                station_capacity,
                assigned_stations: 0,
                route_epoch: 1,
            },
            stations: OrderedMap::new(),
        }
    }

    fn refresh_assigned_count(&mut self)
        requires
            old(self).stations.wf(),
        ensures
            final(self).stations == old(self).stations,
            final(self).route.assigned_stations == old(self).stations@.dom().len(),
            final(self).route == (DeploymentNodeRoute {
                assigned_stations: final(self).route.assigned_stations,
                ..old(self).route
            }),
    {
        self.route.assigned_stations = self.stations.len();
    }
}

/// Whether a node has gone without a heartbeat for too long. An offline node is not looked at.
pub open spec fn is_stale(route: DeploymentNodeRoute, now: Tick, stale_after: u64) -> bool {
    route.state != DeploymentNodeState::Offline && now.0.saturating_sub(route.last_heartbeat.0)
        > stale_after
}

/// A node route once it was marked offline.
pub open spec fn taken_offline(route: DeploymentNodeRoute) -> DeploymentNodeRoute {
    if route.state == DeploymentNodeState::Offline {
        route
    } else {
        DeploymentNodeRoute {
            state: DeploymentNodeState::Offline,
            route_epoch: route.route_epoch.saturating_add(1),
            ..route
        }
    }
}

/// A node route once it was marked draining.
pub open spec fn drained(route: DeploymentNodeRoute) -> DeploymentNodeRoute {
    if route.state == DeploymentNodeState::Draining {
        route
    } else {
        DeploymentNodeRoute {
            state: DeploymentNodeState::Draining,
            route_epoch: route.route_epoch.saturating_add(1),
            ..route
        }
    }
}

/// Ids of the stale nodes, in ascending order.
pub open spec fn stale_ids(
    entries: Seq<(u128, DeploymentNodeRecord)>,
    now: Tick,
    stale_after: u64,
) -> Seq<NodeId>
    decreases entries.len(),
{
    if entries.len() == 0 {
        Seq::empty()
    } else {
        let rest = stale_ids(entries.drop_last(), now, stale_after);
        let route = entries.last().1.route;
        if is_stale(route, now, stale_after) {
            rest.push(route.node_id)
        } else {
            rest
        }
    }
}

/// A node and its stations agree with the station routes.
pub open spec fn hosts(
    record: DeploymentNodeRecord,
    key: u128,
    stations: Map<u128, DeploymentStationRoute>,
) -> bool {
    &&& record.stations.wf()
    &&& record.route.node_id.0 == key
    &&& record.route.assigned_stations == record.stations@.dom().len()
    &&& forall|station: u128|
        #![trigger record.stations@.contains_key(station)]
        #![trigger stations.contains_key(station)]
        record.stations@.contains_key(station) <==> stations.contains_key(station)
            && stations[station].node_id.0 == key
    &&& forall|station: u128| #[trigger]
        record.stations@.contains_key(station) ==> record.stations@[station].0 == station
}

/// Every node agrees with the station routes, and every station route leads to a known node.
pub open spec fn consistent(
    nodes: Map<u128, DeploymentNodeRecord>,
    stations: Map<u128, DeploymentStationRoute>,
) -> bool {
    &&& forall|key: u128| #[trigger] nodes.contains_key(key) ==> hosts(nodes[key], key, stations)
    &&& forall|station: u128| #[trigger]
        stations.contains_key(station) ==> stations[station].station_id.0 == station
            && nodes.contains_key(stations[station].node_id.0 as u128)
}

/// Bounded station-to-node deployment route table.
#[derive(Clone, Debug)]
pub struct DeploymentRouteTable {
    /// Configuration.
    pub config: DeploymentConfig,
    /// Nodes by number.
    pub nodes: OrderedMap<DeploymentNodeRecord>,
    /// Station routes by station number.
    pub stations: OrderedMap<DeploymentStationRoute>,
    /// Statistics.
    pub stats: DeploymentStats,
}

impl DeploymentRouteTable {
    /// Nodes and station routes agree, and there are no more nodes than the table may hold.
    pub open spec fn wf(self) -> bool {
        &&& self.nodes.wf()
        &&& self.stations.wf()
        &&& consistent(self.nodes@, self.stations@)
        &&& self.nodes@.dom().len() <= self.config.max_nodes
    }

    /// Routes of the registered nodes.
    pub open spec fn node_routes(self) -> Map<u128, DeploymentNodeRoute> {
        Map::new(|key: u128| self.nodes@.contains_key(key), |key: u128| self.nodes@[key].route)
    }

    /// Why a node accepts no new placement, if it does not.
    pub open spec fn refusal(self, node_id: NodeId) -> Option<DeploymentError> {
        let key = node_id.0 as u128;
        if !self.node_routes().contains_key(key) {
            Some(DeploymentError::MissingNode(node_id))
        } else if self.node_routes()[key].state != DeploymentNodeState::Online {
            Some(
                DeploymentError::NodeUnavailable { node_id, state: self.node_routes()[key].state },
            )
        } else {
            None
        }
    }

    /// Whether one more station would exceed a node's capacity.
    pub open spec fn is_full(self, node_id: NodeId) -> bool {
        let route = self.node_routes()[node_id.0 as u128];
        route.assigned_stations.saturating_add(1) > route.station_capacity
    }

    /// The error that reports a full node.
    pub open spec fn full_error(self, node_id: NodeId) -> DeploymentError {
        let route = self.node_routes()[node_id.0 as u128];
        DeploymentError::NodeStationCapacity {
            node_id,
            capacity: route.station_capacity,
            attempted: route.assigned_stations.saturating_add(1),
        }
    }

    /// Node routes with one count changed.
    pub open spec fn with_count(self, node_id: NodeId, assigned: int) -> Map<
        u128,
        DeploymentNodeRoute,
    > {
        let key = node_id.0 as u128;
        self.node_routes().insert(
            key,
            DeploymentNodeRoute {
                assigned_stations: assigned as usize,
                ..self.node_routes()[key]
            },
        )
    }

    /// Creates an empty deployment route table.
    pub fn new(config: DeploymentConfig) -> (table: Self)
        ensures
            table.wf(),
            table.config == config,
            table.stats == DeploymentStats::zero(),
            table.node_routes() == Map::<u128, DeploymentNodeRoute>::empty(),
            table.stations@ == Map::<u128, DeploymentStationRoute>::empty(),
    {
        let table = Self {
            config,
            nodes: OrderedMap::new(),
            stations: OrderedMap::new(),
            stats: DeploymentStats {
                nodes_registered: 0,
                nodes_draining: 0,
                nodes_offline: 0,
                stations_assigned: 0,
                stations_moved: 0,
                stations_unassigned: 0,
                placements_rejected_capacity: 0,
                stale_nodes_detected: 0,
            },
        };
        assert(table.node_routes() =~= Map::empty());
        table
    }

    /// Returns configuration.
    pub fn config(&self) -> (config: DeploymentConfig)
        ensures
            config == self.config,
    {
        self.config
    }

    /// Returns statistics.
    pub fn stats(&self) -> (stats: DeploymentStats)
        ensures
            stats == self.stats,
    {
        self.stats
    }

    /// Returns registered node count.
    pub fn node_len(&self) -> (count: usize)
        requires
            self.wf(),
        ensures
            count == self.node_routes().dom().len(),
    {
        assert(self.node_routes().dom() =~= self.nodes@.dom());
        self.nodes.len()
    }

    /// Returns station route count.
    pub fn station_len(&self) -> (count: usize)
        requires
            self.wf(),
        ensures
            count == self.stations@.dom().len(),
    {
        self.stations.len()
    }

    /// Registers or refreshes a node.
    pub fn register_node(&mut self, node_id: NodeId, station_capacity: usize, now: Tick) -> (result:
        Result<DeploymentNodeRoute, DeploymentError>)
        requires
            old(self).wf(),
        ensures
            final(self).wf(),
            final(self).config == old(self).config,
            final(self).stations@ == old(self).stations@,
            ({
                let key = node_id.0 as u128;
                let capacity = if station_capacity < old(self).config.max_stations_per_node {
                    station_capacity
                } else {
                    old(self).config.max_stations_per_node
                };
                let known = old(self).node_routes().contains_key(key);
                let before = old(self).node_routes()[key];
                let route = if known {
                    DeploymentNodeRoute {
                        last_heartbeat: now,
                        state: DeploymentNodeState::Online,
                        station_capacity: capacity,
                        route_epoch: if before.station_capacity != capacity || before.state
                            != DeploymentNodeState::Online {
                            before.route_epoch.saturating_add(1)
                        } else {
                            before.route_epoch
                        },
                        ..before
                    }
                } else {
                    DeploymentNodeRoute {
                        node_id,
                        state: DeploymentNodeState::Online,
                        last_heartbeat: now,
                        station_capacity: capacity,
                        assigned_stations: 0,
                        route_epoch: 1,
                    }
                };
                if !known && old(self).node_routes().dom().len() >= old(self).config.max_nodes {
                    &&& result == Err::<DeploymentNodeRoute, DeploymentError>(
                        DeploymentError::NodeCapacityFull { capacity: old(self).config.max_nodes },
                    )
                    &&& *final(self) == *old(self)
                } else {
                    &&& result == Ok::<DeploymentNodeRoute, DeploymentError>(route)
                    &&& final(self).node_routes() == old(self).node_routes().insert(key, route)
                    &&& final(self).stats == (if known {
                        old(self).stats
                    } else {
                        DeploymentStats {
                            nodes_registered: old(self).stats.nodes_registered.saturating_add(1),
                            ..old(self).stats
                        }
                    })
                }
            }),
    {
        let ghost before = self.nodes@;
        let key: u128 = node_id.0 as u128;
        assert(self.node_routes().dom() =~= self.nodes@.dom());
        proof {
            lemma_map_of(self.nodes.entries@);
        }
        let capacity: usize = min_usize(station_capacity, self.config.max_stations_per_node);
        if let Some(node) = self.nodes.get_mut(key) {
            node.route.last_heartbeat = now;
            if node.route.station_capacity != capacity || node.route.state
                != DeploymentNodeState::Online {
                node.route.state = DeploymentNodeState::Online;
                node.route.station_capacity = capacity;
                node.route.route_epoch = node.route.route_epoch.saturating_add(1);
            }
            node.refresh_assigned_count();
            let route = node.route;
            assert(self.nodes@ =~= before.insert(key, self.nodes@[key]));
            assert(self.nodes@.dom() =~= before.dom());
            assert(self.node_routes() =~= old(self).node_routes().insert(key, route));
            return Ok(route);
        }
        if self.nodes.len() >= self.config.max_nodes {
            return Err(DeploymentError::NodeCapacityFull { capacity: self.config.max_nodes });
        }
        let node = DeploymentNodeRecord::new(node_id, capacity, now);
        let route = node.route;
        self.nodes.insert(key, node);
        self.stats.nodes_registered = self.stats.nodes_registered.saturating_add(1);
        assert(self.node_routes() =~= old(self).node_routes().insert(key, route));
        assert(consistent(self.nodes@, self.stations@)) by {
            assert forall|station: u128| #[trigger] self.stations@.contains_key(station) implies
                self.stations@[station].node_id.0 != key by {
                assert(before.contains_key(self.stations@[station].node_id.0 as u128));
            }
        }
        Ok(route)
    }

    /// Replaces what is known of a node besides its stations.
    fn update_route(&mut self, node_id: NodeId, route: DeploymentNodeRoute)
        requires
            old(self).wf(),
            old(self).node_routes().contains_key(node_id.0 as u128),
            route.node_id == node_id,
            route.assigned_stations == old(self).node_routes()[node_id.0 as u128].assigned_stations,
        ensures
            final(self).wf(),
            final(self).config == old(self).config,
            final(self).stations@ == old(self).stations@,
            final(self).stats == old(self).stats,
            final(self).node_routes() == old(self).node_routes().insert(node_id.0 as u128, route),
    {
        let key: u128 = node_id.0 as u128;
        let ghost before = self.nodes@;
        if let Some(node) = self.nodes.get_mut(key) {
            node.route = route;
        }
        assert(self.nodes@ =~= before.insert(key, self.nodes@[key]));
        assert(self.nodes@.dom() =~= before.dom());
        assert(self.node_routes() =~= old(self).node_routes().insert(key, route));
    }

    /// Updates a node heartbeat.
    pub fn heartbeat(&mut self, node_id: NodeId, now: Tick) -> (result: Result<
        DeploymentNodeRoute,
        DeploymentError,
    >)
        requires
            old(self).wf(),
        ensures
            final(self).wf(),
            final(self).config == old(self).config,
            final(self).stations@ == old(self).stations@,
            final(self).stats == old(self).stats,
            ({
                let key = node_id.0 as u128;
                if !old(self).node_routes().contains_key(key) {
                    &&& result == Err::<DeploymentNodeRoute, DeploymentError>(
                        DeploymentError::MissingNode(node_id),
                    )
                    &&& *final(self) == *old(self)
                } else {
                    let route = DeploymentNodeRoute {
                        last_heartbeat: now,
                        ..old(self).node_routes()[key]
                    };
                    &&& result == Ok::<DeploymentNodeRoute, DeploymentError>(route)
                    &&& final(self).node_routes() == old(self).node_routes().insert(key, route)
                }
            }),
    {
        let mut route = self.node_route(node_id)?;
        route.last_heartbeat = now;
        self.update_route(node_id, route);
        Ok(route)
    }

    /// Marks a node draining. Existing station routes remain valid.
    pub fn mark_draining(&mut self, node_id: NodeId) -> (result: Result<
        DeploymentNodeRoute,
        DeploymentError,
    >)
        requires
            old(self).wf(),
        ensures
            final(self).wf(),
            final(self).config == old(self).config,
            final(self).stations@ == old(self).stations@,
            ({
                let key = node_id.0 as u128;
                if !old(self).node_routes().contains_key(key) {
                    &&& result == Err::<DeploymentNodeRoute, DeploymentError>(
                        DeploymentError::MissingNode(node_id),
                    )
                    &&& *final(self) == *old(self)
                } else {
                    let before = old(self).node_routes()[key];
                    &&& result == Ok::<DeploymentNodeRoute, DeploymentError>(drained(before))
                    &&& final(self).node_routes() == old(self).node_routes().insert(
                        key,
                        drained(before),
                    )
                    &&& final(self).stats == (if before.state == DeploymentNodeState::Draining {
                        old(self).stats
                    } else {
                        DeploymentStats {
                            nodes_draining: old(self).stats.nodes_draining.saturating_add(1),
                            ..old(self).stats
                        }
                    })
                }
            }),
    {
        let mut route = self.node_route(node_id)?;
        if route.state != DeploymentNodeState::Draining {
            route.state = DeploymentNodeState::Draining;
            route.route_epoch = route.route_epoch.saturating_add(1);
            self.update_route(node_id, route);
            self.stats.nodes_draining = self.stats.nodes_draining.saturating_add(1);
        } else {
            assert(self.node_routes() =~= old(self).node_routes().insert(node_id.0 as u128, route));
        }
        Ok(route)
    }

    /// Marks a node offline. Station routes are retained for explicit remediation by the embedder.
    pub fn mark_offline(&mut self, node_id: NodeId) -> (result: Result<
        DeploymentNodeRoute,
        DeploymentError,
    >)
        requires
            old(self).wf(),
        ensures
            final(self).wf(),
            final(self).config == old(self).config,
            final(self).stations@ == old(self).stations@,
            ({
                let key = node_id.0 as u128;
                if !old(self).node_routes().contains_key(key) {
                    &&& result == Err::<DeploymentNodeRoute, DeploymentError>(
                        DeploymentError::MissingNode(node_id),
                    )
                    &&& *final(self) == *old(self)
                } else {
                    let before = old(self).node_routes()[key];
                    &&& result == Ok::<DeploymentNodeRoute, DeploymentError>(taken_offline(before))
                    &&& final(self).node_routes() == old(self).node_routes().insert(
                        key,
                        taken_offline(before),
                    )
                    &&& final(self).stats == (if before.state == DeploymentNodeState::Offline {
                        old(self).stats
                    } else {
                        DeploymentStats {
                            nodes_offline: old(self).stats.nodes_offline.saturating_add(1),
                            ..old(self).stats
                        }
                    })
                }
            }),
    {
        let mut route = self.node_route(node_id)?;
        if route.state != DeploymentNodeState::Offline {
            route.state = DeploymentNodeState::Offline;
            route.route_epoch = route.route_epoch.saturating_add(1);
            self.update_route(node_id, route);
            self.stats.nodes_offline = self.stats.nodes_offline.saturating_add(1);
        } else {
            assert(self.node_routes() =~= old(self).node_routes().insert(node_id.0 as u128, route));
        }
        Ok(route)
    }

    /// Assigns a station to an online node. A station that is assigned elsewhere is moved.
    pub fn assign_station(&mut self, station_id: StationId, node_id: NodeId, now: Tick) -> (result:
        Result<DeploymentStationRoute, DeploymentError>)
        requires
            old(self).wf(),
        ensures
            final(self).wf(),
            final(self).config == old(self).config,
            ({
                let key = node_id.0 as u128;
                let station = station_id.0 as u128;
                let known = old(self).stations@.contains_key(station);
                let existing = old(self).stations@[station];
                if let Some(error) = old(self).refusal(node_id) {
                    &&& result == Err::<DeploymentStationRoute, DeploymentError>(error)
                    &&& *final(self) == *old(self)
                } else if known && existing.node_id == node_id {
                    &&& result == Ok::<DeploymentStationRoute, DeploymentError>(existing)
                    &&& *final(self) == *old(self)
                } else if old(self).is_full(node_id) {
                    &&& result == Err::<DeploymentStationRoute, DeploymentError>(
                        old(self).full_error(node_id),
                    )
                    &&& final(self).node_routes() == old(self).node_routes()
                    &&& final(self).stations@ == old(self).stations@
                    &&& final(self).stats == old(self).stats.with_rejected_placement()
                } else if known {
                    let moved = old(self).moved(station_id, node_id, now);
                    &&& result == Ok::<DeploymentStationRoute, DeploymentError>(moved)
                    &&& final(self).after_move(*old(self), existing, moved)
                } else {
                    let route = DeploymentStationRoute {
                        station_id,
                        node_id,
                        route_epoch: 1,
                        assigned_at: now,
                    };
                    &&& result == Ok::<DeploymentStationRoute, DeploymentError>(route)
                    &&& final(self).node_routes() == old(self).with_count(
                        node_id,
                        old(self).node_routes()[key].assigned_stations + 1,
                    )
                    &&& final(self).stations@ == old(self).stations@.insert(station, route)
                    &&& final(self).stats == (DeploymentStats {
                        stations_assigned: old(self).stats.stations_assigned.saturating_add(1),
                        ..old(self).stats
                    })
                }
            }),
    {
        self.ensure_node_can_accept(node_id)?;
        let key: u128 = node_id.0 as u128;
        let station: u128 = station_id.0 as u128;
        if let Some(existing) = self.stations.get(station) {
            if existing.node_id.0 == node_id.0 {
                return Ok(*existing);
            }
            return match self.move_station(station_id, node_id, now) {
                Ok(moved) => Ok(moved.current),
                Err(error) => Err(error),
            };
        }
        if self.reject_full(node_id) {
            return Err(self.capacity_error(node_id));
        }
        let ghost nodes = self.nodes@;
        let ghost stations = self.stations@;
        proof {
            lemma_map_of(self.nodes.entries@);
            lemma_map_of(self.nodes@[key].stations.entries@);
        }
        if let Some(node) = self.nodes.get_mut(key) {
            node.stations.insert(station, station_id);
            node.refresh_assigned_count();
        }
        let route = DeploymentStationRoute {
            station_id,
            node_id,
            route_epoch: 1,
            assigned_at: now,
        };
        self.stations.insert(station, route);
        self.stats.stations_assigned = self.stats.stations_assigned.saturating_add(1);
        proof {
            assert(self.nodes@ =~= nodes.insert(key, self.nodes@[key]));
            assert(self.nodes@.dom() =~= nodes.dom());
            assert(!nodes[key].stations@.contains_key(station));
            lemma_attached(nodes, stations, self.nodes@, self.stations@, key, station);
            assert(self.node_routes() =~= old(self).with_count(
                node_id,
                old(self).node_routes()[key].assigned_stations + 1,
            ));
        }
        Ok(route)
    }

    /// The route of a station once it was moved.
    pub open spec fn moved(self, station_id: StationId, target_node: NodeId, now: Tick) ->
        DeploymentStationRoute {
        DeploymentStationRoute {
            station_id,
            node_id: target_node,
            route_epoch: self.stations@[station_id.0 as u128].route_epoch.saturating_add(1),
            assigned_at: now,
        }
    }

    /// The table after a station changed nodes: one count falls, one rises, the route is replaced.
    pub open spec fn after_move(
        self,
        before: Self,
        previous: DeploymentStationRoute,
        current: DeploymentStationRoute,
    ) -> bool {
        let source = previous.node_id.0 as u128;
        let target = current.node_id.0 as u128;
        let routes = before.node_routes();
        &&& self.node_routes() == routes.insert(
            source,
            DeploymentNodeRoute {
                assigned_stations: (routes[source].assigned_stations - 1) as usize,
                ..routes[source]
            },
        ).insert(
            target,
            DeploymentNodeRoute {
                assigned_stations: (routes[target].assigned_stations + 1) as usize,
                ..routes[target]
            },
        )
        &&& self.stations@ == before.stations@.insert(current.station_id.0 as u128, current)
        &&& self.stats == (DeploymentStats {
            stations_moved: before.stats.stations_moved.saturating_add(1),
            ..before.stats
        })
    }

    /// Moves an existing station route to another online node.
    pub fn move_station(&mut self, station_id: StationId, target_node: NodeId, now: Tick) -> (result:
        Result<DeploymentStationMove, DeploymentError>)
        requires
            old(self).wf(),
        ensures
            final(self).wf(),
            final(self).config == old(self).config,
            ({
                let station = station_id.0 as u128;
                let previous = old(self).stations@[station];
                if let Some(error) = old(self).refusal(target_node) {
                    &&& result == Err::<DeploymentStationMove, DeploymentError>(error)
                    &&& *final(self) == *old(self)
                } else if !old(self).stations@.contains_key(station) {
                    &&& result == Err::<DeploymentStationMove, DeploymentError>(
                        DeploymentError::MissingStation(station_id),
                    )
                    &&& *final(self) == *old(self)
                } else if previous.node_id == target_node {
                    &&& result == Ok::<DeploymentStationMove, DeploymentError>(
                        DeploymentStationMove { previous, current: previous },
                    )
                    &&& *final(self) == *old(self)
                } else if old(self).is_full(target_node) {
                    &&& result == Err::<DeploymentStationMove, DeploymentError>(
                        old(self).full_error(target_node),
                    )
                    &&& final(self).node_routes() == old(self).node_routes()
                    &&& final(self).stations@ == old(self).stations@
                    &&& final(self).stats == old(self).stats.with_rejected_placement()
                } else {
                    let current = old(self).moved(station_id, target_node, now);
                    &&& result == Ok::<DeploymentStationMove, DeploymentError>(
                        DeploymentStationMove { previous, current },
                    )
                    &&& final(self).after_move(*old(self), previous, current)
                }
            }),
    {
        self.ensure_node_can_accept(target_node)?;
        let station: u128 = station_id.0 as u128;
        let target: u128 = target_node.0 as u128;
        let previous = self.station_route(station_id)?;
        if previous.node_id.0 == target_node.0 {
            return Ok(DeploymentStationMove { previous, current: previous });
        }
        if self.reject_full(target_node) {
            return Err(self.capacity_error(target_node));
        }
        let ghost nodes = self.nodes@;
        let ghost stations = self.stations@;
        let source: u128 = previous.node_id.0 as u128;
        proof {
            lemma_map_of(self.nodes.entries@);
            lemma_map_of(self.nodes@[source].stations.entries@);
            lemma_map_of(self.nodes@[target].stations.entries@);
        }
        if let Some(node) = self.nodes.get_mut(source) {
            node.stations.remove(station);
            node.refresh_assigned_count();
        }
        let ghost between = self.nodes@;
        assert(between =~= nodes.insert(source, between[source]));
        if let Some(node) = self.nodes.get_mut(target) {
            node.stations.insert(station, station_id);
            node.refresh_assigned_count();
        }
        let current = DeploymentStationRoute {
            station_id,
            node_id: target_node,
            route_epoch: previous.route_epoch.saturating_add(1),
            assigned_at: now,
        };
        self.stations.insert(station, current);
        self.stats.stations_moved = self.stats.stations_moved.saturating_add(1);
        proof {
            assert(self.nodes@ =~= between.insert(target, self.nodes@[target]));
            assert(self.nodes@.dom() =~= nodes.dom());
            lemma_detached(nodes, stations, between, source, station);
            assert(!nodes[target].stations@.contains_key(station));
            assert(self.stations@ =~= stations.remove(station).insert(station, current));
            lemma_attached(
                between,
                stations.remove(station),
                self.nodes@,
                self.stations@,
                target,
                station,
            );
            let routes = old(self).node_routes();
            assert(self.node_routes() =~= routes.insert(
                source,
                DeploymentNodeRoute {
                    assigned_stations: (routes[source].assigned_stations - 1) as usize,
                    ..routes[source]
                },
            ).insert(
                target,
                DeploymentNodeRoute {
                    assigned_stations: (routes[target].assigned_stations + 1) as usize,
                    ..routes[target]
                },
            ));
        }
        Ok(DeploymentStationMove { previous, current })
    }

    /// Removes one station route.
    pub fn unassign_station(&mut self, station_id: StationId) -> (result: Result<
        DeploymentStationRoute,
        DeploymentError,
    >)
        requires
            old(self).wf(),
        ensures
            final(self).wf(),
            final(self).config == old(self).config,
            ({
                let station = station_id.0 as u128;
                let route = old(self).stations@[station];
                if !old(self).stations@.contains_key(station) {
                    &&& result == Err::<DeploymentStationRoute, DeploymentError>(
                        DeploymentError::MissingStation(station_id),
                    )
                    &&& final(self).node_routes() == old(self).node_routes()
                    &&& final(self).stations@ == old(self).stations@
                    &&& final(self).stats == old(self).stats
                } else {
                    &&& result == Ok::<DeploymentStationRoute, DeploymentError>(route)
                    &&& final(self).stations@ == old(self).stations@.remove(station)
                    &&& final(self).node_routes() == old(self).with_count(
                        route.node_id,
                        old(self).node_routes()[route.node_id.0 as u128].assigned_stations - 1,
                    )
                    &&& final(self).stats == (DeploymentStats {
                        stations_unassigned: old(self).stats.stations_unassigned.saturating_add(1),
                        ..old(self).stats
                    })
                }
            }),
    {
        let station: u128 = station_id.0 as u128;
        let ghost nodes = self.nodes@;
        let ghost stations = self.stations@;
        let route = match self.stations.remove(station) {
            Some(route) => route,
            None => {
                assert(self.stations@ =~= stations);
                return Err(DeploymentError::MissingStation(station_id));
            },
        };
        let key: u128 = route.node_id.0 as u128;
        proof {
            lemma_map_of(self.nodes.entries@);
            lemma_map_of(self.nodes@[key].stations.entries@);
        }
        if let Some(node) = self.nodes.get_mut(key) {
            node.stations.remove(station);
            node.refresh_assigned_count();
        }
        self.stats.stations_unassigned = self.stats.stations_unassigned.saturating_add(1);
        proof {
            assert(self.nodes@ =~= nodes.insert(key, self.nodes@[key]));
            assert(self.nodes@.dom() =~= nodes.dom());
            lemma_detached(nodes, stations, self.nodes@, key, station);
            assert(self.node_routes() =~= old(self).with_count(
                route.node_id,
                old(self).node_routes()[key].assigned_stations - 1,
            ));
        }
        Ok(route)
    }

    /// Returns a node route.
    pub fn node_route(&self, node_id: NodeId) -> (result: Result<
        DeploymentNodeRoute,
        DeploymentError,
    >)
        requires
            self.wf(),
        ensures
            result == (if self.node_routes().contains_key(node_id.0 as u128) {
                Ok(self.node_routes()[node_id.0 as u128])
            } else {
                Err(DeploymentError::MissingNode(node_id))
            }),
            result matches Ok(route) ==> route.node_id == node_id,
    {
        match self.nodes.get(node_id.0 as u128) {
            Some(node) => Ok(node.route),
            None => Err(DeploymentError::MissingNode(node_id)),
        }
    }

    /// Returns a station route.
    pub fn station_route(&self, station_id: StationId) -> (result: Result<
        DeploymentStationRoute,
        DeploymentError,
    >)
        requires
            self.wf(),
        ensures
            result == (if self.stations@.contains_key(station_id.0 as u128) {
                Ok(self.stations@[station_id.0 as u128])
            } else {
                Err(DeploymentError::MissingStation(station_id))
            }),
    {
        match self.stations.get(station_id.0 as u128) {
            Some(route) => Ok(*route),
            None => Err(DeploymentError::MissingStation(station_id)),
        }
    }

    /// Resolves a gateway route to the node that hosts its station. A node that is offline is
    /// unavailable for station routes.
    pub fn resolve_gateway_route(&self, route: GatewayRoute) -> (result: Result<
        GatewayDeliveryRoute,
        DeploymentError,
    >)
        requires
            self.wf(),
        ensures
            result == self.resolved(route),
    {
        let station = self.station_route(route.station_id)?;
        let node = self.node_route(station.node_id)?;
        if node.state == DeploymentNodeState::Offline {
            return Err(
                DeploymentError::NodeUnavailable { node_id: station.node_id, state: node.state },
            );
        }
        Ok(
            GatewayDeliveryRoute {
                client_id: route.client_id,
                station_id: route.station_id,
                node_id: station.node_id,
                station_route_epoch: station.route_epoch,
            },
        )
    }

    /// Where a gateway route leads.
    pub open spec fn resolved(self, route: GatewayRoute) -> Result<
        GatewayDeliveryRoute,
        DeploymentError,
    > {
        let station = self.stations@[route.station_id.0 as u128];
        let node = self.node_routes()[station.node_id.0 as u128];
        if !self.stations@.contains_key(route.station_id.0 as u128) {
            Err(DeploymentError::MissingStation(route.station_id))
        } else if node.state == DeploymentNodeState::Offline {
            Err(DeploymentError::NodeUnavailable { node_id: station.node_id, state: node.state })
        } else {
            Ok(
                GatewayDeliveryRoute {
                    client_id: route.client_id,
                    station_id: route.station_id,
                    node_id: station.node_id,
                    station_route_epoch: station.route_epoch,
                },
            )
        }
    }

    /// Returns station ids assigned to a node, in ascending order.
    pub fn stations_on_node(&self, node_id: NodeId) -> (result: Result<
        Vec<StationId>,
        DeploymentError,
    >)
        requires
            self.wf(),
        ensures
            match result {
                Err(error) => {
                    &&& !self.node_routes().contains_key(node_id.0 as u128)
                    &&& error == DeploymentError::MissingNode(node_id)
                },
                Ok(stations) => {
                    &&& self.node_routes().contains_key(node_id.0 as u128)
                    &&& forall|i: int, j: int|
                        0 <= i < j < stations@.len() ==> (#[trigger] stations@[i]).0 < (
                        #[trigger] stations@[j]).0
                    &&& forall|station: StationId| #[trigger]
                        stations@.contains(station) <==> self.stations@.contains_key(
                            station.0 as u128,
                        ) && self.stations@[station.0 as u128].node_id == node_id
                },
            },
    {
        let node = match self.nodes.get(node_id.0 as u128) {
            Some(node) => node,
            None => {
                return Err(DeploymentError::MissingNode(node_id));
            },
        };
        let ghost entries = node.stations.entries@;
        proof {
            lemma_map_of(entries);
        }
        let mut stations: Vec<StationId> = Vec::new();
        let mut index: usize = 0;
        while index < node.stations.entries.len()
            invariant
                entries == node.stations.entries@,
                index <= entries.len(),
                stations@.len() == index,
                forall|i: int| 0 <= i < index ==> (#[trigger] stations@[i]) == entries[i].1,
            decreases entries.len() - index,
        {
            stations.push(node.stations.entries[index].1);
            index = index + 1;
        }
        proof {
            assert forall|i: int, j: int| 0 <= i < j < stations@.len() implies (
            #[trigger] stations@[i]).0 < (#[trigger] stations@[j]).0 by {
                assert(node.stations@.contains_key(entries[i].0));
                assert(node.stations@.contains_key(entries[j].0));
            }
            assert forall|station: StationId| #[trigger] stations@.contains(station) <==> (
            self.stations@.contains_key(station.0 as u128) && self.stations@[station.0 as u128].node_id
                == node_id) by {
                if stations@.contains(station) {
                    let i = choose|i: int| 0 <= i < stations@.len() && stations@[i] == station;
                    assert(node.stations@.contains_key(entries[i].0));
                }
                if self.stations@.contains_key(station.0 as u128)
                    && self.stations@[station.0 as u128].node_id == node_id {
                    assert(node.stations@.contains_key(station.0 as u128));
                    let i = choose|i: int|
                        0 <= i < entries.len() && (#[trigger] entries[i]).0 == station.0 as u128;
                    assert(stations@[i] == station);
                }
            }
        }
        Ok(stations)
    }

    /// Returns stale node ids without mutating node state.
    pub fn stale_nodes(&mut self, now: Tick) -> (stale: Vec<NodeId>)
        requires
            old(self).wf(),
        ensures
            final(self).wf(),
            final(self).config == old(self).config,
            final(self).nodes == old(self).nodes,
            final(self).stations == old(self).stations,
            stale@ == stale_ids(
                old(self).nodes.entries@,
                now,
                old(self).config.stale_after_ticks,
            ),
            final(self).stats == (DeploymentStats {
                stale_nodes_detected: old(self).stats.stale_nodes_detected.saturating_add(
                    stale@.len() as usize,
                ),
                ..old(self).stats
            }),
    {
        let mut stale: Vec<NodeId> = Vec::new();
        let mut index: usize = 0;
        let ghost entries = self.nodes.entries@;
        let stale_after: u64 = self.config.stale_after_ticks;
        assert(entries.take(0) =~= Seq::empty());
        while index < self.nodes.entries.len()
            invariant
                index <= entries.len(),
                entries == self.nodes.entries@,
                stale@ == stale_ids(entries.take(index as int), now, stale_after),
            decreases entries.len() - index,
        {
            assert(entries.take(index + 1).drop_last() =~= entries.take(index as int));
            let route = self.nodes.entries[index].1.route;
            if route.state != DeploymentNodeState::Offline && now.0.saturating_sub(
                route.last_heartbeat.0,
            ) > stale_after {
                stale.push(route.node_id);
            }
            index = index + 1;
        }
        assert(entries.take(index as int) =~= entries);
        self.stats.stale_nodes_detected =
        self.stats.stale_nodes_detected.saturating_add(stale.len());
        stale
    }

    /// Marks stale nodes offline.
    pub fn mark_stale_offline(&mut self, now: Tick) -> (count: usize)
        requires
            old(self).wf(),
        ensures
            final(self).wf(),
            final(self).config == old(self).config,
            final(self).stations@ == old(self).stations@,
            ({
                let stale_after = old(self).config.stale_after_ticks;
                let stale = stale_ids(old(self).nodes.entries@, now, stale_after);
                &&& count == stale.len()
                &&& final(self).node_routes() == old(self).node_routes().map_values(
                    |route: DeploymentNodeRoute|
                        if is_stale(route, now, stale_after) {
                            taken_offline(route)
                        } else {
                            route
                        },
                )
                &&& final(self).stats == (DeploymentStats {
                    stale_nodes_detected: old(self).stats.stale_nodes_detected.saturating_add(
                        count,
                    ),
                    nodes_offline: crate::num::clamp_usize(
                        old(self).stats.nodes_offline as nat + count as nat,
                    ),
                    ..old(self).stats
                })
            }),
    {
        let ghost before = self.node_routes();
        let ghost entries = self.nodes.entries@;
        let ghost stale_after = self.config.stale_after_ticks;
        let stale = self.stale_nodes(now);
        let ghost counted = self.stats;
        proof {
            lemma_map_of(entries);
            assert forall|i: int| 0 <= i < entries.len() implies (
            #[trigger] entries[i]).1.route.node_id.0 as u128 == entries[i].0 by {
                assert(self.nodes@.contains_key(entries[i].0));
            }
            lemma_stale_ids(entries, now, stale_after);
            assert forall|i: int| 0 <= i < stale@.len() implies before.contains_key(
                (#[trigger] stale@[i]).0 as u128,
            ) && is_stale(before[stale@[i].0 as u128], now, stale_after) by {
                assert(stale@.contains(stale@[i]));
                let at = choose|at: int|
                    0 <= at < entries.len() && (#[trigger] entries[at]).1.route.node_id == stale@[i]
                        && is_stale(entries[at].1.route, now, stale_after);
                assert(self.nodes@.contains_key(entries[at].0));
            }
        }
        let mut index: usize = 0;
        while index < stale.len()
            invariant
                index <= stale@.len(),
                self.wf(),
                self.config == old(self).config,
                self.stations@ == old(self).stations@,
                forall|i: int, j: int|
                    0 <= i < j < stale@.len() ==> (#[trigger] stale@[i]).0 < (
                    #[trigger] stale@[j]).0,
                forall|i: int|
                    0 <= i < stale@.len() ==> before.contains_key((#[trigger] stale@[i]).0 as u128)
                        && is_stale(before[stale@[i].0 as u128], now, stale_after),
                self.node_routes().dom() == before.dom(),
                forall|key: u128| #[trigger]
                    before.contains_key(key) ==> self.node_routes()[key] == (if exists|i: int|
                        0 <= i < index && (#[trigger] stale@[i]).0 as u128 == key {
                        taken_offline(before[key])
                    } else {
                        before[key]
                    }),
                self.stats == (DeploymentStats {
                    nodes_offline: crate::num::clamp_usize(
                        counted.nodes_offline as nat + index as nat,
                    ),
                    ..counted
                }),
            decreases stale@.len() - index,
        {
            let ghost routes = self.node_routes();
            let node_id = stale[index];
            let ghost key = node_id.0 as u128;
            assert(before.contains_key(key));
            assert(routes[key] == before[key]) by {
                assert forall|i: int| 0 <= i < index implies (#[trigger] stale@[i]).0 as u128
                    != key by {
                    assert(stale@[i].0 < stale@[index as int].0);
                }
            }
            let _ = self.mark_offline(node_id);
            index = index + 1;
            proof {
                assert(self.node_routes() =~= routes.insert(key, taken_offline(before[key])));
                assert(self.node_routes().dom() =~= before.dom());
                assert forall|other: u128| #[trigger] before.contains_key(other) implies (
                self.node_routes()[other] == (if exists|i: int|
                    0 <= i < index && (#[trigger] stale@[i]).0 as u128 == other {
                    taken_offline(before[other])
                } else {
                    before[other]
                })) by {
                    if other == key {
                        assert(stale@[index - 1].0 as u128 == other);
                    } else {
                        assert(routes[other] == (if exists|i: int|
                            0 <= i < index - 1 && (#[trigger] stale@[i]).0 as u128 == other {
                            taken_offline(before[other])
                        } else {
                            before[other]
                        }));
                    }
                }
            }
        }
        proof {
            assert forall|key: u128| before.contains_key(key) implies (exists|i: int|
                0 <= i < stale@.len() && (#[trigger] stale@[i]).0 as u128 == key) == is_stale(
                #[trigger] before[key],
                now,
                stale_after,
            ) by {
                if is_stale(before[key], now, stale_after) {
                    let at = choose|at: int| 0 <= at < entries.len() && (#[trigger] entries[at]).0 == key;
                    assert(entries[at].1.route == before[key]);
                    let id = entries[at].1.route.node_id;
                    assert(stale_in(entries, id, now, stale_after));
                    assert(stale@.contains(id));
                    let i = choose|i: int| 0 <= i < stale@.len() && stale@[i] == id;
                    assert(stale@[i].0 as u128 == key);
                }
            }
            assert(self.node_routes() =~= before.map_values(
                |route: DeploymentNodeRoute|
                    if is_stale(route, now, stale_after) {
                        taken_offline(route)
                    } else {
                        route
                    },
            ));
        }
        stale.len()
    }

    fn ensure_node_can_accept(&self, node_id: NodeId) -> (result: Result<(), DeploymentError>)
        requires
            self.wf(),
        ensures
            match result {
                Ok(()) => self.refusal(node_id) is None,
                Err(error) => self.refusal(node_id) == Some(error),
            },
    {
        let route = self.node_route(node_id)?;
        match route.state {
            DeploymentNodeState::Online => Ok(()),
            DeploymentNodeState::Draining | DeploymentNodeState::Offline => Err(
                DeploymentError::NodeUnavailable { node_id, state: route.state },
            ),
        }
    }

    /// Counts a rejected placement where a node has no room for another station.
    fn reject_full(&mut self, node_id: NodeId) -> (full: bool)
        requires
            old(self).wf(),
            old(self).refusal(node_id) is None,
        ensures
            full == old(self).is_full(node_id),
            final(self).wf(),
            final(self).config == old(self).config,
            final(self).nodes == old(self).nodes,
            final(self).stations == old(self).stations,
            final(self).stats == (if full {
                old(self).stats.with_rejected_placement()
            } else {
                old(self).stats
            }),
    {
        let full: bool = match self.nodes.get(node_id.0 as u128) {
            Some(node) => node.stations.len().saturating_add(1) > node.route.station_capacity,
            None => false,
        };
        if full {
            self.stats.placements_rejected_capacity =
            self.stats.placements_rejected_capacity.saturating_add(1);
        }
        full
    }

    fn capacity_error(&self, node_id: NodeId) -> (error: DeploymentError)
        requires
            self.wf(),
            self.refusal(node_id) is None,
        ensures
            error == self.full_error(node_id),
    {
        match self.nodes.get(node_id.0 as u128) {
            Some(node) => DeploymentError::NodeStationCapacity {
                node_id,
                capacity: node.route.station_capacity,
                attempted: node.stations.len().saturating_add(1),
            },
            None => DeploymentError::MissingNode(node_id),
        }
    }
}

impl Default for DeploymentRouteTable {
    fn default() -> (table: Self)
        ensures
            table.wf(),
            table.config == (DeploymentConfig {
                max_nodes: 1024,
                max_stations_per_node: 1024,
                stale_after_ticks: 200,
            }),
            table.stats == DeploymentStats::zero(),
            table.node_routes() == Map::<u128, DeploymentNodeRoute>::empty(),
            table.stations@ == Map::<u128, DeploymentStationRoute>::empty(),
    {
        Self::new(DeploymentConfig::default())
    }
}

/// Whether some entry is a stale node with the given id.
pub open spec fn stale_in(
    entries: Seq<(u128, DeploymentNodeRecord)>,
    node_id: NodeId,
    now: Tick,
    stale_after: u64,
) -> bool {
    exists|at: int|
        0 <= at < entries.len() && (#[trigger] entries[at]).1.route.node_id == node_id && is_stale(
            entries[at].1.route,
            now,
            stale_after,
        )
}

proof fn lemma_stale_ids(entries: Seq<(u128, DeploymentNodeRecord)>, now: Tick, stale_after: u64)
    requires
        crate::ordered_map::ascending(entries),
        forall|i: int| 0 <= i < entries.len() ==> (#[trigger] entries[i]).1.route.node_id.0 as u128
            == entries[i].0,
    ensures
        ({
            let stale = stale_ids(entries, now, stale_after);
            &&& stale.len() <= entries.len()
            &&& forall|i: int, j: int|
                0 <= i < j < stale.len() ==> (#[trigger] stale[i]).0 < (#[trigger] stale[j]).0
            &&& forall|id: NodeId| #[trigger]
                stale.contains(id) <==> stale_in(entries, id, now, stale_after)
        }),
    decreases entries.len(),
{
    if entries.len() > 0 {
        let rest = entries.drop_last();
        assert forall|i: int| 0 <= i < rest.len() implies (#[trigger] rest[i]).1.route.node_id.0 as u128
            == rest[i].0 by {
            assert(rest[i] == entries[i]);
        }
        lemma_stale_ids(rest, now, stale_after);
        let before = stale_ids(rest, now, stale_after);
        let stale = stale_ids(entries, now, stale_after);
        let last = entries.last();
        assert(last == entries[entries.len() - 1]);
        assert forall|i: int| 0 <= i < before.len() implies (#[trigger] before[i]).0
            < last.1.route.node_id.0 by {
            assert(before.contains(before[i]));
            let at = choose|at: int|
                0 <= at < rest.len() && (#[trigger] rest[at]).1.route.node_id == before[i];
            assert(entries[at] == rest[at]);
            assert(entries[at].0 < entries[entries.len() - 1].0);
        }
        assert forall|id: NodeId| #[trigger] stale.contains(id) <==> stale_in(
            entries,
            id,
            now,
            stale_after,
        ) by {
            if stale_in(rest, id, now, stale_after) {
                let at = choose|at: int|
                    0 <= at < rest.len() && (#[trigger] rest[at]).1.route.node_id == id && is_stale(
                        rest[at].1.route,
                        now,
                        stale_after,
                    );
                assert(entries[at] == rest[at]);
            }
            if stale_in(entries, id, now, stale_after) {
                let at = choose|at: int|
                    0 <= at < entries.len() && (#[trigger] entries[at]).1.route.node_id == id
                        && is_stale(entries[at].1.route, now, stale_after);
                if at < rest.len() {
                    assert(rest[at] == entries[at]);
                    assert(stale_in(rest, id, now, stale_after));
                    assert(before.contains(id));
                    let i = choose|i: int| 0 <= i < before.len() && before[i] == id;
                    assert(stale[i] == id);
                } else {
                    assert(stale[before.len() as int] == id);
                }
            }
            if stale.contains(id) {
                let i = choose|i: int| 0 <= i < stale.len() && stale[i] == id;
                if i < before.len() {
                    assert(before[i] == id);
                    assert(before.contains(id));
                } else {
                    assert(entries[entries.len() - 1].1.route.node_id == id);
                }
            }
        }
    }
}

/// A station joins a node.
proof fn lemma_attached(
    nodes: Map<u128, DeploymentNodeRecord>,
    stations: Map<u128, DeploymentStationRoute>,
    nodes_after: Map<u128, DeploymentNodeRecord>,
    stations_after: Map<u128, DeploymentStationRoute>,
    key: u128,
    station: u128,
)
    requires
        consistent(nodes, stations),
        nodes.contains_key(key),
        !stations.contains_key(station),
        nodes_after == nodes.insert(key, nodes_after[key]),
        nodes_after[key].stations.wf(),
        nodes_after[key].route.node_id.0 == key,
        nodes_after[key].stations@ == nodes[key].stations@.insert(
            station,
            nodes_after[key].stations@[station],
        ),
        nodes_after[key].stations@[station].0 == station,
        nodes_after[key].route.assigned_stations == nodes_after[key].stations@.dom().len(),
        stations_after == stations.insert(station, stations_after[station]),
        stations_after[station].station_id.0 == station,
        stations_after[station].node_id.0 == key,
    ensures
        consistent(nodes_after, stations_after),
{
    assert forall|other: u128| #[trigger] nodes_after.contains_key(other) implies hosts(
        nodes_after[other],
        other,
        stations_after,
    ) by {
        assert(hosts(nodes[other], other, stations));
    }
}

/// A station leaves a node.
proof fn lemma_detached(
    nodes: Map<u128, DeploymentNodeRecord>,
    stations: Map<u128, DeploymentStationRoute>,
    nodes_after: Map<u128, DeploymentNodeRecord>,
    key: u128,
    station: u128,
)
    requires
        consistent(nodes, stations),
        stations.contains_key(station),
        stations[station].node_id.0 == key,
        nodes_after == nodes.insert(key, nodes_after[key]),
        nodes_after[key].stations.wf(),
        nodes_after[key].route.node_id.0 == key,
        nodes_after[key].stations@ == nodes[key].stations@.remove(station),
        nodes_after[key].route.assigned_stations == nodes_after[key].stations@.dom().len(),
    ensures
        consistent(nodes_after, stations.remove(station)),
{
    assert forall|other: u128| #[trigger] nodes_after.contains_key(other) implies hosts(
        nodes_after[other],
        other,
        stations.remove(station),
    ) by {
        assert(hosts(nodes[other], other, stations));
    }
}

/// A station is hosted by one node: the node that its route names, which is registered.
pub proof fn law_each_station_has_one_node(table: DeploymentRouteTable, station: u128, node: u128)
    requires
        table.wf(),
        table.stations@.contains_key(station),
        table.nodes@.contains_key(node),
    ensures
        table.nodes@.contains_key(table.stations@[station].node_id.0 as u128),
        table.nodes@[node].stations@.contains_key(station) <==> table.stations@[station].node_id.0
            == node,
{
    assert(hosts(table.nodes@[node], node, table.stations@));
}

/// Station routes that lead to a node.
pub open spec fn routed_to(stations: Map<u128, DeploymentStationRoute>, node: u128) -> Set<u128> {
    stations.dom().filter(|station: u128| stations[station].node_id.0 == node)
}

/// The station count that a node advertises is the number of station routes that lead to it.
pub proof fn law_station_counts_match_the_routes(table: DeploymentRouteTable, node: u128)
    requires
        table.wf(),
        table.nodes@.contains_key(node),
    ensures
        table.node_routes()[node].assigned_stations == routed_to(table.stations@, node).len(),
{
    let record = table.nodes@[node];
    assert(hosts(record, node, table.stations@));
    assert(record.stations@.dom() =~= routed_to(table.stations@, node)) by {
        assert forall|station: u128| record.stations@.dom().contains(station) <==> routed_to(
            table.stations@,
            node,
        ).contains(station) by {
            assert(record.stations@.contains_key(station) <==> table.stations@.contains_key(station)
                && table.stations@[station].node_id.0 == node);
        }
    }
}

/// A move leaves every other station where it was, raises the epoch of the moved one unless it is
/// already at its last value, and does not take the target over its capacity.
pub proof fn law_a_move_touches_one_station(
    before: DeploymentRouteTable,
    after: DeploymentRouteTable,
    station_id: StationId,
    target_node: NodeId,
    now: Tick,
)
    requires
        before.wf(),
        before.stations@.contains_key(station_id.0 as u128),
        before.stations@[station_id.0 as u128].node_id != target_node,
        before.refusal(target_node) is None,
        !before.is_full(target_node),
        after.after_move(
            before,
            before.stations@[station_id.0 as u128],
            before.moved(station_id, target_node, now),
        ),
    ensures
        after.stations@.dom() == before.stations@.dom(),
        forall|other: u128| #[trigger]
            before.stations@.contains_key(other) && other != station_id.0 as u128
                ==> after.stations@[other] == before.stations@[other],
        before.stations@[station_id.0 as u128].route_epoch < u64::MAX
            ==> after.stations@[station_id.0 as u128].route_epoch
            > before.stations@[station_id.0 as u128].route_epoch,
        ({
            let target = after.node_routes()[target_node.0 as u128];
            target.assigned_stations <= target.station_capacity
        }),
{
    assert(after.stations@.dom() =~= before.stations@.dom());
}

/// Every known node is still known, and its route epoch went up by one exactly where its state or its
/// capacity is not what it was.
pub open spec fn epochs_mark_changes(
    before: Map<u128, DeploymentNodeRoute>,
    after: Map<u128, DeploymentNodeRoute>,
) -> bool {
    forall|key: u128| #[trigger]
        before.contains_key(key) ==> {
            &&& after.contains_key(key)
            &&& after[key].route_epoch == (if after[key].state != before[key].state
                || after[key].station_capacity != before[key].station_capacity {
                before[key].route_epoch.saturating_add(1)
            } else {
                before[key].route_epoch
            })
        }
}

/// Whatever is done to the table, no node is forgotten, and the route epoch of a node counts the
/// changes of its state or capacity, up to its last value.
pub proof fn law_node_epochs_mark_changes()
    ensures
        forall|table: &mut DeploymentRouteTable, node_id: NodeId, station_capacity: usize, now: Tick, result: Result<DeploymentNodeRoute, DeploymentError>| #[trigger]
            call_ensures(DeploymentRouteTable::register_node, (table, node_id, station_capacity, now), result) ==> epochs_mark_changes(
                table.node_routes(),
                final(table).node_routes(),
            ),
        forall|table: &mut DeploymentRouteTable, node_id: NodeId, now: Tick, result: Result<DeploymentNodeRoute, DeploymentError>| #[trigger]
            call_ensures(DeploymentRouteTable::heartbeat, (table, node_id, now), result) ==> epochs_mark_changes(
                table.node_routes(),
                final(table).node_routes(),
            ),
        forall|table: &mut DeploymentRouteTable, node_id: NodeId, result: Result<DeploymentNodeRoute, DeploymentError>| #[trigger]
            call_ensures(DeploymentRouteTable::mark_draining, (table, node_id), result) ==> epochs_mark_changes(
                table.node_routes(),
                final(table).node_routes(),
            ),
        forall|table: &mut DeploymentRouteTable, node_id: NodeId, result: Result<DeploymentNodeRoute, DeploymentError>| #[trigger]
            call_ensures(DeploymentRouteTable::mark_offline, (table, node_id), result) ==> epochs_mark_changes(
                table.node_routes(),
                final(table).node_routes(),
            ),
        forall|table: &mut DeploymentRouteTable, now: Tick, result: usize| #[trigger]
            call_ensures(DeploymentRouteTable::mark_stale_offline, (table, now), result) ==> epochs_mark_changes(
                table.node_routes(),
                final(table).node_routes(),
            ),
        forall|table: &mut DeploymentRouteTable, station_id: StationId, node_id: NodeId, now: Tick, result: Result<DeploymentStationRoute, DeploymentError>| #[trigger]
            call_ensures(DeploymentRouteTable::assign_station, (table, station_id, node_id, now), result) ==> epochs_mark_changes(
                table.node_routes(),
                final(table).node_routes(),
            ),
        forall|table: &mut DeploymentRouteTable, station_id: StationId, node_id: NodeId, now: Tick, result: Result<DeploymentStationMove, DeploymentError>| #[trigger]
            call_ensures(DeploymentRouteTable::move_station, (table, station_id, node_id, now), result) ==> epochs_mark_changes(
                table.node_routes(),
                final(table).node_routes(),
            ),
        forall|table: &mut DeploymentRouteTable, station_id: StationId, result: Result<DeploymentStationRoute, DeploymentError>| #[trigger]
            call_ensures(DeploymentRouteTable::unassign_station, (table, station_id), result) ==> epochs_mark_changes(
                table.node_routes(),
                final(table).node_routes(),
            ),
{
}

} // verus!
