//! What deployment routes promise: stations stay reachable while their node is not offline, and are
//! placed only where there is room.

use vstd::prelude::*;

use crate::deployment::{
    is_stale, stale_ids, DeploymentError, DeploymentNodeRecord, DeploymentNodeRoute,
    DeploymentNodeState, DeploymentRouteTable, DeploymentStationMove, DeploymentStationRoute,
    GatewayDeliveryRoute, GatewayRoute,
};
use crate::ids::{NodeId, StationId, Tick};
use crate::ordered_map::lemma_map_of;

verus! {

/// The node is registered and in this state.
pub open spec fn is_in_state(
    table: DeploymentRouteTable,
    node_id: NodeId,
    state: DeploymentNodeState,
) -> bool {
    table.nodes@.contains_key(node_id.0 as u128) && table.nodes@[node_id.0 as u128].route.state
        == state
}

/// The station stands on this node.
pub open spec fn stands_on(
    table: DeploymentRouteTable,
    station_id: StationId,
    node_id: NodeId,
) -> bool {
    table.stations@.contains_key(station_id.0 as u128)
        && table.stations@[station_id.0 as u128].node_id == node_id
}

/// Every station route but that of `station_id` is what it was.
pub open spec fn other_stations_stay(
    before: DeploymentRouteTable,
    after: DeploymentRouteTable,
    station_id: StationId,
) -> bool {
    forall|other: u128|
        other != station_id.0 as u128 ==> {
            &&& #[trigger] after.stations@.contains_key(other) <==> before.stations@.contains_key(
                other,
            )
            &&& before.stations@.contains_key(other) ==> after.stations@[other]
                == before.stations@[other]
        }
}

/// A gateway route leads to the node of its station, with the epoch of the station's route, while
/// that node is online or draining. It fails only for a station without a route, and for one whose
/// node is offline.
pub proof fn law_stations_are_reached_unless_their_node_is_offline(
    table: &DeploymentRouteTable,
    route: GatewayRoute,
    result: Result<GatewayDeliveryRoute, DeploymentError>,
    node_id: NodeId,
)
    requires
        table.wf(),
        call_ensures(DeploymentRouteTable::resolve_gateway_route, (table, route), result),
    ensures
        !table.stations@.contains_key(route.station_id.0 as u128) ==> result == Err::<
            GatewayDeliveryRoute,
            DeploymentError,
        >(DeploymentError::MissingStation(route.station_id)),
        stands_on(*table, route.station_id, node_id) && (is_in_state(
            *table,
            node_id,
            DeploymentNodeState::Online,
        ) || is_in_state(*table, node_id, DeploymentNodeState::Draining)) ==> {
            &&& result matches Ok(delivery)
            &&& delivery.client_id == route.client_id
            &&& delivery.station_id == route.station_id
            &&& delivery.node_id == node_id
            &&& delivery.station_route_epoch
                == table.stations@[route.station_id.0 as u128].route_epoch
        },
        stands_on(*table, route.station_id, node_id) && is_in_state(
            *table,
            node_id,
            DeploymentNodeState::Offline,
        ) ==> result == Err::<GatewayDeliveryRoute, DeploymentError>(
            DeploymentError::NodeUnavailable { node_id, state: DeploymentNodeState::Offline },
        ),
        table.stations@.contains_key(route.station_id.0 as u128) ==> table.nodes@.contains_key(
            table.stations@[route.station_id.0 as u128].node_id.0 as u128,
        ),
{
    if table.stations@.contains_key(route.station_id.0 as u128) {
        let key = table.stations@[route.station_id.0 as u128].node_id.0 as u128;
        assert(table.node_routes().contains_key(key));
        assert(table.node_routes()[key] == table.nodes@[key].route);
    }
}

/// Marking a node that is not offline as draining changes no delivery: every gateway route resolves
/// as it did before.
pub proof fn law_draining_changes_no_delivery(node_id: NodeId, route: GatewayRoute)
    ensures
        forall|
            table: &mut DeploymentRouteTable,
            drained: Result<DeploymentNodeRoute, DeploymentError>,
            first: Result<GatewayDeliveryRoute, DeploymentError>,
            second: Result<GatewayDeliveryRoute, DeploymentError>,
        |
            #![trigger
                call_ensures(DeploymentRouteTable::mark_draining, (table, node_id), drained),
                call_ensures(DeploymentRouteTable::resolve_gateway_route, (&*table, route), first),
                call_ensures(
                    DeploymentRouteTable::resolve_gateway_route,
                    (&*final(table), route),
                    second,
                )
            ]
            call_ensures(DeploymentRouteTable::mark_draining, (table, node_id), drained)
                && table.wf() && !is_in_state(*table, node_id, DeploymentNodeState::Offline)
                && call_ensures(
                DeploymentRouteTable::resolve_gateway_route,
                (&*table, route),
                first,
            ) && call_ensures(
                DeploymentRouteTable::resolve_gateway_route,
                (&*final(table), route),
                second,
            ) ==> first == second,
        forall|
            table: &mut DeploymentRouteTable,
            drained: Result<DeploymentNodeRoute, DeploymentError>,
        | #[trigger]
            call_ensures(DeploymentRouteTable::mark_draining, (table, node_id), drained)
                && table.wf() ==> {
                &&& drained is Ok <==> table.nodes@.contains_key(node_id.0 as u128)
                &&& drained is Ok ==> is_in_state(
                    *final(table),
                    node_id,
                    DeploymentNodeState::Draining,
                )
                &&& final(table).stations@ == table.stations@
            },
{
    assert forall|
        table: &mut DeploymentRouteTable,
        drained: Result<DeploymentNodeRoute, DeploymentError>,
    | #[trigger]
        call_ensures(DeploymentRouteTable::mark_draining, (table, node_id), drained)
            && table.wf() implies {
        &&& drained is Ok <==> table.nodes@.contains_key(node_id.0 as u128)
        &&& drained is Ok ==> is_in_state(*final(table), node_id, DeploymentNodeState::Draining)
        &&& final(table).stations@ == table.stations@
        &&& forall|other: u128| #[trigger]
            table.nodes@.contains_key(other) && other != node_id.0 as u128
                ==> final(table).nodes@.contains_key(other) && final(table).nodes@[other].route
                == table.nodes@[other].route
    } by {
        lemma_routes(*table);
        lemma_routes(*final(table));
        assert(final(table).node_routes().contains_key(node_id.0 as u128)
            <==> final(table).nodes@.contains_key(node_id.0 as u128));
        assert forall|other: u128| #[trigger]
            table.nodes@.contains_key(other) && other != node_id.0 as u128 implies final(
            table).nodes@.contains_key(other) && final(table).nodes@[other].route
            == table.nodes@[other].route by {
            assert(table.node_routes().contains_key(other));
            assert(final(table).node_routes().contains_key(other));
        }
    }
    assert forall|
        table: &mut DeploymentRouteTable,
        drained: Result<DeploymentNodeRoute, DeploymentError>,
        first: Result<GatewayDeliveryRoute, DeploymentError>,
        second: Result<GatewayDeliveryRoute, DeploymentError>,
    |
        #![trigger
            call_ensures(DeploymentRouteTable::mark_draining, (table, node_id), drained),
            call_ensures(DeploymentRouteTable::resolve_gateway_route, (&*table, route), first),
            call_ensures(
                DeploymentRouteTable::resolve_gateway_route,
                (&*final(table), route),
                second,
            )
        ]
        call_ensures(DeploymentRouteTable::mark_draining, (table, node_id), drained) && table.wf()
            && !is_in_state(*table, node_id, DeploymentNodeState::Offline) && call_ensures(
            DeploymentRouteTable::resolve_gateway_route,
            (&*table, route),
            first,
        ) && call_ensures(
            DeploymentRouteTable::resolve_gateway_route,
            (&*final(table), route),
            second,
        ) implies first == second by {
        lemma_routes(*table);
        lemma_routes(*final(table));
        if table.stations@.contains_key(route.station_id.0 as u128) {
            let host = table.stations@[route.station_id.0 as u128].node_id;
            assert(table.nodes@.contains_key(host.0 as u128));
            law_stations_are_reached_unless_their_node_is_offline(&*table, route, first, host);
            law_stations_are_reached_unless_their_node_is_offline(
                &*final(table),
                route,
                second,
                host,
            );
        }
    }
}

proof fn lemma_routes(table: DeploymentRouteTable)
    ensures
        forall|key: u128| #[trigger]
            table.node_routes().contains_key(key) <==> table.nodes@.contains_key(key),
        forall|key: u128| #[trigger]
            table.nodes@.contains_key(key) ==> table.node_routes()[key] == table.nodes@[key].route,
{
}

/// A node that was marked offline is offline, keeps its stations, and none of them is reached.
pub proof fn law_offline_nodes_are_not_reached(node_id: NodeId, route: GatewayRoute)
    ensures
        forall|
            table: &mut DeploymentRouteTable,
            marked: Result<DeploymentNodeRoute, DeploymentError>,
            result: Result<GatewayDeliveryRoute, DeploymentError>,
        |
            #![trigger
                call_ensures(DeploymentRouteTable::mark_offline, (table, node_id), marked),
                call_ensures(
                    DeploymentRouteTable::resolve_gateway_route,
                    (&*final(table), route),
                    result,
                )
            ]
            call_ensures(DeploymentRouteTable::mark_offline, (table, node_id), marked)
                && table.wf() && marked is Ok && stands_on(*table, route.station_id, node_id)
                && call_ensures(
                DeploymentRouteTable::resolve_gateway_route,
                (&*final(table), route),
                result,
            ) ==> {
                &&& stands_on(*final(table), route.station_id, node_id)
                &&& result == Err::<GatewayDeliveryRoute, DeploymentError>(
                    DeploymentError::NodeUnavailable {
                        node_id,
                        state: DeploymentNodeState::Offline,
                    },
                )
            },
{
    assert forall|
        table: &mut DeploymentRouteTable,
        marked: Result<DeploymentNodeRoute, DeploymentError>,
        result: Result<GatewayDeliveryRoute, DeploymentError>,
    |
        #![trigger
            call_ensures(DeploymentRouteTable::mark_offline, (table, node_id), marked),
            call_ensures(
                DeploymentRouteTable::resolve_gateway_route,
                (&*final(table), route),
                result,
            )
        ]
        call_ensures(DeploymentRouteTable::mark_offline, (table, node_id), marked) && table.wf()
            && marked is Ok && stands_on(*table, route.station_id, node_id) && call_ensures(
            DeploymentRouteTable::resolve_gateway_route,
            (&*final(table), route),
            result,
        ) implies {
        &&& stands_on(*final(table), route.station_id, node_id)
        &&& result == Err::<GatewayDeliveryRoute, DeploymentError>(
            DeploymentError::NodeUnavailable { node_id, state: DeploymentNodeState::Offline },
        )
    } by {
        lemma_routes(*table);
        lemma_routes(*final(table));
        assert(final(table).node_routes().contains_key(node_id.0 as u128));
        assert(final(table).nodes@.contains_key(node_id.0 as u128));
        law_stations_are_reached_unless_their_node_is_offline(
            &*final(table),
            route,
            result,
            node_id,
        );
    }
}

/// A station is placed on a node exactly where the node is online and has room for it, or hosts it
/// already. Placed, it stands there and nowhere else; refused, no station moves. Other stations stay
/// either way.
pub proof fn law_stations_are_placed_where_there_is_room(
    station_id: StationId,
    node_id: NodeId,
    now: Tick,
)
    ensures
        forall|
            table: &mut DeploymentRouteTable,
            result: Result<DeploymentStationRoute, DeploymentError>,
        | #[trigger]
            call_ensures(
                DeploymentRouteTable::assign_station,
                (table, station_id, node_id, now),
                result,
            ) && table.wf() ==> {
                let node = table.nodes@[node_id.0 as u128].route;
                &&& node.assigned_stations < usize::MAX ==> (result is Ok <==> is_in_state(
                    *table,
                    node_id,
                    DeploymentNodeState::Online,
                ) && (stands_on(*table, station_id, node_id) || node.assigned_stations
                    < node.station_capacity))
                &&& result matches Ok(route) ==> {
                    &&& stands_on(*final(table), station_id, node_id)
                    &&& final(table).stations@[station_id.0 as u128] == route
                    &&& route.station_id == station_id
                    &&& !stands_on(*table, station_id, node_id) ==> route.assigned_at == now
                    &&& !stands_on(*table, station_id, node_id) && node.assigned_stations
                        < usize::MAX ==> final(
                        table).nodes@[node_id.0 as u128].route.assigned_stations
                        == node.assigned_stations + 1
                }
                &&& result is Err ==> final(table).stations@ == table.stations@
                &&& other_stations_stay(*table, *final(table), station_id)
            },
        forall|
            table: &mut DeploymentRouteTable,
            result: Result<DeploymentStationMove, DeploymentError>,
        | #[trigger]
            call_ensures(
                DeploymentRouteTable::move_station,
                (table, station_id, node_id, now),
                result,
            ) && table.wf() ==> {
                let node = table.nodes@[node_id.0 as u128].route;
                &&& node.assigned_stations < usize::MAX ==> (result is Ok <==> is_in_state(
                    *table,
                    node_id,
                    DeploymentNodeState::Online,
                ) && table.stations@.contains_key(station_id.0 as u128) && (stands_on(
                    *table,
                    station_id,
                    node_id,
                ) || node.assigned_stations < node.station_capacity))
                &&& result matches Ok(moved) ==> {
                    &&& stands_on(*final(table), station_id, node_id)
                    &&& final(table).stations@[station_id.0 as u128] == moved.current
                    &&& table.stations@[station_id.0 as u128] == moved.previous
                    &&& moved.previous.node_id != node_id && moved.previous.route_epoch < u64::MAX
                        ==> moved.current.route_epoch == moved.previous.route_epoch + 1
                }
                &&& result is Err ==> final(table).stations@ == table.stations@
                &&& other_stations_stay(*table, *final(table), station_id)
            },
{
    assert forall|
        table: &mut DeploymentRouteTable,
        result: Result<DeploymentStationRoute, DeploymentError>,
    | #[trigger]
        call_ensures(
            DeploymentRouteTable::assign_station,
            (table, station_id, node_id, now),
            result,
        ) && table.wf() implies {
        let node = table.nodes@[node_id.0 as u128].route;
        &&& node.assigned_stations < usize::MAX ==> (result is Ok <==> is_in_state(
            *table,
            node_id,
            DeploymentNodeState::Online,
        ) && (stands_on(*table, station_id, node_id) || node.assigned_stations
            < node.station_capacity))
        &&& result matches Ok(route) ==> {
            &&& stands_on(*final(table), station_id, node_id)
            &&& final(table).stations@[station_id.0 as u128] == route
            &&& route.station_id == station_id
            &&& !stands_on(*table, station_id, node_id) ==> route.assigned_at == now
            &&& !stands_on(*table, station_id, node_id) && node.assigned_stations < usize::MAX
                ==> final(table).nodes@[node_id.0 as u128].route.assigned_stations
                == node.assigned_stations + 1
        }
        &&& result is Err ==> final(table).stations@ == table.stations@
        &&& other_stations_stay(*table, *final(table), station_id)
    } by {
        lemma_routes(*table);
        lemma_routes(*final(table));
        assert(table.node_routes().contains_key(node_id.0 as u128) <==> table.nodes@.contains_key(
            node_id.0 as u128,
        ));
        assert(final(table).node_routes().contains_key(node_id.0 as u128)
            <==> final(table).nodes@.contains_key(node_id.0 as u128));
        lemma_counted(*table, node_id);
        lemma_counted(*final(table), node_id);
    }
    assert forall|
        table: &mut DeploymentRouteTable,
        result: Result<DeploymentStationMove, DeploymentError>,
    | #[trigger]
        call_ensures(
            DeploymentRouteTable::move_station,
            (table, station_id, node_id, now),
            result,
        ) && table.wf() implies {
        let node = table.nodes@[node_id.0 as u128].route;
        &&& node.assigned_stations < usize::MAX ==> (result is Ok <==> is_in_state(
            *table,
            node_id,
            DeploymentNodeState::Online,
        ) && table.stations@.contains_key(station_id.0 as u128) && (stands_on(
            *table,
            station_id,
            node_id,
        ) || node.assigned_stations < node.station_capacity))
        &&& result matches Ok(moved) ==> {
            &&& stands_on(*final(table), station_id, node_id)
            &&& final(table).stations@[station_id.0 as u128] == moved.current
            &&& table.stations@[station_id.0 as u128] == moved.previous
            &&& moved.previous.node_id != node_id && moved.previous.route_epoch < u64::MAX
                ==> moved.current.route_epoch == moved.previous.route_epoch + 1
        }
        &&& result is Err ==> final(table).stations@ == table.stations@
        &&& other_stations_stay(*table, *final(table), station_id)
    } by {
        lemma_routes(*table);
        assert(table.node_routes().contains_key(node_id.0 as u128) <==> table.nodes@.contains_key(
            node_id.0 as u128,
        ));
        lemma_counted(*table, node_id);
    }
}

proof fn lemma_counted(table: DeploymentRouteTable, node_id: NodeId)
    requires
        table.wf(),
    ensures
        table.nodes@.contains_key(node_id.0 as u128) ==> table.nodes@[node_id.0 as u128].stations.entries@.len()
            == table.nodes@[node_id.0 as u128].route.assigned_stations,
{
    let key = node_id.0 as u128;
    if table.nodes@.contains_key(key) {
        lemma_map_of(table.nodes@[key].stations.entries@);
    }
}

/// A station that was taken off its node has no route any more; other stations keep theirs.
pub proof fn law_unassigned_stations_are_gone(station_id: StationId)
    ensures
        forall|
            table: &mut DeploymentRouteTable,
            result: Result<DeploymentStationRoute, DeploymentError>,
        | #[trigger]
            call_ensures(DeploymentRouteTable::unassign_station, (table, station_id), result)
                && table.wf() ==> {
                &&& result is Ok <==> table.stations@.contains_key(station_id.0 as u128)
                &&& result matches Ok(route) ==> route == table.stations@[station_id.0 as u128]
                &&& !final(table).stations@.contains_key(station_id.0 as u128)
                &&& other_stations_stay(*table, *final(table), station_id)
            },
{
}

/// A registered node is online, heard of at this tick, and takes as many stations as it says, within
/// the limit of the table. A new node is refused only where the table is full.
pub proof fn law_registered_nodes_are_online(node_id: NodeId, capacity: usize, now: Tick)
    ensures
        forall|
            table: &mut DeploymentRouteTable,
            result: Result<DeploymentNodeRoute, DeploymentError>,
        | #[trigger]
            call_ensures(
                DeploymentRouteTable::register_node,
                (table, node_id, capacity, now),
                result,
            ) && table.wf() ==> {
                &&& result is Err <==> !table.nodes@.contains_key(node_id.0 as u128)
                    && table.nodes@.dom().len() == table.config.max_nodes
                &&& result matches Ok(route) ==> {
                    &&& is_in_state(*final(table), node_id, DeploymentNodeState::Online)
                    &&& final(table).nodes@[node_id.0 as u128].route == route
                    &&& route.last_heartbeat == now
                    &&& route.station_capacity <= capacity
                    &&& route.station_capacity <= table.config.max_stations_per_node
                    &&& route.station_capacity == capacity || route.station_capacity
                        == table.config.max_stations_per_node
                }
                &&& final(table).stations@ == table.stations@
            },
{
    assert forall|
        table: &mut DeploymentRouteTable,
        result: Result<DeploymentNodeRoute, DeploymentError>,
    | #[trigger]
        call_ensures(DeploymentRouteTable::register_node, (table, node_id, capacity, now), result)
            && table.wf() implies {
        &&& result is Err <==> !table.nodes@.contains_key(node_id.0 as u128)
            && table.nodes@.dom().len() == table.config.max_nodes
        &&& result matches Ok(route) ==> {
            &&& is_in_state(*final(table), node_id, DeploymentNodeState::Online)
            &&& final(table).nodes@[node_id.0 as u128].route == route
            &&& route.last_heartbeat == now
            &&& route.station_capacity <= capacity
            &&& route.station_capacity <= table.config.max_stations_per_node
            &&& route.station_capacity == capacity || route.station_capacity
                == table.config.max_stations_per_node
        }
        &&& final(table).stations@ == table.stations@
    } by {
        lemma_routes(*table);
        lemma_routes(*final(table));
        assert(table.node_routes().dom() =~= table.nodes@.dom());
        assert(table.node_routes().contains_key(node_id.0 as u128) <==> table.nodes@.contains_key(
            node_id.0 as u128,
        ));
        assert(final(table).node_routes().contains_key(node_id.0 as u128)
            <==> final(table).nodes@.contains_key(node_id.0 as u128));
    }
}

/// A node has been silent for too long: more ticks than the table allows have passed since its last
/// heartbeat, and it is not known to be offline.
pub open spec fn is_silent(table: DeploymentRouteTable, key: u128, now: Tick) -> bool {
    let route = table.nodes@[key].route;
    &&& table.nodes@.contains_key(key)
    &&& !(route.state is Offline)
    &&& now.0 > route.last_heartbeat.0 + table.config.stale_after_ticks
}

proof fn lemma_listed(
    entries: Seq<(u128, DeploymentNodeRecord)>,
    now: Tick,
    stale_after: u64,
    node_id: NodeId,
)
    ensures
        stale_ids(entries, now, stale_after).contains(node_id) <==> exists|at: int|
            0 <= at < entries.len() && (#[trigger] entries[at]).1.route.node_id == node_id
                && is_stale(entries[at].1.route, now, stale_after),
    decreases entries.len(),
{
    let stale = stale_ids(entries, now, stale_after);
    if entries.len() > 0 {
        let front = entries.drop_last();
        let rest = stale_ids(front, now, stale_after);
        lemma_listed(front, now, stale_after, node_id);
        if rest.contains(node_id) {
            let i = choose|i: int| 0 <= i < rest.len() && rest[i] == node_id;
            assert(stale[i] == node_id);
            let at = choose|at: int|
                0 <= at < front.len() && (#[trigger] front[at]).1.route.node_id == node_id
                    && is_stale(front[at].1.route, now, stale_after);
            assert(entries[at] == front[at]);
        }
        if stale.contains(node_id) && !rest.contains(node_id) {
            let i = choose|i: int| 0 <= i < stale.len() && stale[i] == node_id;
            if i < rest.len() {
                assert(rest[i] == node_id);
            }
            assert(entries[entries.len() - 1].1.route.node_id == node_id);
        }
        if exists|at: int|
            0 <= at < entries.len() && (#[trigger] entries[at]).1.route.node_id == node_id
                && is_stale(entries[at].1.route, now, stale_after) {
            let at = choose|at: int|
                0 <= at < entries.len() && (#[trigger] entries[at]).1.route.node_id == node_id
                    && is_stale(entries[at].1.route, now, stale_after);
            if at < front.len() {
                assert(front[at] == entries[at]);
            } else {
                assert(stale[stale.len() - 1] == node_id);
            }
        }
    }
}

proof fn lemma_silent(table: DeploymentRouteTable, now: Tick, node_id: NodeId)
    requires
        table.wf(),
    ensures
        stale_ids(table.nodes.entries@, now, table.config.stale_after_ticks).contains(node_id)
            <==> is_silent(table, node_id.0 as u128, now),
{
    let entries = table.nodes.entries@;
    let stale_after = table.config.stale_after_ticks;
    lemma_map_of(entries);
    lemma_listed(entries, now, stale_after, node_id);
    if is_silent(table, node_id.0 as u128, now) {
        let at = choose|i: int|
            0 <= i < entries.len() && (#[trigger] entries[i]).0 == node_id.0 as u128;
        assert(entries[at].1.route.node_id == node_id);
    }
    if exists|at: int|
        0 <= at < entries.len() && (#[trigger] entries[at]).1.route.node_id == node_id && is_stale(
            entries[at].1.route,
            now,
            stale_after,
        ) {
        let at = choose|at: int|
            0 <= at < entries.len() && (#[trigger] entries[at]).1.route.node_id == node_id
                && is_stale(entries[at].1.route, now, stale_after);
        assert(table.nodes@.contains_key(entries[at].0));
    }
}

/// The nodes found stale are the silent ones, and marking them takes them, and no other node,
/// offline.
pub proof fn law_silent_nodes_go_offline(now: Tick, node_id: NodeId)
    ensures
        forall|table: &mut DeploymentRouteTable, stale: Vec<NodeId>| #[trigger]
            call_ensures(DeploymentRouteTable::stale_nodes, (table, now), stale) && table.wf()
                ==> (stale@.contains(node_id) <==> is_silent(*table, node_id.0 as u128, now)),
        forall|table: &mut DeploymentRouteTable, count: usize| #[trigger]
            call_ensures(DeploymentRouteTable::mark_stale_offline, (table, now), count)
                && table.wf() && table.nodes@.contains_key(node_id.0 as u128) ==> {
                let key = node_id.0 as u128;
                &&& final(table).nodes@.contains_key(key)
                &&& is_silent(*table, key, now) ==> is_in_state(
                    *final(table),
                    node_id,
                    DeploymentNodeState::Offline,
                )
                &&& !is_silent(*table, key, now) ==> final(table).nodes@[key].route
                    == table.nodes@[key].route
                &&& final(table).stations@ == table.stations@
            },
{
    assert forall|table: &mut DeploymentRouteTable, stale: Vec<NodeId>| #[trigger]
        call_ensures(DeploymentRouteTable::stale_nodes, (table, now), stale)
            && table.wf() implies (stale@.contains(node_id) <==> is_silent(
        *table,
        node_id.0 as u128,
        now,
    )) by {
        lemma_silent(*table, now, node_id);
    }
    assert forall|table: &mut DeploymentRouteTable, count: usize| #[trigger]
        call_ensures(DeploymentRouteTable::mark_stale_offline, (table, now), count) && table.wf()
            && table.nodes@.contains_key(node_id.0 as u128) implies {
        let key = node_id.0 as u128;
        &&& final(table).nodes@.contains_key(key)
        &&& is_silent(*table, key, now) ==> is_in_state(
            *final(table),
            node_id,
            DeploymentNodeState::Offline,
        )
        &&& !is_silent(*table, key, now) ==> final(table).nodes@[key].route
            == table.nodes@[key].route
        &&& final(table).stations@ == table.stations@
    } by {
        lemma_routes(*table);
        lemma_routes(*final(table));
        assert(table.node_routes().contains_key(node_id.0 as u128));
        assert(final(table).node_routes().contains_key(node_id.0 as u128));
    }
}

/// A heartbeat keeps a node from being silent until more ticks than the table allows have passed.
pub proof fn law_heartbeats_keep_nodes_alive(node_id: NodeId, now: Tick, later: Tick)
    ensures
        forall|
            table: &mut DeploymentRouteTable,
            result: Result<DeploymentNodeRoute, DeploymentError>,
        | #[trigger]
            call_ensures(DeploymentRouteTable::heartbeat, (table, node_id, now), result)
                && table.wf() ==> {
                &&& result is Ok <==> table.nodes@.contains_key(node_id.0 as u128)
                &&& result is Ok && later.0 <= now.0 + table.config.stale_after_ticks
                    ==> !is_silent(*final(table), node_id.0 as u128, later)
                &&& result is Ok ==> final(table).nodes@[node_id.0 as u128].route.state
                    == table.nodes@[node_id.0 as u128].route.state
                &&& final(table).stations@ == table.stations@
            },
{
    assert forall|
        table: &mut DeploymentRouteTable,
        result: Result<DeploymentNodeRoute, DeploymentError>,
    | #[trigger]
        call_ensures(DeploymentRouteTable::heartbeat, (table, node_id, now), result)
            && table.wf() implies {
        &&& result is Ok <==> table.nodes@.contains_key(node_id.0 as u128)
        &&& result is Ok && later.0 <= now.0 + table.config.stale_after_ticks ==> !is_silent(
            *final(table),
            node_id.0 as u128,
            later,
        )
        &&& result is Ok ==> final(table).nodes@[node_id.0 as u128].route.state
            == table.nodes@[node_id.0 as u128].route.state
        &&& final(table).stations@ == table.stations@
    } by {
        lemma_routes(*table);
        lemma_routes(*final(table));
        assert(table.node_routes().contains_key(node_id.0 as u128) <==> table.nodes@.contains_key(
            node_id.0 as u128,
        ));
        assert(final(table).node_routes().contains_key(node_id.0 as u128)
            <==> final(table).nodes@.contains_key(node_id.0 as u128));
    }
}

/// The stations listed for a node are those that stand on it, in ascending order.
pub proof fn law_listed_stations_stand_on_the_node(
    table: &DeploymentRouteTable,
    node_id: NodeId,
    result: Result<Vec<StationId>, DeploymentError>,
    station_id: StationId,
)
    requires
        table.wf(),
        call_ensures(DeploymentRouteTable::stations_on_node, (table, node_id), result),
    ensures
        result is Ok <==> table.nodes@.contains_key(node_id.0 as u128),
        result matches Ok(stations) ==> (stations@.contains(station_id) <==> stands_on(
            *table,
            station_id,
            node_id,
        )),
        result matches Ok(stations) ==> forall|i: int, j: int|
            0 <= i < j < stations@.len() ==> stations@[i].0 < stations@[j].0,
{
    lemma_routes(*table);
    assert(table.node_routes().contains_key(node_id.0 as u128) <==> table.nodes@.contains_key(
        node_id.0 as u128,
    ));
}

} // verus!
