//! What clients and stations see of a barrier: every client is told its state, and an upgrade replaces
//! all covered stations or none.

use vstd::prelude::*;

use crate::barrier::{BarrierController, RuntimeBarrier, SnapshotVersion, StationSnapshot};
use crate::barrier_bridge::{
    BarrierTransportBridge, BarrierTransportError, BarrierTransportReport,
};
use crate::barrier_laws::{are_all_known, covers, is_known, lemma_known, lemma_missing, shows};
use crate::barrier_upgrade::{
    covered_station, replaced, restored_from, BarrierUpgradeError, BarrierUpgradeExecutor,
    BarrierUpgradeReport, RuntimeUpgradeHook, StationRestore,
};
use crate::frames::{BarrierFrame, FrameModel};
use crate::gateway_laws::counts;
use crate::ids::{BarrierId, BarrierState, ClientId, StationId, Tick};
use crate::ordered_map::lemma_map_of;
use crate::packets::{asked, linked, OutboundPacket, TransportSink};
use crate::station::{Station, StationConfig};
use crate::station_registry::{law_lookups_find_the_first_entry, position_of};
use crate::station_set::StationSet;
use crate::wire_laws::law_decode_inverts_encode;
use crate::wire_spec::{decoded_frame, frame_bytes, BinaryDecodeError};

verus! {

/// The packet tells the client this state of the barrier.
pub open spec fn notifies(
    packet: OutboundPacket,
    client_id: ClientId,
    barrier_id: BarrierId,
    server_tick: Tick,
    state: BarrierState,
) -> bool {
    &&& packet.client_id == client_id
    &&& decoded_frame(packet.bytes@) == Ok::<FrameModel, BinaryDecodeError>(
        FrameModel::Barrier(BarrierFrame { client_id, barrier_id, server_tick, state }),
    )
}

/// A client is told the state of a barrier in a packet that decodes to it. What the transport took is
/// counted, and nothing else is.
pub proof fn law_clients_are_told_the_barrier_state<T: TransportSink>(
    client_id: ClientId,
    barrier_id: BarrierId,
    server_tick: Tick,
    state: BarrierState,
)
    ensures
        forall|
            bridge: &mut BarrierTransportBridge,
            transport: &mut T,
            result: Result<usize, BarrierTransportError<T::Error>>,
        |
            #[trigger] call_ensures(
                BarrierTransportBridge::send_state::<T>,
                (bridge, transport, client_id, barrier_id, server_tick, state),
                result,
            ) ==> {
                &&& exists|sink: &mut T, packet: OutboundPacket, outcome: Result<(), T::Error>|
                    #![trigger call_ensures(T::send, (sink, packet), outcome)]
                    {
                        &&& call_ensures(T::send, (sink, packet), outcome)
                        &&& *sink == *transport
                        &&& *final(sink) == *final(transport)
                        &&& notifies(packet, client_id, barrier_id, server_tick, state)
                        &&& result is Ok <==> outcome is Ok
                        &&& outcome matches Err(error) ==> result == Err::<
                            usize,
                            BarrierTransportError<T::Error>,
                        >(BarrierTransportError::Transport(error))
                    }
                &&& counts(
                    bridge.stats.notifications_sent,
                    final(bridge).stats.notifications_sent,
                    result is Ok,
                )
                &&& counts(
                    bridge.stats.clients_notified,
                    final(bridge).stats.clients_notified,
                    result is Ok,
                )
                &&& result is Err ==> *final(bridge) == *bridge
            },
        forall|
            bridge: &mut BarrierTransportBridge,
            transport: &mut T,
            barrier: RuntimeBarrier,
            result: Result<usize, BarrierTransportError<T::Error>>,
        |
            #[trigger] call_ensures(
                BarrierTransportBridge::send_barrier::<T>,
                (bridge, transport, client_id, barrier),
                result,
            ) ==> exists|sink: &mut T, packet: OutboundPacket, outcome: Result<(), T::Error>|
                #![trigger call_ensures(T::send, (sink, packet), outcome)]
                {
                    &&& call_ensures(T::send, (sink, packet), outcome)
                    &&& *sink == *transport
                    &&& *final(sink) == *final(transport)
                    &&& notifies(
                        packet,
                        client_id,
                        barrier.id,
                        barrier.target_tick,
                        barrier.state,
                    )
                    &&& result is Ok <==> outcome is Ok
                },
{
    assert forall|frame: BarrierFrame|
        decoded_frame((#[trigger] frame_bytes(FrameModel::Barrier(frame))).0) == Ok::<
            FrameModel,
            BinaryDecodeError,
        >(FrameModel::Barrier(frame)) by {
        law_decode_inverts_encode(FrameModel::Barrier(frame));
    }
    law_decode_inverts_encode(
        FrameModel::Barrier(BarrierFrame { client_id, barrier_id, server_tick, state }),
    );
    assert forall|barrier: RuntimeBarrier| #![trigger barrier.target_tick]
        decoded_frame(
            frame_bytes(
                FrameModel::Barrier(
                    BarrierFrame {
                        client_id,
                        barrier_id: barrier.id,
                        server_tick: barrier.target_tick,
                        state: barrier.state,
                    },
                ),
            ).0,
        ) == Ok::<FrameModel, BinaryDecodeError>(
            FrameModel::Barrier(
                BarrierFrame {
                    client_id,
                    barrier_id: barrier.id,
                    server_tick: barrier.target_tick,
                    state: barrier.state,
                },
            ),
        ) by {
        law_decode_inverts_encode(
            FrameModel::Barrier(
                BarrierFrame {
                    client_id,
                    barrier_id: barrier.id,
                    server_tick: barrier.target_tick,
                    state: barrier.state,
                },
            ),
        );
    }
}

/// A broadcast that ends well told every listed client the state, in order. One that fails told those
/// before the first failure.
pub proof fn law_broadcasts_reach_every_client<T: TransportSink>(
    clients: &[ClientId],
    barrier_id: BarrierId,
    server_tick: Tick,
    state: BarrierState,
)
    ensures
        forall|
            bridge: &mut BarrierTransportBridge,
            transport: &mut T,
            result: Result<BarrierTransportReport, BarrierTransportError<T::Error>>,
        |
            #[trigger] call_ensures(
                BarrierTransportBridge::broadcast_state::<T>,
                (bridge, transport, clients, barrier_id, server_tick, state),
                result,
            ) ==> exists|told: Seq<ClientId>, links: Seq<T>|
                {
                    &&& #[trigger] linked(links, told, *transport, links.last())
                    &&& told.len() <= clients@.len()
                    &&& told == clients@.take(told.len() as int)
                    &&& result is Ok <==> told.len() == clients@.len()
                    &&& result is Ok ==> *final(transport) == links.last()
                    &&& forall|i: int| #[trigger]
                        asked(told, i) ==> exists|
                            sink: &mut T,
                            packet: OutboundPacket,
                            outcome: Result<(), T::Error>,
                        |
                            #![trigger call_ensures(T::send, (sink, packet), outcome)]
                            {
                                &&& call_ensures(T::send, (sink, packet), outcome)
                                &&& outcome is Ok
                                &&& notifies(packet, clients@[i], barrier_id, server_tick, state)
                                &&& *sink == links[i]
                                &&& *final(sink) == links[i + 1]
                            }
                    &&& result matches Ok(report) ==> {
                        &&& report.barrier_id == barrier_id
                        &&& report.state == state
                        &&& report.server_tick == server_tick
                        &&& report.clients_requested == clients@.len()
                        &&& report.clients_sent == clients@.len()
                    }
                },
{
    assert forall|client_id: ClientId| #![trigger client_id.0]
        decoded_frame(
            frame_bytes(
                FrameModel::Barrier(BarrierFrame { client_id, barrier_id, server_tick, state }),
            ).0,
        ) == Ok::<FrameModel, BinaryDecodeError>(
            FrameModel::Barrier(BarrierFrame { client_id, barrier_id, server_tick, state }),
        ) by {
        law_decode_inverts_encode(
            FrameModel::Barrier(BarrierFrame { client_id, barrier_id, server_tick, state }),
        );
    }
    assert forall|
        bridge: &mut BarrierTransportBridge,
        transport: &mut T,
        result: Result<BarrierTransportReport, BarrierTransportError<T::Error>>,
    |
        #[trigger] call_ensures(
            BarrierTransportBridge::broadcast_state::<T>,
            (bridge, transport, clients, barrier_id, server_tick, state),
            result,
        ) implies exists|told: Seq<ClientId>, links: Seq<T>|
        {
            &&& #[trigger] linked(links, told, *transport, links.last())
            &&& told.len() <= clients@.len()
            &&& told == clients@.take(told.len() as int)
            &&& result is Ok <==> told.len() == clients@.len()
            &&& result is Ok ==> *final(transport) == links.last()
            &&& forall|i: int| #[trigger]
                asked(told, i) ==> exists|
                    sink: &mut T,
                    packet: OutboundPacket,
                    outcome: Result<(), T::Error>,
                |
                    #![trigger call_ensures(T::send, (sink, packet), outcome)]
                    {
                        &&& call_ensures(T::send, (sink, packet), outcome)
                        &&& outcome is Ok
                        &&& notifies(packet, clients@[i], barrier_id, server_tick, state)
                        &&& *sink == links[i]
                        &&& *final(sink) == links[i + 1]
                    }
            &&& result matches Ok(report) ==> {
                &&& report.barrier_id == barrier_id
                &&& report.state == state
                &&& report.server_tick == server_tick
                &&& report.clients_requested == clients@.len()
                &&& report.clients_sent == clients@.len()
            }
        } by {
        let (done, links) = choose|done: nat, links: Seq<T>|
            {
                &&& #[trigger] final(bridge).broadcast(
                    *bridge,
                    clients@,
                    barrier_id,
                    server_tick,
                    state,
                    done,
                    result,
                )
                &&& #[trigger] linked(
                    links,
                    clients@.take(done as int),
                    *transport,
                    links.last(),
                )
                &&& forall|i: int| #[trigger]
                    asked(clients@.take(done as int), i) ==> exists|
                        sink: &mut T,
                        packet: OutboundPacket,
                        outcome: Result<(), T::Error>,
                    |
                        #![trigger call_ensures(T::send, (sink, packet), outcome)]
                        {
                            &&& call_ensures(T::send, (sink, packet), outcome)
                            &&& outcome is Ok
                            &&& notifies(packet, clients@[i], barrier_id, server_tick, state)
                            &&& *sink == links[i]
                            &&& *final(sink) == links[i + 1]
                        }
                &&& result is Ok ==> *final(transport) == links.last()
            };
        let told = clients@.take(done as int);
        assert(clients.len() == clients@.len());
        assert(told.len() == done);
        assert(linked(links, told, *transport, links.last()));
    }
}

/// The station is what the snapshot of another became: the hook migrated it, and it was restored under
/// this identity and placement.
pub open spec fn comes_of<H: RuntimeUpgradeHook, R: StationRestore>(
    before: Station,
    version: SnapshotVersion,
    config: StationConfig,
    after: Station,
) -> bool {
    exists|
        hook: &mut H,
        snapshot: StationSnapshot,
        migrated: StationSnapshot,
        outcome: Result<Station, R::Error>,
    |
        #![trigger
            call_ensures(H::migrate_state, (hook, snapshot), migrated),
            call_ensures(R::restore, (config, migrated), outcome)
        ]
        {
            &&& shows(snapshot, before, version)
            &&& call_ensures(H::migrate_state, (hook, snapshot), migrated)
            &&& call_ensures(R::restore, (config, migrated), outcome)
            &&& outcome is Ok
            &&& after.records == outcome->Ok_0.records
            &&& after.tick == outcome->Ok_0.tick
            &&& after.config == config
        }
}

/// Every covered station was restored from its own migrated snapshot.
pub open spec fn restores_covered<H: RuntimeUpgradeHook, R: StationRestore>(
    controller: BarrierController,
    before: StationSet,
    after: StationSet,
    version: SnapshotVersion,
) -> bool {
    forall|station_id: StationId| #[trigger]
        covers(controller, station_id) ==> is_restored::<H, R>(before, after, version, station_id)
}

/// The station that the id stands for comes of the one that it stood for.
pub open spec fn is_restored<H: RuntimeUpgradeHook, R: StationRestore>(
    before: StationSet,
    after: StationSet,
    version: SnapshotVersion,
    station_id: StationId,
) -> bool {
    exists|old_station: Station, new_station: Station|
        {
            &&& #[trigger] is_known(before, station_id, old_station)
            &&& #[trigger] is_known(after, station_id, new_station)
            &&& comes_of::<H, R>(old_station, version, old_station.config, new_station)
        }
}

proof fn lemma_replaced(
    entries: Seq<(StationId, Station)>,
    ids: Seq<u32>,
    restored: Seq<(StationId, Station)>,
)
    requires
        ids.len() == entries.len(),
        forall|i: int, j: int|
            0 <= i < j < restored.len() ==> (#[trigger] restored[i]).0 != (
            #[trigger] restored[j]).0,
        forall|i: int|
            0 <= i < restored.len() ==> position_of(ids, (#[trigger] restored[i]).0.0) is Some,
    ensures
        replaced(entries, ids, restored).len() == entries.len(),
        forall|i: int|
            0 <= i < restored.len() ==> replaced(entries, ids, restored)[position_of(
                ids,
                (#[trigger] restored[i]).0.0,
            )->0].1 == restored[i].1,
        forall|k: int|
            0 <= k < entries.len() ==> (#[trigger] replaced(entries, ids, restored)[k]).0
                == entries[k].0,
    decreases restored.len(),
{
    if restored.len() > 0 {
        let fewer = restored.drop_last();
        assert forall|i: int| 0 <= i < fewer.len() implies position_of(
            ids,
            (#[trigger] fewer[i]).0.0,
        ) is Some by {
            assert(fewer[i] == restored[i]);
        }
        assert forall|i: int, j: int| 0 <= i < j < fewer.len() implies (#[trigger] fewer[i]).0 != (
        #[trigger] fewer[j]).0 by {
            assert(fewer[i] == restored[i] && fewer[j] == restored[j]);
        }
        lemma_replaced(entries, ids, fewer);
        let (id, station) = restored.last();
        let last = restored.len() - 1;
        assert(position_of(ids, restored[last].0.0) is Some);
        law_lookups_find_the_first_entry(ids, id.0);
        let rest = replaced(entries, ids, fewer);
        let all = replaced(entries, ids, restored);
        let at = position_of(ids, id.0)->0;
        assert forall|i: int| 0 <= i < restored.len() implies all[position_of(
            ids,
            (#[trigger] restored[i]).0.0,
        )->0].1 == restored[i].1 by {
            if i < last {
                law_lookups_find_the_first_entry(ids, restored[i].0.0);
                assert(fewer[i] == restored[i]);
                assert(restored[i].0 != restored[last].0);
                assert(position_of(ids, restored[i].0.0)->0 != at);
            }
        }
    }
}

proof fn lemma_restored<H: RuntimeUpgradeHook, R: StationRestore>(
    controller: BarrierController,
    before: StationSet,
    after: StationSet,
    version: SnapshotVersion,
    restored: Seq<(StationId, Station)>,
)
    requires
        controller.wf(),
        before.wf(),
        after.registry.ids() == before.registry.ids(),
        are_all_known(controller, before),
        BarrierUpgradeExecutor::restores::<H, R>(
            controller,
            before,
            version,
            restored,
            restored.len(),
        ),
        restored.len() == controller.phases.entries@.len(),
        after.registry.entries@ == replaced(
            before.registry.entries@,
            before.registry.ids(),
            restored,
        ),
    ensures
        restores_covered::<H, R>(controller, before, after, version),
{
    let entries = controller.phases.entries@;
    let ids = before.registry.ids();
    lemma_map_of(entries);
    lemma_missing(controller, before);
    assert forall|i: int| 0 <= i < restored.len() implies (#[trigger] restored[i]).0
        == entries[i].1.station_id && before.station(restored[i].0) is Some by {
        let station_id = entries[i].1.station_id;
        assert(controller.phases@.contains_key(entries[i].0));
        assert(covers(controller, station_id));
        let station = choose|station: Station| is_known(before, station_id, station);
        lemma_known(before, station_id, station);
        law_lookups_find_the_first_entry(ids, station_id.0);
        let at = before.registry.position(station_id)->0;
        assert(before.registry.entries@[at].0.0 == ids[at]);
        assert(before.registry.entries@[at].0
            == before.registry.entries@[at].1.config.station_id);
    }
    assert forall|i: int, j: int| 0 <= i < j < restored.len() implies (#[trigger] restored[i]).0
        != (#[trigger] restored[j]).0 by {
        assert(entries[i].0 < entries[j].0);
        assert(entries[i].0 == entries[i].1.station_id.0);
        assert(entries[j].0 == entries[j].1.station_id.0);
    }
    assert forall|i: int| 0 <= i < restored.len() implies position_of(
        ids,
        (#[trigger] restored[i]).0.0,
    ) is Some by {
        assert(before.station(restored[i].0) is Some);
    }
    lemma_replaced(before.registry.entries@, ids, restored);
    assert forall|station_id: StationId| #[trigger] covers(
        controller,
        station_id,
    ) implies is_restored::<H, R>(before, after, version, station_id) by {
        let i = choose|i: int|
            0 <= i < entries.len() && (#[trigger] entries[i]).0 == station_id.0 as u128;
        assert(entries[i].1.station_id == station_id);
        assert(restored[i].0 == station_id);
        let old_station = before.station(station_id)->0;
        let new_station = restored[i].1;
        lemma_known(before, station_id, old_station);
        lemma_known(after, station_id, new_station);
        assert(covered_station(controller, before, i) == old_station);
        assert(restored_from::<H, R>(old_station, old_station.config, version, new_station));
        let (hook, snapshot, migrated, outcome) = choose|
            hook: &mut H,
            snapshot: StationSnapshot,
            migrated: StationSnapshot,
            outcome: Result<Station, R::Error>,
        |
            #![trigger
                call_ensures(H::migrate_state, (hook, snapshot), migrated),
                call_ensures(R::restore, (old_station.config, migrated), outcome)
            ]
            {
                &&& snapshot.holds(old_station, version)
                &&& call_ensures(H::migrate_state, (hook, snapshot), migrated)
                &&& call_ensures(R::restore, (old_station.config, migrated), outcome)
                &&& outcome matches Ok(station) && new_station == station.with_config(
                    old_station.config,
                )
            };
        assert forall|k: int| 0 <= k < old_station.records@.len() implies {
            &&& (#[trigger] snapshot.entities@[k]).handle == old_station.records@[k].handle
            &&& snapshot.entities@[k].id == old_station.records@[k].id
            &&& snapshot.entities@[k].role == old_station.records@[k].role
            &&& snapshot.entities@[k].cells@ == old_station.records@[k].cells@
        } by {
            assert(snapshot.entities@[k].is_like(old_station.records@[k]));
        }
        assert(shows(snapshot, old_station, version));
        assert(comes_of::<H, R>(old_station, version, old_station.config, new_station));
    }
}

/// An upgrade needs a frozen barrier whose stations can all be found. It restores every covered
/// station from its own migrated snapshot, or none: where anything fails, no station changes. The
/// barrier stays frozen over the same stations.
pub proof fn law_upgrades_restore_all_stations_or_none<H: RuntimeUpgradeHook, R: StationRestore>(
    version: SnapshotVersion,
)
    ensures
        forall|
            controller: &mut BarrierController,
            stations: &mut StationSet,
            hook: &mut H,
            result: Result<BarrierUpgradeReport, BarrierUpgradeError<R::Error>>,
        |
            #[trigger] call_ensures(
                BarrierUpgradeExecutor::migrate_frozen::<H, R>,
                (controller, stations, version, hook),
                result,
            ) && controller.wf() && stations.wf() ==> {
                let frozen = controller.active matches Some(barrier) && barrier.state
                    == BarrierState::Frozen;
                &&& result is Ok ==> frozen && are_all_known(*controller, *stations)
                &&& result is Err ==> *final(stations) == *stations
                &&& final(controller).active == controller.active
                &&& final(controller).phases == controller.phases
                &&& !frozen || !are_all_known(*controller, *stations) ==> *final(hook) == *hook
                &&& result matches Ok(report) ==> {
                    &&& report.version == version
                    &&& report.snapshots_migrated as nat
                        == controller.phases.entries@.len() as usize
                    &&& report.stations_restored as nat
                        == controller.phases.entries@.len() as usize
                    &&& restores_covered::<H, R>(
                        *controller,
                        *stations,
                        *final(stations),
                        version,
                    )
                }
            },
{
    assert forall|
        controller: &mut BarrierController,
        stations: &mut StationSet,
        hook: &mut H,
        result: Result<BarrierUpgradeReport, BarrierUpgradeError<R::Error>>,
    |
        #[trigger] call_ensures(
            BarrierUpgradeExecutor::migrate_frozen::<H, R>,
            (controller, stations, version, hook),
            result,
        ) && controller.wf() && stations.wf() implies {
        let frozen = controller.active matches Some(barrier) && barrier.state
            == BarrierState::Frozen;
        &&& result is Ok ==> frozen && are_all_known(*controller, *stations)
        &&& !frozen || !are_all_known(*controller, *stations) ==> *final(hook) == *hook
        &&& result is Ok ==> restores_covered::<H, R>(
            *controller,
            *stations,
            *final(stations),
            version,
        )
    } by {
        lemma_missing(*controller, *stations);
        if result is Ok {
            let entries = controller.phases.entries@;
            let restored = choose|restored: Seq<(StationId, Station)>|
                {
                    &&& #[trigger] BarrierUpgradeExecutor::restores::<H, R>(
                        *controller,
                        *stations,
                        version,
                        restored,
                        restored.len(),
                    )
                    &&& restored.len() == entries.len()
                    &&& final(stations).registry.entries@ == replaced(
                        stations.registry.entries@,
                        stations.registry.ids(),
                        restored,
                    )
                };
            lemma_restored::<H, R>(*controller, *stations, *final(stations), version, restored);
        }
    }
}

} // verus!
