//! What a replication frame carries: the changed values of the planned entities, and nothing else.

use vstd::prelude::*;

use crate::bytes::lemma_le_bytes_len;
use crate::frame_builder::{
    built_frame, component_payload_total, countable, direct_entities, direct_outcome,
    entity_delta_of, lemma_components_bytes_push, lemma_entities_bytes_push, pick_components,
    pick_entities, BuildInput, ComponentSelection, ReplicationFrameBuild,
    ReplicationFrameBuildStats, ReplicationFrameBuilder, ReplicationFrameLimits,
};
use crate::frames::{ComponentDeltaModel, EntityDeltaModel, ReplicationFrameModel};
use crate::ids::{ClientId, ComponentId, EntityHandle, Tick};
use crate::load_laws::at_most;
use crate::station::{
    blob_of, record_of, ComponentBlob, ComponentStore, EntityRole, ReplicationPlan, Station,
};
use crate::wire_spec::{
    components_bytes, entities_bytes, entity_bytes, replication_bytes, BinaryEncodeError,
};

verus! {

/// The store holds a changed value of a component, small enough to be sent.
pub open spec fn is_pending(
    limits: ReplicationFrameLimits,
    blobs: Seq<ComponentBlob>,
    id: ComponentId,
    handle: EntityHandle,
) -> bool {
    &&& blob_of(blobs, id, handle) matches Some(blob)
    &&& blob.dirty
    &&& blob.bytes@.len() <= limits.max_component_bytes
}

/// The delta carries the value that the store holds.
pub open spec fn carries_value(
    blobs: Seq<ComponentBlob>,
    handle: EntityHandle,
    component: ComponentDeltaModel,
) -> bool {
    &&& blob_of(blobs, component.component_id, handle) matches Some(blob)
    &&& component.version == blob.version
    &&& component.bytes == blob.bytes@
    &&& component.flags == 0
}

/// The components are the pending ones of the selection, at the given places of it and in its
/// order. A pending one is missing only behind the last of as many as an entity may have.
pub open spec fn carries_pending(
    limits: ReplicationFrameLimits,
    blobs: Seq<ComponentBlob>,
    ids: Seq<ComponentId>,
    handle: EntityHandle,
    components: Seq<ComponentDeltaModel>,
    places: Seq<int>,
) -> bool {
    &&& places.len() == components.len()
    &&& components.len() <= limits.max_components_per_entity
    &&& forall|i: int, j: int| 0 <= i < j < places.len() ==> places[i] < places[j]
    &&& forall|i: int|
        0 <= i < components.len() ==> {
            &&& 0 <= places[i] < ids.len()
            &&& (#[trigger] components[i]).component_id == ids[places[i]]
            &&& is_pending(limits, blobs, components[i].component_id, handle)
            &&& carries_value(blobs, handle, components[i])
        }
    &&& forall|k: int|
        0 <= k < ids.len() && is_pending(limits, blobs, #[trigger] ids[k], handle)
            && !places.contains(k) ==> {
            &&& components.len() == limits.max_components_per_entity
            &&& forall|i: int| 0 <= i < places.len() ==> #[trigger] places[i] < k
        }
}

/// The delta carries the changes of one stored entity, at least one.
pub open spec fn carries_entity(
    input: BuildInput,
    handle: EntityHandle,
    delta: EntityDeltaModel,
) -> bool {
    &&& record_of(input.records, handle) matches Some(record)
    &&& delta.entity_id == record.id
    &&& match record.role {
        EntityRole::Authority { epoch } => delta.owner_epoch == epoch,
        EntityRole::Replica { epoch, .. } => delta.owner_epoch == epoch,
    }
    &&& delta.components.len() > 0
    &&& exists|places: Seq<int>| #[trigger]
        carries_pending(
            input.limits,
            input.blobs,
            input.ids,
            handle,
            delta.components,
            places,
        )
}

/// The entity is stored and has a change to send.
pub open spec fn has_news(input: BuildInput, handle: EntityHandle) -> bool {
    &&& record_of(input.records, handle) is Some
    &&& input.limits.max_components_per_entity > 0
    &&& exists|k: int|
        0 <= k < input.ids.len() && is_pending(
            input.limits,
            input.blobs,
            #[trigger] input.ids[k],
            handle,
        )
}

/// The deltas carry planned entities, at the given places of the plan and in its order.
pub open spec fn carries_planned(
    input: BuildInput,
    handles: Seq<EntityHandle>,
    entities: Seq<EntityDeltaModel>,
    places: Seq<int>,
) -> bool {
    &&& places.len() == entities.len()
    &&& entities.len() <= input.limits.max_entity_deltas
    &&& forall|i: int, j: int| 0 <= i < j < places.len() ==> places[i] < places[j]
    &&& forall|i: int|
        0 <= i < entities.len() ==> 0 <= places[i] < handles.len() && carries_entity(
            input,
            handles[places[i]],
            #[trigger] entities[i],
        )
}

/// An entity with news is missing only behind the last of as many as a frame may have.
pub open spec fn misses_none(
    input: BuildInput,
    handles: Seq<EntityHandle>,
    places: Seq<int>,
) -> bool {
    forall|k: int|
        0 <= k < handles.len() && has_news(input, #[trigger] handles[k]) && !places.contains(k)
            ==> {
            &&& places.len() == input.limits.max_entity_deltas
            &&& forall|i: int| 0 <= i < places.len() ==> #[trigger] places[i] < k
        }
}

/// Component deltas over several entity deltas.
pub open spec fn component_count(entities: Seq<EntityDeltaModel>) -> nat
    decreases entities.len(),
{
    if entities.len() == 0 {
        0
    } else {
        component_count(entities.drop_last()) + entities.last().components.len()
    }
}

proof fn lemma_picked(
    limits: ReplicationFrameLimits,
    blobs: Seq<ComponentBlob>,
    ids: Seq<ComponentId>,
    handle: EntityHandle,
) -> (places: Seq<int>)
    ensures
        carries_pending(
            limits,
            blobs,
            ids,
            handle,
            pick_components(limits, blobs, ids, handle).components,
            places,
        ),
    decreases ids.len(),
{
    if ids.len() == 0 {
        Seq::empty()
    } else {
        let front = ids.drop_last();
        let last = ids.len() - 1;
        let rest = lemma_picked(limits, blobs, front, handle);
        let before = pick_components(limits, blobs, front, handle).components;
        let after = pick_components(limits, blobs, ids, handle).components;
        let taken = before.len() < limits.max_components_per_entity && is_pending(
            limits,
            blobs,
            ids.last(),
            handle,
        );
        let places = if taken {
            rest.push(last)
        } else {
            rest
        };
        assert forall|i: int| 0 <= i < rest.len() implies 0 <= #[trigger] rest[i]
            < last by {
            assert(before[i].component_id == front[rest[i]]);
        }
        assert forall|i: int| 0 <= i < after.len() implies {
            &&& 0 <= places[i] < ids.len()
            &&& (#[trigger] after[i]).component_id == ids[places[i]]
            &&& is_pending(limits, blobs, after[i].component_id, handle)
            &&& carries_value(blobs, handle, after[i])
        } by {
            if i < before.len() {
                assert(after[i] == before[i]);
                assert(places[i] == rest[i]);
                assert(front[rest[i]] == ids[rest[i]]);
            }
        }
        assert forall|k: int|
            0 <= k < ids.len() && is_pending(limits, blobs, #[trigger] ids[k], handle)
                && !places.contains(k) implies {
            &&& after.len() == limits.max_components_per_entity
            &&& forall|i: int| 0 <= i < places.len() ==> #[trigger] places[i] < k
        } by {
            if rest.contains(k) {
                let i = choose|i: int| 0 <= i < rest.len() && rest[i] == k;
                assert(places[i] == k);
            }
            if k < last {
                assert(front[k] == ids[k]);
            } else if taken {
                assert(places[places.len() - 1] == k);
            } else {
                assert forall|i: int| 0 <= i < places.len() implies #[trigger] places[i] < k by {
                    assert(before[i].component_id == front[rest[i]]);
                }
            }
        }
        places
    }
}

proof fn lemma_picked_news(input: BuildInput, handle: EntityHandle)
    ensures
        ({
            let pick = pick_components(input.limits, input.blobs, input.ids, handle);
            record_of(input.records, handle) is Some ==> {
                &&& pick.components.len() > 0 ==> carries_entity(
                    input,
                    handle,
                    entity_delta_of(record_of(input.records, handle)->0, pick),
                )
                &&& pick.components.len() == 0 ==> !has_news(input, handle)
            }
        }),
{
    let pick = pick_components(input.limits, input.blobs, input.ids, handle);
    let places = lemma_picked(input.limits, input.blobs, input.ids, handle);
    assert(carries_pending(
        input.limits,
        input.blobs,
        input.ids,
        handle,
        pick.components,
        places,
    ));
    if let Some(record) = record_of(input.records, handle) {
        let delta = entity_delta_of(record, pick);
        assert(delta.components == pick.components);
        assert(carries_pending(
            input.limits,
            input.blobs,
            input.ids,
            handle,
            delta.components,
            places,
        ));
    }
    if pick.components.len() == 0 && has_news(input, handle) {
        let k = choose|k: int|
            0 <= k < input.ids.len() && is_pending(
                input.limits,
                input.blobs,
                #[trigger] input.ids[k],
                handle,
            );
        assert(!places.contains(k));
    }
}

proof fn lemma_planned(input: BuildInput, handles: Seq<EntityHandle>) -> (places: Seq<int>)
    ensures
        ({
            let pick = pick_entities(input, handles);
            &&& carries_planned(input, handles, pick.entities, places)
            &&& misses_none(input, handles, places)
            &&& pick.components == component_count(pick.entities)
        }),
    decreases handles.len(),
{
    if handles.len() == 0 {
        Seq::empty()
    } else {
        let front = handles.drop_last();
        let last = handles.len() - 1;
        let rest = lemma_planned(input, front);
        let before = pick_entities(input, front).entities;
        let after = pick_entities(input, handles).entities;
        lemma_picked_news(input, handles.last());
        let places = if after.len() > before.len() {
            rest.push(last)
        } else {
            rest
        };
        assert forall|i: int| 0 <= i < rest.len() implies 0 <= #[trigger] rest[i]
            < last by {
            assert(carries_entity(input, front[rest[i]], before[i]));
        }
        if after.len() > before.len() {
            assert(after.drop_last() =~= before);
        } else {
            assert(after == before);
        }
        assert forall|i: int| 0 <= i < after.len() implies 0 <= places[i] < handles.len()
            && carries_entity(input, handles[places[i]], #[trigger] after[i]) by {
            if i < before.len() {
                assert(after[i] == before[i]);
                assert(places[i] == rest[i]);
                assert(front[rest[i]] == handles[rest[i]]);
            }
        }
        assert forall|k: int|
            0 <= k < handles.len() && has_news(input, #[trigger] handles[k]) && !places.contains(
                k,
            ) implies {
            &&& places.len() == input.limits.max_entity_deltas
            &&& forall|i: int| 0 <= i < places.len() ==> #[trigger] places[i] < k
        } by {
            if rest.contains(k) {
                let i = choose|i: int| 0 <= i < rest.len() && rest[i] == k;
                assert(places[i] == k);
            }
            if k < last {
                assert(front[k] == handles[k]);
            } else if after.len() > before.len() {
                assert(places[places.len() - 1] == k);
            } else {
                assert forall|i: int| 0 <= i < places.len() implies #[trigger] places[i] < k by {
                    assert(carries_entity(input, front[rest[i]], before[i]));
                }
            }
        }
        places
    }
}

proof fn lemma_component_sizes(components: Seq<ComponentDeltaModel>)
    requires
        components_bytes(components).1 is None,
    ensures
        components_bytes(components).0.len() == component_payload_total(components),
    decreases components.len(),
{
    if components.len() > 0 {
        let front = components.drop_last();
        let last = components.last();
        lemma_components_bytes_push(front, last);
        assert(front.push(last) =~= components);
        lemma_component_sizes(front);
        lemma_le_bytes_len(last.component_id.0 as nat, 2);
        lemma_le_bytes_len(last.version as nat, 8);
        lemma_le_bytes_len(last.bytes.len(), 4);
    }
}

proof fn lemma_entity_size(delta: EntityDeltaModel)
    requires
        entity_bytes(delta).1 is None,
    ensures
        entity_bytes(delta).0.len() == 18 + component_payload_total(delta.components),
{
    lemma_component_sizes(delta.components);
    lemma_le_bytes_len(delta.entity_id.0 as nat, 8);
    lemma_le_bytes_len(delta.owner_epoch.0 as nat, 8);
    lemma_le_bytes_len(delta.components.len(), 2);
}

proof fn lemma_payload(input: BuildInput, handles: Seq<EntityHandle>)
    requires
        entities_bytes(pick_entities(input, handles).entities).1 is None,
    ensures
        entities_bytes(pick_entities(input, handles).entities).0.len() == pick_entities(
            input,
            handles,
        ).payload,
    decreases handles.len(),
{
    if handles.len() > 0 {
        let front = handles.drop_last();
        let before = pick_entities(input, front);
        let after = pick_entities(input, handles);
        if after.entities.len() > before.entities.len() {
            let delta = after.entities.last();
            lemma_entities_bytes_push(before.entities, delta);
            assert(before.entities.push(delta) =~= after.entities);
            lemma_payload(input, front);
            lemma_entity_size(delta);
        } else {
            assert(after.entities == before.entities);
            lemma_payload(input, front);
        }
    }
}

proof fn lemma_header_size(frame: ReplicationFrameModel)
    requires
        replication_bytes(frame).1 is None,
    ensures
        replication_bytes(frame).0.len() == 29 + entities_bytes(frame.entities).0.len(),
        entities_bytes(frame.entities).1 is None,
{
    lemma_le_bytes_len(frame.client_id.0 as nat, 8);
    lemma_le_bytes_len(frame.server_tick.0 as nat, 8);
    lemma_le_bytes_len(frame.entity_count as nat, 4);
    lemma_le_bytes_len(frame.estimated_payload_bytes as nat, 4);
    lemma_le_bytes_len(frame.entities.len(), 4);
}

/// A built frame carries the changed values of the planned entities: every delta in it is a value
/// that the store marks as changed, with its version and bytes, and every changed value of the
/// selection is in it as far as the limits reach. The statistics count what it carries, and the
/// payload estimate is what its encoding takes behind the header.
pub proof fn law_built_frames_carry_what_changed(
    builder: &ReplicationFrameBuilder,
    client_id: ClientId,
    server_tick: Tick,
    station: &Station,
    plan: &ReplicationPlan,
    components: &ComponentStore,
    selection: &ComponentSelection,
    build: ReplicationFrameBuild,
)
    requires
        countable(plan.entities@.len(), selection.component_ids@.len()),
        call_ensures(
            ReplicationFrameBuilder::build,
            (builder, client_id, server_tick, station, plan, components, selection),
            build,
        ),
    ensures
        ({
            let input = builder.input(*station, *components, *selection);
            let frame = build.frame@;
            &&& exists|places: Seq<int>|
                {
                    &&& #[trigger] carries_planned(input, plan.entities@, frame.entities, places)
                    &&& misses_none(input, plan.entities@, places)
                }
            &&& frame.client_id == client_id
            &&& frame.server_tick == server_tick
            &&& frame.entity_count == at_most(plan.entities@.len() as int, u32::MAX as int)
            &&& build.stats.planned_entities == plan.entities@.len()
            &&& build.stats.encoded_entities == frame.entities.len()
            &&& build.stats.encoded_components == component_count(frame.entities)
            &&& build.stats.skipped_entities_by_frame_bytes == 0
            &&& replication_bytes(frame).1 is None ==> frame.estimated_payload_bytes == at_most(
                replication_bytes(frame).0.len() - 29,
                u32::MAX as int,
            )
        }),
{
    let input = builder.input(*station, *components, *selection);
    let handles = plan.entities@;
    let pick = pick_entities(input, handles);
    let places = lemma_planned(input, handles);
    assert(carries_planned(input, handles, build.frame@.entities, places));
    crate::frame_builder::lemma_pick_entities_bounds(input, handles);
    assert(plan.entities.len() == handles.len());
    if replication_bytes(build.frame@).1 is None {
        lemma_header_size(build.frame@);
        lemma_payload(input, handles);
    }
}

/// Direct encoding appends a frame that carries the same: one is found behind what was there, with
/// the changed values of the planned entities and the statistics of what it carries.
pub proof fn law_encoded_frames_carry_what_changed(
    builder: &ReplicationFrameBuilder,
    client_id: ClientId,
    server_tick: Tick,
    station: &Station,
    plan: &ReplicationPlan,
    components: &ComponentStore,
    selection: &ComponentSelection,
)
    requires
        countable(plan.entities@.len(), selection.component_ids@.len()),
    ensures
        forall|out: &mut Vec<u8>, stats: ReplicationFrameBuildStats| #[trigger]
            call_ensures(
                ReplicationFrameBuilder::encode_binary_into,
                (builder, client_id, server_tick, station, plan, components, selection, out),
                Ok::<ReplicationFrameBuildStats, BinaryEncodeError>(stats),
            ) ==> exists|frame: ReplicationFrameModel, places: Seq<int>|
                {
                    &&& #[trigger] carries_planned(
                        builder.input(*station, *components, *selection),
                        plan.entities@,
                        frame.entities,
                        places,
                    )
                    &&& misses_none(
                        builder.input(*station, *components, *selection),
                        plan.entities@,
                        places,
                    )
                    &&& frame.client_id == client_id
                    &&& frame.server_tick == server_tick
                    &&& frame.entity_count == at_most(
                        plan.entities@.len() as int,
                        u32::MAX as int,
                    )
                    &&& replication_bytes(frame).1 is None
                    &&& final(out)@ == out@ + replication_bytes(frame).0
                    &&& stats.encoded_entities == frame.entities.len()
                    &&& stats.encoded_components == component_count(frame.entities)
                },
{
    let input = builder.input(*station, *components, *selection);
    let handles = plan.entities@;
    let pick = pick_entities(input, handles);
    let frame = built_frame(client_id, server_tick, handles.len(), pick);
    let places = lemma_planned(input, handles);
    crate::frame_builder::lemma_pick_entities_bounds(input, handles);
    crate::frame_builder::law_direct_encoding_matches_build(
        input,
        client_id,
        server_tick,
        handles,
    );
    assert(plan.entities.len() == handles.len());
    assert(carries_planned(input, handles, frame.entities, places));
}

/// An entity with news is missing from a bounded frame only where the frame had as many as it may
/// have, or had no room for it behind those before it.
pub open spec fn misses_what_does_not_fit(
    input: BuildInput,
    handles: Seq<EntityHandle>,
    entities: Seq<EntityDeltaModel>,
    places: Seq<int>,
    budget: nat,
) -> bool {
    forall|k: int|
        0 <= k < handles.len() && has_news(input, #[trigger] handles[k]) && !places.contains(k)
            ==> {
            ||| places.len() == input.limits.max_entity_deltas && forall|i: int|
                0 <= i < places.len() ==> #[trigger] places[i] < k
            ||| exists|n: int, delta: EntityDeltaModel|
                {
                    &&& 0 <= n <= entities.len()
                    &&& forall|i: int| 0 <= i < n ==> #[trigger] places[i] < k
                    &&& #[trigger] carries_entity(input, handles[k], delta)
                    &&& 29 + (#[trigger] entities_bytes(entities.take(n))).0.len()
                        + entity_bytes(delta).0.len() > budget
                }
        }
}

#[verifier::rlimit(40)]
proof fn lemma_bounded(input: BuildInput, budget: nat, handles: Seq<EntityHandle>) -> (found: (
    Seq<EntityDeltaModel>,
    Seq<int>,
))
    requires
        direct_entities(input, Some(budget), handles).error is None,
    ensures
        ({
            let pass = direct_entities(input, Some(budget), handles);
            &&& carries_planned(input, handles, found.0, found.1)
            &&& misses_what_does_not_fit(input, handles, found.0, found.1, budget)
            &&& entities_bytes(found.0).1 is None
            &&& entities_bytes(found.0).0 == pass.body
            &&& pass.entities == found.0.len()
            &&& pass.components == component_count(found.0)
            &&& pass.payload == pass.body.len()
        }),
    decreases handles.len(),
{
    if handles.len() == 0 {
        (Seq::empty(), Seq::empty())
    } else {
        let front = handles.drop_last();
        let last = handles.len() - 1;
        let (before, rest) = lemma_bounded(input, budget, front);
        let earlier = direct_entities(input, Some(budget), front);
        let pass = direct_entities(input, Some(budget), handles);
        lemma_picked_news(input, handles.last());
        let pick = pick_components(input.limits, input.blobs, input.ids, handles.last());
        let delta = entity_delta_of(record_of(input.records, handles.last())->0, pick);
        let taken = pass.entities > earlier.entities;
        let after = if taken {
            before.push(delta)
        } else {
            before
        };
        let places = if taken {
            rest.push(last)
        } else {
            rest
        };
        if taken {
            lemma_entities_bytes_push(before, delta);
            lemma_entity_size(delta);
            assert(after.drop_last() =~= before);
        }
        assert forall|i: int| 0 <= i < after.len() implies 0 <= places[i] < handles.len()
            && carries_entity(input, handles[places[i]], #[trigger] after[i]) by {
            if i < before.len() {
                assert(after[i] == before[i]);
                assert(places[i] == rest[i]);
                assert(front[rest[i]] == handles[rest[i]]);
            }
        }
        assert forall|k: int|
            0 <= k < handles.len() && has_news(input, #[trigger] handles[k]) && !places.contains(
                k,
            ) implies {
            ||| places.len() == input.limits.max_entity_deltas && forall|i: int|
                0 <= i < places.len() ==> #[trigger] places[i] < k
            ||| exists|n: int, delta: EntityDeltaModel|
                {
                    &&& 0 <= n <= after.len()
                    &&& forall|i: int| 0 <= i < n ==> #[trigger] places[i] < k
                    &&& #[trigger] carries_entity(input, handles[k], delta)
                    &&& 29 + (#[trigger] entities_bytes(after.take(n))).0.len() + entity_bytes(
                        delta,
                    ).0.len() > budget
                }
        } by {
            if rest.contains(k) {
                let i = choose|i: int| 0 <= i < rest.len() && rest[i] == k;
                assert(places[i] == k);
            }
            if k < last {
                assert(front[k] == handles[k]);
                if rest.len() == input.limits.max_entity_deltas && forall|i: int|
                    0 <= i < rest.len() ==> #[trigger] rest[i] < k {
                    assert(!taken);
                } else {
                    let (n, other) = choose|n: int, other: EntityDeltaModel|
                        {
                            &&& 0 <= n <= before.len()
                            &&& forall|i: int| 0 <= i < n ==> #[trigger] rest[i] < k
                            &&& #[trigger] carries_entity(input, front[k], other)
                            &&& 29 + (#[trigger] entities_bytes(before.take(n))).0.len()
                                + entity_bytes(other).0.len() > budget
                        };
                    assert(after.take(n) =~= before.take(n));
                    assert(carries_entity(input, handles[k], other));
                    assert forall|i: int| 0 <= i < n implies #[trigger] places[i] < k by {
                        assert(rest[i] < k);
                    }
                }
            } else if taken {
                assert(places[places.len() - 1] == k);
            } else {
                assert forall|i: int| 0 <= i < places.len() implies #[trigger] places[i] < k by {
                    assert(carries_entity(input, front[rest[i]], before[i]));
                }
                if earlier.entities < input.limits.max_entity_deltas {
                    assert(after.take(after.len() as int) =~= after);
                    assert(carries_entity(input, handles[k], delta));
                    assert(entities_bytes(after.take(after.len() as int)).0.len()
                        == earlier.body.len());
                }
            }
        }
        (after, places)
    }
}

/// Bounded encoding appends a frame that carries changed values of planned entities, keeps to its
/// byte budget, and leaves out an entity with news only for want of room or behind the entity limit.
pub proof fn law_bounded_frames_carry_what_fits(
    builder: &ReplicationFrameBuilder,
    client_id: ClientId,
    server_tick: Tick,
    station: &Station,
    plan: &ReplicationPlan,
    components: &ComponentStore,
    selection: &ComponentSelection,
    max_bytes: usize,
)
    requires
        countable(plan.entities@.len(), selection.component_ids@.len()),
    ensures
        forall|out: &mut Vec<u8>, stats: ReplicationFrameBuildStats| #[trigger]
            call_ensures(
                ReplicationFrameBuilder::encode_binary_bounded_into,
                (
                    builder,
                    client_id,
                    server_tick,
                    station,
                    plan,
                    components,
                    selection,
                    max_bytes,
                    out,
                ),
                Ok::<ReplicationFrameBuildStats, BinaryEncodeError>(stats),
            ) ==> exists|frame: ReplicationFrameModel, places: Seq<int>|
                {
                    &&& #[trigger] carries_planned(
                        builder.input(*station, *components, *selection),
                        plan.entities@,
                        frame.entities,
                        places,
                    )
                    &&& misses_what_does_not_fit(
                        builder.input(*station, *components, *selection),
                        plan.entities@,
                        frame.entities,
                        places,
                        max_bytes as nat,
                    )
                    &&& frame.client_id == client_id
                    &&& frame.server_tick == server_tick
                    &&& frame.entity_count == at_most(
                        plan.entities@.len() as int,
                        u32::MAX as int,
                    )
                    &&& replication_bytes(frame).1 is None
                    &&& frame.estimated_payload_bytes == at_most(
                        replication_bytes(frame).0.len() - 29,
                        u32::MAX as int,
                    )
                    &&& final(out)@ == out@ + replication_bytes(frame).0
                    &&& frame.entities.len() > 0 ==> replication_bytes(frame).0.len() <= max_bytes
                    &&& stats.encoded_entities == frame.entities.len()
                    &&& stats.encoded_components == component_count(frame.entities)
                },
{
    let input = builder.input(*station, *components, *selection);
    let handles = plan.entities@;
    let pass = direct_entities(input, Some(max_bytes as nat), handles);
    let outcome = direct_outcome(client_id, server_tick, handles.len(), pass);
    assert(plan.entities.len() == handles.len());
    if outcome.1 is Ok {
        let (frame, places) = lemma_bounded_frame(
            input,
            client_id,
            server_tick,
            handles,
            max_bytes,
        );
        assert(carries_planned(input, handles, frame.entities, places));
    }
}

/// The frame that bounded encoding writes, with the places of its entities in the plan.
pub proof fn lemma_bounded_frame(
    input: BuildInput,
    client_id: ClientId,
    server_tick: Tick,
    handles: Seq<EntityHandle>,
    max_bytes: usize,
) -> (found: (ReplicationFrameModel, Seq<int>))
    requires
        handles.len() <= usize::MAX,
        countable(handles.len(), input.ids.len()),
        direct_outcome(
            client_id,
            server_tick,
            handles.len(),
            direct_entities(input, Some(max_bytes as nat), handles),
        ).1 is Ok,
    ensures
        ({
            let outcome = direct_outcome(
                client_id,
                server_tick,
                handles.len(),
                direct_entities(input, Some(max_bytes as nat), handles),
            );
            let frame = found.0;
            &&& carries_planned(input, handles, frame.entities, found.1)
            &&& misses_what_does_not_fit(
                input,
                handles,
                frame.entities,
                found.1,
                max_bytes as nat,
            )
            &&& frame.client_id == client_id
            &&& frame.server_tick == server_tick
            &&& frame.entity_count == at_most(handles.len() as int, u32::MAX as int)
            &&& replication_bytes(frame).1 is None
            &&& frame.estimated_payload_bytes == at_most(
                replication_bytes(frame).0.len() - 29,
                u32::MAX as int,
            )
            &&& outcome.0 == replication_bytes(frame).0
            &&& frame.entities.len() > 0 ==> replication_bytes(frame).0.len() <= max_bytes
            &&& outcome.1->Ok_0.encoded_entities == frame.entities.len()
            &&& outcome.1->Ok_0.encoded_components == component_count(frame.entities)
        }),
{
    let pass = direct_entities(input, Some(max_bytes as nat), handles);
    let outcome = direct_outcome(client_id, server_tick, handles.len(), pass);
    crate::frame_builder::lemma_direct_bounds(input, Some(max_bytes as nat), handles);
    crate::frame_builder::law_bounded_frames_stay_within_budget(
        input,
        client_id,
        server_tick,
        handles,
        max_bytes as nat,
    );
    let (entities, places) = lemma_bounded(input, max_bytes as nat, handles);
    let frame = ReplicationFrameModel {
        client_id,
        server_tick,
        entity_count: crate::num::clamp_u32(handles.len()),
        estimated_payload_bytes: crate::num::clamp_u32(
            crate::num::clamp_usize(pass.payload) as nat,
        ),
        entities,
    };
    assert(replication_bytes(frame).0 =~= outcome.0);
    lemma_header_size(frame);
    if entities.len() > 0 {
        lemma_entities_bytes_push(entities.drop_last(), entities.last());
        assert(entities.drop_last().push(entities.last()) =~= entities);
        lemma_entity_size(entities.last());
    }
    (frame, places)
}

/// A stored value is found by its component and entity, and the first of several counts.
pub proof fn law_values_are_found_by_component_and_entity(
    blobs: Seq<ComponentBlob>,
    id: ComponentId,
    handle: EntityHandle,
)
    ensures
        match blob_of(blobs, id, handle) {
            Some(blob) => exists|at: int|
                0 <= at < blobs.len() && #[trigger] blobs[at] == blob && blob.component_id == id
                    && blob.handle == handle && forall|i: int|
                    0 <= i < at ==> (#[trigger] blobs[i]).component_id != id || blobs[i].handle
                        != handle,
            None => forall|i: int|
                0 <= i < blobs.len() ==> (#[trigger] blobs[i]).component_id != id
                    || blobs[i].handle != handle,
        },
    decreases blobs.len(),
{
    if blobs.len() > 0 && !(blobs[0].component_id == id && blobs[0].handle == handle) {
        let rest = blobs.drop_first();
        law_values_are_found_by_component_and_entity(rest, id, handle);
        assert forall|i: int| 0 < i < blobs.len() implies #[trigger] blobs[i] == rest[i - 1] by {}
        if let Some(blob) = blob_of(rest, id, handle) {
            let at = choose|at: int|
                0 <= at < rest.len() && #[trigger] rest[at] == blob && forall|i: int|
                    0 <= i < at ==> (#[trigger] rest[i]).component_id != id || rest[i].handle
                        != handle;
            assert(blobs[at + 1] == blob);
            assert forall|i: int| 0 <= i < at + 1 implies (#[trigger] blobs[i]).component_id != id
                || blobs[i].handle != handle by {
                if i > 0 {
                    assert(rest[i - 1].component_id != id || rest[i - 1].handle != handle);
                }
            }
        } else {
            assert forall|i: int| 0 <= i < blobs.len() implies (#[trigger] blobs[i]).component_id
                != id || blobs[i].handle != handle by {
                if i > 0 {
                    assert(rest[i - 1].component_id != id || rest[i - 1].handle != handle);
                }
            }
        }
    }
}

} // verus!
