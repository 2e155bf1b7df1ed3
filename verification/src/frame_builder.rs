//! Replication frames from a replication plan, as a value or straight into bytes.

use vstd::prelude::*;

use crate::bytes::{
    le_bytes, lemma_le_bytes_len, patch_u16, patch_u32, push_u16, push_u32, push_u64,
};
use crate::frames::{
    clone_bytes, component_models, entity_models, ComponentDelta, ComponentDeltaModel, EntityDelta,
    EntityDeltaModel, FrameKind, ReplicationFrame, ReplicationFrameModel,
};
use crate::ids::{ClientId, ComponentId, EntityHandle, Tick};
use crate::num::{
    ceil_div, clamp_to_u32, clamp_u32, clamp_usize, div_ceil_usize, min_usize, saturating_mul_usize,
};
use crate::station::{
    blob_of, record_of, ComponentBlob, ComponentStore, EntityRecord, ReplicationPlan, Station,
};
use crate::wire_codec::write_bytes;
use crate::wire_spec::{
    chain, component_bytes, components_bytes, entities_bytes, entity_bytes, replication_bytes,
    replication_header, BinaryEncodeError, Encoded,
};

verus! {

/// Bytes of a replication frame before its first entity delta.
pub const BINARY_HEADER_BYTES: usize = 29;

/// Bytes of an entity delta before its first component delta.
pub const BINARY_ENTITY_METADATA_BYTES: usize = 18;

/// Bytes of a component delta besides its payload.
pub const BINARY_COMPONENT_METADATA_BYTES: usize = 15;

/// Limits used by `ReplicationFrameBuilder`.
#[derive(Clone, Copy, Debug, PartialEq, Eq, Structural)]
pub struct ReplicationFrameLimits {
    /// Maximum entity deltas to materialize in one frame.
    pub max_entity_deltas: usize,
    /// Maximum component deltas to put into one entity delta.
    pub max_components_per_entity: usize,
    /// Maximum payload bytes of one component delta.
    pub max_component_bytes: usize,
}

impl Default for ReplicationFrameLimits {
    fn default() -> (limits: Self)
        ensures
            limits == (ReplicationFrameLimits {
                max_entity_deltas: 256,
                max_components_per_entity: 16,
                max_component_bytes: 1024,
            }),
    {
        Self { max_entity_deltas: 256, max_components_per_entity: 16, max_component_bytes: 1024 }
    }
}

/// Component selection for frame building.
#[derive(Clone, Debug, Default, PartialEq, Eq)]
pub struct ComponentSelection {
    /// Component ids to send when present and dirty.
    pub component_ids: Vec<ComponentId>,
}

/// Frame builder statistics.
#[derive(Clone, Copy, Debug, Default, PartialEq, Eq, Structural)]
pub struct ReplicationFrameBuildStats {
    /// Entity handles selected by the replication plan.
    pub planned_entities: usize,
    /// Entity deltas materialized into the frame.
    pub encoded_entities: usize,
    /// Component deltas materialized into the frame.
    pub encoded_components: usize,
    /// Entity deltas skipped by builder limits.
    pub skipped_entities_by_limit: usize,
    /// Component deltas skipped by builder limits.
    pub skipped_components_by_limit: usize,
    /// Component payloads skipped because they exceed byte limits.
    pub skipped_components_by_size: usize,
    /// Entity deltas rolled back because the frame byte budget was full.
    pub skipped_entities_by_frame_bytes: usize,
}

/// Result of building a replication frame.
#[derive(Clone, Debug, PartialEq, Eq)]
pub struct ReplicationFrameBuild {
    /// Built frame.
    pub frame: ReplicationFrame,
    /// Build statistics.
    pub stats: ReplicationFrameBuildStats,
}

// What a plan turns into.

/// Component deltas picked for one entity, and how many candidates were passed over.
#[verifier::ext_equal]
pub struct ComponentPick {
    pub components: Seq<ComponentDeltaModel>,
    pub by_limit: nat,
    pub by_size: nat,
}

/// Whether a stored value goes into a frame as far as its own state decides.
pub open spec fn sendable(limits: ReplicationFrameLimits, blob: ComponentBlob) -> bool {
    blob.dirty && blob.bytes@.len() <= limits.max_component_bytes
}

/// The delta that carries a stored value.
pub open spec fn delta_of(blob: ComponentBlob, component_id: ComponentId) -> ComponentDeltaModel {
    ComponentDeltaModel { component_id, version: blob.version, flags: 0, bytes: blob.bytes@ }
}

/// Picks the component deltas of one entity, in selection order.
pub open spec fn pick_components(
    limits: ReplicationFrameLimits,
    blobs: Seq<ComponentBlob>,
    ids: Seq<ComponentId>,
    handle: EntityHandle,
) -> ComponentPick
    decreases ids.len(),
{
    if ids.len() == 0 {
        ComponentPick { components: Seq::empty(), by_limit: 0, by_size: 0 }
    } else {
        let before = pick_components(limits, blobs, ids.drop_last(), handle);
        if before.components.len() >= limits.max_components_per_entity {
            ComponentPick { by_limit: before.by_limit + 1, ..before }
        } else {
            match blob_of(blobs, ids.last(), handle) {
                None => before,
                Some(blob) => if !blob.dirty {
                    before
                } else if blob.bytes@.len() > limits.max_component_bytes {
                    ComponentPick { by_size: before.by_size + 1, ..before }
                } else {
                    ComponentPick {
                        components: before.components.push(delta_of(blob, ids.last())),
                        ..before
                    }
                },
            }
        }
    }
}

/// Payload bytes of component deltas, counting their fixed fields.
pub open spec fn component_payload_total(components: Seq<ComponentDeltaModel>) -> nat
    decreases components.len(),
{
    if components.len() == 0 {
        0
    } else {
        component_payload_total(components.drop_last()) + BINARY_COMPONENT_METADATA_BYTES as nat
            + components.last().bytes.len()
    }
}

/// Entity deltas picked for a frame, and how many candidates were passed over.
#[verifier::ext_equal]
pub struct EntityPick {
    pub entities: Seq<EntityDeltaModel>,
    pub payload: nat,
    pub components: nat,
    pub by_limit: nat,
    pub components_by_limit: nat,
    pub components_by_size: nat,
}

/// What a builder reads.
pub struct BuildInput {
    pub limits: ReplicationFrameLimits,
    pub records: Seq<EntityRecord>,
    pub blobs: Seq<ComponentBlob>,
    pub ids: Seq<ComponentId>,
}

/// Picks the entity deltas of a frame, in plan order.
pub open spec fn pick_entities(input: BuildInput, handles: Seq<EntityHandle>) -> EntityPick
    decreases handles.len(),
{
    if handles.len() == 0 {
        EntityPick {
            entities: Seq::empty(),
            payload: 0,
            components: 0,
            by_limit: 0,
            components_by_limit: 0,
            components_by_size: 0,
        }
    } else {
        let before = pick_entities(input, handles.drop_last());
        if before.entities.len() >= input.limits.max_entity_deltas {
            EntityPick { by_limit: before.by_limit + 1, ..before }
        } else {
            match record_of(input.records, handles.last()) {
                None => before,
                Some(record) => {
                    let pick = pick_components(
                        input.limits,
                        input.blobs,
                        input.ids,
                        handles.last(),
                    );
                    let counted = EntityPick {
                        components_by_limit: before.components_by_limit + pick.by_limit,
                        components_by_size: before.components_by_size + pick.by_size,
                        ..before
                    };
                    if pick.components.len() == 0 {
                        counted
                    } else {
                        EntityPick {
                            entities: before.entities.push(entity_delta_of(record, pick)),
                            payload: before.payload + component_payload_total(pick.components)
                                + BINARY_ENTITY_METADATA_BYTES as nat,
                            components: before.components + pick.components.len(),
                            ..counted
                        }
                    }
                },
            }
        }
    }
}

/// The delta that carries the picked components of an entity.
pub open spec fn entity_delta_of(record: EntityRecord, pick: ComponentPick) -> EntityDeltaModel {
    EntityDeltaModel {
        entity_id: record.id,
        owner_epoch: record.role.epoch_model(),
        components: pick.components,
    }
}

/// The frame that carries the picked entities.
pub open spec fn built_frame(
    client_id: ClientId,
    server_tick: Tick,
    planned: nat,
    pick: EntityPick,
) -> ReplicationFrameModel {
    ReplicationFrameModel {
        client_id,
        server_tick,
        entity_count: clamp_u32(planned),
        estimated_payload_bytes: clamp_u32(clamp_usize(pick.payload) as nat),
        entities: pick.entities,
    }
}

/// The statistics of a pick.
pub open spec fn built_stats(planned: nat, pick: EntityPick) -> ReplicationFrameBuildStats {
    ReplicationFrameBuildStats {
        planned_entities: planned as usize,
        encoded_entities: pick.entities.len() as usize,
        encoded_components: pick.components as usize,
        skipped_entities_by_limit: pick.by_limit as usize,
        skipped_components_by_limit: pick.components_by_limit as usize,
        skipped_components_by_size: pick.components_by_size as usize,
        skipped_entities_by_frame_bytes: 0,
    }
}

/// Entity deltas written straight into bytes, and how many candidates were passed over.
#[verifier::ext_equal]
pub struct DirectPass {
    pub body: Seq<u8>,
    pub entities: nat,
    pub components: nat,
    pub payload: nat,
    pub by_limit: nat,
    pub components_by_limit: nat,
    pub components_by_size: nat,
    pub by_frame_bytes: nat,
    pub error: Option<BinaryEncodeError>,
}

/// Leading fields of an entity delta, up to its component count.
pub open spec fn entity_lead(record: EntityRecord) -> Seq<u8> {
    le_bytes(record.id.0 as nat, 8) + le_bytes(record.role.epoch_model().0 as nat, 8)
}

/// Writes one entity delta behind what was written before.
///
/// An entity delta that would take the frame past `budget` bytes is left out and counted.
pub open spec fn direct_entity(
    before: DirectPass,
    record: EntityRecord,
    pick: ComponentPick,
    budget: Option<nat>,
) -> DirectPass {
    let counted = DirectPass {
        components_by_limit: before.components_by_limit + pick.by_limit,
        components_by_size: before.components_by_size + pick.by_size,
        ..before
    };
    let written = components_bytes(pick.components);
    let unfinished = before.body + (entity_lead(record) + le_bytes(0, 2) + written.0);
    let finished = entity_bytes(entity_delta_of(record, pick)).0;
    if pick.components.len() == 0 {
        counted
    } else if written.1 is Some {
        DirectPass { body: unfinished, error: written.1, ..counted }
    } else if pick.components.len() > u16::MAX {
        DirectPass {
            body: unfinished,
            error: Some(
                BinaryEncodeError::TooManyItems {
                    field: "replication.entity.components",
                    actual: pick.components.len() as usize,
                },
            ),
            ..counted
        }
    } else if budget is Some && BINARY_HEADER_BYTES + before.body.len() + finished.len()
        > budget->0 {
        DirectPass { by_frame_bytes: before.by_frame_bytes + 1, ..counted }
    } else {
        DirectPass {
            body: before.body + finished,
            entities: before.entities + 1,
            components: before.components + pick.components.len(),
            payload: before.payload + component_payload_total(pick.components)
                + BINARY_ENTITY_METADATA_BYTES as nat,
            ..counted
        }
    }
}

/// Writes the entity deltas of a frame, in plan order, up to the first error.
pub open spec fn direct_entities(
    input: BuildInput,
    budget: Option<nat>,
    handles: Seq<EntityHandle>,
) -> DirectPass
    decreases handles.len(),
{
    if handles.len() == 0 {
        DirectPass {
            body: Seq::empty(),
            entities: 0,
            components: 0,
            payload: 0,
            by_limit: 0,
            components_by_limit: 0,
            components_by_size: 0,
            by_frame_bytes: 0,
            error: None,
        }
    } else {
        let before = direct_entities(input, budget, handles.drop_last());
        if before.error is Some {
            before
        } else if before.entities >= input.limits.max_entity_deltas {
            DirectPass { by_limit: before.by_limit + 1, ..before }
        } else {
            match record_of(input.records, handles.last()) {
                None => before,
                Some(record) => direct_entity(
                    before,
                    record,
                    pick_components(input.limits, input.blobs, input.ids, handles.last()),
                    budget,
                ),
            }
        }
    }
}

/// What direct encoding appends and returns. On an error the counts in the header stay zero.
pub open spec fn direct_outcome(
    client_id: ClientId,
    server_tick: Tick,
    planned: nat,
    pass: DirectPass,
) -> (Seq<u8>, Result<ReplicationFrameBuildStats, BinaryEncodeError>) {
    let unfinished = replication_header(client_id, server_tick, clamp_u32(planned), 0) + (le_bytes(
        0,
        4,
    ) + pass.body);
    if let Some(error) = pass.error {
        (unfinished, Err(error))
    } else if pass.entities > u32::MAX {
        (
            unfinished,
            Err(
                BinaryEncodeError::TooManyItems {
                    field: "replication.entities",
                    actual: pass.entities as usize,
                },
            ),
        )
    } else {
        (
            replication_header(
                client_id,
                server_tick,
                clamp_u32(planned),
                clamp_u32(clamp_usize(pass.payload) as nat),
            ) + (le_bytes(pass.entities, 4) + pass.body),
            Ok(direct_stats(planned, pass)),
        )
    }
}

/// The statistics of direct encoding.
pub open spec fn direct_stats(planned: nat, pass: DirectPass) -> ReplicationFrameBuildStats {
    ReplicationFrameBuildStats {
        planned_entities: planned as usize,
        encoded_entities: pass.entities as usize,
        encoded_components: pass.components as usize,
        skipped_entities_by_limit: pass.by_limit as usize,
        skipped_components_by_limit: pass.components_by_limit as usize,
        skipped_components_by_size: pass.components_by_size as usize,
        skipped_entities_by_frame_bytes: pass.by_frame_bytes as usize,
    }
}

/// Counters over `entities` times `components` candidates fit in a `usize`.
pub open spec fn countable(entities: nat, components: nat) -> bool {
    entities * components <= usize::MAX
}

pub proof fn lemma_pick_components_bounds(
    limits: ReplicationFrameLimits,
    blobs: Seq<ComponentBlob>,
    ids: Seq<ComponentId>,
    handle: EntityHandle,
)
    ensures
        pick_components(limits, blobs, ids, handle).components.len() + pick_components(
            limits,
            blobs,
            ids,
            handle,
        ).by_limit + pick_components(limits, blobs, ids, handle).by_size <= ids.len(),
        pick_components(limits, blobs, ids, handle).components.len()
            <= limits.max_components_per_entity,
    decreases ids.len(),
{
    if ids.len() > 0 {
        lemma_pick_components_bounds(limits, blobs, ids.drop_last(), handle);
    }
}

pub proof fn lemma_pick_entities_bounds(input: BuildInput, handles: Seq<EntityHandle>)
    ensures
        ({
            let pick = pick_entities(input, handles);
            &&& pick.entities.len() + pick.by_limit <= handles.len()
            &&& pick.entities.len() <= input.limits.max_entity_deltas
            &&& pick.components + pick.components_by_limit + pick.components_by_size
                <= handles.len() * input.ids.len()
        }),
    decreases handles.len(),
{
    if handles.len() > 0 {
        lemma_pick_entities_bounds(input, handles.drop_last());
        lemma_pick_components_bounds(input.limits, input.blobs, input.ids, handles.last());
        assert(handles.len() * input.ids.len() == (handles.len() - 1) * input.ids.len()
            + input.ids.len()) by (nonlinear_arith)
            requires
                handles.len() > 0,
        ;
    }
}

pub proof fn lemma_direct_bounds(input: BuildInput, budget: Option<nat>, handles: Seq<EntityHandle>)
    ensures
        ({
            let pass = direct_entities(input, budget, handles);
            &&& pass.entities + pass.by_limit + pass.by_frame_bytes <= handles.len()
            &&& pass.components + pass.components_by_limit + pass.components_by_size
                <= handles.len() * input.ids.len()
        }),
    decreases handles.len(),
{
    if handles.len() > 0 {
        lemma_direct_bounds(input, budget, handles.drop_last());
        lemma_pick_components_bounds(input.limits, input.blobs, input.ids, handles.last());
        assert(handles.len() * input.ids.len() == (handles.len() - 1) * input.ids.len()
            + input.ids.len()) by (nonlinear_arith)
            requires
                handles.len() > 0,
        ;
    }
}

pub proof fn lemma_components_bytes_concat(
    left: Seq<ComponentDeltaModel>,
    right: Seq<ComponentDeltaModel>,
)
    ensures
        components_bytes(left + right) == chain(components_bytes(left), components_bytes(right)),
    decreases left.len(),
{
    if left.len() == 0 {
        assert(left + right =~= right);
        assert(Seq::empty() + components_bytes(right).0 =~= components_bytes(right).0);
    } else {
        lemma_components_bytes_concat(left.drop_first(), right);
        assert((left + right).drop_first() =~= left.drop_first() + right);
        let head = component_bytes(left[0]);
        let middle = components_bytes(left.drop_first());
        let tail = components_bytes(right);
        assert(head.0 + (middle.0 + tail.0) =~= (head.0 + middle.0) + tail.0);
    }
}

pub proof fn lemma_components_bytes_push(
    components: Seq<ComponentDeltaModel>,
    component: ComponentDeltaModel,
)
    ensures
        components_bytes(components.push(component)) == chain(
            components_bytes(components),
            component_bytes(component),
        ),
{
    reveal_with_fuel(components_bytes, 2);
    let single = seq![component];
    lemma_components_bytes_concat(components, single);
    assert(components.push(component) =~= components + single);
    assert(single.drop_first() =~= Seq::empty());
    assert(component_bytes(component).0 + Seq::empty() =~= component_bytes(component).0);
}

pub proof fn lemma_entities_bytes_push(entities: Seq<EntityDeltaModel>, entity: EntityDeltaModel)
    ensures
        entities_bytes(entities.push(entity)) == chain(
            entities_bytes(entities),
            entity_bytes(entity),
        ),
    decreases entities.len(),
{
    if entities.len() == 0 {
        reveal_with_fuel(entities_bytes, 2);
        let single = entities.push(entity);
        assert(single.drop_first() =~= Seq::empty());
        assert(entity_bytes(entity).0 + Seq::empty() =~= entity_bytes(entity).0);
        assert(Seq::empty() + entity_bytes(entity).0 =~= entity_bytes(entity).0);
    } else {
        lemma_entities_bytes_push(entities.drop_first(), entity);
        assert(entities.push(entity).drop_first() =~= entities.drop_first().push(entity));
        let head = entity_bytes(entities[0]);
        let middle = entities_bytes(entities.drop_first());
        let tail = entity_bytes(entity);
        assert(head.0 + (middle.0 + tail.0) =~= (head.0 + middle.0) + tail.0);
    }
}

proof fn lemma_pick_extends(
    limits: ReplicationFrameLimits,
    blobs: Seq<ComponentBlob>,
    ids: Seq<ComponentId>,
    handle: EntityHandle,
    prefix: int,
)
    requires
        0 <= prefix <= ids.len(),
    ensures
        ({
            let part = pick_components(limits, blobs, ids.take(prefix), handle).components;
            let whole = pick_components(limits, blobs, ids, handle).components;
            &&& part.len() <= whole.len()
            &&& whole.take(part.len() as int) == part
        }),
    decreases ids.len() - prefix,
{
    let part = pick_components(limits, blobs, ids.take(prefix), handle).components;
    if prefix == ids.len() {
        assert(ids.take(prefix) =~= ids);
        assert(part.take(part.len() as int) =~= part);
    } else {
        lemma_pick_extends(limits, blobs, ids, handle, prefix + 1);
        assert(ids.take(prefix + 1).drop_last() =~= ids.take(prefix));
        let longer = pick_components(limits, blobs, ids.take(prefix + 1), handle).components;
        let whole = pick_components(limits, blobs, ids, handle).components;
        assert(whole.take(part.len() as int) =~= longer.take(part.len() as int));
        assert(longer.take(part.len() as int) =~= part);
    }
}

proof fn lemma_components_bytes_prefix_error(whole: Seq<ComponentDeltaModel>, prefix: int)
    requires
        0 <= prefix <= whole.len(),
        components_bytes(whole.take(prefix)).1 is Some,
    ensures
        components_bytes(whole) == components_bytes(whole.take(prefix)),
{
    lemma_components_bytes_concat(whole.take(prefix), whole.skip(prefix));
    assert(whole.take(prefix) + whole.skip(prefix) =~= whole);
}

/// Builds concrete replication frames from a replication plan.
#[derive(Clone, Copy, Debug)]
pub struct ReplicationFrameBuilder {
    /// Builder limits.
    pub limits: ReplicationFrameLimits,
}

impl Default for ReplicationFrameBuilder {
    fn default() -> (builder: Self)
        ensures
            builder.limits == (ReplicationFrameLimits {
                max_entity_deltas: 256,
                max_components_per_entity: 16,
                max_component_bytes: 1024,
            }),
    {
        Self { limits: ReplicationFrameLimits::default() }
    }
}

impl ReplicationFrameBuilder {
    /// Creates a frame builder with explicit limits.
    pub fn new(limits: ReplicationFrameLimits) -> (builder: Self)
        ensures
            builder.limits == limits,
    {
        Self { limits }
    }

    /// What this builder reads of a station.
    pub open spec fn input(
        self,
        station: Station,
        components: ComponentStore,
        selection: ComponentSelection,
    ) -> BuildInput {
        BuildInput {
            limits: self.limits,
            records: station.records@,
            blobs: components.blobs@,
            ids: selection.component_ids@,
        }
    }

    fn pick_entity(
        &self,
        handle: EntityHandle,
        components: &ComponentStore,
        selection: &ComponentSelection,
        payload: usize,
    ) -> (picked: (Vec<ComponentDelta>, usize, usize, usize))
        ensures
            ({
                let pick = pick_components(
                    self.limits,
                    components.blobs@,
                    selection.component_ids@,
                    handle,
                );
                &&& component_models(picked.0@) == pick.components
                &&& picked.1 == pick.by_limit
                &&& picked.2 == pick.by_size
                &&& picked.3 == clamp_usize(
                    payload as nat + component_payload_total(pick.components),
                )
            }),
    {
        let mut deltas: Vec<ComponentDelta> = Vec::new();
        let mut by_limit: usize = 0;
        let mut by_size: usize = 0;
        let mut total: usize = payload;
        let mut index: usize = 0;
        let ghost ids = selection.component_ids@;
        assert(ids.take(0) =~= Seq::empty());
        assert(component_models(deltas@) =~= Seq::empty());
        while index < selection.component_ids.len()
            invariant
                index <= selection.component_ids.len(),
                ids == selection.component_ids@,
                component_models(deltas@) == pick_components(
                    self.limits,
                    components.blobs@,
                    ids.take(index as int),
                    handle,
                ).components,
                by_limit == pick_components(
                    self.limits,
                    components.blobs@,
                    ids.take(index as int),
                    handle,
                ).by_limit,
                by_size == pick_components(
                    self.limits,
                    components.blobs@,
                    ids.take(index as int),
                    handle,
                ).by_size,
                total == clamp_usize(
                    payload as nat + component_payload_total(component_models(deltas@)),
                ),
            decreases selection.component_ids.len() - index,
        {
            let component_id = selection.component_ids[index];
            let ghost prefix = ids.take(index + 1);
            let ghost before = component_models(deltas@);
            proof {
                assert(prefix.drop_last() =~= ids.take(index as int));
                assert(prefix.last() == component_id);
                lemma_pick_components_bounds(
                    self.limits,
                    components.blobs@,
                    ids.take(index as int),
                    handle,
                );
            }
            index = index + 1;
            if deltas.len() >= self.limits.max_components_per_entity {
                by_limit = by_limit + 1;
                continue ;
            }
            let blob = match components.get_blob(component_id, handle) {
                Some(blob) => blob,
                None => {
                    continue ;
                },
            };
            if !blob.dirty {
                continue ;
            }
            if blob.bytes.len() > self.limits.max_component_bytes {
                by_size = by_size + 1;
                continue ;
            }
            total = total.saturating_add(15).saturating_add(blob.bytes.len());
            let bytes = clone_bytes(&blob.bytes);
            deltas.push(ComponentDelta { component_id, version: blob.version, flags: 0, bytes });
            proof {
                let delta = delta_of(*blob, component_id);
                assert(component_models(deltas@) =~= before.push(delta));
                assert(before.push(delta).drop_last() =~= before);
            }
        }
        assert(ids.take(index as int) =~= ids);
        (deltas, by_limit, by_size, total)
    }

    /// Builds a frame from a station plan and component store.
    pub fn build(
        &self,
        client_id: ClientId,
        server_tick: Tick,
        station: &Station,
        plan: &ReplicationPlan,
        components: &ComponentStore,
        selection: &ComponentSelection,
    ) -> (build: ReplicationFrameBuild)
        requires
            countable(plan.entities@.len(), selection.component_ids@.len()),
        ensures
            ({
                let planned = plan.entities@.len();
                let pick = pick_entities(
                    self.input(*station, *components, *selection),
                    plan.entities@,
                );
                &&& build.frame@ == built_frame(client_id, server_tick, planned, pick)
                &&& build.stats == built_stats(planned, pick)
            }),
    {
        let ghost input = self.input(*station, *components, *selection);
        let ghost handles = plan.entities@;
        let mut by_limit: usize = 0;
        let mut components_by_limit: usize = 0;
        let mut components_by_size: usize = 0;
        let mut encoded_components: usize = 0;
        let mut payload: usize = 0;
        let mut deltas: Vec<EntityDelta> = Vec::new();
        let mut index: usize = 0;
        proof {
            assert(handles.take(0) =~= Seq::empty());
            assert(entity_models(deltas@) =~= Seq::empty());
        }
        while index < plan.entities.len()
            invariant
                index <= plan.entities.len(),
                handles == plan.entities@,
                input == self.input(*station, *components, *selection),
                countable(plan.entities@.len(), selection.component_ids@.len()),
                ({
                    let pick = pick_entities(input, handles.take(index as int));
                    &&& entity_models(deltas@) == pick.entities
                    &&& by_limit == pick.by_limit
                    &&& components_by_limit == pick.components_by_limit
                    &&& components_by_size == pick.components_by_size
                    &&& encoded_components == pick.components
                    &&& payload == clamp_usize(pick.payload)
                }),
            decreases plan.entities.len() - index,
        {
            let handle = plan.entities[index];
            let ghost prefix = handles.take(index + 1);
            let ghost before = entity_models(deltas@);
            proof {
                assert(prefix.drop_last() =~= handles.take(index as int));
                assert(prefix.last() == handle);
                lemma_pick_entities_bounds(input, prefix);
                assert(prefix.len() * input.ids.len() <= handles.len() * input.ids.len())
                    by (nonlinear_arith)
                    requires
                        prefix.len() <= handles.len(),
                ;
            }
            index = index + 1;
            if deltas.len() >= self.limits.max_entity_deltas {
                by_limit = by_limit + 1;
                continue ;
            }
            let record = match station.get(handle) {
                Some(record) => record,
                None => {
                    continue ;
                },
            };
            let (picked, limited, oversized, total) = self.pick_entity(
                handle,
                components,
                selection,
                payload,
            );
            components_by_limit = components_by_limit + limited;
            components_by_size = components_by_size + oversized;
            if picked.len() == 0 {
                proof {
                    assert(component_models(picked@).len() == 0);
                }
                continue ;
            }
            encoded_components = encoded_components + picked.len();
            payload = total.saturating_add(18);
            let delta = EntityDelta {
                entity_id: record.id,
                owner_epoch: record.role.owner_epoch(),
                components: picked,
            };
            deltas.push(delta);
            proof {
                assert(entity_models(deltas@) =~= before.push(delta@));
            }
        }
        assert(handles.take(index as int) =~= handles);
        let encoded_entities: usize = deltas.len();
        ReplicationFrameBuild {
            frame: ReplicationFrame {
                client_id,
                server_tick,
                entity_count: clamp_to_u32(plan.entities.len()),
                estimated_payload_bytes: clamp_to_u32(payload),
                entities: deltas,
            },
            stats: ReplicationFrameBuildStats {
                planned_entities: plan.entities.len(),
                encoded_entities,
                encoded_components,
                skipped_entities_by_limit: by_limit,
                skipped_components_by_limit: components_by_limit,
                skipped_components_by_size: components_by_size,
                skipped_entities_by_frame_bytes: 0,
            },
        }
    }

    fn write_components(
        &self,
        handle: EntityHandle,
        components: &ComponentStore,
        selection: &ComponentSelection,
        payload: usize,
        out: &mut Vec<u8>,
    ) -> (result: Result<(usize, usize, usize, usize), BinaryEncodeError>)
        ensures
            ({
                let pick = pick_components(
                    self.limits,
                    components.blobs@,
                    selection.component_ids@,
                    handle,
                );
                let written = components_bytes(pick.components);
                &&& final(out)@ == old(out)@ + written.0
                &&& match result {
                    Ok((count, by_limit, by_size, total)) => {
                        &&& written.1 is None
                        &&& count == pick.components.len()
                        &&& by_limit == pick.by_limit
                        &&& by_size == pick.by_size
                        &&& total == clamp_usize(
                            payload as nat + component_payload_total(pick.components),
                        )
                    },
                    Err(error) => written.1 == Some(error),
                }
            }),
    {
        let mut count: usize = 0;
        let mut by_limit: usize = 0;
        let mut by_size: usize = 0;
        let mut total: usize = payload;
        let mut index: usize = 0;
        let ghost ids = selection.component_ids@;
        let ghost start = out@;
        proof {
            assert(ids.take(0) =~= Seq::empty());
            assert(start + Seq::empty() =~= start);
        }
        while index < selection.component_ids.len()
            invariant
                index <= selection.component_ids.len(),
                ids == selection.component_ids@,
                start == old(out)@,
                ({
                    let pick = pick_components(
                        self.limits,
                        components.blobs@,
                        ids.take(index as int),
                        handle,
                    );
                    &&& out@ == start + components_bytes(pick.components).0
                    &&& components_bytes(pick.components).1 is None
                    &&& count == pick.components.len()
                    &&& by_limit == pick.by_limit
                    &&& by_size == pick.by_size
                    &&& total == clamp_usize(
                        payload as nat + component_payload_total(pick.components),
                    )
                }),
            decreases selection.component_ids.len() - index,
        {
            let component_id = selection.component_ids[index];
            let ghost prefix = ids.take(index + 1);
            let ghost before = pick_components(
                self.limits,
                components.blobs@,
                ids.take(index as int),
                handle,
            ).components;
            proof {
                assert(prefix.drop_last() =~= ids.take(index as int));
                assert(prefix.last() == component_id);
                lemma_pick_components_bounds(
                    self.limits,
                    components.blobs@,
                    ids.take(index as int),
                    handle,
                );
            }
            index = index + 1;
            if count >= self.limits.max_components_per_entity {
                by_limit = by_limit + 1;
                continue ;
            }
            let blob = match components.get_blob(component_id, handle) {
                Some(blob) => blob,
                None => {
                    continue ;
                },
            };
            if !blob.dirty {
                continue ;
            }
            if blob.bytes.len() > self.limits.max_component_bytes {
                by_size = by_size + 1;
                continue ;
            }
            let ghost lead = out@;
            let ghost delta = delta_of(*blob, component_id);
            push_u16(out, component_id.0);
            push_u64(out, blob.version);
            out.push(0);
            let written = write_bytes("replication.component.bytes", blob.bytes.as_slice(), out);
            proof {
                assert(out@ =~= lead + component_bytes(delta).0);
                lemma_components_bytes_push(before, delta);
                assert(start + components_bytes(before.push(delta)).0 =~= out@);
                assert(before.push(delta).drop_last() =~= before);
            }
            if let Err(error) = written {
                proof {
                    let whole = pick_components(self.limits, components.blobs@, ids, handle).components;
                    lemma_pick_extends(self.limits, components.blobs@, ids, handle, index as int);
                    lemma_components_bytes_prefix_error(
                        whole,
                        before.push(delta).len() as int,
                    );
                }
                return Err(error);
            }
            total = total.saturating_add(15).saturating_add(blob.bytes.len());
            count = count + 1;
        }
        assert(ids.take(index as int) =~= ids);
        Ok((count, by_limit, by_size, total))
    }

    fn write_entity(
        &self,
        record: &EntityRecord,
        handle: EntityHandle,
        components: &ComponentStore,
        selection: &ComponentSelection,
        payload: usize,
        out: &mut Vec<u8>,
    ) -> (result: Result<(usize, usize, usize, usize), BinaryEncodeError>)
        ensures
            ({
                let pick = pick_components(
                    self.limits,
                    components.blobs@,
                    selection.component_ids@,
                    handle,
                );
                let written = components_bytes(pick.components);
                let unfinished = entity_lead(*record) + le_bytes(0, 2) + written.0;
                match result {
                    Ok((count, by_limit, by_size, total)) => {
                        &&& count == pick.components.len()
                        &&& by_limit == pick.by_limit
                        &&& by_size == pick.by_size
                        &&& total == clamp_usize(
                            payload as nat + component_payload_total(pick.components),
                        )
                        &&& written.1 is None
                        &&& count <= u16::MAX
                        &&& final(out)@ == (if count == 0 {
                            old(out)@
                        } else {
                            old(out)@ + entity_bytes(entity_delta_of(*record, pick)).0
                        })
                    },
                    Err(error) => {
                        &&& pick.components.len() > 0
                        &&& final(out)@ == old(out)@ + unfinished
                        &&& if written.1 is Some {
                            written.1 == Some(error)
                        } else {
                            &&& pick.components.len() > u16::MAX
                            &&& error == (BinaryEncodeError::TooManyItems {
                                field: "replication.entity.components",
                                actual: pick.components.len() as usize,
                            })
                        }
                    },
                }
            }),
    {
        let ghost pick = pick_components(
            self.limits,
            components.blobs@,
            selection.component_ids@,
            handle,
        );
        let ghost written = components_bytes(pick.components);
        let ghost start = out@;
        let entity_start: usize = out.len();
        push_u64(out, record.id.0);
        push_u64(out, record.role.owner_epoch().0);
        let component_count_offset: usize = out.len();
        push_u16(out, 0);
        proof {
            lemma_le_bytes_len(record.id.0 as nat, 8);
            lemma_le_bytes_len(record.role.epoch_model().0 as nat, 8);
            lemma_le_bytes_len(0, 2);
            assert(out@ =~= start + (entity_lead(*record) + le_bytes(0, 2)));
        }
        let (count, limited, oversized, total) = match self.write_components(
            handle,
            components,
            selection,
            payload,
            out,
        ) {
            Ok(counters) => counters,
            Err(error) => {
                assert(out@ =~= start + (entity_lead(*record) + le_bytes(0, 2) + written.0));
                return Err(error);
            },
        };
        if count == 0 {
            out.truncate(entity_start);
            assert(out@ =~= start);
            return Ok((count, limited, oversized, total));
        }
        if count > u16::MAX as usize {
            assert(out@ =~= start + (entity_lead(*record) + le_bytes(0, 2) + written.0));
            return Err(
                BinaryEncodeError::TooManyItems {
                    field: "replication.entity.components",
                    actual: count,
                },
            );
        }
        let ghost unpatched = out@;
        patch_u16(out, component_count_offset, count as u16);
        proof {
            lemma_le_bytes_len(count as nat, 2);
            let finished = entity_bytes(entity_delta_of(*record, pick)).0;
            assert(finished =~= entity_lead(*record) + (le_bytes(count as nat, 2) + written.0));
            assert(unpatched.take(component_count_offset as int) =~= start + entity_lead(*record));
            assert(unpatched.skip(component_count_offset + 2) =~= written.0);
            assert(out@ =~= start + finished);
        }
        Ok((count, limited, oversized, total))
    }

    #[verifier::rlimit(60)]
    #[verifier::spinoff_prover]
    fn encode_direct(
        &self,
        client_id: ClientId,
        server_tick: Tick,
        station: &Station,
        plan: &ReplicationPlan,
        components: &ComponentStore,
        selection: &ComponentSelection,
        budget: Option<usize>,
        out: &mut Vec<u8>,
    ) -> (result: Result<ReplicationFrameBuildStats, BinaryEncodeError>)
        requires
            countable(plan.entities@.len(), selection.component_ids@.len()),
        ensures
            ({
                let pass = direct_entities(
                    self.input(*station, *components, *selection),
                    budget_model(budget),
                    plan.entities@,
                );
                let outcome = direct_outcome(client_id, server_tick, plan.entities@.len(), pass);
                &&& final(out)@ == old(out)@ + outcome.0
                &&& result == outcome.1
            }),
    {
        let ghost input = self.input(*station, *components, *selection);
        let ghost limit = budget_model(budget);
        let ghost handles = plan.entities@;
        let ghost start = out@;
        let frame_start: usize = out.len();
        let planned: u32 = clamp_to_u32(plan.entities.len());

        out.push(FrameKind::Replication.to_byte());
        push_u64(out, client_id.0);
        push_u64(out, server_tick.0);
        push_u32(out, planned);
        let estimated_offset: usize = out.len();
        push_u32(out, 0);
        let count_offset: usize = out.len();
        push_u32(out, 0);
        let body_offset: usize = out.len();
        let ghost lead = replication_header(client_id, server_tick, planned, 0) + le_bytes(0, 4);
        proof {
            lemma_le_bytes_len(client_id.0 as nat, 8);
            lemma_le_bytes_len(server_tick.0 as nat, 8);
            lemma_le_bytes_len(planned as nat, 4);
            lemma_le_bytes_len(0, 4);
            assert(out@ =~= start + lead);
            assert(handles.take(0) =~= Seq::empty());
            assert(start + lead + Seq::empty() =~= start + lead);
        }

        let mut entities: usize = 0;
        let mut encoded_components: usize = 0;
        let mut by_limit: usize = 0;
        let mut components_by_limit: usize = 0;
        let mut components_by_size: usize = 0;
        let mut by_frame_bytes: usize = 0;
        let mut payload: usize = 0;
        let mut index: usize = 0;
        while index < plan.entities.len()
            invariant
                index <= plan.entities.len(),
                handles == plan.entities@,
                input == self.input(*station, *components, *selection),
                limit == budget_model(budget),
                countable(plan.entities@.len(), selection.component_ids@.len()),
                start == old(out)@,
                frame_start == start.len(),
                planned == clamp_u32(handles.len()),
                lead == replication_header(client_id, server_tick, planned, 0) + le_bytes(0, 4),
                lead.len() == BINARY_HEADER_BYTES,
                ({
                    let pass = direct_entities(input, limit, handles.take(index as int));
                    &&& pass.error is None
                    &&& out@ == start + lead + pass.body
                    &&& entities == pass.entities
                    &&& encoded_components == pass.components
                    &&& by_limit == pass.by_limit
                    &&& components_by_limit == pass.components_by_limit
                    &&& components_by_size == pass.components_by_size
                    &&& by_frame_bytes == pass.by_frame_bytes
                    &&& payload == clamp_usize(pass.payload)
                }),
            decreases plan.entities.len() - index,
        {
            let handle = plan.entities[index];
            let ghost prefix = handles.take(index + 1);
            let ghost before = direct_entities(input, limit, handles.take(index as int));
            proof {
                assert(prefix.drop_last() =~= handles.take(index as int));
                assert(prefix.last() == handle);
                lemma_direct_bounds(input, limit, prefix);
                lemma_direct_bounds(input, limit, handles.take(index as int));
                assert(prefix.len() * input.ids.len() <= handles.len() * input.ids.len())
                    by (nonlinear_arith)
                    requires
                        prefix.len() <= handles.len(),
                ;
            }
            index = index + 1;
            if entities >= self.limits.max_entity_deltas {
                by_limit = by_limit + 1;
                continue ;
            }
            let record = match station.get(handle) {
                Some(record) => record,
                None => {
                    continue ;
                },
            };
            let ghost pick = pick_components(self.limits, input.blobs, input.ids, handle);
            let ghost finished = entity_bytes(entity_delta_of(*record, pick)).0;
            let entity_start: usize = out.len();
            let (count, limited, oversized, total) = match self.write_entity(
                record,
                handle,
                components,
                selection,
                payload,
                out,
            ) {
                Ok(counters) => counters,
                Err(error) => {
                    proof {
                        lemma_direct_error_stays(input, limit, handles, index as int);
                        let pass = direct_entities(input, limit, handles);
                        assert(out@ =~= start + (replication_header(
                            client_id,
                            server_tick,
                            planned,
                            0,
                        ) + (le_bytes(0, 4) + pass.body)));
                    }
                    return Err(error);
                },
            };
            proof {
                lemma_pick_components_bounds(self.limits, input.blobs, input.ids, handle);
            }
            components_by_limit = components_by_limit + limited;
            components_by_size = components_by_size + oversized;
            if count == 0 {
                assert(out@ =~= start + lead + before.body);
                continue ;
            }
            assert(out@ =~= start + lead + (before.body + finished));
            let frame_bytes: usize = out.len() - frame_start;
            if let Some(max_bytes) = budget {
                if frame_bytes > max_bytes {
                    out.truncate(entity_start);
                    assert(out@ =~= start + lead + before.body);
                    by_frame_bytes = by_frame_bytes + 1;
                    continue ;
                }
            }
            encoded_components = encoded_components + count;
            entities = entities + 1;
            payload = total.saturating_add(18);
        }
        assert(handles.take(index as int) =~= handles);
        let ghost pass = direct_entities(input, limit, handles);
        if entities > u32::MAX as usize {
            proof {
                assert(out@ =~= start + (replication_header(client_id, server_tick, planned, 0) + (
                le_bytes(0, 4) + pass.body)));
            }
            return Err(
                BinaryEncodeError::TooManyItems { field: "replication.entities", actual: entities },
            );
        }
        let estimated: u32 = clamp_to_u32(payload);
        patch_u32(out, estimated_offset, estimated);
        proof {
            lemma_le_bytes_len(estimated as nat, 4);
            assert(out@ =~= start + (replication_header(client_id, server_tick, planned, estimated)
                + (le_bytes(0, 4) + pass.body)));
        }
        patch_u32(out, count_offset, entities as u32);
        proof {
            lemma_le_bytes_len(entities as nat, 4);
            assert(out@ =~= start + (replication_header(client_id, server_tick, planned, estimated)
                + (le_bytes(entities as nat, 4) + pass.body)));
        }
        Ok(
            ReplicationFrameBuildStats {
                planned_entities: plan.entities.len(),
                encoded_entities: entities,
                encoded_components,
                skipped_entities_by_limit: by_limit,
                skipped_components_by_limit: components_by_limit,
                skipped_components_by_size: components_by_size,
                skipped_entities_by_frame_bytes: by_frame_bytes,
            },
        )
    }

    /// Builds and appends one binary replication frame directly into `out`.
    ///
    /// This preserves the same limits, dirty-component filtering, statistics, and wire shape as
    /// `build` followed by the binary frame encoder, without allocating an intermediate delta tree
    /// or cloning component payloads. Existing bytes in `out` are retained.
    pub fn encode_binary_into(
        &self,
        client_id: ClientId,
        server_tick: Tick,
        station: &Station,
        plan: &ReplicationPlan,
        components: &ComponentStore,
        selection: &ComponentSelection,
        out: &mut Vec<u8>,
    ) -> (result: Result<ReplicationFrameBuildStats, BinaryEncodeError>)
        requires
            countable(plan.entities@.len(), selection.component_ids@.len()),
        ensures
            ({
                let pass = direct_entities(
                    self.input(*station, *components, *selection),
                    None,
                    plan.entities@,
                );
                let outcome = direct_outcome(client_id, server_tick, plan.entities@.len(), pass);
                &&& final(out)@ == old(out)@ + outcome.0
                &&& result == outcome.1
            }),
    {
        self.encode_direct(
            client_id,
            server_tick,
            station,
            plan,
            components,
            selection,
            None,
            out,
        )
    }

    /// Like `encode_binary_into`, but rolls back every entity delta that would take the frame past
    /// `max_bytes` bytes.
    pub fn encode_binary_bounded_into(
        &self,
        client_id: ClientId,
        server_tick: Tick,
        station: &Station,
        plan: &ReplicationPlan,
        components: &ComponentStore,
        selection: &ComponentSelection,
        max_bytes: usize,
        out: &mut Vec<u8>,
    ) -> (result: Result<ReplicationFrameBuildStats, BinaryEncodeError>)
        requires
            countable(plan.entities@.len(), selection.component_ids@.len()),
        ensures
            ({
                let pass = direct_entities(
                    self.input(*station, *components, *selection),
                    Some(max_bytes as nat),
                    plan.entities@,
                );
                let outcome = direct_outcome(client_id, server_tick, plan.entities@.len(), pass);
                &&& final(out)@ == old(out)@ + outcome.0
                &&& result == outcome.1
            }),
    {
        self.encode_direct(
            client_id,
            server_tick,
            station,
            plan,
            components,
            selection,
            Some(max_bytes),
            out,
        )
    }

    /// Returns a bounded initial byte-capacity hint for direct binary encoding.
    ///
    /// The planner estimate supplements fixed wire metadata and is clamped by the active entity,
    /// component, and component-byte limits. The result is a hint rather than an encoded-size
    /// guarantee because dirty/missing components are resolved during encoding.
    pub fn binary_capacity_hint(&self, plan: &ReplicationPlan, selection: &ComponentSelection) -> (hint:
        usize)
        ensures
            hint == capacity_hint(
                self.limits,
                plan.entities@.len(),
                selection.component_ids@.len(),
                plan.stats.estimated_bytes as nat,
            ),
    {
        let entities: usize = min_usize(plan.entities.len(), self.limits.max_entity_deltas);
        let components: usize = min_usize(
            selection.component_ids.len(),
            self.limits.max_components_per_entity,
        );
        let entity_bytes: usize = BINARY_ENTITY_METADATA_BYTES.saturating_add(
            saturating_mul_usize(components, BINARY_COMPONENT_METADATA_BYTES),
        );
        let fixed_bytes: usize = BINARY_HEADER_BYTES.saturating_add(
            saturating_mul_usize(entities, entity_bytes),
        );
        let maximum_payload_bytes: usize = saturating_mul_usize(
            saturating_mul_usize(entities, components),
            self.limits.max_component_bytes,
        );
        fixed_bytes.saturating_add(min_usize(plan.stats.estimated_bytes, maximum_payload_bytes))
    }

    /// Returns a dense-dirty-data initial capacity hint from at most four uniformly distributed
    /// entities in `plan`.
    ///
    /// Sampling avoids a full metadata prepass. If any sample has no encodable dirty component,
    /// this conservatively returns zero and lets the output buffer grow normally. Nonzero estimates
    /// remain bounded by active limits.
    pub fn sampled_binary_capacity_hint(
        &self,
        station: &Station,
        plan: &ReplicationPlan,
        components: &ComponentStore,
        selection: &ComponentSelection,
    ) -> (hint: usize)
        ensures
            hint == sampled_hint(self.input(*station, *components, *selection), plan.entities@),
    {
        let candidates: usize = plan.entities.len();
        let samples: usize = min_usize(candidates, MAX_CAPACITY_SAMPLES);
        if samples == 0 {
            return 0;
        }
        let ghost input = self.input(*station, *components, *selection);
        let mut sampled_bytes: usize = 0;
        let mut sample: usize = 0;
        while sample < samples
            invariant
                sample <= samples <= MAX_CAPACITY_SAMPLES,
                0 < samples,
                samples == least(candidates as nat, MAX_CAPACITY_SAMPLES as nat),
                candidates == plan.entities@.len(),
                input == self.input(*station, *components, *selection),
                sampled_total(input, plan.entities@, samples as nat, sample as nat) == Some(
                    sampled_bytes,
                ),
            decreases samples - sample,
        {
            let numerator: usize = saturating_mul_usize(sample * 2 + 1, candidates);
            let index: usize = min_usize(numerator / (samples * 2), candidates - 1);
            let entity_bytes: usize = self.binary_entity_bytes(
                station,
                plan.entities[index],
                components,
                selection,
            );
            if entity_bytes == 0 {
                proof {
                    lemma_sampled_none(
                        input,
                        plan.entities@,
                        samples as nat,
                        (sample + 1) as nat,
                        samples as nat,
                    );
                }
                return 0;
            }
            sampled_bytes = sampled_bytes.saturating_add(entity_bytes);
            sample = sample + 1;
        }
        let estimated_entity_bytes: usize = div_ceil_usize(
            saturating_mul_usize(sampled_bytes, candidates),
            samples,
        );
        let maximum_entities: usize = min_usize(candidates, self.limits.max_entity_deltas);
        let maximum_components: usize = min_usize(
            selection.component_ids.len(),
            self.limits.max_components_per_entity,
        );
        let maximum_entity_bytes: usize = BINARY_ENTITY_METADATA_BYTES.saturating_add(
            saturating_mul_usize(
                maximum_components,
                BINARY_COMPONENT_METADATA_BYTES.saturating_add(self.limits.max_component_bytes),
            ),
        );
        BINARY_HEADER_BYTES.saturating_add(
            min_usize(
                estimated_entity_bytes,
                saturating_mul_usize(maximum_entities, maximum_entity_bytes),
            ),
        )
    }

    fn binary_entity_bytes(
        &self,
        station: &Station,
        handle: EntityHandle,
        components: &ComponentStore,
        selection: &ComponentSelection,
    ) -> (bytes: usize)
        ensures
            bytes == entity_size(self.input(*station, *components, *selection), handle),
    {
        if station.get(handle).is_none() {
            return 0;
        }
        let ghost ids = selection.component_ids@;
        let ghost blobs = components.blobs@;
        let mut bytes: usize = BINARY_ENTITY_METADATA_BYTES;
        let mut encoded: usize = 0;
        let mut index: usize = 0;
        assert(ids.take(0) =~= Seq::empty());
        while index < selection.component_ids.len()
            invariant
                index <= selection.component_ids.len(),
                ids == selection.component_ids@,
                blobs == components.blobs@,
                ({
                    let pick = pick_components(self.limits, blobs, ids.take(index as int), handle);
                    &&& encoded == pick.components.len()
                    &&& bytes == clamp_usize(
                        BINARY_ENTITY_METADATA_BYTES as nat + component_payload_total(
                            pick.components,
                        ),
                    )
                }),
            decreases selection.component_ids.len() - index,
        {
            let component_id = selection.component_ids[index];
            let ghost prefix = ids.take(index + 1);
            let ghost before = pick_components(
                self.limits,
                blobs,
                ids.take(index as int),
                handle,
            ).components;
            proof {
                assert(prefix.drop_last() =~= ids.take(index as int));
                assert(prefix.last() == component_id);
                lemma_pick_components_bounds(self.limits, blobs, ids.take(index as int), handle);
            }
            index = index + 1;
            if encoded >= self.limits.max_components_per_entity {
                continue ;
            }
            if let Some(blob) = components.get_blob(component_id, handle) {
                if blob.dirty && blob.bytes.len() <= self.limits.max_component_bytes {
                    bytes = bytes.saturating_add(BINARY_COMPONENT_METADATA_BYTES).saturating_add(
                        blob.bytes.len(),
                    );
                    encoded = encoded + 1;
                    proof {
                        assert(before.push(delta_of(*blob, component_id)).drop_last() =~= before);
                    }
                }
            }
        }
        assert(ids.take(index as int) =~= ids);
        if encoded == 0 {
            0
        } else {
            bytes
        }
    }
}

/// Entities sampled for a capacity hint.
pub const MAX_CAPACITY_SAMPLES: usize = 4;

/// The smaller of two numbers.
pub open spec fn least(left: nat, right: nat) -> nat {
    if left <= right {
        left
    } else {
        right
    }
}

/// Fixed wire metadata of the largest frame within the limits, and the planner's payload estimate
/// as far as the limits let it grow.
pub open spec fn capacity_hint(
    limits: ReplicationFrameLimits,
    planned: nat,
    selected: nat,
    estimated: nat,
) -> usize {
    let entities = least(planned, limits.max_entity_deltas as nat);
    let components = least(selected, limits.max_components_per_entity as nat);
    let fixed = BINARY_HEADER_BYTES as nat + clamp_usize(
        entities * clamp_usize(
            BINARY_ENTITY_METADATA_BYTES as nat + clamp_usize(
                components * BINARY_COMPONENT_METADATA_BYTES as nat,
            ) as nat,
        ) as nat,
    ) as nat;
    let payload = clamp_usize(
        clamp_usize(entities * components) as nat * limits.max_component_bytes as nat,
    );
    clamp_usize(clamp_usize(fixed) as nat + least(estimated, payload as nat))
}

/// Encoded size of an entity delta; zero where it has no encodable component.
pub open spec fn entity_size(input: BuildInput, handle: EntityHandle) -> usize {
    let pick = pick_components(input.limits, input.blobs, input.ids, handle);
    if record_of(input.records, handle) is None || pick.components.len() == 0 {
        0
    } else {
        clamp_usize(
            BINARY_ENTITY_METADATA_BYTES as nat + component_payload_total(pick.components),
        )
    }
}

/// Position of a sample: the middle of its share of the candidates.
pub open spec fn sample_position(sample: nat, samples: nat, candidates: nat) -> int {
    least(
        clamp_usize((sample * 2 + 1) * candidates) as nat / (samples * 2),
        (candidates - 1) as nat,
    ) as int
}

/// Sizes of the first `taken` samples added up, unless one of them is zero.
pub open spec fn sampled_total(
    input: BuildInput,
    handles: Seq<EntityHandle>,
    samples: nat,
    taken: nat,
) -> Option<usize>
    decreases taken,
{
    if taken == 0 {
        Some(0)
    } else {
        let before = sampled_total(input, handles, samples, (taken - 1) as nat);
        let size = entity_size(
            input,
            handles[sample_position((taken - 1) as nat, samples, handles.len())],
        );
        if before is None || size == 0 {
            None
        } else {
            Some(clamp_usize(before->0 as nat + size as nat))
        }
    }
}

/// The average sample size over all candidates, as far as the limits let it grow.
pub open spec fn sampled_hint(input: BuildInput, handles: Seq<EntityHandle>) -> usize {
    let candidates = handles.len();
    let samples = least(candidates, MAX_CAPACITY_SAMPLES as nat);
    if samples == 0 {
        0
    } else {
        match sampled_total(input, handles, samples, samples) {
            None => 0,
            Some(total) => {
                let estimated = ceil_div(clamp_usize(total as nat * candidates) as nat, samples);
                let entities = least(candidates, input.limits.max_entity_deltas as nat);
                let components = least(
                    input.ids.len(),
                    input.limits.max_components_per_entity as nat,
                );
                let entity_bytes = clamp_usize(
                    BINARY_ENTITY_METADATA_BYTES as nat + clamp_usize(
                        components * clamp_usize(
                            BINARY_COMPONENT_METADATA_BYTES as nat
                                + input.limits.max_component_bytes as nat,
                        ) as nat,
                    ) as nat,
                );
                clamp_usize(
                    BINARY_HEADER_BYTES as nat + least(
                        estimated,
                        clamp_usize(entities * entity_bytes as nat) as nat,
                    ),
                )
            },
        }
    }
}

proof fn lemma_sampled_none(
    input: BuildInput,
    handles: Seq<EntityHandle>,
    samples: nat,
    taken: nat,
    all: nat,
)
    requires
        taken <= all,
        sampled_total(input, handles, samples, taken) is None,
    ensures
        sampled_total(input, handles, samples, all) is None,
    decreases all - taken,
{
    if taken < all {
        lemma_sampled_none(input, handles, samples, taken + 1, all);
    }
}

/// A byte budget as a number.
pub open spec fn budget_model(budget: Option<usize>) -> Option<nat> {
    match budget {
        Some(max_bytes) => Some(max_bytes as nat),
        None => None,
    }
}

proof fn lemma_direct_error_stays(
    input: BuildInput,
    budget: Option<nat>,
    handles: Seq<EntityHandle>,
    prefix: int,
)
    requires
        0 <= prefix <= handles.len(),
        direct_entities(input, budget, handles.take(prefix)).error is Some,
    ensures
        direct_entities(input, budget, handles) == direct_entities(
            input,
            budget,
            handles.take(prefix),
        ),
    decreases handles.len() - prefix,
{
    if prefix < handles.len() {
        assert(handles.take(prefix + 1).drop_last() =~= handles.take(prefix));
        lemma_direct_error_stays(input, budget, handles, prefix + 1);
    } else {
        assert(handles.take(prefix) =~= handles);
    }
}

proof fn lemma_direct_matches_pick(input: BuildInput, handles: Seq<EntityHandle>)
    ensures
        ({
            let pick = pick_entities(input, handles);
            let pass = direct_entities(input, None, handles);
            let written = entities_bytes(pick.entities);
            &&& pass.error is Some <==> written.1 is Some
            &&& pass.error is None ==> {
                &&& pass.body == written.0
                &&& pass.entities == pick.entities.len()
                &&& pass.components == pick.components
                &&& pass.payload == pick.payload
                &&& pass.by_limit == pick.by_limit
                &&& pass.components_by_limit == pick.components_by_limit
                &&& pass.components_by_size == pick.components_by_size
                &&& pass.by_frame_bytes == 0
            }
        }),
    decreases handles.len(),
{
    if handles.len() > 0 {
        let earlier = handles.drop_last();
        lemma_direct_matches_pick(input, earlier);
        let before = pick_entities(input, earlier);
        if before.entities.len() < input.limits.max_entity_deltas {
            if let Some(record) = record_of(input.records, handles.last()) {
                let pick = pick_components(input.limits, input.blobs, input.ids, handles.last());
                lemma_entities_bytes_push(before.entities, entity_delta_of(record, pick));
            }
        }
    }
}

/// Direct encoding appends exactly the bytes of the built frame, and reports the same statistics.
/// It succeeds whenever that frame can be encoded, and only then.
pub proof fn law_direct_encoding_matches_build(
    input: BuildInput,
    client_id: ClientId,
    server_tick: Tick,
    handles: Seq<EntityHandle>,
)
    ensures
        ({
            let pick = pick_entities(input, handles);
            let encoded = replication_bytes(
                built_frame(client_id, server_tick, handles.len(), pick),
            );
            let outcome = direct_outcome(
                client_id,
                server_tick,
                handles.len(),
                direct_entities(input, None, handles),
            );
            &&& outcome.1 is Ok <==> encoded.1 is None
            &&& outcome.1 is Ok ==> outcome.0 == encoded.0 && outcome.1 == Ok::<
                ReplicationFrameBuildStats,
                BinaryEncodeError,
            >(built_stats(handles.len(), pick))
        }),
{
    lemma_direct_matches_pick(input, handles);
}

proof fn lemma_bounded_body(input: BuildInput, budget: nat, handles: Seq<EntityHandle>)
    ensures
        ({
            let pass = direct_entities(input, Some(budget), handles);
            pass.error is None ==> pass.body.len() == 0 || BINARY_HEADER_BYTES + pass.body.len()
                <= budget
        }),
    decreases handles.len(),
{
    if handles.len() > 0 {
        lemma_bounded_body(input, budget, handles.drop_last());
    }
}

/// A bounded frame with any entity delta in it stays within its byte budget; without one it is the
/// bare header.
pub proof fn law_bounded_frames_stay_within_budget(
    input: BuildInput,
    client_id: ClientId,
    server_tick: Tick,
    handles: Seq<EntityHandle>,
    budget: nat,
)
    ensures
        ({
            let outcome = direct_outcome(
                client_id,
                server_tick,
                handles.len(),
                direct_entities(input, Some(budget), handles),
            );
            outcome.1 is Ok ==> outcome.0.len() <= budget || outcome.0.len() == BINARY_HEADER_BYTES
        }),
{
    let pass = direct_entities(input, Some(budget), handles);
    lemma_bounded_body(input, budget, handles);
    lemma_le_bytes_len(client_id.0 as nat, 8);
    lemma_le_bytes_len(server_tick.0 as nat, 8);
    lemma_le_bytes_len(clamp_u32(handles.len()) as nat, 4);
    lemma_le_bytes_len(clamp_u32(clamp_usize(pass.payload) as nat) as nat, 4);
    lemma_le_bytes_len(pass.entities, 4);
}

} // verus!
