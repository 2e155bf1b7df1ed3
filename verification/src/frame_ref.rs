//! Validated replication frames that borrow their component payloads from the packet.

use vstd::prelude::*;

use crate::frames::{
    component_count_total, ComponentDeltaModel, EntityDeltaModel, FrameKind, FrameModel,
    ReplicationFrameModel,
};
use crate::ids::{ClientId, ComponentId, EntityId, OwnerEpoch, Tick};
use crate::num::clamp_usize;
use crate::wire_codec::{decode_replication_header, BinaryFrameDecoder, Cursor};
use crate::wire_spec::{
    after, component_at, components_at, decoded_frame, entities_at, entity_at, number_at,
    BinaryDecodeError,
};

verus! {

/// Component delta that borrows its bytes from the packet.
#[derive(Clone, Copy, Debug, PartialEq, Eq)]
pub struct ComponentDeltaRef<'a> {
    /// Component id.
    pub component_id: ComponentId,
    /// Component version.
    pub version: u64,
    /// Runtime-defined flags.
    pub flags: u8,
    /// Encoded component bytes.
    pub bytes: &'a [u8],
}

impl<'a> View for ComponentDeltaRef<'a> {
    type V = ComponentDeltaModel;

    open spec fn view(&self) -> ComponentDeltaModel {
        ComponentDeltaModel {
            component_id: self.component_id,
            version: self.version,
            flags: self.flags,
            bytes: self.bytes@,
        }
    }
}

/// Entity delta whose component deltas lie in the packet.
#[derive(Clone, Copy, Debug, PartialEq, Eq)]
pub struct EntityDeltaRef<'a> {
    /// Entity being updated.
    pub entity_id: EntityId,
    /// Owner epoch observed by the sender.
    pub owner_epoch: OwnerEpoch,
    /// Packet that holds the deltas.
    pub input: &'a [u8],
    /// Offset of the first component delta.
    pub start: usize,
    /// Number of component deltas.
    pub count: u16,
}

impl<'a> EntityDeltaRef<'a> {
    /// The component deltas are all present in the packet.
    pub open spec fn wf(self) -> bool {
        &&& self.start <= self.input@.len() <= usize::MAX
        &&& components_at(self.input@, self.start as int, self.count as nat) is Ok
    }

    /// The entity delta that the packet holds.
    pub open spec fn model(self) -> EntityDeltaModel {
        EntityDeltaModel {
            entity_id: self.entity_id,
            owner_epoch: self.owner_epoch,
            components: components_at(self.input@, self.start as int, self.count as nat)->Ok_0.0,
        }
    }

    /// Returns the number of component deltas of this entity.
    pub fn encoded_component_count(self) -> (count: usize)
        requires
            self.wf(),
        ensures
            count == self.model().components.len(),
    {
        proof {
            lemma_components_len(self.input@, self.start as int, self.count as nat);
        }
        self.count as usize
    }

    /// Returns the component deltas in wire order.
    pub fn components(&self) -> (components: Vec<ComponentDeltaRef<'a>>)
        requires
            self.wf(),
        ensures
            Seq::new(components@.len(), |i: int| components@[i]@) == self.model().components,
    {
        let mut cursor = Cursor { input: self.input, offset: self.start };
        let mut components: Vec<ComponentDeltaRef<'a>> = Vec::new();
        let mut read: u16 = 0;
        let ghost whole = components_at(self.input@, self.start as int, self.count as nat);
        let ghost models = Seq::new(components@.len(), |i: int| components@[i]@);
        proof {
            assert(models =~= Seq::empty());
            assert(Seq::empty() + whole->Ok_0.0 =~= whole->Ok_0.0);
        }
        while read < self.count
            invariant
                read <= self.count,
                cursor.wf(),
                cursor.input == self.input,
                whole is Ok,
                models == Seq::new(components@.len(), |i: int| components@[i]@),
                whole == after(
                    models,
                    components_at(self.input@, cursor.offset as int, (self.count - read) as nat),
                ),
            decreases self.count - read,
        {
            match decode_component_ref(&mut cursor) {
                Ok(component) => {
                    components.push(component);
                    read = read + 1;
                    proof {
                        let next = Seq::new(components@.len(), |i: int| components@[i]@);
                        assert(next =~= models + seq![component@]);
                        let rest = components_at(
                            self.input@,
                            cursor.offset as int,
                            (self.count - read) as nat,
                        );
                        crate::wire_codec::lemma_after_step(models, component@, rest);
                        models = next;
                    }
                },
                Err(_) => {
                    assert(false);
                },
            }
        }
        assert(models + Seq::empty() =~= models);
        components
    }
}

pub(crate) proof fn lemma_components_len(input: Seq<u8>, at: int, count: nat)
    ensures
        components_at(input, at, count) matches Ok((components, _)) ==> components.len() == count,
    decreases count,
{
    if count > 0 {
        if let Ok((_, next)) = component_at(input, at) {
            lemma_components_len(input, next, (count - 1) as nat);
        }
    }
}

pub(crate) proof fn lemma_entities_len(input: Seq<u8>, at: int, count: nat)
    ensures
        entities_at(input, at, count) matches Ok((entities, _)) ==> entities.len() == count,
    decreases count,
{
    if count > 0 {
        if let Ok((_, next)) = entity_at(input, at) {
            lemma_entities_len(input, next, (count - 1) as nat);
        }
    }
}

fn decode_component_ref<'a>(cursor: &mut Cursor<'a>) -> (result: Result<
    ComponentDeltaRef<'a>,
    BinaryDecodeError,
>)
    requires
        old(cursor).wf(),
    ensures
        crate::wire_codec::reads_view(
            *old(cursor),
            *final(cursor),
            result,
            component_at(old(cursor).input@, old(cursor).offset as int),
        ),
{
    let component_id = ComponentId(cursor.read_u16()?);
    let version: u64 = cursor.read_u64()?;
    let flags: u8 = cursor.read_u8()?;
    let bytes = cursor.read_payload_ref()?;
    Ok(ComponentDeltaRef { component_id, version, flags, bytes })
}

fn decode_entity_ref<'a>(cursor: &mut Cursor<'a>) -> (result: Result<
    EntityDeltaRef<'a>,
    BinaryDecodeError,
>)
    requires
        old(cursor).wf(),
    ensures
        final(cursor).input == old(cursor).input,
        final(cursor).wf(),
        match result {
            Ok(entity) => {
                &&& entity.wf()
                &&& entity_at(old(cursor).input@, old(cursor).offset as int) == Ok::<
                    (EntityDeltaModel, int),
                    BinaryDecodeError,
                >((entity.model(), final(cursor).offset as int))
            },
            Err(error) => entity_at(old(cursor).input@, old(cursor).offset as int) == Err::<
                (EntityDeltaModel, int),
                BinaryDecodeError,
            >(error),
        },
{
    let entity_id = EntityId(cursor.read_u64()?);
    let owner_epoch = OwnerEpoch(cursor.read_u64()?);
    let count: u16 = cursor.read_u16()?;
    let entity = EntityDeltaRef {
        entity_id,
        owner_epoch,
        input: cursor.input,
        start: cursor.offset,
        count,
    };
    let ghost whole = components_at(entity.input@, entity.start as int, count as nat);
    let mut read: u16 = 0;
    let ghost mut seen: Seq<ComponentDeltaModel> = Seq::empty();
    proof {
        crate::wire_codec::lemma_after_nothing(whole);
    }
    while read < count
        invariant
            read <= count,
            cursor.wf(),
            cursor.input == entity.input,
            cursor.input == old(cursor).input,
            entity.start <= cursor.input@.len(),
            entity.count == count,
            entity_at(old(cursor).input@, old(cursor).offset as int) == (match whole {
                Err(error) => Err(error),
                Ok((components, at)) => Ok(
                    (
                        EntityDeltaModel {
                            entity_id: entity.entity_id,
                            owner_epoch: entity.owner_epoch,
                            components,
                        },
                        at,
                    ),
                ),
            }),
            whole == components_at(entity.input@, entity.start as int, count as nat),
            whole == after(
                seen,
                components_at(entity.input@, cursor.offset as int, (count - read) as nat),
            ),
        decreases count - read,
    {
        let component = decode_component_ref(cursor)?;
        read = read + 1;
        proof {
            let rest = components_at(entity.input@, cursor.offset as int, (count - read) as nat);
            crate::wire_codec::lemma_after_step(seen, component@, rest);
            seen = seen + seq![component@];
        }
    }
    Ok(entity)
}

/// Replication frame whose entity deltas lie in the packet.
#[derive(Clone, Copy, Debug, PartialEq, Eq)]
pub struct ReplicationFrameRef<'a> {
    /// Target client.
    pub client_id: ClientId,
    /// Server tick represented by this frame.
    pub server_tick: Tick,
    /// Number of entity updates in this frame.
    pub entity_count: u32,
    /// Estimated payload bytes before transport overhead.
    pub estimated_payload_bytes: u32,
    /// Packet that holds the deltas.
    pub input: &'a [u8],
    /// Offset of the first entity delta.
    pub start: usize,
    /// Number of entity deltas.
    pub deltas: u32,
}

impl<'a> ReplicationFrameRef<'a> {
    /// The entity deltas are all present in the packet.
    pub open spec fn wf(self) -> bool {
        &&& self.start <= self.input@.len() <= usize::MAX
        &&& entities_at(self.input@, self.start as int, self.deltas as nat) is Ok
        &&& self.deltas <= usize::MAX
    }

    /// The replication frame that the packet holds.
    pub open spec fn model(self) -> ReplicationFrameModel {
        ReplicationFrameModel {
            client_id: self.client_id,
            server_tick: self.server_tick,
            entity_count: self.entity_count,
            estimated_payload_bytes: self.estimated_payload_bytes,
            entities: entities_at(self.input@, self.start as int, self.deltas as nat)->Ok_0.0,
        }
    }

    /// Returns the number of entity deltas in the frame.
    pub fn encoded_entity_count(&self) -> (count: usize)
        requires
            self.wf(),
        ensures
            count == self.model().entities.len(),
    {
        proof {
            lemma_entities_len(self.input@, self.start as int, self.deltas as nat);
        }
        self.deltas as usize
    }

    /// Returns the entity deltas in wire order.
    pub fn entities(&self) -> (entities: Vec<EntityDeltaRef<'a>>)
        requires
            self.wf(),
        ensures
            forall|i: int| 0 <= i < entities@.len() ==> (#[trigger] entities@[i]).wf(),
            Seq::new(entities@.len(), |i: int| entities@[i].model()) == self.model().entities,
    {
        let mut cursor = Cursor { input: self.input, offset: self.start };
        let mut entities: Vec<EntityDeltaRef<'a>> = Vec::new();
        let mut read: u32 = 0;
        let ghost whole = entities_at(self.input@, self.start as int, self.deltas as nat);
        let ghost models = Seq::new(entities@.len(), |i: int| entities@[i].model());
        proof {
            assert(models =~= Seq::empty());
            assert(Seq::empty() + whole->Ok_0.0 =~= whole->Ok_0.0);
        }
        while read < self.deltas
            invariant
                read <= self.deltas,
                cursor.wf(),
                cursor.input == self.input,
                whole is Ok,
                models == Seq::new(entities@.len(), |i: int| entities@[i].model()),
                forall|i: int| 0 <= i < entities@.len() ==> (#[trigger] entities@[i]).wf(),
                whole == after(
                    models,
                    entities_at(self.input@, cursor.offset as int, (self.deltas - read) as nat),
                ),
            decreases self.deltas - read,
        {
            match decode_entity_ref(&mut cursor) {
                Ok(entity) => {
                    entities.push(entity);
                    read = read + 1;
                    proof {
                        let next = Seq::new(entities@.len(), |i: int| entities@[i].model());
                        assert(next =~= models + seq![entity.model()]);
                        let rest = entities_at(
                            self.input@,
                            cursor.offset as int,
                            (self.deltas - read) as nat,
                        );
                        crate::wire_codec::lemma_after_step(models, entity.model(), rest);
                        models = next;
                    }
                },
                Err(_) => {
                    assert(false);
                },
            }
        }
        assert(models + Seq::empty() =~= models);
        entities
    }
}

/// Why an input is not a replication frame.
#[derive(Clone, Copy, Debug, PartialEq, Eq, Structural)]
pub enum ReplicationFrameRefDecodeError {
    /// The input is not a well-formed frame.
    Binary(BinaryDecodeError),
    /// The input starts as a frame of another kind.
    UnexpectedFrameKind(FrameKind),
}

/// Relates the outcome of borrowed replication decoding to what the input denotes.
pub open spec fn decodes_replication(
    input: Seq<u8>,
    result: Result<ReplicationFrameRef<'_>, ReplicationFrameRefDecodeError>,
) -> bool {
    let other_kind = input.len() > 0 && 0 < input[0] <= 5;
    match result {
        Ok(frame) => {
            &&& !other_kind
            &&& frame.wf()
            &&& decoded_frame(input) == Ok::<FrameModel, BinaryDecodeError>(
                FrameModel::Replication(frame.model()),
            )
        },
        Err(ReplicationFrameRefDecodeError::Binary(error)) => {
            &&& !other_kind
            &&& decoded_frame(input) == Err::<FrameModel, BinaryDecodeError>(error)
        },
        Err(ReplicationFrameRefDecodeError::UnexpectedFrameKind(kind)) => {
            &&& other_kind
            &&& kind.byte() == input[0]
        },
    }
}

impl BinaryFrameDecoder {
    /// Validates a replication frame and borrows its deltas from the input.
    pub fn decode_replication<'a>(&self, input: &'a [u8]) -> (result: Result<
        ReplicationFrameRef<'a>,
        ReplicationFrameRefDecodeError,
    >)
        ensures
            decodes_replication(input@, result),
    {
        reveal(decoded_frame);
        let mut cursor = Cursor::new(input);
        let kind_byte: u8 = match cursor.read_u8() {
            Ok(byte) => byte,
            Err(_) => {
                return Err(ReplicationFrameRefDecodeError::Binary(BinaryDecodeError::Empty));
            },
        };
        match FrameKind::from_byte(kind_byte) {
            Some(FrameKind::Replication) => {},
            Some(kind) => {
                return Err(ReplicationFrameRefDecodeError::UnexpectedFrameKind(kind));
            },
            None => {
                return Err(
                    ReplicationFrameRefDecodeError::Binary(
                        BinaryDecodeError::UnknownFrameKind(kind_byte),
                    ),
                );
            },
        }
        match decode_replication_ref(&mut cursor) {
            Ok(frame) => match cursor.finish() {
                Ok(()) => Ok(frame),
                Err(error) => Err(ReplicationFrameRefDecodeError::Binary(error)),
            },
            Err(error) => Err(ReplicationFrameRefDecodeError::Binary(error)),
        }
    }
}

fn decode_replication_ref<'a>(cursor: &mut Cursor<'a>) -> (result: Result<
    ReplicationFrameRef<'a>,
    BinaryDecodeError,
>)
    requires
        old(cursor).wf(),
    ensures
        final(cursor).input == old(cursor).input,
        final(cursor).wf(),
        match result {
            Ok(frame) => {
                &&& frame.wf()
                &&& crate::wire_spec::replication_at(old(cursor).input@, old(cursor).offset as int)
                    == Ok::<(FrameModel, int), BinaryDecodeError>(
                    (FrameModel::Replication(frame.model()), final(cursor).offset as int),
                )
            },
            Err(error) => crate::wire_spec::replication_at(
                old(cursor).input@,
                old(cursor).offset as int,
            ) == Err::<(FrameModel, int), BinaryDecodeError>(error),
        },
{
    let header = decode_replication_header(cursor)?;
    let frame = ReplicationFrameRef {
        client_id: header.client_id,
        server_tick: header.server_tick,
        entity_count: header.entity_count,
        estimated_payload_bytes: header.estimated_payload_bytes,
        input: cursor.input,
        start: cursor.offset,
        deltas: header.deltas,
    };
    let ghost whole = entities_at(frame.input@, frame.start as int, frame.deltas as nat);
    let mut read: u32 = 0;
    let ghost mut seen: Seq<EntityDeltaModel> = Seq::empty();
    proof {
        crate::wire_codec::lemma_after_nothing(whole);
    }
    while read < frame.deltas
        invariant
            read <= frame.deltas,
            cursor.wf(),
            cursor.input == frame.input,
            cursor.input == old(cursor).input,
            frame.start <= cursor.offset,
            frame.start + read <= cursor.offset,
            frame.deltas == header.deltas,
            frame.client_id == header.client_id,
            frame.server_tick == header.server_tick,
            frame.entity_count == header.entity_count,
            frame.estimated_payload_bytes == header.estimated_payload_bytes,
            crate::wire_spec::replication_header_at(old(cursor).input@, old(cursor).offset as int)
                == Ok::<_, BinaryDecodeError>((header, frame.start as int)),
            whole == entities_at(frame.input@, frame.start as int, frame.deltas as nat),
            whole == after(
                seen,
                entities_at(frame.input@, cursor.offset as int, (frame.deltas - read) as nat),
            ),
        decreases frame.deltas - read,
    {
        let ghost at = cursor.offset as int;
        let entity = decode_entity_ref(cursor)?;
        read = read + 1;
        proof {
            lemma_entity_advances(frame.input@, at);
            let rest = entities_at(
                frame.input@,
                cursor.offset as int,
                (frame.deltas - read) as nat,
            );
            crate::wire_codec::lemma_after_step(seen, entity.model(), rest);
            seen = seen + seq![entity.model()];
        }
    }
    Ok(frame)
}

proof fn lemma_component_advances(input: Seq<u8>, at: int)
    ensures
        component_at(input, at) matches Ok((_, end)) ==> at < end,
{
}

proof fn lemma_components_advance(input: Seq<u8>, at: int, count: nat)
    ensures
        components_at(input, at, count) matches Ok((_, end)) ==> at <= end,
    decreases count,
{
    if count > 0 {
        lemma_component_advances(input, at);
        if let Ok((_, next)) = component_at(input, at) {
            lemma_components_advance(input, next, (count - 1) as nat);
        }
    }
}

proof fn lemma_entity_advances(input: Seq<u8>, at: int)
    ensures
        entity_at(input, at) matches Ok((_, end)) ==> at < end,
{
    if let Ok((count, next)) = number_at(input, at + 16, 2) {
        lemma_components_advance(input, next, count);
    }
}

/// Counts the component deltas of all entities of a frame, clamped to what a `usize` holds.
pub fn count_components(entities: &Vec<EntityDeltaRef<'_>>) -> (count: usize)
    requires
        forall|i: int| 0 <= i < entities@.len() ==> (#[trigger] entities@[i]).wf(),
    ensures
        count == clamp_usize(
            component_count_total(Seq::new(entities@.len(), |i: int| entities@[i].model())),
        ),
{
    let mut count: usize = 0;
    let mut index: usize = 0;
    let ghost models = Seq::new(entities@.len(), |i: int| entities@[i].model());
    assert(models.take(0) =~= Seq::empty());
    while index < entities.len()
        invariant
            index <= entities.len(),
            models == Seq::new(entities@.len(), |i: int| entities@[i].model()),
            forall|i: int| 0 <= i < entities@.len() ==> (#[trigger] entities@[i]).wf(),
            count == clamp_usize(component_count_total(models.take(index as int))),
        decreases entities.len() - index,
    {
        proof {
            assert(models.take(index + 1).drop_last() =~= models.take(index as int));
            assert(models.take(index + 1).last() == entities@[index as int].model());
        }
        count = count.saturating_add(entities[index].encoded_component_count());
        index = index + 1;
    }
    assert(models.take(index as int) =~= models);
    count
}

} // verus!
