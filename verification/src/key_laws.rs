//! What packet keys promise: packets are sent under the best usable key, and old keys stay readable
//! until they are revoked or expire.

use vstd::prelude::*;

use crate::ids::Tick;
use crate::key_ring::{PacketKeyDescriptor, PacketKeyRing, PacketKeyRingError};

verus! {

/// The key has been activated and has not expired.
pub open spec fn is_current(key: PacketKeyDescriptor, now: Tick) -> bool {
    &&& key.activated_at.0 <= now.0
    &&& key.expires_at matches Some(expires_at) ==> now.0 < expires_at.0
}

/// The first key is chosen over the second: for its priority, then for being younger, then for its
/// higher number.
pub open spec fn is_chosen_over(first: PacketKeyDescriptor, second: PacketKeyDescriptor) -> bool {
    ||| first.send_priority > second.send_priority
    ||| first.send_priority == second.send_priority && first.activated_at.0 > second.activated_at.0
    ||| first.send_priority == second.send_priority && first.activated_at.0 == second.activated_at.0
        && first.key_id >= second.key_id
}

/// The ring holds this key.
pub open spec fn holds_key(ring: PacketKeyRing, key: PacketKeyDescriptor) -> bool {
    ring@.contains_key(key.key_id as u128) && ring@[key.key_id as u128] == key
}

/// The two rings hold the same keys but for one.
pub open spec fn other_keys_stay(
    before: PacketKeyRing,
    after: PacketKeyRing,
    key_id: u32,
) -> bool {
    &&& after.config == before.config
    &&& forall|other: u128|
        other != key_id as u128 ==> {
            &&& #[trigger] after@.contains_key(other) <==> before@.contains_key(other)
            &&& before@.contains_key(other) ==> after@[other] == before@[other]
        }
}

/// Packets are sent under an active, current key of the ring, and no such key would be chosen over
/// it. There is none only where the ring holds no such key.
pub proof fn law_packets_are_sent_under_the_best_key(
    ring: &PacketKeyRing,
    now: Tick,
    result: Result<PacketKeyDescriptor, PacketKeyRingError>,
)
    requires
        ring.wf(),
        call_ensures(PacketKeyRing::select_send_key, (ring, now), result),
    ensures
        match result {
            Ok(chosen) => {
                &&& holds_key(*ring, chosen)
                &&& chosen.state is Active
                &&& is_current(chosen, now)
                &&& forall|other: PacketKeyDescriptor| #[trigger]
                    holds_key(*ring, other) && other.state is Active && is_current(other, now)
                        ==> is_chosen_over(chosen, other)
            },
            Err(error) => {
                &&& error is NoSendKey
                &&& forall|other: PacketKeyDescriptor| #[trigger]
                    holds_key(*ring, other) ==> !(other.state is Active) || !is_current(other, now)
            },
        },
{
    assert forall|other: PacketKeyDescriptor| #[trigger]
        holds_key(*ring, other) && other.state is Active && is_current(other, now) implies result
        matches Ok(chosen) && is_chosen_over(chosen, other) by {
        assert(ring@.contains_key(other.key_id as u128) && ring@[other.key_id as u128].sendable(
            now,
        ));
    }
}

/// A packet is read under every current key of the ring that was not revoked. A key that the ring
/// does not hold is missing, and any other is refused with its state.
pub proof fn law_packets_are_read_under_every_key_in_use(
    ring: &PacketKeyRing,
    key_id: u32,
    now: Tick,
    result: Result<PacketKeyDescriptor, PacketKeyRingError>,
)
    requires
        ring.wf(),
        call_ensures(PacketKeyRing::accept_key, (ring, key_id, now), result),
    ensures
        !ring@.contains_key(key_id as u128) ==> result == Err::<
            PacketKeyDescriptor,
            PacketKeyRingError,
        >(PacketKeyRingError::MissingKey(key_id)),
        forall|key: PacketKeyDescriptor| #[trigger]
            holds_key(*ring, key) && key.key_id == key_id ==> result == if (key.state is Active
                || key.state is Retiring) && is_current(key, now) {
                Ok::<PacketKeyDescriptor, PacketKeyRingError>(key)
            } else {
                Err(PacketKeyRingError::KeyNotAccepted { key_id, state: key.state })
            },
{
}

/// A key that retires is no longer sent under, and is read as before. A key that is revoked is
/// neither sent under nor read, for good. An activated key counts from its tick on. None of this
/// touches another key, and each is refused only for a key that the ring does not hold.
pub proof fn law_keys_retire_before_they_are_revoked(key_id: u32)
    ensures
        forall|ring: &mut PacketKeyRing, retires_at: Tick, result: Result<(), PacketKeyRingError>|
            #[trigger] call_ensures(PacketKeyRing::retire, (ring, key_id, retires_at), result)
                && ring.wf() ==> {
                &&& result is Ok <==> ring@.contains_key(key_id as u128)
                &&& result matches Err(error) ==> error == PacketKeyRingError::MissingKey(key_id)
                &&& other_keys_stay(*ring, *final(ring), key_id)
                &&& final(ring)@.contains_key(key_id as u128) <==> result is Ok
                &&& result is Ok ==> {
                    let before = ring@[key_id as u128];
                    let after = final(ring)@[key_id as u128];
                    &&& after.state is Retiring
                    &&& after.retires_at == Some(retires_at)
                    &&& after.key_id == key_id
                    &&& after.created_at == before.created_at
                    &&& after.activated_at == before.activated_at
                    &&& after.expires_at == before.expires_at
                    &&& after.send_priority == before.send_priority
                }
            },
        forall|ring: &mut PacketKeyRing, result: Result<(), PacketKeyRingError>|
            #[trigger] call_ensures(PacketKeyRing::revoke, (ring, key_id), result) && ring.wf()
                ==> {
                &&& result is Ok <==> ring@.contains_key(key_id as u128)
                &&& result matches Err(error) ==> error == PacketKeyRingError::MissingKey(key_id)
                &&& other_keys_stay(*ring, *final(ring), key_id)
                &&& final(ring)@.contains_key(key_id as u128) <==> result is Ok
                &&& result is Ok ==> {
                    let before = ring@[key_id as u128];
                    let after = final(ring)@[key_id as u128];
                    &&& after.state is Revoked
                    &&& after.retires_at == before.retires_at
                    &&& after.key_id == key_id
                    &&& after.created_at == before.created_at
                    &&& after.activated_at == before.activated_at
                    &&& after.expires_at == before.expires_at
                    &&& after.send_priority == before.send_priority
                }
            },
        forall|ring: &mut PacketKeyRing, activated_at: Tick, result: Result<(), PacketKeyRingError>|
            #[trigger] call_ensures(PacketKeyRing::activate, (ring, key_id, activated_at), result)
                && ring.wf() ==> {
                &&& result is Ok <==> ring@.contains_key(key_id as u128)
                &&& result matches Err(error) ==> error == PacketKeyRingError::MissingKey(key_id)
                &&& other_keys_stay(*ring, *final(ring), key_id)
                &&& final(ring)@.contains_key(key_id as u128) <==> result is Ok
                &&& result is Ok ==> {
                    let before = ring@[key_id as u128];
                    let after = final(ring)@[key_id as u128];
                    &&& after.state is Active
                    &&& after.activated_at == activated_at
                    &&& after.retires_at is None
                    &&& after.key_id == key_id
                    &&& after.created_at == before.created_at
                    &&& after.expires_at == before.expires_at
                    &&& after.send_priority == before.send_priority
                }
            },
        forall|
            ring: &mut PacketKeyRing,
            expires_at: Option<Tick>,
            result: Result<(), PacketKeyRingError>,
        |
            #[trigger] call_ensures(PacketKeyRing::set_expiry, (ring, key_id, expires_at), result)
                && ring.wf() ==> {
                &&& result is Ok <==> ring@.contains_key(key_id as u128)
                &&& result matches Err(error) ==> error == PacketKeyRingError::MissingKey(key_id)
                &&& other_keys_stay(*ring, *final(ring), key_id)
                &&& final(ring)@.contains_key(key_id as u128) <==> result is Ok
                &&& result is Ok ==> {
                    let before = ring@[key_id as u128];
                    let after = final(ring)@[key_id as u128];
                    &&& after.state == before.state
                    &&& after.activated_at == before.activated_at
                    &&& after.retires_at == before.retires_at
                    &&& after.key_id == key_id
                    &&& after.created_at == before.created_at
                    &&& after.expires_at == expires_at
                    &&& after.send_priority == before.send_priority
                }
            },
{
}

/// Clearing out expired keys drops exactly the keys whose time is over, and leaves the others as
/// they were: no send key and no key that was read at that tick is lost.
pub proof fn law_only_expired_keys_are_dropped(now: Tick)
    ensures
        forall|ring: &mut PacketKeyRing, removed: usize|
            #[trigger] call_ensures(PacketKeyRing::remove_expired, (ring, now), removed)
                && ring.wf() ==> {
                &&& final(ring).wf()
                &&& final(ring).config == ring.config
                &&& removed + final(ring)@.dom().len() == ring@.dom().len()
                &&& forall|key: PacketKeyDescriptor| #[trigger]
                    holds_key(*final(ring), key) ==> holds_key(*ring, key)
                &&& forall|key: PacketKeyDescriptor| #[trigger]
                    holds_key(*ring, key) ==> (holds_key(*final(ring), key) <==> !(
                    key.expires_at matches Some(expires_at) && expires_at.0 <= now.0))
            },
{
    assert forall|ring: &mut PacketKeyRing, removed: usize|
        #[trigger] call_ensures(PacketKeyRing::remove_expired, (ring, now), removed)
            && ring.wf() implies {
        &&& final(ring).wf()
        &&& final(ring).config == ring.config
        &&& removed + final(ring)@.dom().len() == ring@.dom().len()
        &&& forall|key: PacketKeyDescriptor| #[trigger]
            holds_key(*final(ring), key) ==> holds_key(*ring, key)
        &&& forall|key: PacketKeyDescriptor| #[trigger]
            holds_key(*ring, key) ==> (holds_key(*final(ring), key) <==> !(
            key.expires_at matches Some(expires_at) && expires_at.0 <= now.0))
    } by {
        assert forall|key: PacketKeyDescriptor| #[trigger] holds_key(*ring, key) implies (
        holds_key(*final(ring), key) <==> !(key.expires_at matches Some(expires_at) && expires_at.0
            <= now.0)) by {
            let at = key.key_id as u128;
            assert(final(ring)@.contains_key(at) <==> ring@.contains_key(at) && !ring@[at].expired(
                now,
            ));
        }
    }
}

/// A new key joins the ring unless its number is taken or the ring is full, and changes no other
/// key. A key that is inserted as active can be sent under at once.
pub proof fn law_new_keys_join_the_ring(descriptor: PacketKeyDescriptor, now: Tick)
    ensures
        forall|ring: &mut PacketKeyRing, result: Result<(), PacketKeyRingError>|
            #[trigger] call_ensures(PacketKeyRing::insert, (ring, descriptor), result)
                && ring.wf() ==> {
                let taken = ring@.contains_key(descriptor.key_id as u128);
                let full = ring@.dom().len() >= ring.config.max_keys;
                &&& result is Ok <==> !taken && !full
                &&& taken ==> result == Err::<(), PacketKeyRingError>(
                    PacketKeyRingError::DuplicateKey(descriptor.key_id),
                )
                &&& !taken && full ==> result == Err::<(), PacketKeyRingError>(
                    PacketKeyRingError::CapacityFull { capacity: ring.config.max_keys },
                )
                &&& result is Ok ==> holds_key(*final(ring), descriptor) && other_keys_stay(
                    *ring,
                    *final(ring),
                    descriptor.key_id,
                )
                &&& result is Err ==> final(ring)@ == ring@
            },
        forall|
            ring: &mut PacketKeyRing,
            key_id: u32,
            priority: u32,
            result: Result<(), PacketKeyRingError>,
        |
            #[trigger] call_ensures(
                PacketKeyRing::insert_active,
                (ring, key_id, now, priority),
                result,
            ) && ring.wf() && result is Ok ==> {
                let key = final(ring)@[key_id as u128];
                &&& !ring@.contains_key(key_id as u128)
                &&& holds_key(*final(ring), key)
                &&& key.key_id == key_id
                &&& key.state is Active
                &&& is_current(key, now)
                &&& key.send_priority == priority
                &&& key.expires_at is None
                &&& other_keys_stay(*ring, *final(ring), key_id)
            },
{
}

} // verus!
