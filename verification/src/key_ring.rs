//! Bounded lifecycle metadata of externally managed packet keys.

use vstd::prelude::*;

use crate::ids::Tick;
use crate::ordered_map::{ascending, lemma_map_of, map_of, OrderedMap};

verus! {

/// Default maximum packet keys tracked by one key ring.
pub const DEFAULT_PACKET_KEY_RING_MAX_KEYS: usize = 32;

/// Packet key lifecycle state.
#[derive(Clone, Copy, Debug, PartialEq, Eq, Structural)]
pub enum PacketKeyState {
    /// Key can be used for sending and receiving packets.
    Active,
    /// Key is accepted for receiving old packets but is not selected for send.
    Retiring,
    /// Key is explicitly rejected.
    Revoked,
}

impl PacketKeyState {
    /// Whether a key in this state may be selected for send.
    pub fn can_send(self) -> (allowed: bool)
        ensures
            allowed == (self is Active),
    {
        match self {
            Self::Active => true,
            Self::Retiring => false,
            Self::Revoked => false,
        }
    }

    /// Whether a key in this state is accepted on receive.
    pub fn can_accept(self) -> (allowed: bool)
        ensures
            allowed == (self is Active || self is Retiring),
    {
        match self {
            Self::Active => true,
            Self::Retiring => true,
            Self::Revoked => false,
        }
    }
}

/// Metadata for one externally managed packet security key.
///
/// No secret material is stored. The descriptor only lets packet helpers choose send keys and
/// reject stale receive keys deterministically.
#[derive(Clone, Copy, Debug, PartialEq, Eq, Structural)]
pub struct PacketKeyDescriptor {
    /// External key identifier carried in packet security envelopes.
    pub key_id: u32,
    /// Current lifecycle state.
    pub state: PacketKeyState,
    /// Tick at which the embedding system created/imported the key metadata.
    pub created_at: Tick,
    /// First tick at which this key may be used or accepted.
    pub activated_at: Tick,
    /// Tick at which the key began retiring, if known.
    pub retires_at: Option<Tick>,
    /// First tick at which this key must be rejected and can be removed.
    pub expires_at: Option<Tick>,
    /// Higher values win when multiple active keys are eligible for send.
    pub send_priority: u32,
}

impl PacketKeyDescriptor {
    /// Whether the key has expired at `now`.
    pub open spec fn expired(self, now: Tick) -> bool {
        self.expires_at matches Some(expires_at) && now.0 >= expires_at.0
    }

    /// Whether the key is active for sending at `now`.
    pub open spec fn sendable(self, now: Tick) -> bool {
        self.state is Active && now.0 >= self.activated_at.0 && !self.expired(now)
    }

    /// Whether the key is accepted for receiving at `now`.
    pub open spec fn acceptable(self, now: Tick) -> bool {
        (self.state is Active || self.state is Retiring) && now.0 >= self.activated_at.0
            && !self.expired(now)
    }

    /// Whether `self` is preferred to `other` for sending: by priority, then by later activation,
    /// then by larger id.
    pub open spec fn preferred_to(self, other: PacketKeyDescriptor) -> bool {
        self.send_priority > other.send_priority || (self.send_priority == other.send_priority && (
        self.activated_at.0 > other.activated_at.0 || (self.activated_at == other.activated_at
            && self.key_id > other.key_id)))
    }

    /// Creates active key metadata.
    pub fn active(key_id: u32, now: Tick, send_priority: u32) -> (descriptor: Self)
        ensures
            descriptor == (PacketKeyDescriptor {
                key_id,
                state: PacketKeyState::Active,
                created_at: now,
                activated_at: now,
                retires_at: None,
                expires_at: None,
                send_priority,
            }),
    {
        Self {
            key_id,
            state: PacketKeyState::Active,
            created_at: now,
            activated_at: now,
            retires_at: None,
            expires_at: None,
            send_priority,
        }
    }

    /// Returns a copy with an expiration tick.
    #[must_use]
    pub fn with_expiry(self, expires_at: Tick) -> (descriptor: Self)
        ensures
            descriptor == (PacketKeyDescriptor { expires_at: Some(expires_at), ..self }),
    {
        Self { expires_at: Some(expires_at), ..self }
    }

    fn is_activated_at(self, now: Tick) -> (activated: bool)
        ensures
            activated == (now.0 >= self.activated_at.0),
    {
        now.0 >= self.activated_at.0
    }

    fn is_expired_at(self, now: Tick) -> (expired: bool)
        ensures
            expired == self.expired(now),
    {
        match self.expires_at {
            Some(expires_at) => now.0 >= expires_at.0,
            None => false,
        }
    }

    /// Returns whether the key is active for sending at `now`.
    pub fn is_send_eligible(self, now: Tick) -> (eligible: bool)
        ensures
            eligible == self.sendable(now),
    {
        self.state.can_send() && self.is_activated_at(now) && !self.is_expired_at(now)
    }

    /// Returns whether the key is accepted for receiving at `now`.
    pub fn is_accept_eligible(self, now: Tick) -> (eligible: bool)
        ensures
            eligible == self.acceptable(now),
    {
        self.state.can_accept() && self.is_activated_at(now) && !self.is_expired_at(now)
    }

    fn outranks(self, other: Self) -> (better: bool)
        ensures
            better == self.preferred_to(other),
    {
        if self.send_priority != other.send_priority {
            self.send_priority > other.send_priority
        } else if self.activated_at.0 != other.activated_at.0 {
            self.activated_at.0 > other.activated_at.0
        } else {
            self.key_id > other.key_id
        }
    }
}

/// Packet key ring configuration.
#[derive(Clone, Copy, Debug, PartialEq, Eq, Structural)]
pub struct PacketKeyRingConfig {
    /// Maximum key metadata records retained in the ring.
    pub max_keys: usize,
}

impl Default for PacketKeyRingConfig {
    fn default() -> (config: Self)
        ensures
            config.max_keys == 32,
    {
        Self { max_keys: DEFAULT_PACKET_KEY_RING_MAX_KEYS }
    }
}

/// Packet key ring maintenance statistics.
#[derive(Clone, Copy, Debug, Default, PartialEq, Eq, Structural)]
pub struct PacketKeyRingStats {
    /// Key descriptors inserted.
    pub keys_inserted: usize,
    /// Key descriptors activated.
    pub keys_activated: usize,
    /// Key descriptors moved to receive-only retirement.
    pub keys_retired: usize,
    /// Key descriptors revoked.
    pub keys_revoked: usize,
    /// Expired key descriptors removed.
    pub keys_expired_removed: usize,
}

/// Packet key ring policy error.
#[derive(Clone, Copy, Debug, PartialEq, Eq, Structural)]
pub enum PacketKeyRingError {
    /// The configured key metadata capacity is full.
    CapacityFull {
        /// Configured capacity.
        capacity: usize,
    },
    /// Key id already exists.
    DuplicateKey(u32),
    /// Key id is not known.
    MissingKey(u32),
    /// No active, non-expired key can be selected for send.
    NoSendKey,
    /// Key cannot be used for sending.
    KeyNotSendable {
        /// Key id.
        key_id: u32,
        /// Current lifecycle state.
        state: PacketKeyState,
    },
    /// Key cannot be accepted for receiving.
    KeyNotAccepted {
        /// Key id.
        key_id: u32,
        /// Current lifecycle state.
        state: PacketKeyState,
    },
}

/// Bounded packet key lifecycle metadata.
#[derive(Clone, Debug)]
pub struct PacketKeyRing {
    /// Configuration.
    pub config: PacketKeyRingConfig,
    /// Descriptors by key id.
    pub keys: OrderedMap<PacketKeyDescriptor>,
    /// Statistics.
    pub stats: PacketKeyRingStats,
}

impl View for PacketKeyRing {
    type V = Map<u128, PacketKeyDescriptor>;

    open spec fn view(&self) -> Map<u128, PacketKeyDescriptor> {
        self.keys@
    }
}

impl PacketKeyRing {
    /// Every descriptor stands under its own key id, and the configured capacity is respected.
    pub open spec fn wf(self) -> bool {
        &&& self.keys.wf()
        &&& self@.dom().len() <= self.config.max_keys
        &&& forall|key: u128| #[trigger]
            self@.contains_key(key) ==> self@[key].key_id as u128 == key
    }

    /// Creates an empty key ring.
    pub fn new(config: PacketKeyRingConfig) -> (ring: Self)
        ensures
            ring.wf(),
            ring.config == config,
            ring@ == Map::<u128, PacketKeyDescriptor>::empty(),
            ring.stats == no_key_stats(),
    {
        Self {
            config,
            keys: OrderedMap::new(),
            stats: PacketKeyRingStats {
                keys_inserted: 0,
                keys_activated: 0,
                keys_retired: 0,
                keys_revoked: 0,
                keys_expired_removed: 0,
            },
        }
    }

    /// Creates an empty key ring with default limits.
    pub fn with_defaults() -> (ring: Self)
        ensures
            ring.wf(),
            ring.config.max_keys == 32,
            ring@ == Map::<u128, PacketKeyDescriptor>::empty(),
            ring.stats == no_key_stats(),
    {
        Self::new(PacketKeyRingConfig::default())
    }

    /// Returns configuration.
    pub fn config(&self) -> (config: PacketKeyRingConfig)
        ensures
            config == self.config,
    {
        self.config
    }

    /// Returns key metadata count.
    pub fn len(&self) -> (count: usize)
        requires
            self.wf(),
        ensures
            count == self@.dom().len(),
    {
        self.keys.len()
    }

    /// Returns whether the ring has no key metadata.
    pub fn is_empty(&self) -> (empty: bool)
        requires
            self.wf(),
        ensures
            empty <==> self@.dom().len() == 0,
    {
        self.keys.len() == 0
    }

    /// Returns statistics.
    pub fn stats(&self) -> (stats: PacketKeyRingStats)
        ensures
            stats == self.stats,
    {
        self.stats
    }

    /// Returns one key descriptor.
    pub fn get(&self, key_id: u32) -> (descriptor: Option<PacketKeyDescriptor>)
        requires
            self.wf(),
        ensures
            descriptor == (if self@.contains_key(key_id as u128) {
                Some(self@[key_id as u128])
            } else {
                None
            }),
    {
        match self.keys.get(key_id as u128) {
            Some(descriptor) => Some(*descriptor),
            None => None,
        }
    }

    /// Returns the key descriptors in key-id order.
    pub fn iter(&self) -> (descriptors: Vec<PacketKeyDescriptor>)
        requires
            self.wf(),
        ensures
            descriptors@ == Seq::new(
                self.keys.entries@.len(),
                |i: int| self.keys.entries@[i].1,
            ),
            descriptors@.len() == self@.dom().len(),
            forall|i: int, j: int|
                0 <= i < j < descriptors@.len() ==> descriptors@[i].key_id < descriptors@[j].key_id,
    {
        let mut descriptors: Vec<PacketKeyDescriptor> = Vec::new();
        let mut index: usize = 0;
        while index < self.keys.entries.len()
            invariant
                index <= self.keys.entries.len(),
                descriptors@ == Seq::new(index as nat, |i: int| self.keys.entries@[i].1),
            decreases self.keys.entries.len() - index,
        {
            descriptors.push(self.keys.entries[index].1);
            index = index + 1;
            assert(descriptors@ =~= Seq::new(index as nat, |i: int| self.keys.entries@[i].1));
        }
        proof {
            lemma_map_of(self.keys.entries@);
            let entries = self.keys.entries@;
            assert forall|i: int, j: int| 0 <= i < j < descriptors@.len() implies descriptors@[i].key_id
                < descriptors@[j].key_id by {
                assert(entries[i].0 < entries[j].0);
                assert(self@.contains_key(entries[i].0));
                assert(self@.contains_key(entries[j].0));
            }
        }
        descriptors
    }

    /// Inserts a descriptor if capacity and uniqueness allow it.
    pub fn insert(&mut self, descriptor: PacketKeyDescriptor) -> (result: Result<
        (),
        PacketKeyRingError,
    >)
        requires
            old(self).wf(),
        ensures
            final(self).wf(),
            final(self).config == old(self).config,
            ({
                let key = descriptor.key_id as u128;
                if old(self)@.contains_key(key) {
                    &&& result == Err::<(), PacketKeyRingError>(
                        PacketKeyRingError::DuplicateKey(descriptor.key_id),
                    )
                    &&& final(self)@ == old(self)@
                    &&& final(self).stats == old(self).stats
                } else if old(self)@.dom().len() >= old(self).config.max_keys {
                    &&& result == Err::<(), PacketKeyRingError>(
                        PacketKeyRingError::CapacityFull { capacity: old(self).config.max_keys },
                    )
                    &&& final(self)@ == old(self)@
                    &&& final(self).stats == old(self).stats
                } else {
                    &&& result is Ok
                    &&& final(self)@ == old(self)@.insert(key, descriptor)
                    &&& final(self).stats == (PacketKeyRingStats {
                        keys_inserted: old(self).stats.keys_inserted.saturating_add(1),
                        ..old(self).stats
                    })
                }
            }),
    {
        if self.keys.contains_key(descriptor.key_id as u128) {
            return Err(PacketKeyRingError::DuplicateKey(descriptor.key_id));
        }
        if self.keys.len() >= self.config.max_keys {
            return Err(PacketKeyRingError::CapacityFull { capacity: self.config.max_keys });
        }
        proof {
            lemma_map_of(self.keys.entries@);
        }
        self.keys.insert(descriptor.key_id as u128, descriptor);
        self.stats.keys_inserted = self.stats.keys_inserted.saturating_add(1);
        Ok(())
    }

    /// Inserts active key metadata.
    pub fn insert_active(&mut self, key_id: u32, now: Tick, send_priority: u32) -> (result: Result<
        (),
        PacketKeyRingError,
    >)
        requires
            old(self).wf(),
        ensures
            final(self).wf(),
            final(self).config == old(self).config,
            ({
                let key = key_id as u128;
                let full = old(self)@.dom().len() >= old(self).config.max_keys;
                &&& result is Ok <==> !old(self)@.contains_key(key) && !full
                &&& result matches Err(error) ==> {
                    &&& error == (if old(self)@.contains_key(key) {
                        PacketKeyRingError::DuplicateKey(key_id)
                    } else {
                        PacketKeyRingError::CapacityFull { capacity: old(self).config.max_keys }
                    })
                    &&& final(self)@ == old(self)@
                    &&& final(self).stats == old(self).stats
                }
                &&& result is Ok ==> {
                    &&& final(self)@ == old(self)@.insert(
                        key,
                        PacketKeyDescriptor {
                            key_id,
                            state: PacketKeyState::Active,
                            created_at: now,
                            activated_at: now,
                            retires_at: None,
                            expires_at: None,
                            send_priority,
                        },
                    )
                    &&& final(self).stats == (PacketKeyRingStats {
                        keys_inserted: old(self).stats.keys_inserted.saturating_add(1),
                        ..old(self).stats
                    })
                }
            }),
    {
        self.insert(PacketKeyDescriptor::active(key_id, now, send_priority))
    }

    /// Relates a change of one descriptor to the ring before and after it.
    pub open spec fn changed(
        before: PacketKeyRing,
        after: PacketKeyRing,
        key_id: u32,
        result: Result<(), PacketKeyRingError>,
        descriptor: PacketKeyDescriptor,
        stats: PacketKeyRingStats,
    ) -> bool {
        &&& after.wf()
        &&& after.config == before.config
        &&& if before@.contains_key(key_id as u128) {
            &&& result is Ok
            &&& after@ == before@.insert(key_id as u128, descriptor)
            &&& after.stats == stats
        } else {
            &&& result == Err::<(), PacketKeyRingError>(PacketKeyRingError::MissingKey(key_id))
            &&& after@ == before@
            &&& after.stats == before.stats
        }
    }

    fn replace(&mut self, descriptor: PacketKeyDescriptor)
        requires
            old(self).wf(),
            old(self)@.contains_key(descriptor.key_id as u128),
        ensures
            final(self).wf(),
            final(self).config == old(self).config,
            final(self).stats == old(self).stats,
            final(self)@ == old(self)@.insert(descriptor.key_id as u128, descriptor),
    {
        proof {
            lemma_map_of(self.keys.entries@);
            assert(self@.insert(descriptor.key_id as u128, descriptor).dom() =~= self@.dom());
        }
        self.keys.insert(descriptor.key_id as u128, descriptor);
    }

    /// Marks a key active and send-eligible from `activated_at`.
    pub fn activate(&mut self, key_id: u32, activated_at: Tick) -> (result: Result<
        (),
        PacketKeyRingError,
    >)
        requires
            old(self).wf(),
        ensures
            Self::changed(
                *old(self),
                *final(self),
                key_id,
                result,
                PacketKeyDescriptor {
                    state: PacketKeyState::Active,
                    activated_at,
                    retires_at: None,
                    ..old(self)@[key_id as u128]
                },
                PacketKeyRingStats {
                    keys_activated: old(self).stats.keys_activated.saturating_add(1),
                    ..old(self).stats
                },
            ),
    {
        let descriptor = match self.get(key_id) {
            Some(descriptor) => descriptor,
            None => {
                return Err(PacketKeyRingError::MissingKey(key_id));
            },
        };
        self.replace(
            PacketKeyDescriptor {
                state: PacketKeyState::Active,
                activated_at,
                retires_at: None,
                ..descriptor
            },
        );
        self.stats.keys_activated = self.stats.keys_activated.saturating_add(1);
        Ok(())
    }

    /// Marks a key receive-only for retirement.
    pub fn retire(&mut self, key_id: u32, retires_at: Tick) -> (result: Result<
        (),
        PacketKeyRingError,
    >)
        requires
            old(self).wf(),
        ensures
            Self::changed(
                *old(self),
                *final(self),
                key_id,
                result,
                PacketKeyDescriptor {
                    state: PacketKeyState::Retiring,
                    retires_at: Some(retires_at),
                    ..old(self)@[key_id as u128]
                },
                PacketKeyRingStats {
                    keys_retired: old(self).stats.keys_retired.saturating_add(1),
                    ..old(self).stats
                },
            ),
    {
        let descriptor = match self.get(key_id) {
            Some(descriptor) => descriptor,
            None => {
                return Err(PacketKeyRingError::MissingKey(key_id));
            },
        };
        self.replace(
            PacketKeyDescriptor {
                state: PacketKeyState::Retiring,
                retires_at: Some(retires_at),
                ..descriptor
            },
        );
        self.stats.keys_retired = self.stats.keys_retired.saturating_add(1);
        Ok(())
    }

    /// Marks a key rejected.
    pub fn revoke(&mut self, key_id: u32) -> (result: Result<(), PacketKeyRingError>)
        requires
            old(self).wf(),
        ensures
            Self::changed(
                *old(self),
                *final(self),
                key_id,
                result,
                PacketKeyDescriptor {
                    state: PacketKeyState::Revoked,
                    ..old(self)@[key_id as u128]
                },
                PacketKeyRingStats {
                    keys_revoked: old(self).stats.keys_revoked.saturating_add(1),
                    ..old(self).stats
                },
            ),
    {
        let descriptor = match self.get(key_id) {
            Some(descriptor) => descriptor,
            None => {
                return Err(PacketKeyRingError::MissingKey(key_id));
            },
        };
        self.replace(PacketKeyDescriptor { state: PacketKeyState::Revoked, ..descriptor });
        self.stats.keys_revoked = self.stats.keys_revoked.saturating_add(1);
        Ok(())
    }

    /// Updates the expiration tick for one key.
    pub fn set_expiry(&mut self, key_id: u32, expires_at: Option<Tick>) -> (result: Result<
        (),
        PacketKeyRingError,
    >)
        requires
            old(self).wf(),
        ensures
            Self::changed(
                *old(self),
                *final(self),
                key_id,
                result,
                PacketKeyDescriptor { expires_at, ..old(self)@[key_id as u128] },
                old(self).stats,
            ),
    {
        let descriptor = match self.get(key_id) {
            Some(descriptor) => descriptor,
            None => {
                return Err(PacketKeyRingError::MissingKey(key_id));
            },
        };
        self.replace(PacketKeyDescriptor { expires_at, ..descriptor });
        Ok(())
    }

    /// Removes expired descriptors and returns the removed count.
    pub fn remove_expired(&mut self, now: Tick) -> (removed: usize)
        requires
            old(self).wf(),
        ensures
            final(self).wf(),
            final(self).config == old(self).config,
            forall|key: u128| #[trigger]
                final(self)@.contains_key(key) <==> old(self)@.contains_key(key) && !old(
                    self,
                )@[key].expired(now),
            forall|key: u128| #[trigger]
                final(self)@.contains_key(key) ==> final(self)@[key] == old(self)@[key],
            removed == old(self)@.dom().len() - final(self)@.dom().len(),
            final(self).stats == (PacketKeyRingStats {
                keys_expired_removed: old(self).stats.keys_expired_removed.saturating_add(removed),
                ..old(self).stats
            }),
    {
        let ghost before = self.keys.entries@;
        let total: usize = self.keys.entries.len();
        let mut index: usize = 0;
        let mut removed: usize = 0;
        proof {
            lemma_map_of(before);
        }
        while index < self.keys.entries.len()
            invariant
                index <= self.keys.entries@.len(),
                removed + self.keys.entries@.len() == before.len(),
                before.len() == total,
                before == old(self).keys.entries@,
                old(self).wf(),
                self.config == old(self).config,
                self.stats == old(self).stats,
                self.keys.wf(),
                forall|key: u128| #[trigger]
                    self@.contains_key(key) ==> old(self)@.contains_key(key) && self@[key] == old(
                        self,
                    )@[key],
                forall|key: u128| #[trigger]
                    old(self)@.contains_key(key) && !self@.contains_key(key) ==> old(
                        self,
                    )@[key].expired(now),
                forall|i: int|
                    0 <= i < index ==> !(#[trigger] self.keys.entries@[i]).1.expired(now),
            decreases self.keys.entries.len() - index,
        {
            let (key, descriptor) = self.keys.entries[index];
            proof {
                lemma_map_of(self.keys.entries@);
            }
            if descriptor.is_expired_at(now) {
                let ghost current = self.keys.entries@;
                let ghost listed = self@;
                let taken = self.keys.remove(key);
                proof {
                    assert(self@ == listed.remove(key));
                    lemma_map_of(self.keys.entries@);
                    lemma_removed_entries(current, self.keys.entries@, index as int);
                }
                removed = removed + 1;
            } else {
                index = index + 1;
            }
        }
        proof {
            lemma_map_of(self.keys.entries@);
            assert forall|key: u128| #[trigger] self@.contains_key(key) implies !old(
                self,
            )@[key].expired(now) by {
                let i = choose|i: int|
                    0 <= i < self.keys.entries@.len() && (#[trigger] self.keys.entries@[i]).0 == key;
                assert(self@[self.keys.entries@[i].0] == self.keys.entries@[i].1);
            }
        }
        self.stats.keys_expired_removed = self.stats.keys_expired_removed.saturating_add(removed);
        removed
    }

    /// Selects the best active key for sending at `now`.
    pub fn select_send_key(&self, now: Tick) -> (result: Result<
        PacketKeyDescriptor,
        PacketKeyRingError,
    >)
        requires
            self.wf(),
        ensures
            selects(self@, now, result),
    {
        let mut best: Option<PacketKeyDescriptor> = None;
        let mut index: usize = 0;
        proof {
            lemma_map_of(self.keys.entries@);
        }
        while index < self.keys.entries.len()
            invariant
                index <= self.keys.entries.len(),
                self.wf(),
                forall|i: int|
                    0 <= i < self.keys.entries@.len() ==> self@.contains_key(
                        (#[trigger] self.keys.entries@[i]).0,
                    ) && self@[self.keys.entries@[i].0] == self.keys.entries@[i].1,
                best matches Some(found) ==> {
                    &&& found.sendable(now)
                    &&& self@.contains_key(found.key_id as u128)
                    &&& self@[found.key_id as u128] == found
                    &&& forall|i: int|
                        0 <= i < index && (#[trigger] self.keys.entries@[i]).1.sendable(now)
                            ==> self.keys.entries@[i].1 == found || found.preferred_to(
                            self.keys.entries@[i].1,
                        )
                },
                best is None ==> forall|i: int|
                    0 <= i < index ==> !(#[trigger] self.keys.entries@[i]).1.sendable(now),
            decreases self.keys.entries.len() - index,
        {
            let descriptor = self.keys.entries[index].1;
            assert(self@.contains_key(self.keys.entries@[index as int].0));
            if descriptor.is_send_eligible(now) {
                best = match best {
                    None => Some(descriptor),
                    Some(found) => {
                        if found.outranks(descriptor) {
                            Some(found)
                        } else {
                            Some(descriptor)
                        }
                    },
                };
            }
            index = index + 1;
        }
        proof {
            assert forall|key: u128| #[trigger] self@.contains_key(key) && self@[key].sendable(
                now,
            ) implies exists|i: int|
                0 <= i < self.keys.entries@.len() && (#[trigger] self.keys.entries@[i]).1
                    == self@[key] by {
                let i = choose|i: int|
                    0 <= i < self.keys.entries@.len() && (#[trigger] self.keys.entries@[i]).0 == key;
                assert(self.keys.entries@[i].1 == self@[key]);
            }
        }
        match best {
            Some(found) => Ok(found),
            None => Err(PacketKeyRingError::NoSendKey),
        }
    }

    /// Checks that `key_id` is accepted for receiving at `now`.
    pub fn accept_key(&self, key_id: u32, now: Tick) -> (result: Result<
        PacketKeyDescriptor,
        PacketKeyRingError,
    >)
        requires
            self.wf(),
        ensures
            result == accepted_key(self@, key_id, now),
    {
        let descriptor = match self.get(key_id) {
            Some(descriptor) => descriptor,
            None => {
                return Err(PacketKeyRingError::MissingKey(key_id));
            },
        };
        if descriptor.is_accept_eligible(now) {
            Ok(descriptor)
        } else {
            Err(PacketKeyRingError::KeyNotAccepted { key_id, state: descriptor.state })
        }
    }
}

proof fn lemma_removed_entries(
    before: Seq<(u128, PacketKeyDescriptor)>,
    after: Seq<(u128, PacketKeyDescriptor)>,
    at: int,
)
    requires
        ascending(before),
        ascending(after),
        0 <= at < before.len(),
        map_of(after) == map_of(before).remove(before[at].0),
    ensures
        after == before.remove(at),
{
    crate::ordered_map::lemma_map_of_remove(before, at);
    crate::ordered_map::lemma_entries_unique(before.remove(at), after);
}

/// The result of key selection: an eligible key that is preferred to every other eligible one.
pub open spec fn selects(
    keys: Map<u128, PacketKeyDescriptor>,
    now: Tick,
    result: Result<PacketKeyDescriptor, PacketKeyRingError>,
) -> bool {
    match result {
        Ok(best) => {
            &&& keys.contains_key(best.key_id as u128)
            &&& keys[best.key_id as u128] == best
            &&& best.sendable(now)
            &&& forall|key: u128| #[trigger]
                keys.contains_key(key) && keys[key].sendable(now) ==> keys[key] == best
                    || best.preferred_to(keys[key])
        },
        Err(error) => {
            &&& error == PacketKeyRingError::NoSendKey
            &&& forall|key: u128| #[trigger]
                keys.contains_key(key) ==> !keys[key].sendable(now)
        },
    }
}

/// The verdict on a key carried by an inbound packet.
pub open spec fn accepted_key(
    keys: Map<u128, PacketKeyDescriptor>,
    key_id: u32,
    now: Tick,
) -> Result<PacketKeyDescriptor, PacketKeyRingError> {
    if !keys.contains_key(key_id as u128) {
        Err(PacketKeyRingError::MissingKey(key_id))
    } else if keys[key_id as u128].acceptable(now) {
        Ok(keys[key_id as u128])
    } else {
        Err(PacketKeyRingError::KeyNotAccepted { key_id, state: keys[key_id as u128].state })
    }
}

/// Statistics of a fresh ring.
pub open spec fn no_key_stats() -> PacketKeyRingStats {
    PacketKeyRingStats {
        keys_inserted: 0,
        keys_activated: 0,
        keys_retired: 0,
        keys_revoked: 0,
        keys_expired_removed: 0,
    }
}

impl Default for PacketKeyRing {
    fn default() -> (ring: Self)
        ensures
            ring.wf(),
            ring.config.max_keys == 32,
            ring@ == Map::<u128, PacketKeyDescriptor>::empty(),
            ring.stats == no_key_stats(),
    {
        Self::with_defaults()
    }
}

/// A key that can be selected for send is also accepted on receive, at the same tick.
pub proof fn law_selected_key_is_accepted(
    keys: Map<u128, PacketKeyDescriptor>,
    now: Tick,
    selected: PacketKeyDescriptor,
)
    requires
        selects(keys, now, Ok(selected)),
    ensures
        accepted_key(keys, selected.key_id, now) == Ok::<PacketKeyDescriptor, PacketKeyRingError>(
            selected,
        ),
{
}

/// Key selection has one outcome only.
pub proof fn law_key_selection_is_deterministic(
    keys: Map<u128, PacketKeyDescriptor>,
    now: Tick,
    first: Result<PacketKeyDescriptor, PacketKeyRingError>,
    second: Result<PacketKeyDescriptor, PacketKeyRingError>,
)
    requires
        selects(keys, now, first),
        selects(keys, now, second),
    ensures
        first == second,
{
    if let Ok(left) = first {
        assert(keys.contains_key(left.key_id as u128) && keys[left.key_id as u128].sendable(now));
    }
    if let Ok(right) = second {
        assert(keys.contains_key(right.key_id as u128) && keys[right.key_id as u128].sendable(now));
    }
}

} // verus!
