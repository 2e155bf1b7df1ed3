//! Bounded replay window over `(key id, nonce)` pairs.

use vstd::prelude::*;

use crate::lookup_set::HASHED_BOUNDED_SET_MIN_CAPACITY;
use crate::pair_history::{retained, PairHistory};
use crate::security_envelope::DEFAULT_PACKET_SECURITY_REPLAY_HISTORY;

verus! {

/// Bounded replay window for security envelopes.
#[derive(Clone, Debug)]
pub struct PacketReplayWindow {
    /// Accepted pairs.
    pub history: PairHistory,
}

impl View for PacketReplayWindow {
    type V = Seq<(u64, u64)>;

    open spec fn view(&self) -> Seq<(u64, u64)> {
        self.history@
    }
}

impl PacketReplayWindow {
    /// The history is well-formed.
    pub open spec fn wf(self) -> bool {
        self.history.wf()
    }

    /// Maximum pairs retained; zero switches replay checks off.
    pub open spec fn max_seen(self) -> nat {
        self.history.max_pairs as nat
    }

    /// Creates an empty replay window.
    pub fn new(max_seen: usize) -> (window: Self)
        ensures
            window.wf(),
            window.max_seen() == max_seen,
            window@ == Seq::<(u64, u64)>::empty(),
            window.history.keys is Hashed <==> max_seen >= HASHED_BOUNDED_SET_MIN_CAPACITY,
    {
        Self { history: PairHistory::new(max_seen) }
    }

    /// Returns retained nonce count.
    pub fn len(&self) -> (count: usize)
        requires
            self.wf(),
        ensures
            count == self@.len(),
    {
        self.history.len()
    }

    /// Returns whether no nonces are retained.
    pub fn is_empty(&self) -> (empty: bool)
        requires
            self.wf(),
        ensures
            empty <==> self@.len() == 0,
    {
        self.history.is_empty()
    }

    /// Returns whether a `(key_id, nonce)` pair was already accepted.
    pub fn contains(&self, key_id: u32, nonce: u64) -> (found: bool)
        requires
            self.wf(),
        ensures
            found <==> self@.contains((key_id as u64, nonce)),
    {
        self.history.contains(key_id as u64, nonce)
    }

    /// Records a `(key_id, nonce)` pair if it has not been seen.
    pub fn accept(&mut self, key_id: u32, nonce: u64) -> (accepted: bool)
        requires
            old(self).wf(),
        ensures
            final(self).wf(),
            final(self).max_seen() == old(self).max_seen(),
            accepted <==> old(self).max_seen() == 0 || !old(self)@.contains((key_id as u64, nonce)),
            final(self)@ == retained(old(self).max_seen(), old(self)@, (key_id as u64, nonce)),
    {
        self.history.accept(key_id as u64, nonce)
    }
}

impl Default for PacketReplayWindow {
    fn default() -> (window: Self)
        ensures
            window.wf(),
            window.max_seen() == 4096,
            window@ == Seq::<(u64, u64)>::empty(),
    {
        Self::new(DEFAULT_PACKET_SECURITY_REPLAY_HISTORY)
    }
}

} // verus!
